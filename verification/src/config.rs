//! Server settings.
use vstd::prelude::*;
use crate::text::{decimal, parse_bounded, parse_unsigned, push_char, push_decimal, push_str, string_from};

verus! {

broadcast use vstd::string::group_string_axioms;

/// Where the server listens, and how often it saves a snapshot.
#[derive(Clone)]
pub struct Config {
    pub host: String,
    pub port: u16,
    pub snapshot_interval_secs: u64,
}

/// The host used when none is given.
pub open spec fn default_host() -> Seq<char> {
    seq!['1', '2', '7', '.', '0', '.', '0', '.', '1']
}

/// The port used when none, or no valid one, is given.
pub const DEFAULT_PORT: u16 = 7878;

/// The snapshot interval used when none, or no valid one, is given.
pub const DEFAULT_SNAPSHOT_INTERVAL_SECS: u64 = 30;

/// The value of a setting read as an unsigned number no larger than `max`,
/// or `default` when it is missing or not such a number.
pub open spec fn number_setting(raw: Option<String>, max: nat, default: nat) -> nat {
    match raw {
        Some(s) => match parse_unsigned(s@, max) {
            Some(n) => n,
            None => default,
        },
        None => default,
    }
}

impl Config {
    /// The settings given the raw values of the host, the port and the
    /// snapshot interval in seconds, each of which may be missing.
    pub fn from_settings(
        host: Option<String>,
        port: Option<String>,
        snapshot_interval: Option<String>,
    ) -> (c: Config)
        ensures
            c.host@ == (match host {
                Some(h) => h@,
                None => default_host(),
            }),
            c.port as nat == number_setting(port, u16::MAX as nat, DEFAULT_PORT as nat),
            c.snapshot_interval_secs as nat == number_setting(
                snapshot_interval,
                u64::MAX as nat,
                DEFAULT_SNAPSHOT_INTERVAL_SECS as nat,
            ),
    {
        proof {
            reveal_strlit("127.0.0.1");
            assert("127.0.0.1"@ =~= default_host());
        }
        let host = match host {
            Some(h) => h,
            None => string_from("127.0.0.1"),
        };
        let port: u16 = match &port {
            Some(p) => match parse_bounded(p.as_str(), u16::MAX as u64) {
                Some(n) => n as u16,
                None => DEFAULT_PORT,
            },
            None => DEFAULT_PORT,
        };
        let snapshot_interval_secs: u64 = match &snapshot_interval {
            Some(s) => match parse_bounded(s.as_str(), u64::MAX) {
                Some(n) => n,
                None => DEFAULT_SNAPSHOT_INTERVAL_SECS,
            },
            None => DEFAULT_SNAPSHOT_INTERVAL_SECS,
        };
        Config { host, port, snapshot_interval_secs }
    }

    /// The address to listen on: the host, a colon, and the port.
    pub fn address(&self) -> (a: String)
        ensures
            a@ == self.host@ + seq![':'] + decimal(self.port as nat),
    {
        let mut a = String::new();
        push_str(&mut a, self.host.as_str());
        push_char(&mut a, ':');
        push_decimal(&mut a, self.port as u64);
        assert(a@ =~= self.host@ + seq![':'] + decimal(self.port as nat));
        a
    }
}

} // verus!
