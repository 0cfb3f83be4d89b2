//! The in-memory key-value store: sixteen shards chosen by the hash of the
//! key, and a table of expiry deadlines for keys written with a time to
//! live.
use vstd::prelude::*;
use dashmap::DashMap;
use std::collections::hash_map::DefaultHasher;
use std::hash::Hasher;
use vstd::std_specs::hash::DefaultHasherAdditionalSpecFns;
use vstd::utf8::encode_utf8;
use std::time::Instant;

verus! {

broadcast use vstd::string::group_string_axioms;

/// Number of shards the key space is spread over.
pub const SHARD_COUNT: usize = 16;

/// Nanoseconds in a second.
pub const NANOS_PER_SEC: u128 = 1_000_000_000;

// ---------------------------------------------------------------------------
// Outside types and calls
// ---------------------------------------------------------------------------

#[verifier::external_type_specification]
#[verifier::external_body]
#[verifier::reject_recursive_types(K)]
#[verifier::reject_recursive_types(V)]
#[verifier::reject_recursive_types(S)]
pub struct ExDashMap<K, V, S>(DashMap<K, V, S>);

#[verifier::external_type_specification]
#[verifier::external_body]
pub struct ExInstant(Instant);

/// One shard: keys to values.
pub type Table = DashMap<String, String>;

/// Keys to the instant, in nanoseconds on the engine's clock, after which
/// they are expired.
pub type Deadlines = DashMap<String, u128>;

/// A key and its value.
pub type Pair = (String, String);

/// A key and its deadline.
pub type DeadlinePair = (String, u128);

/// What a shard holds.
pub uninterp spec fn table_contents(t: Table) -> Map<Seq<char>, Seq<char>>;

/// What a deadline table holds.
pub uninterp spec fn deadline_contents(t: Deadlines) -> Map<Seq<char>, u128>;

/// Trusted: `DashMap::new`, which makes an empty map.
#[verifier::external_body]
fn table_new() -> (t: Table)
    ensures
        table_contents(t) =~= Map::empty(),
{
    DashMap::new()
}

/// Trusted: `DashMap::insert`, which maps `key` to `value`, replacing any
/// value the key had.
#[verifier::external_body]
fn table_insert(t: &mut Table, key: String, value: String)
    ensures
        table_contents(*final(t)) == table_contents(*old(t)).insert(key@, value@),
{
    t.insert(key, value);
}

/// Trusted: `DashMap::get`, whose result is the value that the key has, if
/// it has one; the value is cloned out of the reference.
#[verifier::external_body]
fn table_get(t: &Table, key: &str) -> (r: Option<String>)
    ensures
        (match r {
            Some(v) => table_contents(*t).contains_key(key@) && table_contents(*t)[key@] == v@,
            None => !table_contents(*t).contains_key(key@),
        }),
{
    t.get(key).map(|v| v.value().clone())
}

/// Trusted: `DashMap::remove`, which takes the key out of the map and
/// returns its entry if it had one.
#[verifier::external_body]
fn table_remove(t: &mut Table, key: &str) -> (r: bool)
    ensures
        table_contents(*final(t)) == table_contents(*old(t)).remove(key@),
        r == table_contents(*old(t)).contains_key(key@),
{
    t.remove(key).is_some()
}

/// Trusted: `DashMap::len`, the number of entries.
#[verifier::external_body]
fn table_len(t: &Table) -> (n: usize)
    ensures
        n == table_contents(*t).len(),
{
    t.len()
}

/// Trusted: `DashMap::iter`, which visits each entry of the map once; each
/// entry is copied out as a pair.
#[verifier::external_body]
fn table_entries(t: &Table) -> (r: Vec<Pair>)
    ensures
        forall|i: int|
            #![trigger r@[i]]
            0 <= i < r@.len() ==> table_contents(*t).contains_key(r@[i].0@)
                && table_contents(*t)[r@[i].0@] == r@[i].1@,
        forall|k: Seq<char>|
            #[trigger] table_contents(*t).contains_key(k) ==> exists|i: int|
                0 <= i < r@.len() && #[trigger] r@[i].0@ == k,
        forall|i: int, j: int| 0 <= i < j < r@.len() ==> r@[i].0@ != r@[j].0@,
{
    let mut out = Vec::new();
    for entry in t.iter() {
        out.push((entry.key().clone(), entry.value().clone()));
    }
    out
}

/// Trusted: `DashMap::new`, which makes an empty map.
#[verifier::external_body]
fn deadlines_new() -> (t: Deadlines)
    ensures
        deadline_contents(t) =~= Map::empty(),
{
    DashMap::new()
}

/// Trusted: `DashMap::insert`, which maps `key` to `deadline`, replacing any
/// deadline the key had.
#[verifier::external_body]
fn deadlines_insert(t: &mut Deadlines, key: String, deadline: u128)
    ensures
        deadline_contents(*final(t)) == deadline_contents(*old(t)).insert(key@, deadline),
{
    t.insert(key, deadline);
}

/// Trusted: `DashMap::get`, whose result is the deadline that the key has,
/// if it has one.
#[verifier::external_body]
fn deadlines_get(t: &Deadlines, key: &str) -> (r: Option<u128>)
    ensures
        (match r {
            Some(d) => deadline_contents(*t).contains_key(key@) && deadline_contents(*t)[key@]
                == d,
            None => !deadline_contents(*t).contains_key(key@),
        }),
{
    t.get(key).map(|d| *d.value())
}

/// Trusted: `DashMap::remove`, which takes the key out of the map.
#[verifier::external_body]
fn deadlines_remove(t: &mut Deadlines, key: &str)
    ensures
        deadline_contents(*final(t)) == deadline_contents(*old(t)).remove(key@),
{
    t.remove(key);
}

/// Trusted: `DashMap::iter`, which visits each entry of the map once; each
/// entry is copied out as a pair.
#[verifier::external_body]
fn deadlines_entries(t: &Deadlines) -> (r: Vec<DeadlinePair>)
    ensures
        forall|i: int|
            #![trigger r@[i]]
            0 <= i < r@.len() ==> deadline_contents(*t).contains_key(r@[i].0@)
                && deadline_contents(*t)[r@[i].0@] == r@[i].1,
        forall|k: Seq<char>|
            #[trigger] deadline_contents(*t).contains_key(k) ==> exists|i: int|
                0 <= i < r@.len() && #[trigger] r@[i].0@ == k,
{
    let mut out = Vec::new();
    for entry in t.iter() {
        out.push((entry.key().clone(), *entry.value()));
    }
    out
}

/// The hash of a key: what a fresh `DefaultHasher` finishes with after it
/// was fed the key as `str` feeds itself to a hasher, its UTF-8 bytes and
/// then the byte `0xff`.
pub open spec fn key_hash(key: Seq<char>) -> u64 {
    DefaultHasher::spec_finish(seq![encode_utf8(key), seq![0xffu8]])
}

/// Hashes a key with a fresh `DefaultHasher`.
fn hash_key(key: &str) -> (h: u64)
    ensures
        h == key_hash(key@),
{
    let mut hasher = DefaultHasher::new();
    hasher.write(key.as_bytes());
    let tail: [u8; 1] = [0xffu8];
    hasher.write(&tail);
    proof {
        assert(tail@ =~= seq![0xffu8]);
        assert(hasher@ =~= seq![encode_utf8(key@), seq![0xffu8]]);
    }
    hasher.finish()
}

/// Trusted: `Instant::now`. Nothing is stated of the instant.
#[verifier::external_body]
fn clock_start() -> Instant {
    Instant::now()
}

/// Trusted: `Instant::elapsed`, converted to nanoseconds by
/// `Duration::as_nanos`. The time that has passed is not stated.
#[verifier::external_body]
fn clock_nanos(origin: &Instant) -> u128 {
    origin.elapsed().as_nanos()
}

// ---------------------------------------------------------------------------
// The abstract store
// ---------------------------------------------------------------------------

/// The shard that holds a key.
pub open spec fn shard_of(key: Seq<char>) -> int {
    (key_hash(key) % (SHARD_COUNT as u64)) as int
}

/// The deadline of a key written at `now` with a time to live of
/// `ttl_seconds`: `ttl_seconds` later, or the end of the clock if that
/// is past it.
pub open spec fn deadline_after(now: u128, ttl_seconds: u64) -> u128 {
    let d = now + ttl_seconds * NANOS_PER_SEC;
    if d > u128::MAX {
        u128::MAX
    } else {
        d as u128
    }
}

/// A sequence of key-value pairs taken as a map; where a key occurs more
/// than once, its last pair counts.
pub open spec fn pairs_map(s: Seq<(Seq<char>, Seq<char>)>) -> Map<Seq<char>, Seq<char>>
    decreases s.len(),
{
    if s.len() == 0 {
        Map::empty()
    } else {
        pairs_map(s.drop_last()).insert(s.last().0, s.last().1)
    }
}

/// No key occurs twice in `s`.
pub open spec fn distinct_keys(s: Seq<(Seq<char>, Seq<char>)>) -> bool {
    forall|i: int, j: int| 0 <= i < j < s.len() ==> s[i].0 != s[j].0
}

/// The character sequences of a sequence of string pairs.
pub open spec fn pair_views(s: Seq<Pair>) -> Seq<(Seq<char>, Seq<char>)> {
    s.map_values(|p: Pair| (p.0@, p.1@))
}

/// What an engine holds: the value of each key, and the deadline of each key
/// that was written with a time to live.
pub struct EngineView {
    pub data: Map<Seq<char>, Seq<char>>,
    pub deadlines: Map<Seq<char>, u128>,
}

impl EngineView {
    /// The store with no key.
    pub open spec fn empty() -> EngineView {
        EngineView { data: Map::empty(), deadlines: Map::empty() }
    }

    /// The key has a deadline, and `now` is past it.
    pub open spec fn is_expired(self, key: Seq<char>, now: u128) -> bool {
        self.deadlines.contains_key(key) && now > self.deadlines[key]
    }

    /// The keys that are expired at `now`.
    pub open spec fn expired_keys(self, now: u128) -> Set<Seq<char>> {
        Set::new(|k: Seq<char>| self.is_expired(k, now))
    }

    /// Writes a value; a deadline the key has stays.
    pub open spec fn set(self, key: Seq<char>, value: Seq<char>) -> EngineView {
        EngineView { data: self.data.insert(key, value), deadlines: self.deadlines }
    }

    /// Writes a value with a time to live, at `now`.
    pub open spec fn set_with_ttl(
        self,
        key: Seq<char>,
        value: Seq<char>,
        ttl_seconds: u64,
        now: u128,
    ) -> EngineView {
        EngineView {
            data: self.data.insert(key, value),
            deadlines: self.deadlines.insert(key, deadline_after(now, ttl_seconds)),
        }
    }

    /// Takes a key and its deadline out.
    pub open spec fn delete(self, key: Seq<char>) -> EngineView {
        EngineView { data: self.data.remove(key), deadlines: self.deadlines.remove(key) }
    }

    /// The value a read at `now` returns: none for an expired key.
    pub open spec fn get_result(self, key: Seq<char>, now: u128) -> Option<Seq<char>> {
        if self.is_expired(key, now) {
            None
        } else if self.data.contains_key(key) {
            Some(self.data[key])
        } else {
            None
        }
    }

    /// The store after a read at `now`: a read of an expired key deletes it.
    pub open spec fn after_get(self, key: Seq<char>, now: u128) -> EngineView {
        if self.is_expired(key, now) {
            self.delete(key)
        } else {
            self
        }
    }

    /// The store without the keys that are expired at `now`.
    pub open spec fn cleanup(self, now: u128) -> EngineView {
        EngineView {
            data: self.data.remove_keys(self.expired_keys(now)),
            deadlines: self.deadlines.remove_keys(self.expired_keys(now)),
        }
    }

    /// The store after writing the pairs of `s` one after the other.
    pub open spec fn load(self, s: Seq<(Seq<char>, Seq<char>)>) -> EngineView
        decreases s.len(),
    {
        if s.len() == 0 {
            self
        } else {
            self.load(s.drop_last()).set(s.last().0, s.last().1)
        }
    }

    /// The number of keys, as a `usize` counts it: at most `usize::MAX`.
    pub open spec fn len_saturated(self) -> usize {
        if self.data.len() > usize::MAX {
            usize::MAX
        } else {
            self.data.len() as usize
        }
    }
}

// ---------------------------------------------------------------------------
// Snapshots
// ---------------------------------------------------------------------------

/// The pairs of a store, for saving and restoring it.
pub struct SnapshotData {
    pub data: Vec<Pair>,
}

impl SnapshotData {
    /// The pairs as character sequences, in order.
    pub open spec fn entries(&self) -> Seq<(Seq<char>, Seq<char>)> {
        pair_views(self.data@)
    }
}

impl View for SnapshotData {
    type V = Map<Seq<char>, Seq<char>>;

    open spec fn view(&self) -> Map<Seq<char>, Seq<char>> {
        pairs_map(self.entries())
    }
}

// ---------------------------------------------------------------------------
// The engine
// ---------------------------------------------------------------------------

/// The store.
pub struct Engine {
    shards: Vec<Table>,
    expirations: Deadlines,
    origin: Instant,
    latest: u128,
}

impl Engine {
    /// The value of each key: the one in the key's shard.
    pub closed spec fn data(&self) -> Map<Seq<char>, Seq<char>> {
        Map::new(
            |k: Seq<char>| table_contents(self.shards@[shard_of(k)]).contains_key(k),
            |k: Seq<char>| table_contents(self.shards@[shard_of(k)])[k],
        )
    }

    /// The shards are sixteen, each holds finitely many keys, and only keys
    /// that hash to it.
    pub closed spec fn wf(&self) -> bool {
        &&& self.shards@.len() == SHARD_COUNT
        &&& deadline_contents(self.expirations).dom().finite()
        &&& forall|i: int|
            0 <= i < SHARD_COUNT ==> #[trigger] table_contents(self.shards@[i]).dom().finite()
        &&& forall|i: int, k: Seq<char>|
            0 <= i < SHARD_COUNT && #[trigger] table_contents(self.shards@[i]).contains_key(k)
                ==> shard_of(k) == i
    }
}

impl Engine {
    /// The latest time, in nanoseconds on the engine's clock, at which the
    /// engine ran an operation that reads the clock; the times it runs at
    /// never go back.
    pub closed spec fn clock(&self) -> u128 {
        self.latest
    }
}

impl View for Engine {
    type V = EngineView;

    closed spec fn view(&self) -> EngineView {
        EngineView { data: self.data(), deadlines: deadline_contents(self.expirations) }
    }
}

impl Engine {
    /// An empty store.
    pub fn new() -> (e: Engine)
        ensures
            e.wf(),
            e@ == EngineView::empty(),
            e.clock() == 0,
    {
        let mut shards: Vec<Table> = Vec::with_capacity(SHARD_COUNT);
        let mut i: usize = 0;
        while i < SHARD_COUNT
            invariant
                i <= SHARD_COUNT,
                shards@.len() == i,
                forall|j: int| 0 <= j < i ==> table_contents(#[trigger] shards@[j]) =~= Map::empty(),
            decreases SHARD_COUNT - i,
        {
            shards.push(table_new());
            i = i + 1;
        }
        let e = Engine { shards, expirations: deadlines_new(), origin: clock_start(), latest: 0 };
        assert(e.data() =~= Map::empty());
        e
    }

    /// The shard of a key.
    fn shard_for(&self, key: &str) -> (i: usize)
        ensures
            i == shard_of(key@),
            i < SHARD_COUNT,
    {
        (hash_key(key) % (SHARD_COUNT as u64)) as usize
    }

    /// The time on the engine's clock, in nanoseconds since the engine was
    /// made.
    pub fn current_time(&self) -> u128 {
        clock_nanos(&self.origin)
    }

    /// Reads the engine's clock and takes the reading as the time of an
    /// operation; a reading earlier than the latest time used is raised to
    /// it, so the times of operations never go back.
    pub fn advance_clock(&mut self) -> (now: u128)
        requires
            old(self).wf(),
        ensures
            final(self).wf(),
            final(self)@ == old(self)@,
            now >= old(self).clock(),
            final(self).clock() == now,
    {
        let reading = clock_nanos(&self.origin);
        let now = if reading > self.latest {
            reading
        } else {
            self.latest
        };
        self.latest = now;
        assert(self.data() =~= old(self).data());
        now
    }

    /// Writes a value for a key. A deadline the key has stays.
    pub fn set(&mut self, key: String, value: String)
        requires
            old(self).wf(),
        ensures
            final(self).wf(),
            final(self).clock() == old(self).clock(),
            final(self)@ == old(self)@.set(key@, value@),
    {
        let s = self.shard_for(key.as_str());
        let ghost k = key@;
        let ghost v = value@;
        table_insert(&mut self.shards[s], key, value);
        assert(self.data() =~= old(self).data().insert(k, v));
    }

    /// Takes a key and its deadline out; tells whether the key had a value.
    pub fn delete(&mut self, key: &str) -> (deleted: bool)
        requires
            old(self).wf(),
        ensures
            final(self).wf(),
            final(self).clock() == old(self).clock(),
            final(self)@ == old(self)@.delete(key@),
            deleted == old(self)@.data.contains_key(key@),
    {
        deadlines_remove(&mut self.expirations, key);
        let s = self.shard_for(key);
        let r = table_remove(&mut self.shards[s], key);
        assert(self.data() =~= old(self).data().remove(key@));
        r
    }

    /// The key has a deadline, and `now` is past it.
    fn is_expired(&self, key: &str, now: u128) -> (b: bool)
        ensures
            b == self@.is_expired(key@, now),
    {
        match deadlines_get(&self.expirations, key) {
            Some(deadline) => now > deadline,
            None => false,
        }
    }

    /// Reads the value of a key at the time `now`. A key whose deadline is
    /// past is deleted and has no value.
    pub fn get_at(&mut self, key: &str, now: u128) -> (r: Option<String>)
        requires
            old(self).wf(),
        ensures
            final(self).wf(),
            final(self).clock() == old(self).clock(),
            final(self)@ == old(self)@.after_get(key@, now),
            (match r {
                Some(v) => old(self)@.get_result(key@, now) == Some(v@),
                None => old(self)@.get_result(key@, now) is None,
            }),
    {
        if self.is_expired(key, now) {
            self.delete(key);
            return None;
        }
        let s = self.shard_for(key);
        table_get(&self.shards[s], key)
    }

    /// Reads the value of a key now. A key whose deadline is past is deleted
    /// and has no value.
    pub fn get(&mut self, key: &str) -> (r: Option<String>)
        requires
            old(self).wf(),
        ensures
            final(self).wf(),
            exists|now: u128|
                {
                    &&& now >= old(self).clock()
                    &&& final(self).clock() == now
                    &&& final(self)@ == old(self)@.after_get(key@, now)
                    &&& (match r {
                        Some(v) => old(self)@.get_result(key@, now) == Some(v@),
                        None => old(self)@.get_result(key@, now) is None,
                    })
                },
    {
        let now = self.advance_clock();
        self.get_at(key, now)
    }

    /// Writes a value for a key with a time to live of `ttl_seconds` from
    /// the time `now`.
    pub fn set_with_ttl_at(&mut self, key: String, value: String, ttl_seconds: u64, now: u128)
        requires
            old(self).wf(),
        ensures
            final(self).wf(),
            final(self).clock() == old(self).clock(),
            final(self)@ == old(self)@.set_with_ttl(key@, value@, ttl_seconds, now),
    {
        let span: u128 = (ttl_seconds as u128) * NANOS_PER_SEC;
        let deadline: u128 = if now > u128::MAX - span {
            u128::MAX
        } else {
            now + span
        };
        let k2 = key.clone();
        self.set(key, value);
        deadlines_insert(&mut self.expirations, k2, deadline);
    }

    /// Writes a value for a key with a time to live of `ttl_seconds` from
    /// now.
    pub fn set_with_ttl(&mut self, key: String, value: String, ttl_seconds: u64)
        requires
            old(self).wf(),
        ensures
            final(self).wf(),
            exists|now: u128|
                {
                    &&& now >= old(self).clock()
                    &&& final(self).clock() == now
                    &&& final(self)@ == old(self)@.set_with_ttl(key@, value@, ttl_seconds, now)
                },
    {
        let now = self.advance_clock();
        self.set_with_ttl_at(key, value, ttl_seconds, now);
    }

    /// Writes a value while the log is replayed.
    pub fn recover_set(&mut self, key: String, value: String)
        requires
            old(self).wf(),
        ensures
            final(self).wf(),
            final(self).clock() == old(self).clock(),
            final(self)@ == old(self)@.set(key@, value@),
    {
        self.set(key, value);
    }

    /// Deletes a key while the log is replayed.
    pub fn recover_delete(&mut self, key: &str)
        requires
            old(self).wf(),
        ensures
            final(self).wf(),
            final(self).clock() == old(self).clock(),
            final(self)@ == old(self)@.delete(key@),
    {
        self.delete(key);
    }
}

/// The keys of the first `n` strings of `keys`.
pub open spec fn key_set(keys: Seq<String>, n: int) -> Set<Seq<char>> {
    Set::new(|k: Seq<char>| exists|i: int| 0 <= i < n && #[trigger] keys[i]@ == k)
}

proof fn lemma_pairs_map_distinct(s: Seq<(Seq<char>, Seq<char>)>)
    requires
        distinct_keys(s),
    ensures
        forall|k: Seq<char>|
            #[trigger] pairs_map(s).contains_key(k) <==> exists|i: int|
                0 <= i < s.len() && #[trigger] s[i].0 == k,
        forall|i: int| 0 <= i < s.len() ==> #[trigger] pairs_map(s)[s[i].0] == s[i].1,
    decreases s.len(),
{
    if s.len() > 0 {
        let t = s.drop_last();
        assert(distinct_keys(t));
        lemma_pairs_map_distinct(t);
        assert forall|k: Seq<char>| #[trigger] pairs_map(s).contains_key(k) == exists|i: int|
            0 <= i < s.len() && #[trigger] s[i].0 == k by {
            if k != s.last().0 {
                if pairs_map(t).contains_key(k) {
                    let i = choose|i: int| 0 <= i < t.len() && #[trigger] t[i].0 == k;
                    assert(s[i] == t[i]);
                }
                if exists|i: int| 0 <= i < s.len() && #[trigger] s[i].0 == k {
                    let i = choose|i: int| 0 <= i < s.len() && #[trigger] s[i].0 == k;
                    assert(t[i] == s[i]);
                    assert(pairs_map(t).contains_key(k));
                }
            } else {
                assert(s[s.len() - 1].0 == k);
            }
        }
        assert forall|i: int| 0 <= i < s.len() implies #[trigger] pairs_map(s)[s[i].0] == s[i].1 by {
            if i < s.len() - 1 {
                assert(t[i] == s[i]);
                assert(s[i].0 != s.last().0);
                assert(pairs_map(t)[t[i].0] == t[i].1);
            }
        }
    }
}

/// The keys of `dom` whose shard is below `n`.
pub open spec fn keys_below(dom: Set<Seq<char>>, n: int) -> Set<Seq<char>> {
    dom.filter(|k: Seq<char>| shard_of(k) < n)
}

proof fn lemma_load_union(v: EngineView, s: Seq<(Seq<char>, Seq<char>)>)
    ensures
        v.load(s).data == v.data.union_prefer_right(pairs_map(s)),
        v.load(s).deadlines == v.deadlines,
    decreases s.len(),
{
    if s.len() == 0 {
        assert(v.data.union_prefer_right(pairs_map(s)) =~= v.data);
    } else {
        lemma_load_union(v, s.drop_last());
        assert(v.load(s).data =~= v.data.union_prefer_right(pairs_map(s)));
    }
}

impl Engine {
    proof fn lemma_keys_below_finite(&self, n: int)
        requires
            self.wf(),
            0 <= n <= SHARD_COUNT,
        ensures
            keys_below(self.data().dom(), n).finite(),
        decreases n,
    {
        let dom = self.data().dom();
        if n == 0 {
            assert(keys_below(dom, 0) =~= Set::empty());
        } else {
            self.lemma_keys_below_finite(n - 1);
            let part = table_contents(self.shards@[n - 1]).dom();
            assert forall|k: Seq<char>| part.contains(k) implies shard_of(k) == n - 1 && dom.contains(k) by {
                assert(table_contents(self.shards@[n - 1]).contains_key(k));
            }
            assert(keys_below(dom, n) =~= keys_below(dom, n - 1) + part);
        }
    }

    /// A well-formed store holds finitely many keys and finitely many
    /// deadlines.
    pub proof fn lemma_finite(&self)
        requires
            self.wf(),
        ensures
            self@.data.dom().finite(),
            self@.deadlines.dom().finite(),
    {
        self.lemma_keys_below_finite(SHARD_COUNT as int);
        assert(keys_below(self.data().dom(), SHARD_COUNT as int) =~= self.data().dom());
    }
}

impl Engine {
    /// Takes out every key whose deadline is before the time `now`.
    pub fn cleanup_expired_at(&mut self, now: u128)
        requires
            old(self).wf(),
        ensures
            final(self).wf(),
            final(self).clock() == old(self).clock(),
            final(self)@ == old(self)@.cleanup(now),
    {
        let entries = deadlines_entries(&self.expirations);
        let ghost dl = deadline_contents(self.expirations);
        let ghost expired = old(self)@.expired_keys(now);
        let mut keys: Vec<String> = Vec::new();
        let mut i: usize = 0;
        while i < entries.len()
            invariant
                self == old(self),
                dl == self@.deadlines,
                expired == self@.expired_keys(now),
                i <= entries@.len(),
                forall|j: int|
                    #![trigger entries@[j]]
                    0 <= j < entries@.len() ==> dl.contains_key(entries@[j].0@)
                        && dl[entries@[j].0@] == entries@[j].1,
                forall|m: int| 0 <= m < keys@.len() ==> expired.contains(#[trigger] keys@[m]@),
                forall|j: int|
                    0 <= j < i && now > entries@[j].1 ==> key_set(keys@, keys@.len() as int).contains(
                        #[trigger] entries@[j].0@,
                    ),
            decreases entries@.len() - i,
        {
            if now > entries[i].1 {
                let ghost before = keys@;
                assert(dl.contains_key(entries@[i as int].0@));
                keys.push(entries[i].0.clone());
                assert forall|m: int| 0 <= m < keys@.len() implies expired.contains(#[trigger] keys@[m]@) by {
                    if m < before.len() {
                        assert(keys@[m] == before[m]);
                    }
                }
                assert forall|j: int|
                    0 <= j < i + 1 && now > entries@[j].1 implies key_set(keys@, keys@.len() as int).contains(
                    #[trigger] entries@[j].0@,
                ) by {
                    if j < i {
                        let m = choose|m: int| 0 <= m < before.len() && #[trigger] before[m]@ == entries@[j].0@;
                        assert(keys@[m] == before[m]);
                    } else {
                        assert(keys@[keys@.len() - 1]@ == entries@[j].0@);
                    }
                }
            }
            i = i + 1;
        }
        assert(key_set(keys@, keys@.len() as int) =~= expired) by {
            assert forall|k: Seq<char>| expired.contains(k) implies key_set(keys@, keys@.len() as int).contains(k) by {
                assert(dl.contains_key(k));
                let j = choose|j: int| 0 <= j < entries@.len() && #[trigger] entries@[j].0@ == k;
            }
        }
        let mut m: usize = 0;
        while m < keys.len()
            invariant
                self.wf(),
                self.clock() == old(self).clock(),
                m <= keys@.len(),
                key_set(keys@, keys@.len() as int) == expired,
                self@.data == old(self)@.data.remove_keys(key_set(keys@, m as int)),
                self@.deadlines == old(self)@.deadlines.remove_keys(key_set(keys@, m as int)),
            decreases keys@.len() - m,
        {
            self.delete(keys[m].as_str());
            assert(key_set(keys@, m + 1) =~= key_set(keys@, m as int).insert(keys@[m as int]@));
            assert(self@.data =~= old(self)@.data.remove_keys(key_set(keys@, m + 1)));
            assert(self@.deadlines =~= old(self)@.deadlines.remove_keys(key_set(keys@, m + 1)));
            m = m + 1;
        }
    }

    /// Takes out every key whose deadline is past.
    pub fn cleanup_expired(&mut self)
        requires
            old(self).wf(),
        ensures
            final(self).wf(),
            exists|now: u128|
                {
                    &&& now >= old(self).clock()
                    &&& final(self).clock() == now
                    &&& final(self)@ == old(self)@.cleanup(now)
                },
    {
        let now = self.advance_clock();
        self.cleanup_expired_at(now);
    }

    /// The number of keys, counted up to `usize::MAX`.
    pub fn len(&self) -> (n: usize)
        requires
            self.wf(),
        ensures
            n == self@.len_saturated(),
    {
        let ghost dom = self.data().dom();
        assert(keys_below(dom, 0) =~= Set::empty());
        let mut total: usize = 0;
        let mut i: usize = 0;
        while i < SHARD_COUNT
            invariant
                self.wf(),
                dom == self.data().dom(),
                i <= SHARD_COUNT,
                keys_below(dom, i as int).finite(),
                total == (if keys_below(dom, i as int).len() > usize::MAX {
                    usize::MAX
                } else {
                    keys_below(dom, i as int).len() as usize
                }),
            decreases SHARD_COUNT - i,
        {
            let n = table_len(&self.shards[i]);
            let ghost below = keys_below(dom, i as int);
            let ghost part = table_contents(self.shards@[i as int]).dom();
            proof {
                assert forall|k: Seq<char>| part.contains(k) implies shard_of(k) == i && dom.contains(k) by {
                    assert(table_contents(self.shards@[i as int]).contains_key(k));
                }
                assert(keys_below(dom, i + 1) =~= below + part);
                assert(below.disjoint(part));
                vstd::set_lib::lemma_set_disjoint_lens(below, part);
            }
            total = total.saturating_add(n);
            i = i + 1;
        }
        assert(keys_below(dom, SHARD_COUNT as int) =~= dom);
        total
    }

    /// The pairs of the store, each key once.
    pub fn snapshot(&self) -> (snap: SnapshotData)
        requires
            self.wf(),
        ensures
            distinct_keys(snap.entries()),
            snap@ == self@.data,
    {
        let mut out: Vec<Pair> = Vec::new();
        let mut i: usize = 0;
        while i < SHARD_COUNT
            invariant
                self.wf(),
                i <= SHARD_COUNT,
                distinct_keys(pair_views(out@)),
                forall|a: int|
                    #![trigger out@[a]]
                    0 <= a < out@.len() ==> self.data().contains_key(out@[a].0@)
                        && self.data()[out@[a].0@] == out@[a].1@ && shard_of(out@[a].0@) < i,
                forall|k: Seq<char>|
                    #[trigger] self.data().contains_key(k) && shard_of(k) < i ==> exists|a: int|
                        0 <= a < out@.len() && #[trigger] out@[a].0@ == k,
            decreases SHARD_COUNT - i,
        {
            let entries = table_entries(&self.shards[i]);
            let ghost start = out@;
            let mut j: usize = 0;
            while j < entries.len()
                invariant
                    self.wf(),
                    i < SHARD_COUNT,
                    j <= entries@.len(),
                    out@ == start + entries@.take(j as int),
                    distinct_keys(pair_views(out@)),
                    forall|a: int|
                        #![trigger start[a]]
                        0 <= a < start.len() ==> self.data().contains_key(start[a].0@)
                            && self.data()[start[a].0@] == start[a].1@ && shard_of(start[a].0@) < i,
                    forall|k: Seq<char>|
                        #[trigger] self.data().contains_key(k) && shard_of(k) < i ==> exists|a: int|
                            0 <= a < start.len() && #[trigger] start[a].0@ == k,
                    forall|b: int|
                        #![trigger entries@[b]]
                        0 <= b < entries@.len() ==> table_contents(self.shards@[i as int]).contains_key(entries@[b].0@)
                            && table_contents(self.shards@[i as int])[entries@[b].0@] == entries@[b].1@,
                    forall|k: Seq<char>|
                        #[trigger] table_contents(self.shards@[i as int]).contains_key(k) ==> exists|b: int|
                            0 <= b < entries@.len() && #[trigger] entries@[b].0@ == k,
                    forall|b: int, c: int| 0 <= b < c < entries@.len() ==> entries@[b].0@ != entries@[c].0@,
                decreases entries@.len() - j,
            {
                let ghost before = out@;
                let e: Pair = (entries[j].0.clone(), entries[j].1.clone());
                out.push(e);
                proof {
                    assert(entries@.take(j + 1) =~= entries@.take(j as int).push(entries@[j as int]));
                    let key = entries@[j as int].0@;
                    assert(table_contents(self.shards@[i as int]).contains_key(key));
                    assert(shard_of(key) == i);
                    assert forall|a: int, c: int| 0 <= a < c < out@.len() implies pair_views(out@)[a].0
                        != pair_views(out@)[c].0 by {
                        if c == out@.len() - 1 {
                            if a < start.len() {
                                assert(self.data().contains_key(start[a].0@));
                                assert(shard_of(start[a].0@) < i);
                            } else {
                                assert(out@[a] == entries@[a - start.len()]);
                            }
                        } else {
                            assert(pair_views(before)[a].0 != pair_views(before)[c].0);
                        }
                    }
                }
                j = j + 1;
            }
            proof {
                assert(entries@.take(entries@.len() as int) =~= entries@);
                assert forall|a: int|
                    #![trigger out@[a]]
                    0 <= a < out@.len() implies self.data().contains_key(out@[a].0@)
                        && self.data()[out@[a].0@] == out@[a].1@ && shard_of(out@[a].0@) < i + 1 by {
                    if a >= start.len() {
                        let b = a - start.len();
                        assert(out@[a] == entries@[b]);
                        assert(table_contents(self.shards@[i as int]).contains_key(entries@[b].0@));
                        assert(shard_of(entries@[b].0@) == i);
                    } else {
                        assert(out@[a] == start[a]);
                        assert(self.data().contains_key(start[a].0@));
                    }
                }
                assert forall|k: Seq<char>|
                    #[trigger] self.data().contains_key(k) && shard_of(k) < i + 1 implies exists|a: int|
                        0 <= a < out@.len() && #[trigger] out@[a].0@ == k by {
                    if shard_of(k) < i {
                        let a = choose|a: int| 0 <= a < start.len() && #[trigger] start[a].0@ == k;
                        assert(out@[a] == start[a]);
                    } else {
                        assert(table_contents(self.shards@[i as int]).contains_key(k));
                        let b = choose|b: int| 0 <= b < entries@.len() && #[trigger] entries@[b].0@ == k;
                        assert(out@[start.len() + b] == entries@[b]);
                    }
                }
            }
            i = i + 1;
        }
        let snap = SnapshotData { data: out };
        proof {
            let s = snap.entries();
            lemma_pairs_map_distinct(s);
            assert forall|k: Seq<char>| #[trigger] snap@.contains_key(k) == self.data().contains_key(k) by {
                if self.data().contains_key(k) {
                    let a = choose|a: int| 0 <= a < out@.len() && #[trigger] out@[a].0@ == k;
                    assert(s[a].0 == k);
                }
                if snap@.contains_key(k) {
                    let a = choose|a: int| 0 <= a < s.len() && #[trigger] s[a].0 == k;
                    assert(out@[a].0@ == k);
                }
            }
            assert forall|k: Seq<char>| #[trigger] snap@.contains_key(k) implies snap@[k] == self.data()[k] by {
                let a = choose|a: int| 0 <= a < s.len() && #[trigger] s[a].0 == k;
                assert(out@[a].0@ == k);
            }
            assert(snap@ =~= self.data());
        }
        snap
    }

    /// Writes the pairs of a snapshot one after the other.
    pub fn load_snapshot(&mut self, snapshot: SnapshotData)
        requires
            old(self).wf(),
        ensures
            final(self).wf(),
            final(self).clock() == old(self).clock(),
            final(self)@ == old(self)@.load(snapshot.entries()),
            final(self)@.data == old(self)@.data.union_prefer_right(snapshot@),
    {
        let mut i: usize = 0;
        while i < snapshot.data.len()
            invariant
                self.wf(),
                self.clock() == old(self).clock(),
                i <= snapshot.data@.len(),
                self@ == old(self)@.load(snapshot.entries().take(i as int)),
            decreases snapshot.data@.len() - i,
        {
            let key = snapshot.data[i].0.clone();
            let value = snapshot.data[i].1.clone();
            self.set(key, value);
            assert(snapshot.entries().take(i + 1).drop_last() =~= snapshot.entries().take(i as int));
            i = i + 1;
        }
        assert(snapshot.entries().take(i as int) =~= snapshot.entries());
        proof {
            lemma_load_union(old(self)@, snapshot.entries());
        }
    }
}

// ---------------------------------------------------------------------------
// Laws
// ---------------------------------------------------------------------------

/// A read returns the value last written for the key, unless the key has a
/// deadline that `now` is past.
pub proof fn law_get_after_set(v: EngineView, key: Seq<char>, value: Seq<char>, now: u128)
    requires
        !v.is_expired(key, now),
    ensures
        v.set(key, value).get_result(key, now) == Some(value),
{
}

/// Writing a key leaves what a read of any other key returns unchanged.
pub proof fn law_set_keeps_other_keys(
    v: EngineView,
    key: Seq<char>,
    value: Seq<char>,
    other: Seq<char>,
    now: u128,
)
    requires
        other != key,
    ensures
        v.set(key, value).get_result(other, now) == v.get_result(other, now),
        v.set(key, value).after_get(other, now) == v.after_get(other, now).set(key, value),
{
    assert(v.set(key, value).delete(other).data =~= v.delete(other).set(key, value).data);
}

/// A deleted key has no value, and deleting it again reports that it had
/// none.
pub proof fn law_get_after_delete(v: EngineView, key: Seq<char>, now: u128)
    ensures
        v.delete(key).get_result(key, now) is None,
        !v.delete(key).data.contains_key(key),
        v.delete(key).delete(key) == v.delete(key),
{
    assert(v.delete(key).delete(key).data =~= v.delete(key).data);
    assert(v.delete(key).delete(key).deadlines =~= v.delete(key).deadlines);
}

/// A value written with a time to live is read back until its deadline,
/// and is gone once a read comes after it.
pub proof fn law_ttl(
    v: EngineView,
    key: Seq<char>,
    value: Seq<char>,
    ttl_seconds: u64,
    written: u128,
    now: u128,
)
    ensures
        now <= deadline_after(written, ttl_seconds) ==> v.set_with_ttl(
            key,
            value,
            ttl_seconds,
            written,
        ).get_result(key, now) == Some(value),
        now > deadline_after(written, ttl_seconds) ==> {
            let w = v.set_with_ttl(key, value, ttl_seconds, written);
            &&& w.get_result(key, now) is None
            &&& !w.after_get(key, now).data.contains_key(key)
            &&& !w.after_get(key, now).deadlines.contains_key(key)
        },
        written + ttl_seconds * NANOS_PER_SEC <= u128::MAX ==> deadline_after(written, ttl_seconds)
            == written + ttl_seconds * NANOS_PER_SEC,
{
}

/// A read of a key that is not expired changes nothing.
pub proof fn law_get_is_pure_while_live(v: EngineView, key: Seq<char>, now: u128)
    requires
        !v.is_expired(key, now),
    ensures
        v.after_get(key, now) == v,
{
}

/// After a clean-up at `now` no key is expired at `now`, and every key that
/// was not expired keeps its value and deadline.
pub proof fn law_cleanup(v: EngineView, now: u128, key: Seq<char>)
    ensures
        !v.cleanup(now).is_expired(key, now),
        !v.is_expired(key, now) ==> (v.cleanup(now).data.contains_key(key) == v.data.contains_key(
            key,
        ) && (v.data.contains_key(key) ==> v.cleanup(now).data[key] == v.data[key])
            && v.cleanup(now).deadlines.contains_key(key) == v.deadlines.contains_key(key)),
        v.is_expired(key, now) ==> !v.cleanup(now).data.contains_key(key),
{
}

/// Restoring a snapshot into an empty store gives back the store the
/// snapshot was taken of.
pub proof fn law_snapshot_restores(v: EngineView, s: Seq<(Seq<char>, Seq<char>)>)
    requires
        pairs_map(s) == v.data,
    ensures
        EngineView::empty().load(s).data == v.data,
        EngineView::empty().load(s).deadlines == Map::<Seq<char>, u128>::empty(),
{
    lemma_load_union(EngineView::empty(), s);
    assert(Map::<Seq<char>, Seq<char>>::empty().union_prefer_right(pairs_map(s)) =~= pairs_map(s));
}

/// Writing a key that had no value adds one to the number of keys. The
/// store of an engine is finite: see `Engine::lemma_finite`.
pub proof fn law_set_new_key_grows(v: EngineView, key: Seq<char>, value: Seq<char>)
    requires
        v.data.dom().finite(),
        !v.data.contains_key(key),
    ensures
        v.set(key, value).data.len() == v.data.len() + 1,
        v.delete(key).data.len() == v.data.len(),
{
    assert(v.delete(key).data =~= v.data);
}

proof fn lemma_pairs_map_len(s: Seq<(Seq<char>, Seq<char>)>)
    requires
        distinct_keys(s),
    ensures
        pairs_map(s).dom().finite(),
        pairs_map(s).dom().len() == s.len(),
    decreases s.len(),
{
    if s.len() > 0 {
        let t = s.drop_last();
        assert(distinct_keys(t));
        lemma_pairs_map_len(t);
        lemma_pairs_map_distinct(t);
        if pairs_map(t).contains_key(s.last().0) {
            let i = choose|i: int| 0 <= i < t.len() && #[trigger] t[i].0 == s.last().0;
            assert(s[i] == t[i]);
            assert(false);
        }
    }
}

/// Restoring a snapshot whose keys are distinct into an empty store gives a
/// store with as many keys as the snapshot has pairs, no deadlines, and in
/// which a read of any key returns the snapshot's value for it and changes
/// nothing.
pub proof fn law_restore_reads(s: Seq<(Seq<char>, Seq<char>)>, key: Seq<char>, now: u128)
    requires
        distinct_keys(s),
    ensures
        EngineView::empty().load(s).data.dom().finite(),
        EngineView::empty().load(s).data.len() == s.len(),
        EngineView::empty().load(s).get_result(key, now) == (if pairs_map(s).contains_key(key) {
            Some(pairs_map(s)[key])
        } else {
            None::<Seq<char>>
        }),
        EngineView::empty().load(s).after_get(key, now) == EngineView::empty().load(s),
{
    lemma_load_union(EngineView::empty(), s);
    assert(Map::<Seq<char>, Seq<char>>::empty().union_prefer_right(pairs_map(s)) =~= pairs_map(s));
    lemma_pairs_map_len(s);
}

/// The engine's clock never goes back (`Engine::clock`), so a read made
/// after a write with a time to live reads at a time no earlier than the
/// write. Such a read returns the value exactly while its time is not past
/// the write's time plus the time to live; once it is past, the read returns
/// nothing and takes the key and its deadline out.
pub proof fn law_ttl_later_read(
    v: EngineView,
    key: Seq<char>,
    value: Seq<char>,
    ttl_seconds: u64,
    written: u128,
    read: u128,
)
    requires
        read >= written,
    ensures
        read <= written + ttl_seconds * NANOS_PER_SEC ==> v.set_with_ttl(
            key,
            value,
            ttl_seconds,
            written,
        ).get_result(key, read) == Some(value),
        read > written + ttl_seconds * NANOS_PER_SEC ==> {
            let w = v.set_with_ttl(key, value, ttl_seconds, written);
            &&& w.get_result(key, read) is None
            &&& !w.after_get(key, read).data.contains_key(key)
            &&& !w.after_get(key, read).deadlines.contains_key(key)
        },
        ttl_seconds == 0 ==> v.set_with_ttl(key, value, ttl_seconds, written).get_result(key, written)
            == Some(value),
{
}

/// A sweep made after a write with a time to live, at a time past the
/// write's time plus the time to live, takes the key out; a sweep at a time
/// not past it keeps the key and its value.
pub proof fn law_ttl_later_sweep(
    v: EngineView,
    key: Seq<char>,
    value: Seq<char>,
    ttl_seconds: u64,
    written: u128,
    swept: u128,
)
    requires
        swept >= written,
    ensures
        swept > written + ttl_seconds * NANOS_PER_SEC ==> !v.set_with_ttl(
            key,
            value,
            ttl_seconds,
            written,
        ).cleanup(swept).data.contains_key(key),
        swept <= written + ttl_seconds * NANOS_PER_SEC ==> {
            let w = v.set_with_ttl(key, value, ttl_seconds, written);
            &&& w.cleanup(swept).data.contains_key(key)
            &&& w.cleanup(swept).data[key] == value
        },
{
    let w = v.set_with_ttl(key, value, ttl_seconds, written);
    assert(w.is_expired(key, swept) == (swept > written + ttl_seconds * NANOS_PER_SEC));
}

} // verus!
