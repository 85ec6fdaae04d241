//! Named counters kept in a sharded map: `inc` raises the counter of a key by
//! one, `render` lists what every counter stands at.

use crate::render::{shows, texts};
use dashmap::DashMap;
use vstd::prelude::*;
use vstd::string::*;

verus! {

/// The sharded map of the `dashmap` crate. Its contents are known only
/// through `counters`.
#[verifier::external_type_specification]
#[verifier::external_body]
#[verifier::reject_recursive_types(K)]
#[verifier::reject_recursive_types(V)]
#[verifier::reject_recursive_types(S)]
pub struct ExDashMap<K, V, S>(DashMap<K, V, S>);

/// What a counter map holds: the keys that have an entry, each with its
/// value.
pub uninterp spec fn counters(map: DashMap<String, i64>) -> Map<Seq<char>, i64>;

/// Why a counter was not raised.
#[derive(Debug, Clone, Copy, PartialEq, Eq, Structural)]
pub enum MetricsError {
    /// The counter stands at the largest number that it can hold.
    Overflow,
}

/// A set of named counters.
pub struct CmapMetrics {
    data: DashMap<String, i64>,
}

/// What the counter of `key` stands at in `m`: zero where it has no entry.
pub open spec fn count(m: Map<Seq<char>, i64>, key: Seq<char>) -> int {
    if m.contains_key(key) {
        m[key] as int
    } else {
        0
    }
}

/// `m` after the counter of `key` has been raised by one.
pub open spec fn bumped(m: Map<Seq<char>, i64>, key: Seq<char>) -> Map<Seq<char>, i64> {
    m.insert(key, (count(m, key) + 1) as i64)
}

/// `m` after the counter of `key` has been raised by one `n` times.
pub open spec fn bumped_times(m: Map<Seq<char>, i64>, key: Seq<char>, n: nat) -> Map<
    Seq<char>,
    i64,
>
    decreases n,
{
    if n == 0 {
        m
    } else {
        bumped(bumped_times(m, key, (n - 1) as nat), key)
    }
}

/// `entries` lists `m`: every entry of `m` once, and nothing else.
pub open spec fn is_listing(m: Map<Seq<char>, i64>, entries: Seq<(String, i64)>) -> bool {
    &&& forall|i: int|
        0 <= i < entries.len() ==> m.contains_key((#[trigger] entries[i]).0@) && m[entries[i].0@]
            == entries[i].1
    &&& forall|i: int, j: int|
        0 <= i < j < entries.len() ==> (#[trigger] entries[i]).0@ != (#[trigger] entries[j]).0@
    &&& forall|key: Seq<char>| #[trigger]
        m.contains_key(key) ==> exists|i: int|
            0 <= i < entries.len() && (#[trigger] entries[i]).0@ == key
}

/// One line of a listing: the key, a colon, a space, the value and a line
/// feed.
pub open spec fn line(key: Seq<char>, value: Seq<char>) -> Seq<char> {
    key + seq![':', ' '] + value + seq!['\n']
}

/// The first `n` lines of a listing of `keys` with `values`.
pub open spec fn lines(keys: Seq<Seq<char>>, values: Seq<Seq<char>>, n: nat) -> Seq<char>
    decreases n,
{
    if n == 0 {
        Seq::empty()
    } else {
        lines(keys, values, (n - 1) as nat) + line(keys[n - 1], values[n - 1])
    }
}

/// The keys of `entries`, as texts.
pub open spec fn keys_of(entries: Seq<(String, i64)>) -> Seq<Seq<char>> {
    entries.map_values(|e: (String, i64)| e.0@)
}

/// `text` is a listing of `m`, one line for each counter in some order, each
/// value as `Display` shows it.
pub open spec fn is_snapshot(m: Map<Seq<char>, i64>, text: Seq<char>) -> bool {
    exists|entries: Seq<(String, i64)>, values: Seq<String>|
        {
            &&& is_listing(m, entries)
            &&& values.len() == entries.len()
            &&& forall|k: int| 0 <= k < entries.len() ==> shows(entries[k].1, #[trigger] values[k])
            &&& text == lines(keys_of(entries), texts(values), entries.len())
        }
}

/// `DashMap::new`: a map without entries.
#[verifier::external_body]
fn new_map() -> (fresh: DashMap<String, i64>)
    ensures
        counters(fresh) == (Map::<Seq<char>, i64>::empty()),
{
    DashMap::new()
}

/// `DashMap::entry` and `Entry::or_insert`: where `key` has no entry it gets
/// one with `value`; an entry that is there is left as it is. Returns the
/// value that the entry of `key` holds afterwards. No other entry changes.
#[verifier::external_body]
fn entry_or_insert(map: &mut DashMap<String, i64>, key: String, value: i64) -> (current: i64)
    ensures
        counters(*final(map)) == (if counters(*old(map)).contains_key(key@) {
            counters(*old(map))
        } else {
            counters(*old(map)).insert(key@, value)
        }),
        current == counters(*final(map))[key@],
{
    *map.entry(key).or_insert(value)
}

/// `DashMap::insert`: the entry of `key` holds `value` afterwards, whether or
/// not there was one. No other entry changes.
#[verifier::external_body]
fn put(map: &mut DashMap<String, i64>, key: String, value: i64)
    ensures
        counters(*final(map)) == counters(*old(map)).insert(key@, value),
{
    map.insert(key, value);
}

/// `DashMap::iter`: every entry once, in an order that is not specified.
#[verifier::external_body]
fn entries(map: &DashMap<String, i64>) -> (all: Vec<(String, i64)>)
    ensures
        is_listing(counters(*map), all@),
{
    map.iter().map(|entry| (entry.key().clone(), *entry.value())).collect()
}

impl View for CmapMetrics {
    type V = Map<Seq<char>, i64>;

    closed spec fn view(&self) -> Map<Seq<char>, i64> {
        counters(self.data)
    }
}

impl CmapMetrics {
    /// No counter has an entry yet.
    pub fn new() -> (metrics: Self)
        ensures
            metrics@ == Map::<Seq<char>, i64>::empty(),
    {
        CmapMetrics { data: new_map() }
    }

    /// Raises the counter of `key` by one; a counter that has no entry yet
    /// starts from zero. A counter that stands at `i64::MAX` is left as it
    /// is, and `Overflow` is returned.
    pub fn inc(&mut self, key: String) -> (r: Result<(), MetricsError>)
        ensures
            count(old(self)@, key@) < i64::MAX ==> r is Ok && final(self)@ == bumped(
                old(self)@,
                key@,
            ),
            count(old(self)@, key@) >= i64::MAX ==> r == Err::<(), MetricsError>(
                MetricsError::Overflow,
            ) && final(self)@ == old(self)@,
    {
        let current = entry_or_insert(&mut self.data, key.clone(), 0);
        if current == i64::MAX {
            assert(self@ =~= old(self)@);
            return Err(MetricsError::Overflow);
        }
        put(&mut self.data, key, current + 1);
        assert(self@ =~= bumped(old(self)@, key@));
        Ok(())
    }

    /// What every counter stands at: a line `key: value` for each, in no
    /// particular order.
    pub fn render(&self) -> (s: String)
        ensures
            is_snapshot(self@, s@),
    {
        let all = entries(&self.data);
        let mut values: Vec<String> = Vec::new();
        let mut out = String::new();
        let mut k: usize = 0;
        while k < all.len()
            invariant
                k <= all@.len(),
                values@.len() == k,
                forall|n: int| 0 <= n < k ==> shows(all@[n].1, #[trigger] values@[n]),
                out@ == lines(keys_of(all@), texts(values@), k as nat),
            decreases all@.len() - k,
        {
            let value = all[k].1.to_string();
            let ghost before = out@;
            let ghost shown = values@;
            out.append(all[k].0.as_str());
            out.append(": ");
            out.append(value.as_str());
            out.append("\n");
            values.push(value);
            proof {
                reveal_strlit(": ");
                reveal_strlit("\n");
                lemma_lines_agree(keys_of(all@), texts(shown), texts(values@), k as nat);
                assert(out@ =~= before + line(keys_of(all@)[k as int], texts(values@)[k as int]));
            }
            k = k + 1;
        }
        out
    }
}

impl Default for CmapMetrics {
    /// No counter has an entry yet.
    fn default() -> (metrics: Self)
        ensures
            metrics@ == Map::<Seq<char>, i64>::empty(),
    {
        CmapMetrics::new()
    }
}

/// The first `n` lines depend on the first `n` values only.
pub proof fn lemma_lines_agree(
    keys: Seq<Seq<char>>,
    v1: Seq<Seq<char>>,
    v2: Seq<Seq<char>>,
    n: nat,
)
    requires
        n <= v1.len(),
        n <= v2.len(),
        forall|k: int| 0 <= k < n ==> v1[k] == v2[k],
    ensures
        lines(keys, v1, n) == lines(keys, v2, n),
    decreases n,
{
    if n > 0 {
        lemma_lines_agree(keys, v1, v2, (n - 1) as nat);
    }
}

/// No update is lost: after `n` increments a counter stands `n` higher than
/// before, as long as it can hold that number, and no other counter has
/// changed.
pub proof fn lemma_increments_add_up(m: Map<Seq<char>, i64>, key: Seq<char>, n: nat)
    requires
        count(m, key) + n <= i64::MAX,
    ensures
        count(bumped_times(m, key, n), key) == count(m, key) + n,
        forall|other: Seq<char>|
            other != key ==> count(bumped_times(m, key, n), other) == count(m, other),
        forall|other: Seq<char>|
            other != key ==> (bumped_times(m, key, n).contains_key(other) <==> m.contains_key(
                other,
            )),
    decreases n,
{
    if n > 0 {
        lemma_increments_add_up(m, key, (n - 1) as nat);
    }
}

/// Increments of two different counters do not interfere: each leaves the
/// other counter as it was, and the two can be made in either order.
pub proof fn lemma_distinct_keys_independent(m: Map<Seq<char>, i64>, k1: Seq<char>, k2: Seq<char>)
    requires
        k1 != k2,
    ensures
        count(bumped(m, k1), k2) == count(m, k2),
        count(bumped(m, k2), k1) == count(m, k1),
        bumped(bumped(m, k1), k2) == bumped(bumped(m, k2), k1),
{
    assert(bumped(bumped(m, k1), k2) =~= bumped(bumped(m, k2), k1));
}

} // verus!
