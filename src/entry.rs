use vstd::prelude::*;

verus! {

/// One value of a shortlink mapping.
pub enum ShortlinkEntry {
    /// A terminal redirect target.
    Link(String),
    /// A sub-namespace of further entries.
    Nested(ShortlinkMap),
}

/// A mapping from path segments to entries.
///
/// Keys are kept in insertion order; `wf` states that they are unique, which
/// `new` and `insert` maintain.
pub struct ShortlinkMap {
    pub entries: Vec<(String, ShortlinkEntry)>,
}

/// The entry stored under `key` in `entries`: that of the first pair whose key
/// equals `key`, if any. With unique keys it is the only such pair.
pub open spec fn lookup(entries: Seq<(String, ShortlinkEntry)>, key: Seq<char>) -> Option<
    ShortlinkEntry,
>
    decreases entries.len(),
{
    if entries.len() == 0 {
        None
    } else if entries[0].0@ == key {
        Some(entries[0].1)
    } else {
        lookup(entries.drop_first(), key)
    }
}

/// No two pairs of `entries` share a key.
pub open spec fn keys_unique(entries: Seq<(String, ShortlinkEntry)>) -> bool {
    forall|i: int, j: int|
        0 <= i < entries.len() && 0 <= j < entries.len() && i != j ==> entries[i].0@
            != entries[j].0@
}

/// Skipping pairs that do not hold `key` leaves its lookup unchanged.
proof fn lemma_lookup_skip(entries: Seq<(String, ShortlinkEntry)>, key: Seq<char>, i: int)
    requires
        0 <= i < entries.len(),
        entries[i].0@ != key,
    ensures
        lookup(entries.skip(i), key) == lookup(entries.skip(i + 1), key),
{
    assert(entries.skip(i).drop_first() =~= entries.skip(i + 1));
}

/// The first pair that holds `key` gives the lookup.
proof fn lemma_lookup_first(entries: Seq<(String, ShortlinkEntry)>, key: Seq<char>, i: int)
    requires
        0 <= i < entries.len(),
        entries[i].0@ == key,
        forall|j: int| 0 <= j < i ==> entries[j].0@ != key,
    ensures
        lookup(entries, key) == Some(entries[i].1),
    decreases i,
{
    if i > 0 {
        lemma_lookup_first(entries.drop_first(), key, i - 1);
    }
}

/// A key that no pair holds is not found.
proof fn lemma_lookup_absent(entries: Seq<(String, ShortlinkEntry)>, key: Seq<char>)
    requires
        forall|j: int| 0 <= j < entries.len() ==> entries[j].0@ != key,
    ensures
        lookup(entries, key) is None,
    decreases entries.len(),
{
    if entries.len() > 0 {
        lemma_lookup_absent(entries.drop_first(), key);
    }
}

/// With unique keys, the pair that holds `key` gives the lookup.
proof fn lemma_lookup_unique(entries: Seq<(String, ShortlinkEntry)>, key: Seq<char>, i: int)
    requires
        keys_unique(entries),
        0 <= i < entries.len(),
        entries[i].0@ == key,
    ensures
        lookup(entries, key) == Some(entries[i].1),
{
    lemma_lookup_first(entries, key, i);
}

/// Lookups in a mapping with unique keys, where `fresh` holds no key of `old`
/// but `key`, agree with `old` on every key but `key`.
proof fn lemma_lookup_frame(
    old: Seq<(String, ShortlinkEntry)>,
    fresh: Seq<(String, ShortlinkEntry)>,
    key: Seq<char>,
    k: Seq<char>,
)
    requires
        keys_unique(old),
        keys_unique(fresh),
        k != key,
        forall|j: int|
            0 <= j < fresh.len() && fresh[j].0@ != key ==> j < old.len() && fresh[j] == old[j],
        forall|j: int|
            0 <= j < old.len() && old[j].0@ != key ==> j < fresh.len() && fresh[j] == old[j],
    ensures
        lookup(fresh, k) == lookup(old, k),
{
    if exists|j: int| 0 <= j < old.len() && old[j].0@ == k {
        let j = choose|j: int| 0 <= j < old.len() && old[j].0@ == k;
        lemma_lookup_unique(old, k, j);
        lemma_lookup_unique(fresh, k, j);
    } else {
        lemma_lookup_absent(old, k);
        assert forall|j: int| 0 <= j < fresh.len() implies fresh[j].0@ != k by {
            if fresh[j].0@ == k {
                assert(old[j].0@ == k);
            }
        }
        lemma_lookup_absent(fresh, k);
    }
}

/// Whether the characters of `key` are exactly those of `seg`.
fn key_matches(key: &str, seg: &[char]) -> (r: bool)
    ensures
        r == (key@ == seg@),
{
    let mut same: bool = true;
    let mut n: usize = 0;
    assert(key@.take(0) =~= seg@.take(0));
    for c in it: key.chars()
        invariant
            it.seq() == key@,
            same ==> n == it.index() && n <= seg@.len() && key@.take(n as int) == seg@.take(
                n as int,
            ),
            !same ==> key@ != seg@,
    {
        if same {
            if n < seg.len() && seg[n] == c {
                assert(key@.take(n + 1) =~= key@.take(n as int).push(c));
                assert(seg@.take(n + 1) =~= seg@.take(n as int).push(c));
                n = n + 1;
            } else {
                same = false;
            }
        }
    }
    proof {
        if same {
            assert(key@.take(n as int) =~= key@);
            if n == seg.len() {
                assert(seg@.take(n as int) =~= seg@);
            }
        }
    }
    same && n == seg.len()
}

impl ShortlinkMap {
    /// The entry stored under `key`.
    pub open spec fn spec_get(&self, key: Seq<char>) -> Option<ShortlinkEntry> {
        lookup(self.entries@, key)
    }

    /// Keys are unique within this mapping.
    pub open spec fn wf(&self) -> bool {
        keys_unique(self.entries@)
    }

    /// An empty mapping.
    pub fn new() -> (r: ShortlinkMap)
        ensures
            r.wf(),
            forall|k: Seq<char>| #[trigger] r.spec_get(k) is None,
    {
        ShortlinkMap { entries: Vec::new() }
    }

    /// Stores `entry` under `key`, replacing and returning the entry that was
    /// there before, if any. Every other key keeps its entry.
    pub fn insert(&mut self, key: String, entry: ShortlinkEntry) -> (r: Option<ShortlinkEntry>)
        requires
            old(self).wf(),
        ensures
            final(self).wf(),
            r == old(self).spec_get(key@),
            final(self).spec_get(key@) == Some(entry),
            forall|k: Seq<char>|
                k != key@ ==> #[trigger] final(self).spec_get(k) == old(self).spec_get(k),
    {
        let ghost before = self.entries@;
        let ghost kv = key@;
        let mut i: usize = 0;
        while i < self.entries.len()
            invariant
                i <= self.entries@.len(),
                self.entries@ == before,
                before == old(self).entries@,
                keys_unique(before),
                kv == key@,
                forall|j: int| 0 <= j < i ==> self.entries@[j].0@ != key@,
            decreases self.entries@.len() - i,
        {
            if self.entries[i].0 == key {
                proof {
                    lemma_lookup_unique(before, kv, i as int);
                }
                let mut pair = (key, entry);
                self.entries.set_and_swap(i, &mut pair);
                let ghost after = self.entries@;
                proof {
                    assert(after[i as int].0@ == before[i as int].0@);
                    assert forall|a: int, b: int|
                        0 <= a < after.len() && 0 <= b < after.len() && a != b implies after[a].0@
                        != after[b].0@ by {
                        assert(after[a].0@ == before[a].0@);
                        assert(after[b].0@ == before[b].0@);
                    }
                    lemma_lookup_unique(after, kv, i as int);
                    assert forall|k: Seq<char>| k != kv implies lookup(after, k) == lookup(
                        before,
                        k,
                    ) by {
                        lemma_lookup_frame(before, after, kv, k);
                    }
                }
                return Some(pair.1);
            }
            i = i + 1;
        }
        proof {
            lemma_lookup_absent(before, kv);
        }
        self.entries.push((key, entry));
        proof {
            let after = self.entries@;
            assert(keys_unique(after));
            lemma_lookup_unique(after, kv, before.len() as int);
            assert forall|k: Seq<char>| k != kv implies lookup(after, k) == lookup(before, k) by {
                lemma_lookup_frame(before, after, kv, k);
            }
        }
        None
    }

    /// Looks `key` up among the pairs of this mapping.
    pub fn get(&self, key: &[char]) -> (r: Option<&ShortlinkEntry>)
        ensures
            match r {
                Some(e) => self.spec_get(key@) == Some(*e),
                None => self.spec_get(key@) is None,
            },
    {
        let mut i: usize = 0;
        assert(self.entries@.skip(0) =~= self.entries@);
        while i < self.entries.len()
            invariant
                i <= self.entries@.len(),
                lookup(self.entries@, key@) == lookup(self.entries@.skip(i as int), key@),
            decreases self.entries@.len() - i,
        {
            if key_matches(self.entries[i].0.as_str(), key) {
                return Some(&self.entries[i].1);
            }
            proof {
                lemma_lookup_skip(self.entries@, key@, i as int);
            }
            i = i + 1;
        }
        None
    }
}

} // verus!
