use vstd::prelude::*;

use crate::entry::ShortlinkEntry;
use crate::entry::ShortlinkMap;
use crate::path::segments_of;
use crate::path::split_segments;

verus! {

/// The reserved key `$root`: inside a nested mapping it names the default
/// target of that namespace.
pub open spec fn root_key() -> Seq<char> {
    seq!['$', 'r', 'o', 'o', 't']
}

/// The entry reached from `e` by following the segments `rest` one by one
/// through nested mappings; `None` where a segment is missing or a link still
/// has segments left.
pub open spec fn descend(e: ShortlinkEntry, rest: Seq<Seq<char>>) -> Option<ShortlinkEntry>
    decreases rest.len(),
{
    if rest.len() == 0 {
        Some(e)
    } else {
        match e {
            ShortlinkEntry::Nested(m) => match m.spec_get(rest[0]) {
                Some(child) => descend(child, rest.drop_first()),
                None => None,
            },
            ShortlinkEntry::Link(_) => None,
        }
    }
}

/// The entry that the segments `segs` lead to from the top-level mapping.
pub open spec fn navigate(segs: Seq<Seq<char>>, root: ShortlinkMap) -> Option<ShortlinkEntry> {
    if segs.len() == 0 {
        None
    } else {
        match root.spec_get(segs[0]) {
            Some(e) => descend(e, segs.drop_first()),
            None => None,
        }
    }
}

/// The target that a reached entry stands for: a link's own target, or for a
/// nested mapping the link stored directly under the root key.
pub open spec fn target_of(e: ShortlinkEntry) -> Option<Seq<char>> {
    match e {
        ShortlinkEntry::Link(t) => Some(t@),
        ShortlinkEntry::Nested(m) => match m.spec_get(root_key()) {
            Some(ShortlinkEntry::Link(t)) => Some(t@),
            _ => None,
        },
    }
}

/// The target that the segments `segs` resolve to, if any.
pub open spec fn resolve_segments(segs: Seq<Seq<char>>, root: ShortlinkMap) -> Option<Seq<char>> {
    match navigate(segs, root) {
        Some(e) => target_of(e),
        None => None,
    }
}

/// The target that the shortlink `path` resolves to, if any.
pub open spec fn resolve(path: Seq<char>, root: ShortlinkMap) -> Option<Seq<char>> {
    resolve_segments(segments_of(path), root)
}

/// The characters of a borrowed target, if there is one.
pub open spec fn target_view(r: Option<&str>) -> Option<Seq<char>> {
    match r {
        Some(t) => Some(t@),
        None => None,
    }
}

/// Resolves the shortlink `shortlink` against the top-level mapping `map`.
///
/// The result depends on the path and the mapping alone, and the mapping is
/// only read.
pub fn find_shortlink<'m>(shortlink: &str, map: &'m ShortlinkMap) -> (r: Option<&'m str>)
    ensures
        target_view(r) == resolve(shortlink@, *map),
{
    let segs = split_segments(shortlink);
    let ghost sv = segments_of(shortlink@);
    proof {
        crate::path::lemma_segments_nonempty(shortlink@);
    }
    let mut selection: &'m ShortlinkEntry = match map.get(segs[0].as_slice()) {
        Some(e) => e,
        None => {
            return None;
        },
    };
    let mut i: usize = 1;
    while i < segs.len()
        invariant
            1 <= i <= segs@.len(),
            sv == segments_of(shortlink@),
            segs@.len() == sv.len(),
            forall|j: int| 0 <= j < segs@.len() ==> #[trigger] segs@[j]@ == sv[j],
            navigate(sv, *map) == descend(*selection, sv.skip(i as int)),
        decreases segs@.len() - i,
    {
        proof {
            assert(sv.skip(i as int).drop_first() =~= sv.skip(i + 1));
            assert(sv.skip(i as int)[0] == segs@[i as int]@);
        }
        match selection {
            ShortlinkEntry::Nested(m) => match m.get(segs[i].as_slice()) {
                Some(child) => {
                    selection = child;
                },
                None => {
                    return None;
                },
            },
            ShortlinkEntry::Link(_) => {
                return None;
            },
        }
        i = i + 1;
    }
    proof {
        assert(sv.skip(i as int) =~= Seq::<Seq<char>>::empty());
    }
    match selection {
        ShortlinkEntry::Link(t) => Some(t.as_str()),
        ShortlinkEntry::Nested(m) => {
            let rk: Vec<char> = vec!['$', 'r', 'o', 'o', 't'];
            assert(rk@ =~= root_key());
            match m.get(rk.as_slice()) {
                Some(ShortlinkEntry::Link(t)) => Some(t.as_str()),
                _ => None,
            }
        },
    }
}

} // verus!
