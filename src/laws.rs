//! Properties of resolution that hold for every path and mapping.
use vstd::prelude::*;

use crate::entry::ShortlinkEntry;
use crate::entry::ShortlinkMap;
use crate::path::is_separator;
use crate::path::lemma_segments_nonempty;
use crate::path::lemma_segments_single;
use crate::path::segments_of;
use crate::resolve::descend;
use crate::resolve::navigate;
use crate::resolve::resolve;
use crate::resolve::root_key;

verus! {

/// `chain` lists the entries met while following the first `chain.len()`
/// segments of `segs` from the top-level mapping `root`: each segment is found
/// in the nested mapping of the entry before it.
pub open spec fn is_chain(
    segs: Seq<Seq<char>>,
    root: ShortlinkMap,
    chain: Seq<ShortlinkEntry>,
) -> bool {
    &&& 1 <= chain.len() <= segs.len()
    &&& root.spec_get(segs[0]) == Some(chain[0])
    &&& forall|i: int|
        #![trigger chain[i + 1]]
        0 <= i < chain.len() - 1 ==> chain[i] is Nested && chain[i]->Nested_0.spec_get(segs[i + 1])
            == Some(chain[i + 1])
}

proof fn lemma_chain_from(
    segs: Seq<Seq<char>>,
    root: ShortlinkMap,
    chain: Seq<ShortlinkEntry>,
    k: int,
)
    requires
        is_chain(segs, root, chain),
        0 <= k < chain.len(),
    ensures
        descend(chain[k], segs.skip(k + 1)) == descend(chain.last(), segs.skip(chain.len() as int)),
    decreases chain.len() - k,
{
    if k < chain.len() - 1 {
        assert(chain[k + 1] == chain[(k + 1) as int]);
        assert(segs.skip(k + 1)[0] == segs[k + 1]);
        assert(segs.skip(k + 1).drop_first() =~= segs.skip(k + 2));
        lemma_chain_from(segs, root, chain, k + 1);
    }
}

/// Following a chain reaches its last entry, with the rest of the segments
/// still to be followed from there.
pub proof fn lemma_chain(segs: Seq<Seq<char>>, root: ShortlinkMap, chain: Seq<ShortlinkEntry>)
    requires
        is_chain(segs, root, chain),
    ensures
        navigate(segs, root) == descend(chain.last(), segs.skip(chain.len() as int)),
{
    assert(segs.drop_first() =~= segs.skip(1));
    lemma_chain_from(segs, root, chain, 0);
}

/// A path whose first segment is not a key of the top-level mapping is not
/// found.
pub proof fn law_absent_first_segment(path: Seq<char>, root: ShortlinkMap)
    requires
        root.spec_get(segments_of(path)[0]) is None,
    ensures
        resolve(path, root) is None,
{
    lemma_segments_nonempty(path);
}

/// A path without `/` that is a top-level key of a link resolves to that
/// link's target.
pub proof fn law_single_segment_link(path: Seq<char>, root: ShortlinkMap, t: String)
    requires
        forall|i: int| 0 <= i < path.len() ==> !is_separator(#[trigger] path[i]),
        root.spec_get(path) == Some(ShortlinkEntry::Link(t)),
    ensures
        resolve(path, root) == Some(t@),
{
    lemma_segments_single(path);
    assert(segments_of(path).drop_first() =~= Seq::<Seq<char>>::empty());
}

/// A path whose segments lead, through nested mappings at any depth, to a
/// link resolves to that link's target.
pub proof fn law_nested_path_link(
    path: Seq<char>,
    root: ShortlinkMap,
    chain: Seq<ShortlinkEntry>,
    t: String,
)
    requires
        is_chain(segments_of(path), root, chain),
        chain.len() == segments_of(path).len(),
        chain.last() == ShortlinkEntry::Link(t),
    ensures
        resolve(path, root) == Some(t@),
{
    let segs = segments_of(path);
    lemma_chain(segs, root, chain);
    assert(segs.skip(chain.len() as int) =~= Seq::<Seq<char>>::empty());
}

/// A path whose segments lead to a nested mapping resolves to the link stored
/// directly under the root key of that mapping; where that key is absent or
/// holds a further nested mapping, the path is not found.
pub proof fn law_namespace_default(
    path: Seq<char>,
    root: ShortlinkMap,
    chain: Seq<ShortlinkEntry>,
    m: ShortlinkMap,
)
    requires
        is_chain(segments_of(path), root, chain),
        chain.len() == segments_of(path).len(),
        chain.last() == ShortlinkEntry::Nested(m),
    ensures
        resolve(path, root) == match m.spec_get(root_key()) {
            Some(ShortlinkEntry::Link(t)) => Some(t@),
            _ => None,
        },
        m.spec_get(root_key()) is None ==> resolve(path, root) is None,
        m.spec_get(root_key()) matches Some(ShortlinkEntry::Nested(_)) ==> resolve(path, root) is None,
{
    let segs = segments_of(path);
    lemma_chain(segs, root, chain);
    assert(segs.skip(chain.len() as int) =~= Seq::<Seq<char>>::empty());
}

/// A path with segments left over once its segments have reached a link is
/// not found.
pub proof fn law_segments_past_link(
    path: Seq<char>,
    root: ShortlinkMap,
    chain: Seq<ShortlinkEntry>,
    t: String,
)
    requires
        is_chain(segments_of(path), root, chain),
        chain.len() < segments_of(path).len(),
        chain.last() == ShortlinkEntry::Link(t),
    ensures
        resolve(path, root) is None,
{
    lemma_chain(segments_of(path), root, chain);
}

/// Resolution is a function of the path and the mapping: equal inputs give
/// equal results.
pub proof fn law_resolve_deterministic(
    path1: Seq<char>,
    root1: ShortlinkMap,
    path2: Seq<char>,
    root2: ShortlinkMap,
)
    requires
        path1 == path2,
        root1 == root2,
    ensures
        resolve(path1, root1) == resolve(path2, root2),
{
}

} // verus!
