use vstd::prelude::*;

verus! {

/// The separator between the segments of a shortlink path.
pub open spec fn is_separator(c: char) -> bool {
    c == '/'
}

/// The segments of `s`, split at every `/`. Empty segments are kept, so the
/// result always has one segment more than `s` has separators.
pub open spec fn segments_of(s: Seq<char>) -> Seq<Seq<char>>
    decreases s.len(),
{
    if s.len() == 0 {
        seq![Seq::empty()]
    } else {
        let prev = segments_of(s.drop_last());
        if is_separator(s.last()) {
            prev.push(Seq::empty())
        } else {
            prev.update(prev.len() - 1, prev.last().push(s.last()))
        }
    }
}

/// There is always at least one segment.
pub proof fn lemma_segments_nonempty(s: Seq<char>)
    ensures
        segments_of(s).len() >= 1,
    decreases s.len(),
{
    if s.len() > 0 {
        lemma_segments_nonempty(s.drop_last());
    }
}

/// A path without a separator is a single segment: the path itself.
pub proof fn lemma_segments_single(s: Seq<char>)
    requires
        forall|i: int| 0 <= i < s.len() ==> !is_separator(#[trigger] s[i]),
    ensures
        segments_of(s) == seq![s],
    decreases s.len(),
{
    if s.len() > 0 {
        let p = s.drop_last();
        lemma_segments_single(p);
        assert(p.push(s.last()) =~= s);
        assert(segments_of(s) =~= seq![s]);
    } else {
        assert(s =~= Seq::<char>::empty());
    }
}

/// Splits `path` at every `/` into its segments, keeping empty ones.
pub fn split_segments(path: &str) -> (r: Vec<Vec<char>>)
    ensures
        r@.len() == segments_of(path@).len(),
        forall|i: int| 0 <= i < r@.len() ==> #[trigger] r@[i]@ == segments_of(path@)[i],
{
    let mut done: Vec<Vec<char>> = Vec::new();
    let mut cur: Vec<char> = Vec::new();
    assert(path@.take(0) =~= Seq::<char>::empty());
    for c in it: path.chars()
        invariant
            it.seq() == path@,
            done@.len() + 1 == segments_of(path@.take(it.index() as int)).len(),
            forall|i: int|
                0 <= i < done@.len() ==> #[trigger] done@[i]@ == segments_of(
                    path@.take(it.index() as int),
                )[i],
            cur@ == segments_of(path@.take(it.index() as int)).last(),
    {
        let ghost k = it.index() as int;
        proof {
            assert(path@.take(k + 1).drop_last() =~= path@.take(k));
            lemma_segments_nonempty(path@.take(k));
        }
        if c == '/' {
            done.push(cur);
            cur = Vec::new();
        } else {
            cur.push(c);
        }
    }
    proof {
        assert(path@.take(path@.len() as int) =~= path@);
    }
    done.push(cur);
    done
}

} // verus!
