use vstd::prelude::*;

verus! {

/// The positions in `ids`, in order, of the bodies whose identity is not
/// `origin`: the bodies that pull on the body `origin`.
pub open spec fn attractors_of(ids: Seq<usize>, origin: usize) -> Seq<usize>
    decreases ids.len(),
{
    if ids.len() == 0 {
        Seq::empty()
    } else {
        let rest = attractors_of(ids.drop_last(), origin);
        if ids.last() != origin {
            rest.push((ids.len() - 1) as usize)
        } else {
            rest
        }
    }
}

/// The store positions of the bodies that attract the body `origin`.
///
/// A body is excluded by identity, not by position in the store: every body
/// whose identity is `origin` is left out, and every other body is kept.
pub fn attractor_indices(ids: &Vec<usize>, origin: usize) -> (r: Vec<usize>)
    ensures
        r@ == attractors_of(ids@, origin),
{
    let mut out: Vec<usize> = Vec::new();
    let mut i: usize = 0;
    while i < ids.len()
        invariant
            i <= ids@.len(),
            out@ == attractors_of(ids@.subrange(0, i as int), origin),
        decreases ids@.len() - i,
    {
        assert(ids@.subrange(0, i as int + 1).drop_last() =~= ids@.subrange(0, i as int));
        if ids[i] != origin {
            out.push(i);
        }
        i = i + 1;
    }
    assert(ids@.subrange(0, ids@.len() as int) =~= ids@);
    out
}

/// A body alone in the store has no attractor, so the force on it is the
/// empty sum, zero, at every step.
pub proof fn lemma_lone_body_has_no_attractor(ids: Seq<usize>)
    requires
        ids.len() == 1,
    ensures
        attractors_of(ids, ids[0]).len() == 0,
{
    assert(attractors_of(ids.drop_last(), ids[0]).len() == 0);
    assert(ids.last() == ids[0]);
}

} // verus!
