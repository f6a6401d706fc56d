use vstd::prelude::*;

use crate::error::ProtocolError;

verus! {

/// The force computed for one body during one step.
pub struct WorkDone<F> {
    pub body_index: usize,
    pub force: F,
}

/// The number of bodies whose result has arrived.
pub open spec fn count_received<F>(slots: Seq<Option<F>>) -> nat
    decreases slots.len(),
{
    if slots.len() == 0 {
        0
    } else {
        count_received(slots.drop_last()) + if slots.last() is Some {
            1nat
        } else {
            0nat
        }
    }
}

/// Every body has its result.
pub open spec fn all_received<F>(slots: Seq<Option<F>>) -> bool {
    forall|i: int| 0 <= i < slots.len() ==> (#[trigger] slots[i]) is Some
}

/// Some entry of `batch` before position `j` names body `id`.
pub open spec fn named_before<F>(batch: Seq<WorkDone<F>>, j: int, id: usize) -> bool {
    exists|k: int| 0 <= k < j && (#[trigger] batch[k]).body_index == id
}

/// What is wrong, if anything, with entry `j` of `batch` when it reaches
/// `slots` after the entries before it.
pub open spec fn entry_error<F>(slots: Seq<Option<F>>, batch: Seq<WorkDone<F>>, j: int) -> Option<
    ProtocolError,
> {
    let id = batch[j].body_index;
    if id >= slots.len() {
        Some(ProtocolError::UnknownBody(id))
    } else if slots[id as int] is Some || named_before(batch, j, id) {
        Some(ProtocolError::DuplicateResult(id))
    } else {
        None
    }
}

/// No entry of `batch` is wrong.
pub open spec fn batch_fits<F>(slots: Seq<Option<F>>, batch: Seq<WorkDone<F>>) -> bool {
    forall|j: int| 0 <= j < batch.len() ==> (#[trigger] entry_error(slots, batch, j)) is None
}

/// `e` is the error of the first wrong entry of `batch`.
pub open spec fn first_batch_error<F>(
    slots: Seq<Option<F>>,
    batch: Seq<WorkDone<F>>,
    e: ProtocolError,
) -> bool {
    exists|j: int|
        0 <= j < batch.len() && #[trigger] entry_error(slots, batch, j) == Some(e) && forall|
            k: int,
        |
            0 <= k < j ==> (#[trigger] entry_error(slots, batch, k)) is None
}

/// `after` is `before` with the result of every entry of `batch` recorded.
pub open spec fn records<F>(
    after: Seq<Option<F>>,
    before: Seq<Option<F>>,
    batch: Seq<WorkDone<F>>,
) -> bool {
    &&& after.len() == before.len()
    &&& forall|j: int|
        0 <= j < batch.len() ==> after[(#[trigger] batch[j]).body_index as int] == Some(
            batch[j].force,
        )
    &&& forall|i: int|
        0 <= i < before.len() && !named_before(batch, batch.len() as int, i as usize) ==> after[i]
            == before[i]
}

/// `i` is the first body without a result.
pub open spec fn first_missing<F>(slots: Seq<Option<F>>, i: int) -> bool {
    &&& 0 <= i < slots.len()
    &&& slots[i] is None
    &&& forall|k: int| 0 <= k < i ==> (#[trigger] slots[k]) is Some
}

proof fn lemma_count_push<F>(s: Seq<Option<F>>, x: Option<F>)
    ensures
        count_received(s.push(x)) == count_received(s) + if x is Some {
            1nat
        } else {
            0nat
        },
{
    assert(s.push(x).drop_last() =~= s);
}

proof fn lemma_count_bounded<F>(s: Seq<Option<F>>)
    ensures
        count_received(s) <= s.len(),
        count_received(s) == s.len() <==> all_received(s),
    decreases s.len(),
{
    if s.len() > 0 {
        lemma_count_bounded(s.drop_last());
        if all_received(s) {
            assert(all_received(s.drop_last()));
        }
        if all_received(s.drop_last()) && s.last() is Some {
            assert forall|i: int| 0 <= i < s.len() implies (#[trigger] s[i]) is Some by {
                if i < s.len() - 1 {
                    assert(s.drop_last()[i] == s[i]);
                }
            }
        }
    }
}

proof fn lemma_count_fill<F>(s: Seq<Option<F>>, i: int, f: F)
    requires
        0 <= i < s.len(),
        s[i] is None,
    ensures
        count_received(s.update(i, Some(f))) == count_received(s) + 1,
    decreases s.len(),
{
    let t = s.update(i, Some(f));
    if i == s.len() - 1 {
        assert(t.drop_last() =~= s.drop_last());
    } else {
        assert(t.drop_last() =~= s.drop_last().update(i, Some(f)));
        lemma_count_fill(s.drop_last(), i, f);
    }
}

/// The force results gathered for one step, one slot per body.
///
/// This is the barrier of a step: results arrive in batches, in any order,
/// and the step may only be integrated once every slot is filled. A batch
/// that names an unknown body, or a body that already has a result, is
/// refused whole.
pub struct ResultSet<F> {
    slots: Vec<Option<F>>,
    received: usize,
}

impl<F> View for ResultSet<F> {
    type V = Seq<Option<F>>;

    closed spec fn view(&self) -> Seq<Option<F>> {
        self.slots@
    }
}

impl<F: Copy> ResultSet<F> {
    /// The counter of received results agrees with the slots.
    pub closed spec fn wf(&self) -> bool {
        self.received == count_received(self.slots@)
    }

    /// An empty set of results for `body_count` bodies.
    pub fn new(body_count: usize) -> (r: ResultSet<F>)
        ensures
            r.wf(),
            r@ == Seq::new(body_count as nat, |i: int| None::<F>),
    {
        let mut slots: Vec<Option<F>> = Vec::new();
        let mut i: usize = 0;
        while i < body_count
            invariant
                i <= body_count,
                slots@ == Seq::new(i as nat, |k: int| None::<F>),
                count_received(slots@) == 0,
            decreases body_count - i,
        {
            proof {
                lemma_count_push(slots@, None::<F>);
            }
            slots.push(None);
            i = i + 1;
            assert(slots@ =~= Seq::new(i as nat, |k: int| None::<F>));
        }
        ResultSet { slots, received: 0 }
    }

    /// The number of bodies the set expects results for.
    pub fn body_count(&self) -> (r: usize)
        ensures
            r == self@.len(),
    {
        self.slots.len()
    }

    /// The number of bodies whose result has arrived.
    pub fn received(&self) -> (r: usize)
        requires
            self.wf(),
        ensures
            r == count_received(self@),
    {
        self.received
    }

    /// Whether every body has its result.
    pub fn is_complete(&self) -> (r: bool)
        requires
            self.wf(),
        ensures
            r == all_received(self@),
    {
        proof {
            lemma_count_bounded(self.slots@);
        }
        self.received == self.slots.len()
    }

    /// Records a batch of results, or refuses it whole.
    ///
    /// The batch is refused with the error of its first wrong entry: one that
    /// names a body outside the set (`UnknownBody`), or a body that already has
    /// a result or is named earlier in the batch (`DuplicateResult`).
    pub fn receive(&mut self, batch: &Vec<WorkDone<F>>) -> (r: Result<(), ProtocolError>)
        requires
            old(self).wf(),
        ensures
            final(self).wf(),
            r is Ok <==> batch_fits(old(self)@, batch@),
            r is Ok ==> records(final(self)@, old(self)@, batch@),
            r is Err ==> final(self)@ == old(self)@ && first_batch_error(
                old(self)@,
                batch@,
                r->Err_0,
            ),
    {
        let ghost before = self@;
        let n = self.slots.len();
        let mut claimed: Vec<bool> = Vec::new();
        let mut i: usize = 0;
        while i < n
            invariant
                i <= n,
                claimed@ == Seq::new(i as nat, |k: int| false),
                self.wf(),
                self@ == before,
            decreases n - i,
        {
            claimed.push(false);
            i = i + 1;
            assert(claimed@ =~= Seq::new(i as nat, |k: int| false));
        }
        let mut j: usize = 0;
        while j < batch.len()
            invariant
                n == self.slots.len(),
                self.wf(),
                self@ == before,
                j <= batch.len(),
                claimed@.len() == n,
                forall|k: int| 0 <= k < n ==> claimed@[k] == named_before(batch@, j as int, k as usize),
                forall|k: int| 0 <= k < j ==> (#[trigger] entry_error(self@, batch@, k)) is None,
            decreases batch.len() - j,
        {
            let id = batch[j].body_index;
            if id >= n {
                assert(entry_error(self@, batch@, j as int) == Some(ProtocolError::UnknownBody(id)));
                return Err(ProtocolError::UnknownBody(id));
            }
            if self.slots[id].is_some() || claimed[id] {
                assert(entry_error(self@, batch@, j as int) == Some(
                    ProtocolError::DuplicateResult(id),
                ));
                return Err(ProtocolError::DuplicateResult(id));
            }
            claimed.set(id, true);
            proof {
                assert forall|k: int| 0 <= k < n implies claimed@[k] == named_before(
                    batch@,
                    j + 1,
                    k as usize,
                ) by {
                    if named_before(batch@, j + 1, k as usize) && k != id {
                        let w = choose|w: int|
                            0 <= w < j + 1 && (#[trigger] batch@[w]).body_index == k as usize;
                        assert(named_before(batch@, j as int, k as usize));
                    }
                    if k == id {
                        assert(batch@[j as int].body_index == k as usize);
                    }
                }
            }
            j = j + 1;
        }
        let mut j: usize = 0;
        while j < batch.len()
            invariant
                n == self.slots.len(),
                n == before.len(),
                j <= batch.len(),
                batch_fits(before, batch@),
                self.wf(),
                forall|k: int|
                    0 <= k < j ==> self@[(#[trigger] batch@[k]).body_index as int] == Some(
                        batch@[k].force,
                    ),
                forall|i: int|
                    0 <= i < n && !named_before(batch@, j as int, i as usize) ==> self@[i]
                        == before[i],
            decreases batch.len() - j,
        {
            let id = batch[j].body_index;
            let force = batch[j].force;
            proof {
                assert(entry_error(before, batch@, j as int) is None);
                assert(self@[id as int] is None);
                lemma_count_fill(self.slots@, id as int, force);
                lemma_count_bounded(self.slots@.update(id as int, Some(force)));
            }
            self.slots.set(id, Some(force));
            self.received = self.received + 1;
            proof {
                assert forall|k: int|
                    0 <= k < j + 1 implies self@[(#[trigger] batch@[k]).body_index as int] == Some(
                    batch@[k].force,
                ) by {
                    assert(entry_error(before, batch@, k) is None);
                    if k < j && batch@[k].body_index == id {
                        assert(named_before(batch@, j as int, id));
                    }
                }
                assert forall|i: int|
                    0 <= i < n && !named_before(batch@, j + 1, i as usize) implies self@[i]
                    == before[i] by {
                    if i != id {
                        if named_before(batch@, j as int, i as usize) {
                            let w = choose|w: int|
                                0 <= w < j && (#[trigger] batch@[w]).body_index == i as usize;
                            assert(named_before(batch@, j + 1, i as usize));
                        }
                    } else {
                        assert(batch@[j as int].body_index == i as usize);
                    }
                }
            }
            j = j + 1;
        }
        Ok(())
    }

    /// The forces in body order, once every body has its result; otherwise
    /// `IncompleteResultSet` with the first body that has none.
    pub fn forces(&self) -> (r: Result<Vec<F>, ProtocolError>)
        ensures
            r is Ok <==> all_received(self@),
            r is Ok ==> r->Ok_0@.len() == self@.len() && forall|i: int|
                0 <= i < self@.len() ==> self@[i] == Some(#[trigger] r->Ok_0@[i]),
            r is Err ==> exists|i: int|
                first_missing(self@, i) && r->Err_0 == ProtocolError::IncompleteResultSet(
                    i as usize,
                ),
    {
        let mut out: Vec<F> = Vec::new();
        let mut i: usize = 0;
        while i < self.slots.len()
            invariant
                i <= self@.len(),
                out@.len() == i,
                forall|k: int| 0 <= k < i ==> self@[k] == Some(#[trigger] out@[k]),
            decreases self@.len() - i,
        {
            match self.slots[i] {
                Some(f) => {
                    out.push(f);
                },
                None => {
                    assert forall|k: int| 0 <= k < i implies (#[trigger] self@[k]) is Some by {
                        assert(self@[k] == Some(out@[k]));
                    }
                    assert(first_missing(self@, i as int));
                    return Err(ProtocolError::IncompleteResultSet(i));
                },
            }
            i = i + 1;
        }
        assert forall|k: int| 0 <= k < self@.len() implies (#[trigger] self@[k]) is Some by {
            assert(self@[k] == Some(out@[k]));
        }
        Ok(out)
    }
}


/// Every body `0 .. body_count` is named by some entry of `work`.
pub open spec fn covers<F>(body_count: nat, work: Seq<WorkDone<F>>) -> bool {
    forall|i: int| 0 <= i < body_count ==> #[trigger] named_before(work, work.len() as int, i as usize)
}

/// `i` is the first body that no entry of `work` names.
pub open spec fn first_uncovered<F>(body_count: nat, work: Seq<WorkDone<F>>, i: int) -> bool {
    &&& 0 <= i < body_count
    &&& !named_before(work, work.len() as int, i as usize)
    &&& forall|k: int| 0 <= k < i ==> #[trigger] named_before(work, work.len() as int, k as usize)
}

/// No result has arrived yet for any of `body_count` bodies.
pub open spec fn nothing_received<F>(body_count: nat) -> Seq<Option<F>> {
    Seq::new(body_count, |i: int| None::<F>)
}

/// `r` is the outcome of checking `work` against the bodies `0 .. body_count`.
///
/// It is the forces in body order when each body has exactly one result.
/// Otherwise it is the error of the first wrong entry, in the order of `work`
/// (`UnknownBody`, `DuplicateResult`), and failing that the first body without
/// a result (`IncompleteResultSet`).
pub open spec fn sorted_by_body<F>(
    body_count: nat,
    work: Seq<WorkDone<F>>,
    r: Result<Vec<F>, ProtocolError>,
) -> bool {
    &&& r is Ok <==> batch_fits(nothing_received::<F>(body_count), work) && covers(body_count, work)
    &&& r is Ok ==> r->Ok_0@.len() == body_count && forall|j: int|
        0 <= j < work.len() ==> r->Ok_0@[(#[trigger] work[j]).body_index as int] == work[j].force
    &&& r is Err && !batch_fits(nothing_received::<F>(body_count), work) ==> first_batch_error(
        nothing_received::<F>(body_count),
        work,
        r->Err_0,
    )
    &&& r is Err && batch_fits(nothing_received::<F>(body_count), work) ==> exists|i: int|
        first_uncovered(body_count, work, i) && r->Err_0 == ProtocolError::IncompleteResultSet(
            i as usize,
        )
}

/// Checks that `work` holds exactly one result for each body `0 .. body_count`
/// and returns the forces in body order, whatever order the results came in.
pub fn forces_by_body<F: Copy>(body_count: usize, work: &Vec<WorkDone<F>>) -> (r: Result<
    Vec<F>,
    ProtocolError,
>)
    ensures
        sorted_by_body(body_count as nat, work@, r),
{
    let mut set: ResultSet<F> = ResultSet::new(body_count);
    let ghost empty = set@;
    assert(empty =~= nothing_received::<F>(body_count as nat));
    match set.receive(work) {
        Err(e) => Err(e),
        Ok(()) => {
            let ghost full = set@;
            assert forall|i: int| 0 <= i < body_count implies (full[i] is Some
                <==> named_before(work@, work@.len() as int, i as usize)) by {
                if named_before(work@, work@.len() as int, i as usize) {
                    let w = choose|w: int|
                        0 <= w < work@.len() && (#[trigger] work@[w]).body_index == i as usize;
                    assert(full[work@[w].body_index as int] == Some(work@[w].force));
                }
            }
            let r = set.forces();
            match r {
                Ok(v) => {
                    assert forall|i: int| 0 <= i < body_count implies #[trigger] named_before(
                        work@,
                        work@.len() as int,
                        i as usize,
                    ) by {
                        assert(full[i] is Some);
                    }
                    assert forall|j: int| 0 <= j < work@.len() implies v@[(
                    #[trigger] work@[j]).body_index as int] == work@[j].force by {
                        assert(entry_error(empty, work@, j) is None);
                        assert(full[work@[j].body_index as int] == Some(work@[j].force));
                    }
                    Ok(v)
                },
                Err(e) => {
                    let ghost i = choose|i: int|
                        first_missing(full, i) && e == ProtocolError::IncompleteResultSet(
                            i as usize,
                        );
                    assert forall|k: int| 0 <= k < i implies #[trigger] named_before(
                        work@,
                        work@.len() as int,
                        k as usize,
                    ) by {
                        assert(full[k] is Some);
                    }
                    assert(first_uncovered(body_count as nat, work@, i));
                    assert(!covers(body_count as nat, work@));
                    Err(e)
                },
            }
        },
    }
}


/// Each of the bodies `0 .. body_count` has exactly one entry in `work`, and
/// no entry names another body.
pub open spec fn one_result_per_body<F>(body_count: nat, work: Seq<WorkDone<F>>) -> bool {
    &&& forall|j: int| 0 <= j < work.len() ==> (#[trigger] work[j]).body_index < body_count
    &&& forall|j1: int, j2: int|
        0 <= j1 < work.len() && 0 <= j2 < work.len() && (#[trigger] work[j1]).body_index == (
        #[trigger] work[j2]).body_index ==> j1 == j2
    &&& covers(body_count, work)
}

/// The barrier lets a step through exactly when every body has exactly one
/// result: `forces_by_body` succeeds on those result lists and on no other.
pub proof fn lemma_accepts_exactly_one_result_per_body<F>(body_count: nat, work: Seq<WorkDone<F>>)
    ensures
        batch_fits(nothing_received::<F>(body_count), work) && covers(body_count, work)
            <==> one_result_per_body(body_count, work),
{
    let empty = nothing_received::<F>(body_count);
    if batch_fits(empty, work) {
        assert forall|j1: int, j2: int|
            0 <= j1 < work.len() && 0 <= j2 < work.len() && (#[trigger] work[j1]).body_index == (
            #[trigger] work[j2]).body_index implies j1 == j2 by {
            assert(entry_error(empty, work, j1) is None);
            assert(entry_error(empty, work, j2) is None);
            if j1 < j2 {
                assert(named_before(work, j2, work[j2].body_index));
            } else if j2 < j1 {
                assert(named_before(work, j1, work[j1].body_index));
            }
        }
        assert forall|j: int| 0 <= j < work.len() implies (#[trigger] work[j]).body_index
            < body_count by {
            assert(entry_error(empty, work, j) is None);
        }
    }
    if one_result_per_body(body_count, work) {
        assert forall|j: int| 0 <= j < work.len() implies (#[trigger] entry_error(
            empty,
            work,
            j,
        )) is None by {
            assert(work[j].body_index < body_count);
            if named_before(work, j, work[j].body_index) {
                let k = choose|k: int| 0 <= k < j && (#[trigger] work[k]).body_index
                    == work[j].body_index;
                assert(work[k].body_index == work[j].body_index);
            }
        }
    }
}

/// The forces of a step do not depend on the order in which results arrive
/// (and so not on how the bodies were cut into jobs): two result lists with
/// the same entries, one per body, yield the same forces in body order.
pub proof fn lemma_arrival_order_is_irrelevant<F>(
    body_count: usize,
    first: Seq<WorkDone<F>>,
    second: Seq<WorkDone<F>>,
    forces_first: Seq<F>,
    forces_second: Seq<F>,
)
    requires
        one_result_per_body(body_count as nat, first),
        forall|j: int| 0 <= j < first.len() ==> exists|k: int| 0 <= k < second.len() && second[k] == #[trigger] first[j],
        forces_first.len() == body_count,
        forces_second.len() == body_count,
        forall|j: int|
            0 <= j < first.len() ==> forces_first[(#[trigger] first[j]).body_index as int]
                == first[j].force,
        forall|j: int|
            0 <= j < second.len() ==> forces_second[(#[trigger] second[j]).body_index as int]
                == second[j].force,
    ensures
        forces_first == forces_second,
{
    assert forall|i: int| 0 <= i < body_count implies forces_first[i] == forces_second[i] by {
        assert(named_before(first, first.len() as int, i as usize));
        let j = choose|j: int| 0 <= j < first.len() && (#[trigger] first[j]).body_index == i as usize;
        let k = choose|k: int| 0 <= k < second.len() && second[k] == #[trigger] first[j];
        assert(forces_second[second[k].body_index as int] == second[k].force);
    }
    assert(forces_first =~= forces_second);
}

} // verus!
