//! Protocol-level laws of the coordinator, stated over its mathematical
//! model and proved once and for all.

use vstd::prelude::*;
use crate::coordinator::{CoordModel, Verdict, MAX_ROUNDS};

verus! {

/// After a submission and the matching initial answer, the tally is empty
/// and the candidate answer is recorded, before any evaluation reply can
/// arrive.
pub proof fn lemma_answer_starts_clean_round(m: CoordModel, question: Seq<char>, text: Seq<char>)
    requires
        m.wf(),
    ensures
        m.after_submit(question).after_answer(text).no_votes(),
        m.after_submit(question).after_answer(text).answer == Some(text),
        !m.after_submit(question).after_answer(text).ready(),
{
    let m2 = m.after_submit(question).after_answer(text);
    if m2.votes.len() > 0 {
        assert(m2.votes[0] is None);
    }
}

/// Readiness is false at every point where some registered responder has no
/// recorded vote or some recorded vote asks for refinement; and a vote makes
/// the coordinator ready exactly when it is an Accept that completes an
/// otherwise unanimously accepting round over a produced answer.
pub proof fn lemma_readiness(m: CoordModel, i: int, v: Verdict)
    requires
        m.wf(),
        0 <= i < m.registry.len(),
    ensures
        !m.round_complete() ==> !m.ready(),
        (exists|j: int| 0 <= j < m.votes.len() && m.votes[j] == Some(Verdict::NeedsRefinement))
            ==> !m.ready(),
        m.after_vote(i, v).ready() <==> (v == Verdict::Accept && m.answer is Some && forall|j: int|
            0 <= j < m.votes.len() && j != i ==> m.votes[j] == Some(Verdict::Accept)),
{
    if !m.round_complete() {
        let j = choose|j: int| 0 <= j < m.votes.len() && !(m.votes[j] is Some);
        assert(m.votes[j] != Some(Verdict::Accept));
    }
    let m2 = m.after_vote(i, v);
    if m2.ready() {
        assert(m2.votes[i] == Some(v));
        assert forall|j: int| 0 <= j < m.votes.len() && j != i implies m.votes[j] == Some(
            Verdict::Accept,
        ) by {
            assert(m2.votes[j] == Some(Verdict::Accept));
        }
    }
    if v == Verdict::Accept && m.answer is Some && (forall|j: int|
        0 <= j < m.votes.len() && j != i ==> m.votes[j] == Some(Verdict::Accept)) {
        assert forall|j: int| 0 <= j < m2.votes.len() implies m2.votes[j] == Some(
            Verdict::Accept,
        ) by {
            if j == i {
                assert(m2.votes[j] == Some(v));
            } else {
                assert(m2.votes[j] == m.votes[j]);
            }
        }
        assert(m2.ready());
    }
}

/// The round cap: once the maximum number of evaluation rounds has run and
/// every registered responder has voted, a revision does not start another
/// round; it forces every recorded vote to Accept, so the coordinator
/// reports readiness whatever the votes actually said.
pub proof fn lemma_round_cap_forces_acceptance(m: CoordModel, text: Seq<char>)
    requires
        m.wf(),
        m.rounds >= MAX_ROUNDS,
        m.round_complete(),
        m.registry.len() > 0,
    ensures
        m.after_revision(text).ready(),
        m.after_revision(text).rounds == m.rounds,
{
}

/// Resetting is idempotent: resetting twice in a row yields exactly the
/// state that resetting once yields.
pub proof fn lemma_reset_idempotent(m: CoordModel)
    ensures
        m.after_reset().after_reset() == m.after_reset(),
{
    assert(m.after_reset().after_reset() =~= m.after_reset());
}

} // verus!
