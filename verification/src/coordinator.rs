//! The coordinator: the stateful service that owns the question lifecycle,
//! the registry of responders, the current candidate answer, and the round's
//! vote tally, and that drives the consensus protocol.

use vstd::prelude::*;

verus! {

/// Maximum number of evaluation rounds run for a single question.
pub const MAX_ROUNDS: u32 = 5;

/// A responder's per-round vote on the current candidate answer.
#[derive(Clone, Copy, Debug, PartialEq, Eq, Structural)]
pub enum Verdict {
    Accept,
    NeedsRefinement,
}

/// A named participant with a fixed evaluation domain. The name identifies it
/// in the registry; domain and tuning only shape the prompts built for it.
pub struct Responder {
    pub name: String,
    pub domain: String,
    pub tuning: String,
}

/// Mathematical model of a responder: its three text fields as sequences.
pub struct ResponderModel {
    pub name: Seq<char>,
    pub domain: Seq<char>,
    pub tuning: Seq<char>,
}

impl View for Responder {
    type V = ResponderModel;

    open spec fn view(&self) -> ResponderModel {
        ResponderModel { name: self.name@, domain: self.domain@, tuning: self.tuning@ }
    }
}

impl DeepView for Responder {
    type V = ResponderModel;

    open spec fn deep_view(&self) -> ResponderModel {
        self.view()
    }
}

/// Mathematical model of the coordinator's state. The vote tally is a
/// sequence parallel to the registry: entry i is the vote of responder i in
/// the current round, or `None` while that responder has not voted yet.
#[verifier::ext_equal]
pub struct CoordModel {
    pub registry: Seq<ResponderModel>,
    pub question: Option<Seq<char>>,
    pub answer: Option<Seq<char>>,
    pub votes: Seq<Option<Verdict>>,
    pub rounds: u32,
}

impl CoordModel {
    /// Structural invariant of every reachable coordinator state: the tally
    /// is parallel to the registry, registered names are unique, an answer
    /// exists only for a submitted question, and a vote exists only for an
    /// answer that was produced.
    pub open spec fn wf(self) -> bool {
        &&& self.votes.len() == self.registry.len()
        &&& forall|i: int, j: int|
            0 <= i < j < self.registry.len() ==> self.registry[i].name != self.registry[j].name
        &&& (self.answer is Some ==> self.question is Some)
        &&& ((exists|i: int| 0 <= i < self.votes.len() && self.votes[i] is Some)
            ==> self.answer is Some)
    }

    /// Some responder of the given name is registered.
    pub open spec fn has_name(self, name: Seq<char>) -> bool {
        exists|i: int| 0 <= i < self.registry.len() && self.registry[i].name == name
    }

    /// No vote has been recorded in the current round.
    pub open spec fn no_votes(self) -> bool {
        forall|i: int| 0 <= i < self.votes.len() ==> self.votes[i] is None
    }

    /// Every registered responder has voted in the current round.
    pub open spec fn round_complete(self) -> bool {
        forall|i: int| 0 <= i < self.votes.len() ==> self.votes[i] is Some
    }

    /// Every registered responder has voted, and voted Accept.
    pub open spec fn all_accept(self) -> bool {
        forall|i: int| 0 <= i < self.votes.len() ==> self.votes[i] == Some(Verdict::Accept)
    }

    /// The answer is final: it exists, every registered responder has a
    /// recorded vote, there is at least one, and every vote is Accept.
    pub open spec fn ready(self) -> bool {
        &&& self.answer is Some
        &&& self.votes.len() > 0
        &&& self.all_accept()
    }

    /// An empty tally parallel to the registry.
    pub open spec fn cleared_votes(self) -> Seq<Option<Verdict>> {
        Seq::new(self.registry.len(), |i: int| None::<Verdict>)
    }

    /// State after a question is submitted: only the question is recorded.
    pub open spec fn after_submit(self, question: Seq<char>) -> CoordModel {
        CoordModel { question: Some(question), ..self }
    }

    /// State after the initial answer arrives: the answer is recorded, the
    /// tally is cleared for the first evaluation round, and the round counter
    /// is advanced.
    pub open spec fn after_answer(self, text: Seq<char>) -> CoordModel {
        CoordModel {
            answer: Some(text),
            votes: self.cleared_votes(),
            rounds: (self.rounds + 1) as u32,
            ..self
        }
    }

    /// State after responder i votes v in the current round.
    pub open spec fn after_vote(self, i: int, v: Verdict) -> CoordModel {
        CoordModel { votes: self.votes.update(i, Some(v)), ..self }
    }

    /// State after a revised answer arrives. Below the round cap the new
    /// candidate goes through another full evaluation round; at the cap every
    /// recorded vote is forced to Accept so that the next readiness query
    /// succeeds, deliberately fabricating consensus to bound refinement.
    pub open spec fn after_revision(self, text: Seq<char>) -> CoordModel {
        if self.rounds < MAX_ROUNDS {
            CoordModel {
                answer: Some(text),
                votes: self.cleared_votes(),
                rounds: (self.rounds + 1) as u32,
                ..self
            }
        } else {
            CoordModel {
                answer: Some(text),
                votes: Seq::new(
                    self.votes.len(),
                    |i: int| if self.votes[i] is Some { Some(Verdict::Accept) } else { None },
                ),
                ..self
            }
        }
    }

    /// State after an explicit reset: all round state wiped, registry kept.
    pub open spec fn after_reset(self) -> CoordModel {
        CoordModel {
            registry: self.registry,
            question: None,
            answer: None,
            votes: self.cleared_votes(),
            rounds: 0,
        }
    }
}

/// The text handed out when the answer is requested before it exists.
pub open spec fn not_ready_message() -> Seq<char> {
    "System error: Requested answer when answer was not ready."@
}

/// Relies on rand::thread_rng and rand::Rng::gen_range: sampling the
/// non-empty range 0..bound yields a value inside it (gen_range panics only
/// on an empty range, which the precondition excludes).
#[verifier::external_body]
fn random_below(bound: usize) -> (r: usize)
    requires
        bound > 0,
    ensures
        r < bound,
{
    rand::Rng::gen_range(&mut rand::thread_rng(), 0..bound)
}

/// The coordinator. All mutation of round state goes through its methods,
/// one call at a time, which yields the exclusivity the invariants assume.
pub struct Coordinator {
    registry: Vec<Responder>,
    question: Option<String>,
    answer: Option<String>,
    votes: Vec<Option<Verdict>>,
    rounds: u32,
}

impl View for Coordinator {
    type V = CoordModel;

    closed spec fn view(&self) -> CoordModel {
        CoordModel {
            registry: self.registry.deep_view(),
            question: self.question.deep_view(),
            answer: self.answer.deep_view(),
            votes: self.votes@,
            rounds: self.rounds,
        }
    }
}

impl Coordinator {
    /// A coordinator with an empty registry and no round state.
    pub fn new() -> (c: Coordinator)
        ensures
            c@.wf(),
            c@.registry.len() == 0,
            c@.question is None,
            c@.answer is None,
            c@.votes.len() == 0,
            c@.rounds == 0,
    {
        let c = Coordinator {
            registry: Vec::new(),
            question: None,
            answer: None,
            votes: Vec::new(),
            rounds: 0,
        };
        proof {
            assert(c@.registry =~= Seq::<ResponderModel>::empty());
        }
        c
    }

    /// How many responders are registered.
    pub fn registry_len(&self) -> (n: usize)
        ensures
            n == self@.registry.len(),
    {
        self.registry.len()
    }

    /// Record the question and direct it at the responder of the caller's
    /// choice. This is the deterministic seam under `submit`, which draws the
    /// choice at random; tests use it to force a selection.
    pub fn submit_choosing(&mut self, question: String, chosen: usize) -> (ack: bool)
        requires
            old(self)@.wf(),
            chosen < old(self)@.registry.len(),
        ensures
            ack,
            final(self)@.wf(),
            final(self)@ == old(self)@.after_submit(question@),
    {
        self.question = Some(question);
        proof {
            assert(self@ =~= old(self)@.after_submit(question@));
        }
        true
    }

    /// Submit a question: pick one registered responder uniformly at random
    /// and return its index, for the caller to forward the question to. A
    /// submission against an empty registry is rejected and changes nothing.
    ///
    /// A submission while an earlier round is still in flight (no reset in
    /// between) replaces the question but keeps the old answer and tally, so
    /// replies to the old round are then counted against the new one. The
    /// contract states exactly that; resolving it differently is a deliberate
    /// open question of the protocol, not something this type smooths over.
    pub fn submit(&mut self, question: String) -> (chosen: Option<usize>)
        requires
            old(self)@.wf(),
        ensures
            final(self)@.wf(),
            chosen is Some <==> old(self)@.registry.len() > 0,
            chosen is None ==> final(self)@ == old(self)@,
            chosen matches Some(i) ==> i < old(self)@.registry.len()
                && final(self)@ == old(self)@.after_submit(question@),
    {
        let n = self.registry.len();
        if n == 0 {
            return None;
        }
        let i = random_below(n);
        self.submit_choosing(question, i);
        Some(i)
    }

    /// Wipe the tally for a new evaluation round.
    fn clear_votes(&mut self)
        requires
            old(self)@.wf(),
        ensures
            final(self)@.registry == old(self)@.registry,
            final(self)@.question == old(self)@.question,
            final(self)@.answer == old(self)@.answer,
            final(self)@.rounds == old(self)@.rounds,
            final(self)@.votes == old(self)@.cleared_votes(),
    {
        let n = self.registry.len();
        let mut blank: Vec<Option<Verdict>> = Vec::new();
        let mut i: usize = 0;
        while i < n
            invariant
                i <= n,
                blank@ =~= Seq::new(i as nat, |k: int| None::<Verdict>),
            decreases n - i,
        {
            blank.push(None);
            i += 1;
        }
        self.votes = blank;
        proof {
            assert(self@.votes =~= old(self)@.cleared_votes());
        }
    }

    /// Wipe all round state: the registry survives, question, answer, tally
    /// and round counter return to their initial empty values. The driver
    /// calls this between questions; the coordinator never resets itself.
    pub fn reset(&mut self) -> (ack: bool)
        requires
            old(self)@.wf(),
        ensures
            ack,
            final(self)@.wf(),
            final(self)@ == old(self)@.after_reset(),
    {
        self.clear_votes();
        self.question = None;
        self.answer = None;
        self.rounds = 0;
        proof {
            assert(self@ =~= old(self)@.after_reset());
        }
        true
    }

    /// Register a responder. A new name is appended to the registry with no
    /// vote in the current round: a late registration takes no retroactive
    /// part in an in-flight tally, though it does raise the number of votes a
    /// round needs to complete. Re-registering an existing name replaces that
    /// responder and leaves the tally untouched.
    pub fn register(&mut self, responder: Responder) -> (ack: bool)
        requires
            old(self)@.wf(),
        ensures
            ack,
            final(self)@.wf(),
            final(self)@.question == old(self)@.question,
            final(self)@.answer == old(self)@.answer,
            final(self)@.rounds == old(self)@.rounds,
            old(self)@.has_name(responder@.name) ==> exists|j: int|
                0 <= j < old(self)@.registry.len()
                    && old(self)@.registry[j].name == responder@.name
                    && final(self)@.registry == old(self)@.registry.update(j, responder@)
                    && final(self)@.votes == old(self)@.votes,
            !old(self)@.has_name(responder@.name) ==> {
                &&& final(self)@.registry == old(self)@.registry.push(responder@)
                &&& final(self)@.votes == old(self)@.votes.push(None)
            },
    {
        let n = self.registry.len();
        let mut j: usize = 0;
        while j < n
            invariant
                j <= n,
                n == self.registry.len(),
                self@ == old(self)@,
                self@.wf(),
                forall|k: int| 0 <= k < j ==> self@.registry[k].name != responder@.name,
            decreases n - j,
        {
            if self.registry[j].name == responder.name {
                let ghost pre = self@;
                let ghost slot = j as int;
                self.registry[j] = responder;
                proof {
                    assert(self@.registry =~= pre.registry.update(slot, responder@));
                    assert(self@.registry[slot].name == pre.registry[slot].name);
                    assert(forall|a: int, b: int|
                        0 <= a < b < self@.registry.len()
                            ==> self@.registry[a].name != self@.registry[b].name);
                }
                return true;
            }
            j += 1;
        }
        let ghost pre = self@;
        self.registry.push(responder);
        self.votes.push(None);
        proof {
            assert(self@.registry =~= pre.registry.push(responder@));
            assert(forall|a: int, b: int|
                0 <= a < b < self@.registry.len()
                    ==> self@.registry[a].name != self@.registry[b].name);
            assert forall|i: int|
                0 <= i < self@.votes.len() && self@.votes[i] is Some
                    implies self@.answer is Some by {
                assert(pre.votes[i] is Some);
            }
        }
        true
    }

    /// Record the initial answer to the current question: the candidate is
    /// stored, the tally is cleared, the round counter starts, and every
    /// registered responder is owed an evaluation request from the caller.
    /// An initial answer belongs to a round counter below the cap — it
    /// arrives right after a submission, where the counter is zero — which
    /// also keeps the counter from overflowing.
    pub fn handle_answered(&mut self, text: String) -> (ack: bool)
        requires
            old(self)@.wf(),
            old(self)@.question is Some,
            old(self)@.rounds < MAX_ROUNDS,
        ensures
            ack,
            final(self)@.wf(),
            final(self)@ == old(self)@.after_answer(text@),
    {
        self.answer = Some(text);
        self.rounds = self.rounds + 1;
        self.clear_votes();
        proof {
            assert(self@ =~= old(self)@.after_answer(text@));
        }
        true
    }

    /// The indices of the responders whose current vote asks for refinement.
    fn rejecters(&self) -> (r: Vec<usize>)
        ensures
            forall|k: int| 0 <= k < r@.len()
                ==> r@[k] < self@.votes.len()
                    && self@.votes[#[trigger] r@[k] as int] == Some(Verdict::NeedsRefinement),
            forall|i: int|
                0 <= i < self@.votes.len() && self@.votes[i] == Some(Verdict::NeedsRefinement)
                    ==> r@.contains(i as usize),
    {
        let n = self.votes.len();
        let mut r: Vec<usize> = Vec::new();
        let mut i: usize = 0;
        while i < n
            invariant
                i <= n,
                n == self@.votes.len(),
                forall|k: int| 0 <= k < r@.len()
                    ==> r@[k] < n
                        && self@.votes[#[trigger] r@[k] as int] == Some(Verdict::NeedsRefinement),
                forall|j: int|
                    0 <= j < i && self@.votes[j] == Some(Verdict::NeedsRefinement)
                        ==> r@.contains(j as usize),
            decreases n - i,
        {
            match self.votes[i] {
                Some(Verdict::NeedsRefinement) => {
                    let ghost prefix = r@;
                    r.push(i);
                    proof {
                        assert(r@[prefix.len() as int] == i);
                        assert forall|j: int|
                            0 <= j < i + 1 && self@.votes[j] == Some(Verdict::NeedsRefinement)
                                implies r@.contains(j as usize) by {
                            if j < i {
                                let k = choose|k: int|
                                    0 <= k < prefix.len() && prefix[k] == j as usize;
                                assert(r@[k] == j as usize);
                            } else {
                                assert(r@[prefix.len() as int] == j as usize);
                            }
                        }
                    }
                },
                _ => {},
            }
            i += 1;
        }
        r
    }

    /// Record one responder's vote. When this vote completes the round the
    /// decision falls: unanimous acceptance finalizes the answer and nothing
    /// more is owed, otherwise one responder is chosen uniformly at random
    /// among those that asked for refinement and its index is returned, for
    /// the caller to send it a revision request carrying the current question
    /// and answer. An incomplete round never triggers a revision. The chosen
    /// dissenter provably exists: verdicts are two-valued, so a completed,
    /// not-unanimous round holds at least one refinement vote.
    ///
    /// The coordinator attributes a vote to whatever index the caller hands
    /// it: it cannot tell a stale reply from a previous round apart from a
    /// current one. That hazard is inherited from the protocol and left
    /// visible rather than patched here.
    pub fn handle_evaluated(&mut self, responder: usize, verdict: Verdict) -> (revise: Option<
        usize,
    >)
        requires
            old(self)@.wf(),
            responder < old(self)@.registry.len(),
            old(self)@.answer is Some,
        ensures
            final(self)@.wf(),
            final(self)@ == old(self)@.after_vote(responder as int, verdict),
            ({
                let m = old(self)@.after_vote(responder as int, verdict);
                match revise {
                    Some(t) => m.round_complete() && !m.all_accept() && t < m.registry.len()
                        && m.votes[t as int] == Some(Verdict::NeedsRefinement),
                    None => !(m.round_complete() && !m.all_accept()),
                }
            }),
    {
        self.votes[responder] = Some(verdict);
        proof {
            assert(self@ =~= old(self)@.after_vote(responder as int, verdict));
            assert(self@.wf());
        }
        let n = self.votes.len();
        let mut i: usize = 0;
        while i < n
            invariant
                i <= n,
                n == self@.votes.len(),
                self@ == old(self)@.after_vote(responder as int, verdict),
                self@.wf(),
                forall|j: int| 0 <= j < i ==> self@.votes[j] is Some,
            decreases n - i,
        {
            if self.votes[i].is_none() {
                return None;
            }
            i += 1;
        }
        let mut all_accept = true;
        let mut j: usize = 0;
        while j < n
            invariant
                j <= n,
                n == self@.votes.len(),
                self@ == old(self)@.after_vote(responder as int, verdict),
                self@.wf(),
                self@.round_complete(),
                all_accept == (forall|k: int| 0 <= k < j ==> self@.votes[k] == Some(
                    Verdict::Accept,
                )),
            decreases n - j,
        {
            match self.votes[j] {
                Some(Verdict::Accept) => {},
                _ => {
                    all_accept = false;
                },
            }
            j += 1;
        }
        if all_accept {
            return None;
        }
        let dissenting = self.rejecters();
        proof {
            let m = self@;
            let w = choose|k: int| 0 <= k < m.votes.len() && m.votes[k] != Some(Verdict::Accept);
            assert(m.votes[w] is Some);
            assert(m.votes[w] == Some(Verdict::NeedsRefinement));
            assert(dissenting@.contains(w as usize));
        }
        let pick = random_below(dissenting.len());
        Some(dissenting[pick])
    }

    /// Record a revised answer. Below the round cap the tally is cleared, the
    /// round counter advances and the caller owes every registered responder
    /// an evaluation request for the new candidate, signalled by a true
    /// result. At the cap the loop is broken instead: every recorded vote is
    /// forced to Accept so a pending readiness poll observes success, and no
    /// further evaluation is requested.
    pub fn handle_revised(&mut self, text: String) -> (rebroadcast: bool)
        requires
            old(self)@.wf(),
            old(self)@.question is Some,
        ensures
            final(self)@.wf(),
            final(self)@ == old(self)@.after_revision(text@),
            rebroadcast == (old(self)@.rounds < MAX_ROUNDS),
    {
        self.answer = Some(text);
        if self.rounds < MAX_ROUNDS {
            self.rounds = self.rounds + 1;
            self.clear_votes();
            proof {
                assert(self@ =~= old(self)@.after_revision(text@));
            }
            true
        } else {
            let n = self.votes.len();
            let mut forced: Vec<Option<Verdict>> = Vec::new();
            let mut i: usize = 0;
            while i < n
                invariant
                    i <= n,
                    n == self.votes@.len(),
                    self.votes@ == old(self)@.votes,
                    forced@ =~= Seq::new(
                        i as nat,
                        |k: int| if old(self)@.votes[k] is Some {
                            Some(Verdict::Accept)
                        } else {
                            None
                        },
                    ),
                decreases n - i,
            {
                let entry = match self.votes[i] {
                    Some(_) => Some(Verdict::Accept),
                    None => None,
                };
                forced.push(entry);
                i += 1;
            }
            self.votes = forced;
            proof {
                assert(self@ =~= old(self)@.after_revision(text@));
            }
            false
        }
    }

    /// A readiness query: true exactly when an answer exists and every
    /// registered responder has a recorded vote of Accept, with at least one
    /// vote recorded. A pure read.
    pub fn is_ready(&self) -> (r: bool)
        ensures
            r == self@.ready(),
    {
        if self.answer.is_none() {
            return false;
        }
        let n = self.votes.len();
        if n == 0 {
            return false;
        }
        let mut i: usize = 0;
        while i < n
            invariant
                i <= n,
                n == self@.votes.len(),
                forall|j: int| 0 <= j < i ==> self@.votes[j] == Some(Verdict::Accept),
            decreases n - i,
        {
            match self.votes[i] {
                Some(Verdict::Accept) => {},
                _ => {
                    return false;
                },
            }
            i += 1;
        }
        true
    }

    /// The current answer, or the not-ready sentinel when none exists yet.
    /// Callers must not mistake the sentinel for a real answer. A pure read.
    pub fn fetch_answer(&self) -> (r: String)
        ensures
            self@.answer matches Some(a) ==> r@ == a,
            self@.answer is None ==> r@ == not_ready_message(),
    {
        match &self.answer {
            Some(a) => a.clone(),
            None => "System error: Requested answer when answer was not ready.".to_owned(),
        }
    }

    /// Whether a candidate answer has been produced for the current question.
    pub fn has_answer(&self) -> (r: bool)
        ensures
            r == (self@.answer is Some),
    {
        self.answer.is_some()
    }

    /// Whether the current round's tally holds no vote at all.
    pub fn no_votes_recorded(&self) -> (r: bool)
        ensures
            r == self@.no_votes(),
    {
        let n = self.votes.len();
        let mut i: usize = 0;
        while i < n
            invariant
                i <= n,
                n == self@.votes.len(),
                forall|j: int| 0 <= j < i ==> self@.votes[j] is None,
            decreases n - i,
        {
            if self.votes[i].is_some() {
                return false;
            }
            i += 1;
        }
        true
    }

    /// How many evaluation rounds have run for the current question.
    pub fn rounds_run(&self) -> (n: u32)
        ensures
            n == self@.rounds,
    {
        self.rounds
    }
}

} // verus!
