//! One mining round: try random nonces until a solution lands under the
//! target or the budget of nonces is used up.
//!
//! [`RoundSearch`] decides what to do next. Solving a nonce on the device and
//! judging a solution against the target are left to the caller; drawing the
//! nonces and verifying the solutions are done here, by [`RoundSearch::step`].

use vstd::prelude::*;

use crate::draws::NonceSource;
use crate::validity::is_valid_solution;
use crate::wire::compress_indices;

verus! {

/// A solution that lands under the target, with the nonce it solves.
#[derive(Debug, PartialEq, Eq)]
pub struct RaceWinner {
    pub nonce: [u8; 32],
    pub soln_indices: Vec<u8>,
}

/// How a round ended.
#[derive(Debug, PartialEq, Eq)]
pub struct RoundOutcome {
    pub winner: Option<RaceWinner>,
    pub nonces_tried: u64,
}

/// What a round is told.
#[derive(Debug, PartialEq, Eq)]
pub enum SearchEvent {
    /// The round begins.
    Start,
    /// A nonce was drawn.
    Nonce([u8; 32]),
    /// The nonce was solved, with these candidates.
    Candidates(Vec<[u32; 32]>),
    /// The solution was verified.
    Verified(bool),
    /// The solution was held against the target.
    Judged(bool),
}

/// What a round asks for.
#[derive(Debug, PartialEq, Eq)]
pub enum SearchAction {
    /// Draw a nonce.
    Draw,
    /// Solve a nonce.
    Solve([u8; 32]),
    /// Verify a solution.
    Verify(Vec<u8>),
    /// Hold a solution against the target.
    Judge(Vec<u8>),
    /// The round is over.
    Stop(RoundOutcome),
}

/// The winner as a nonce and a solution on the wire.
pub ghost struct Winner {
    pub nonce: Seq<u8>,
    pub soln: Seq<u8>,
}

pub ghost struct Outcome {
    pub winner: Option<Winner>,
    pub nonces_tried: int,
}

pub ghost enum Event {
    Start,
    Nonce(Seq<u8>),
    /// The candidates, each on the wire.
    Candidates(Seq<Seq<u8>>),
    Verified(bool),
    Judged(bool),
}

pub ghost enum Action {
    Draw,
    Solve(Seq<u8>),
    Verify(Seq<u8>),
    Judge(Seq<u8>),
    Stop(Outcome),
}

/// What a round waits for.
pub ghost enum Phase {
    Idle,
    Drawing,
    Solving,
    Verifying(Seq<u8>),
    Judging(Seq<u8>),
    Over,
}

/// The state of a round: `queue` holds the candidates of the nonce that were
/// not looked at yet.
pub ghost struct SearchState {
    pub max_nonces: int,
    pub tried: int,
    pub nonce: Seq<u8>,
    pub queue: Seq<Seq<u8>>,
    pub phase: Phase,
}

/// The event is the one that the round waits for.
pub open spec fn fits(phase: Phase, event: Event) -> bool {
    match event {
        Event::Start => phase is Idle,
        Event::Nonce(_) => phase is Drawing,
        Event::Candidates(_) => phase is Solving,
        Event::Verified(_) => phase is Verifying,
        Event::Judged(_) => phase is Judging,
    }
}

/// The next candidate is verified; without one another nonce is drawn, and
/// once the budget is used up the round ends without a winner.
pub open spec fn proceed(s: SearchState) -> (SearchState, Action) {
    if s.queue.len() > 0 {
        (
            SearchState { queue: s.queue.skip(1), phase: Phase::Verifying(s.queue[0]), ..s },
            Action::Verify(s.queue[0]),
        )
    } else if s.tried < s.max_nonces {
        (SearchState { tried: s.tried + 1, phase: Phase::Drawing, ..s }, Action::Draw)
    } else {
        (
            SearchState { phase: Phase::Over, ..s },
            Action::Stop(Outcome { winner: None, nonces_tried: s.tried }),
        )
    }
}

/// What a round does on an event: a candidate that verifies is judged, and one
/// that is judged to be under the target wins.
pub open spec fn transition(s: SearchState, event: Event) -> (SearchState, Action) {
    match event {
        Event::Start => proceed(s),
        Event::Nonce(nonce) => (
            SearchState { nonce, phase: Phase::Solving, ..s },
            Action::Solve(nonce),
        ),
        Event::Candidates(queue) => proceed(SearchState { queue, ..s }),
        Event::Verified(valid) => if valid {
            (
                SearchState { phase: Phase::Judging(s.phase->Verifying_0), ..s },
                Action::Judge(s.phase->Verifying_0),
            )
        } else {
            proceed(s)
        },
        Event::Judged(under) => if under {
            (
                SearchState { phase: Phase::Over, ..s },
                Action::Stop(
                    Outcome {
                        winner: Some(Winner { nonce: s.nonce, soln: s.phase->Judging_0 }),
                        nonces_tried: s.tried,
                    },
                ),
            )
        } else {
            proceed(s)
        },
    }
}

/// The candidates on the wire.
pub open spec fn on_the_wire(n: u32, k: u32, candidates: Seq<[u32; 32]>) -> Seq<Seq<u8>> {
    Seq::new(
        candidates.len(),
        |i: int| crate::wire::wire_bytes(candidates[i]@, crate::wire::index_width(n, k)),
    )
}

impl RoundOutcome {
    pub open spec fn model(self) -> Outcome {
        Outcome {
            winner: match self.winner {
                Some(w) => Some(Winner { nonce: w.nonce@, soln: w.soln_indices@ }),
                None => None,
            },
            nonces_tried: self.nonces_tried as int,
        }
    }
}

impl SearchEvent {
    /// The event, with candidates for the parameters `(n, k)`.
    pub open spec fn model(self, n: u32, k: u32) -> Event {
        match self {
            SearchEvent::Start => Event::Start,
            SearchEvent::Nonce(nonce) => Event::Nonce(nonce@),
            SearchEvent::Candidates(c) => Event::Candidates(on_the_wire(n, k, c@)),
            SearchEvent::Verified(valid) => Event::Verified(valid),
            SearchEvent::Judged(under) => Event::Judged(under),
        }
    }
}

impl SearchAction {
    pub open spec fn model(self) -> Action {
        match self {
            SearchAction::Draw => Action::Draw,
            SearchAction::Solve(nonce) => Action::Solve(nonce@),
            SearchAction::Verify(soln) => Action::Verify(soln@),
            SearchAction::Judge(soln) => Action::Judge(soln@),
            SearchAction::Stop(outcome) => Action::Stop(outcome.model()),
        }
    }
}

#[derive(Debug, PartialEq, Eq)]
enum Waiting {
    Start,
    Nonce,
    Candidates,
    Verdict(Vec<u8>),
    Judgement(Vec<u8>),
    Nothing,
}

/// A round in progress.
#[derive(PartialEq, Eq)]
pub struct RoundSearch {
    n: u32,
    k: u32,
    input: [u8; 81],
    max_nonces: u64,
    tried: u64,
    nonce: [u8; 32],
    candidates: Vec<[u32; 32]>,
    next: usize,
    waiting: Waiting,
    source: NonceSource,
}

impl RoundSearch {
    pub closed spec fn n(self) -> u32 {
        self.n
    }

    pub closed spec fn k(self) -> u32 {
        self.k
    }

    /// The input block of the round.
    pub closed spec fn input(self) -> Seq<u8> {
        self.input@
    }

    /// Where the round draws its nonces from.
    pub closed spec fn source(self) -> NonceSource {
        self.source
    }

    /// The nonces that the round drew so far.
    pub open spec fn draws(self) -> Seq<Seq<u8>> {
        self.source().drawn()
    }

    pub closed spec fn state(self) -> SearchState {
        SearchState {
            max_nonces: self.max_nonces as int,
            tried: self.tried as int,
            nonce: self.nonce@,
            queue: on_the_wire(self.n, self.k, self.candidates@).skip(self.next as int),
            phase: match self.waiting {
                Waiting::Start => Phase::Idle,
                Waiting::Nonce => Phase::Drawing,
                Waiting::Candidates => Phase::Solving,
                Waiting::Verdict(soln) => Phase::Verifying(soln@),
                Waiting::Judgement(soln) => Phase::Judging(soln@),
                Waiting::Nothing => Phase::Over,
            },
        }
    }

    /// Candidates are queued only if they fit the wire format and once the
    /// round began, and no more nonces were tried than the budget allows.
    pub closed spec fn wf(self) -> bool {
        &&& self.next <= self.candidates@.len()
        &&& self.next < self.candidates@.len() ==> crate::wire::is_packable(self.n, self.k)
        &&& self.waiting is Start ==> self.candidates@.len() == 0
        &&& self.tried <= self.max_nonces
    }

    /// A round over at most `max_nonces` nonces, for the parameters `(n, k)`
    /// and the input block `input`.
    pub fn new(n: u32, k: u32, input: &[u8; 81], max_nonces: u64) -> (search: RoundSearch)
        ensures
            search.wf(),
            search.n() == n,
            search.k() == k,
            search.input() == input@,
            search.source().drawn() == Seq::<Seq<u8>>::empty(),
            search.state().max_nonces == max_nonces,
            search.state().tried == 0,
            search.state().queue.len() == 0,
            search.state().phase == Phase::Idle,
    {
        RoundSearch {
            n,
            k,
            input: *input,
            max_nonces,
            tried: 0,
            nonce: [0u8; 32],
            candidates: Vec::new(),
            next: 0,
            waiting: Waiting::Start,
            source: NonceSource::new(),
        }
    }

    fn proceed(&mut self) -> (action: SearchAction)
        requires
            old(self).wf(),
        ensures
            final(self).wf(),
            final(self).n() == old(self).n(),
            final(self).k() == old(self).k(),
            final(self).input() == old(self).input(),
            final(self).source().drawn() == old(self).source().drawn(),
            (final(self).state(), action.model()) == proceed(old(self).state()),
    {
        let ghost wired = on_the_wire(self.n, self.k, self.candidates@);
        if self.next < self.candidates.len() {
            let soln = compress_indices(self.n, self.k, &self.candidates[self.next]);
            let copy = soln.clone();
            assert(copy@ == soln@);
            self.next = self.next + 1;
            self.waiting = Waiting::Verdict(copy);
            assert(self.state().queue =~= old(self).state().queue.skip(1));
            assert(old(self).state().queue[0] == wired[old(self).next as int]);
            SearchAction::Verify(soln)
        } else if self.tried < self.max_nonces {
            self.tried = self.tried + 1;
            self.waiting = Waiting::Nonce;
            SearchAction::Draw
        } else {
            self.waiting = Waiting::Nothing;
            SearchAction::Stop(RoundOutcome { winner: None, nonces_tried: self.tried })
        }
    }

    /// What the round does on `event`.
    pub fn advance(&mut self, event: SearchEvent) -> (action: SearchAction)
        requires
            old(self).wf(),
            fits(old(self).state().phase, event.model(old(self).n(), old(self).k())),
            event is Candidates ==> crate::wire::is_packable(old(self).n(), old(self).k()),
        ensures
            final(self).wf(),
            final(self).n() == old(self).n(),
            final(self).k() == old(self).k(),
            final(self).input() == old(self).input(),
            final(self).source().drawn() == old(self).source().drawn(),
            event matches SearchEvent::Nonce(nonce) ==> action == SearchAction::Solve(nonce)
                && final(self).state().nonce == nonce@,
            event == SearchEvent::Verified(true) ==> {
                &&& action matches SearchAction::Judge(soln)
                &&& old(self).state().phase == Phase::Verifying(soln@)
            },
            event == SearchEvent::Judged(true) ==> {
                &&& action matches SearchAction::Stop(outcome)
                &&& outcome.winner matches Some(winner)
                &&& winner.nonce@ == old(self).state().nonce
                &&& old(self).state().phase == Phase::Judging(winner.soln_indices@)
                &&& outcome.nonces_tried == old(self).state().tried
            },
            action matches SearchAction::Stop(outcome) ==> (outcome.winner is Some <==> event
                == SearchEvent::Judged(true)) && (outcome.winner is None ==> outcome.nonces_tried
                == old(self).state().max_nonces == old(self).state().tried),
            (final(self).state(), action.model()) == transition(
                old(self).state(),
                event.model(old(self).n(), old(self).k()),
            ),
    {
        match event {
            SearchEvent::Start => self.proceed(),
            SearchEvent::Nonce(nonce) => {
                self.nonce = nonce;
                self.waiting = Waiting::Candidates;
                SearchAction::Solve(nonce)
            },
            SearchEvent::Candidates(candidates) => {
                self.candidates = candidates;
                self.next = 0;
                let ghost wired = on_the_wire(self.n, self.k, self.candidates@);
                assert(wired.skip(0) =~= wired);
                self.proceed()
            },
            SearchEvent::Verified(valid) => {
                if valid {
                    if let Waiting::Verdict(soln) = &self.waiting {
                        let kept = soln.clone();
                        let shown = soln.clone();
                        assert(kept@ == shown@);
                        self.waiting = Waiting::Judgement(kept);
                        return SearchAction::Judge(shown);
                    }
                }
                self.proceed()
            },
            SearchEvent::Judged(under) => {
                if under {
                    if let Waiting::Judgement(soln) = &self.waiting {
                        let soln_indices = soln.clone();
                        self.waiting = Waiting::Nothing;
                        return SearchAction::Stop(
                            RoundOutcome {
                                winner: Some(RaceWinner { nonce: self.nonce, soln_indices }),
                                nonces_tried: self.tried,
                            },
                        );
                    }
                }
                self.proceed()
            },
        }
    }

    /// What the round asks of the caller on `event`, after it has verified
    /// solutions and drawn a nonce as far as it had to.
    pub fn step(&mut self, event: SearchEvent) -> (action: SearchAction)
        requires
            old(self).wf(),
            fits(old(self).state().phase, event.model(old(self).n(), old(self).k())),
            event is Start || event is Candidates || event is Judged,
            event is Candidates ==> crate::gpu::takes_params(old(self).n(), old(self).k()),
            event is Judged ==> crate::gpu::takes_params(old(self).n(), old(self).k()),
        ensures
            final(self).wf(),
            final(self).n() == old(self).n(),
            final(self).k() == old(self).k(),
            final(self).input() == old(self).input(),
            action is Solve || action is Judge || action is Stop,
            action is Solve ==> final(self).state().phase is Solving,
            action matches SearchAction::Solve(nonce) ==> final(self).source().drawn() == old(
                self,
            ).source().drawn().push(nonce@),
            action !is Solve ==> final(self).source().drawn() == old(self).source().drawn(),
            action matches SearchAction::Solve(nonce) ==> final(self).state().nonce == nonce@
                && final(self).state().tried == old(self).state().tried + 1,
            action !is Solve ==> final(self).state().tried == old(self).state().tried,
            final(self).state().max_nonces == old(self).state().max_nonces,
            action matches SearchAction::Judge(soln) ==> crate::validity::equihash_accepts(
                old(self).n(),
                old(self).k(),
                old(self).input(),
                final(self).state().nonce,
                soln@,
            ),
            event == SearchEvent::Judged(true) ==> {
                &&& action matches SearchAction::Stop(outcome)
                &&& outcome.winner matches Some(winner)
                &&& winner.nonce@ == old(self).state().nonce
                &&& old(self).state().phase == Phase::Judging(winner.soln_indices@)
                &&& outcome.nonces_tried == old(self).state().tried
            },
            action matches SearchAction::Stop(outcome) ==> (outcome.winner is Some <==> event
                == SearchEvent::Judged(true)) && (outcome.winner is None ==> outcome.nonces_tried
                == old(self).state().max_nonces == old(self).state().tried),
            action matches SearchAction::Judge(soln) ==> final(self).state().phase
                == Phase::Judging(soln@),
            action is Stop ==> final(self).state().phase is Over,
            ({
                let (s, a) = screened(
                    old(self).n(),
                    old(self).k(),
                    old(self).input(),
                    transition(old(self).state(), event.model(old(self).n(), old(self).k())),
                );
                match a {
                    Action::Draw => action matches SearchAction::Solve(nonce) && (
                        final(self).state(),
                        action.model(),
                    ) == transition(s, Event::Nonce(nonce@)),
                    _ => (final(self).state(), action.model()) == (s, a),
                }
            }),
    {
        let ghost told = event.model(self.n, self.k);
        let ghost start = transition(self.state(), told);
        proof {
            crate::wire::wire_length_of_96_5(Seq::new(32, |i: int| 0u32));
        }
        let mut action = self.advance(event);
        loop
            invariant
                self.wf(),
                self.n() == old(self).n(),
                self.k() == old(self).k(),
                self.input() == old(self).input(),
                start == transition(old(self).state(), told),
                told == event.model(old(self).n(), old(self).k()),
                screened(self.n(), self.k(), self.input(), (self.state(), action.model()))
                    == screened(self.n(), self.k(), self.input(), start),
                action is Verify ==> crate::gpu::takes_params(self.n(), self.k()),
                action matches SearchAction::Verify(soln) ==> self.state().phase
                    == Phase::Verifying(soln@),
                action is Draw ==> self.state().phase is Drawing,
                action !is Solve,
                action matches SearchAction::Judge(soln) ==> self.state().phase
                    == Phase::Judging(soln@),
                action is Stop ==> self.state().phase is Over,
                self.source().drawn() == old(self).source().drawn(),
                self.state().max_nonces == old(self).state().max_nonces,
                self.state().tried == old(self).state().tried + (if action is Draw {
                    1int
                } else {
                    0
                }),
                action matches SearchAction::Judge(soln) ==> crate::validity::equihash_accepts(
                    self.n(),
                    self.k(),
                    self.input(),
                    self.state().nonce,
                    soln@,
                ),
                event == SearchEvent::Judged(true) ==> {
                    &&& action matches SearchAction::Stop(outcome)
                    &&& outcome.winner matches Some(winner)
                    &&& winner.nonce@ == old(self).state().nonce
                    &&& old(self).state().phase == Phase::Judging(winner.soln_indices@)
                    &&& outcome.nonces_tried == old(self).state().tried
                },
                action matches SearchAction::Stop(outcome) ==> (outcome.winner is Some <==> event
                    == SearchEvent::Judged(true)) && (outcome.winner is None
                    ==> outcome.nonces_tried == old(self).state().max_nonces == old(
                    self,
                ).state().tried),
            decreases self.state().queue.len() + (if action is Verify {
                1int
            } else {
                0
            }),
        {
            let valid = match &action {
                SearchAction::Verify(soln) => is_valid_solution(
                    self.n,
                    self.k,
                    self.input.as_slice(),
                    self.nonce.as_slice(),
                    soln.as_slice(),
                ),
                SearchAction::Draw => {
                    let nonce = random_nonce(&mut self.source);
                    return self.advance(SearchEvent::Nonce(nonce));
                },
                _ => {
                    return action;
                },
            };
            action = self.advance(SearchEvent::Verified(valid));
        }
    }
}

/// Draws a nonce from `rand::thread_rng`, with `RngCore::fill_bytes`. The draw
/// goes on the record of the source; nothing is claimed of its bytes.
#[verifier::external_body]
pub(crate) fn random_nonce(source: &mut NonceSource) -> (nonce: [u8; 32])
    ensures
        final(source).drawn() == old(source).drawn().push(nonce@),
{
    let _ = source;
    let mut nonce = [0u8; 32];
    rand::RngCore::fill_bytes(&mut rand::thread_rng(), &mut nonce);
    nonce
}

/// A round after the verdicts on the candidates that it wants verified: those
/// that are refused are passed over.
pub open spec fn screened(
    n: u32,
    k: u32,
    input: Seq<u8>,
    at: (SearchState, Action),
) -> (SearchState, Action)
    decreases
            at.0.queue.len() + (if at.1 is Verify {
                1int
            } else {
                0
            }),
{
    let (s, a) = at;
    match a {
        Action::Verify(soln) => {
            let valid = crate::validity::equihash_accepts(n, k, input, s.nonce, soln);
            screened(n, k, input, transition(s, Event::Verified(valid)))
        },
        _ => at,
    }
}

/// Everything a round meets: the nonces in the order in which they are drawn,
/// the candidates that each is solved with, and the verdicts on a candidate.
pub ghost struct World {
    pub nonce: spec_fn(int) -> Seq<u8>,
    pub candidates: spec_fn(int) -> Seq<Seq<u8>>,
    pub valid: spec_fn(Seq<u8>, Seq<u8>) -> bool,
    pub under_target: spec_fn(Seq<u8>) -> bool,
}

/// What the world answers to an action.
pub open spec fn answer(world: World, s: SearchState, action: Action) -> Event {
    match action {
        Action::Draw => Event::Nonce((world.nonce)(s.tried - 1)),
        Action::Solve(_) => Event::Candidates((world.candidates)(s.tried - 1)),
        Action::Verify(soln) => Event::Verified((world.valid)(s.nonce, soln)),
        Action::Judge(soln) => Event::Judged((world.under_target)(soln)),
        Action::Stop(_) => Event::Start,
    }
}

/// How a round ends in a world, if it goes on from here.
pub open spec fn played(world: World, at: (SearchState, Action)) -> Outcome
    decreases
            at.0.max_nonces - at.0.tried,
            (match at.1 {
                Action::Draw => 3int,
                Action::Solve(_) => 2,
                Action::Stop(_) => 0,
                _ => 1,
            }),
            2 * at.0.queue.len() + (if at.1 is Verify {
                1int
            } else {
                0
            }),
    when 0 <= at.0.tried <= at.0.max_nonces
{
    let (s, a) = at;
    match a {
        Action::Stop(outcome) => outcome,
        _ => played(world, transition(s, answer(world, s, a))),
    }
}

/// The first of the candidates of a nonce that is valid and under the target.
pub open spec fn first_winner(world: World, nonce: Seq<u8>, candidates: Seq<Seq<u8>>) -> Option<
    Seq<u8>,
>
    decreases candidates.len(),
{
    if candidates.len() == 0 {
        None
    } else if (world.valid)(nonce, candidates[0]) && (world.under_target)(candidates[0]) {
        Some(candidates[0])
    } else {
        first_winner(world, nonce, candidates.skip(1))
    }
}

/// The winner of the first nonce, from nonce `i` on, that has one.
pub open spec fn first_outcome(world: World, i: int, max_nonces: int) -> Outcome
    decreases max_nonces - i,
{
    if i >= max_nonces {
        Outcome { winner: None, nonces_tried: i }
    } else {
        match first_winner(world, (world.nonce)(i), (world.candidates)(i)) {
            Some(soln) => Outcome {
                winner: Some(Winner { nonce: (world.nonce)(i), soln }),
                nonces_tried: i + 1,
            },
            None => first_outcome(world, i + 1, max_nonces),
        }
    }
}

proof fn lemma_played(world: World, s: SearchState)
    requires
        0 <= s.tried <= s.max_nonces,
        s.queue.len() > 0 ==> s.nonce == (world.nonce)(s.tried - 1),
    ensures
        played(world, proceed(s)) == (match first_winner(world, s.nonce, s.queue) {
            Some(soln) => Outcome {
                winner: Some(Winner { nonce: s.nonce, soln }),
                nonces_tried: s.tried,
            },
            None => first_outcome(world, s.tried, s.max_nonces),
        }),
    decreases s.max_nonces - s.tried, s.queue.len(),
{
    let (s1, a1) = proceed(s);
    if s.queue.len() > 0 {
        let soln = s.queue[0];
        let (s2, a2) = transition(s1, answer(world, s1, a1));
        assert(played(world, (s1, a1)) == played(world, (s2, a2)));
        let rest = SearchState { queue: s.queue.skip(1), ..s };
        lemma_played(world, rest);
        if (world.valid)(s.nonce, soln) {
            let (s3, a3) = transition(s2, answer(world, s2, a2));
            assert(played(world, (s2, a2)) == played(world, (s3, a3)));
            if !(world.under_target)(soln) {
                assert(proceed(s2) == proceed(rest));
            }
        } else {
            assert(proceed(s1) == proceed(rest));
        }
    } else if s.tried < s.max_nonces {
        let (s2, a2) = transition(s1, answer(world, s1, a1));
        let (s3, a3) = transition(s2, answer(world, s2, a2));
        assert(played(world, (s1, a1)) == played(world, (s2, a2)));
        assert(played(world, (s2, a2)) == played(world, (s3, a3)));
        let solved = SearchState {
            tried: s.tried + 1,
            nonce: (world.nonce)(s.tried),
            queue: (world.candidates)(s.tried),
            ..s
        };
        lemma_played(world, solved);
        assert(proceed(SearchState { phase: Phase::Solving, ..solved }) == proceed(solved));
    }
}

/// A round returns the first solution, in the order of the nonces and of their
/// candidates, that is valid and under the target, with the number of nonces
/// tried up to then; and no winner, with the whole budget tried, if there is
/// no such solution.
pub proof fn round_returns_the_first_winner(world: World, s: SearchState)
    requires
        s.phase == Phase::Idle,
        s.tried == 0,
        s.queue.len() == 0,
        s.max_nonces >= 0,
    ensures
        played(world, transition(s, Event::Start)) == first_outcome(world, 0, s.max_nonces),
{
    lemma_played(world, s);
}

/// [`RoundSearch::step`] plays the round: where the solutions that count as
/// valid are those that `equihash` accepts, passing over the ones that it
/// refuses does not change how the round ends.
pub proof fn screening_keeps_the_outcome(
    world: World,
    n: u32,
    k: u32,
    input: Seq<u8>,
    at: (SearchState, Action),
)
    requires
        0 <= at.0.tried <= at.0.max_nonces,
        at.1 matches Action::Verify(soln) ==> at.0.phase == Phase::Verifying(soln),
        forall|nonce: Seq<u8>, soln: Seq<u8>|
            (world.valid)(nonce, soln) == #[trigger] crate::validity::equihash_accepts(
                n,
                k,
                input,
                nonce,
                soln,
            ),
    ensures
        played(world, screened(n, k, input, at)) == played(world, at),
    decreases
            at.0.queue.len() + (if at.1 is Verify {
                1int
            } else {
                0
            }),
{
    let (s, a) = at;
    if let Action::Verify(soln) = a {
        let valid = crate::validity::equihash_accepts(n, k, input, s.nonce, soln);
        assert(answer(world, s, a) == Event::Verified(valid));
        screening_keeps_the_outcome(world, n, k, input, transition(s, Event::Verified(valid)));
    }
}

/// The solution on the wire is valid for the nonce and under the target.
pub open spec fn wins(world: World, nonce: Seq<u8>, soln: Seq<u8>) -> bool {
    (world.valid)(nonce, soln) && (world.under_target)(soln)
}

proof fn lemma_first_winner(world: World, nonce: Seq<u8>, candidates: Seq<Seq<u8>>)
    ensures
        match first_winner(world, nonce, candidates) {
            Some(soln) => exists|j: int|
                {
                    &&& 0 <= j < candidates.len()
                    &&& #[trigger] candidates[j] == soln
                    &&& (world.valid)(nonce, soln) && (world.under_target)(soln)
                    &&& forall|m: int|
                        0 <= m < j ==> !((world.valid)(nonce, #[trigger] candidates[m]) && (
                        world.under_target)(candidates[m]))
                },
            None => forall|j: int|
                0 <= j < candidates.len() ==> !((world.valid)(nonce, #[trigger] candidates[j]) && (
                world.under_target)(candidates[j])),
        },
    decreases candidates.len(),
{
    if candidates.len() > 0 {
        let rest = candidates.skip(1);
        lemma_first_winner(world, nonce, rest);
        if wins(world, nonce, candidates[0]) {
        } else {
            match first_winner(world, nonce, rest) {
                Some(soln) => {
                    let j = choose|j: int|
                        {
                            &&& 0 <= j < rest.len()
                            &&& #[trigger] rest[j] == soln
                            &&& forall|m: int|
                                0 <= m < j ==> !((world.valid)(nonce, #[trigger] rest[m]) && (
                                world.under_target)(rest[m]))
                        };
                    assert(candidates[j + 1] == soln);
                    assert forall|m: int| 0 <= m < j + 1 implies !((world.valid)(
                        nonce,
                        #[trigger] candidates[m],
                    ) && (world.under_target)(candidates[m])) by {
                        if m > 0 {
                            assert(rest[m - 1] == candidates[m]);
                        }
                    }
                },
                None => {
                    assert forall|j: int| 0 <= j < candidates.len() implies !((world.valid)(
                        nonce,
                        #[trigger] candidates[j],
                    ) && (world.under_target)(candidates[j])) by {
                        if j > 0 {
                            assert(rest[j - 1] == candidates[j]);
                        }
                    }
                },
            }
        }
    }
}

/// No candidate of nonce `m` is both valid and under the target.
pub open spec fn is_barren(world: World, m: int) -> bool {
    forall|j: int|
        0 <= j < (world.candidates)(m).len() ==> !((world.valid)(
            (world.nonce)(m),
            #[trigger] (world.candidates)(m)[j],
        ) && (world.under_target)((world.candidates)(m)[j]))
}

proof fn lemma_first_outcome(world: World, i: int, max_nonces: int)
    requires
        0 <= i <= max_nonces,
    ensures
        i <= first_outcome(world, i, max_nonces).nonces_tried <= max_nonces,
        match first_outcome(world, i, max_nonces).winner {
            Some(w) => {
                let last = first_outcome(world, i, max_nonces).nonces_tried - 1;
                &&& i <= last
                &&& w.nonce == (world.nonce)(last)
                &&& exists|j: int|
                    {
                        &&& 0 <= j < (world.candidates)(last).len()
                        &&& #[trigger] (world.candidates)(last)[j] == w.soln
                        &&& (world.valid)(w.nonce, w.soln) && (world.under_target)(w.soln)
                        &&& forall|m: int|
                            0 <= m < j ==> !((world.valid)(
                                w.nonce,
                                #[trigger] (world.candidates)(last)[m],
                            ) && (world.under_target)((world.candidates)(last)[m]))
                    }
                &&& forall|m: int| i <= m < last ==> #[trigger] is_barren(world, m)
            },
            None => {
                &&& first_outcome(world, i, max_nonces).nonces_tried == max_nonces
                &&& forall|m: int| i <= m < max_nonces ==> #[trigger] is_barren(world, m)
            },
        },
    decreases max_nonces - i,
{
    if i < max_nonces {
        lemma_first_winner(world, (world.nonce)(i), (world.candidates)(i));
        lemma_first_outcome(world, i + 1, max_nonces);
        if first_winner(world, (world.nonce)(i), (world.candidates)(i)) is None {
            assert(is_barren(world, i));
        }
    }
}

/// What a round returns can be trusted: a winner is the first of the
/// candidates of the last nonce tried that is valid and under the target, and
/// no nonce before has one; and without a winner every nonce of the budget was
/// tried, and no candidate of any is both.
pub proof fn round_outcome_is_sound(world: World, s: SearchState)
    requires
        s.phase == Phase::Idle,
        s.tried == 0,
        s.queue.len() == 0,
        s.max_nonces >= 0,
    ensures
        ({
            let outcome = played(world, transition(s, Event::Start));
            &&& 0 <= outcome.nonces_tried <= s.max_nonces
            &&& match outcome.winner {
                Some(w) => {
                    let last = outcome.nonces_tried - 1;
                    &&& 0 <= last
                    &&& w.nonce == (world.nonce)(last)
                    &&& (world.candidates)(last).contains(w.soln)
                    &&& (world.valid)(w.nonce, w.soln)
                    &&& (world.under_target)(w.soln)
                    &&& exists|j: int|
                        {
                            &&& 0 <= j < (world.candidates)(last).len()
                            &&& #[trigger] (world.candidates)(last)[j] == w.soln
                            &&& forall|m: int|
                                0 <= m < j ==> !((world.valid)(
                                    w.nonce,
                                    #[trigger] (world.candidates)(last)[m],
                                ) && (world.under_target)((world.candidates)(last)[m]))
                        }
                    &&& forall|m: int, j: int|
                        0 <= m < last && 0 <= j < (world.candidates)(m).len() ==> !((world.valid)(
                            (world.nonce)(m),
                            #[trigger] (world.candidates)(m)[j],
                        ) && (world.under_target)((world.candidates)(m)[j]))
                },
                None => {
                    &&& outcome.nonces_tried == s.max_nonces
                    &&& forall|m: int, j: int|
                        0 <= m < s.max_nonces && 0 <= j < (world.candidates)(m).len() ==> !((
                        world.valid)((world.nonce)(m), #[trigger] (world.candidates)(m)[j]) && (
                        world.under_target)((world.candidates)(m)[j]))
                },
            }
        }),
{
    round_returns_the_first_winner(world, s);
    lemma_first_outcome(world, 0, s.max_nonces);
    let outcome = first_outcome(world, 0, s.max_nonces);
    let bound = if outcome.winner is Some {
        outcome.nonces_tried - 1
    } else {
        s.max_nonces
    };
    assert forall|m: int, j: int|
        0 <= m < bound && 0 <= j < (world.candidates)(m).len() implies !((world.valid)(
        (world.nonce)(m),
        #[trigger] (world.candidates)(m)[j],
    ) && (world.under_target)((world.candidates)(m)[j])) by {
        assert(is_barren(world, m));
    }
}

proof fn lemma_screened_queue(n: u32, k: u32, input: Seq<u8>, s: SearchState)
    ensures
        ({
            let (t, a) = screened(n, k, input, proceed(s));
            match a {
                Action::Judge(soln) => exists|j: int|
                    {
                        &&& 0 <= j < s.queue.len()
                        &&& #[trigger] s.queue[j] == soln
                        &&& crate::validity::equihash_accepts(n, k, input, s.nonce, soln)
                        &&& forall|m: int|
                            0 <= m < j ==> !crate::validity::equihash_accepts(
                                n,
                                k,
                                input,
                                s.nonce,
                                #[trigger] s.queue[m],
                            )
                        &&& t == (SearchState {
                            queue: s.queue.skip(j + 1),
                            phase: Phase::Judging(soln),
                            ..s
                        })
                    },
                Action::Draw => {
                    &&& refuses_all(n, k, input, s.nonce, s.queue)
                    &&& s.tried < s.max_nonces
                    &&& t.tried == s.tried + 1
                },
                Action::Stop(outcome) => {
                    &&& refuses_all(n, k, input, s.nonce, s.queue)
                    &&& s.tried >= s.max_nonces
                    &&& outcome == (Outcome { winner: None, nonces_tried: s.tried })
                },
                _ => false,
            }
        }),
    decreases s.queue.len(),
{
    if s.queue.len() > 0 {
        let first = s.queue[0];
        let rest = SearchState { queue: s.queue.skip(1), ..s };
        let verifying = proceed(s).0;
        reveal_with_fuel(screened, 3);
        if !crate::validity::equihash_accepts(n, k, input, s.nonce, first) {
            assert(proceed(verifying) == proceed(rest));
            lemma_screened_queue(n, k, input, rest);
            assert(screened(n, k, input, proceed(s)) == screened(n, k, input, proceed(rest)));
            let a = screened(n, k, input, proceed(rest)).1;
            if let Action::Judge(soln) = a {
                let j = choose|j: int|
                    {
                        &&& 0 <= j < rest.queue.len()
                        &&& #[trigger] rest.queue[j] == soln
                        &&& forall|m: int|
                            0 <= m < j ==> !crate::validity::equihash_accepts(
                                n,
                                k,
                                input,
                                s.nonce,
                                #[trigger] rest.queue[m],
                            )
                        &&& screened(n, k, input, proceed(rest)).0 == (SearchState {
                            queue: rest.queue.skip(j + 1),
                            phase: Phase::Judging(soln),
                            ..rest
                        })
                    };
                assert(s.queue[j + 1] == soln);
                assert(rest.queue.skip(j + 1) =~= s.queue.skip(j + 2));
                assert forall|m: int| 0 <= m < j + 1 implies !crate::validity::equihash_accepts(
                    n,
                    k,
                    input,
                    s.nonce,
                    #[trigger] s.queue[m],
                ) by {
                    if m > 0 {
                        assert(rest.queue[m - 1] == s.queue[m]);
                    }
                }
            } else {
                assert forall|m: int|
                    0 <= m < s.queue.len() implies !crate::validity::equihash_accepts(
                    n,
                    k,
                    input,
                    s.nonce,
                    #[trigger] s.queue[m],
                ) by {
                    if m > 0 {
                        assert(rest.queue[m - 1] == s.queue[m]);
                    }
                }
            }
        } else {
            assert(s.queue[0] == first);
        }
    }
}

/// `equihash` refuses every one of the solutions.
pub open spec fn refuses_all(
    n: u32,
    k: u32,
    input: Seq<u8>,
    nonce: Seq<u8>,
    solns: Seq<Seq<u8>>,
) -> bool {
    forall|m: int|
        0 <= m < solns.len() ==> !crate::validity::equihash_accepts(
            n,
            k,
            input,
            nonce,
            #[trigger] solns[m],
        )
}

/// [`RoundSearch::step`] looks at the candidates in order: it has the first one
/// judged that `equihash` accepts, and keeps those behind it for later; only
/// where all are refused is another nonce drawn, and only where the budget is
/// used up as well does the round end without a winner. `pending` are the
/// candidates that were not looked at yet: those the nonce was just solved
/// with, or what is left of them.
pub proof fn step_takes_the_first_accepted(
    n: u32,
    k: u32,
    input: Seq<u8>,
    s: SearchState,
    event: Event,
    pending: Seq<Seq<u8>>,
)
    requires
        event == Event::Candidates(pending) || (event == Event::Judged(false) && s.queue == pending)
            || (event is Start && s.queue == pending),
    ensures
        ({
            let (t, a) = screened(n, k, input, transition(s, event));
            match a {
                Action::Judge(soln) => exists|j: int|
                    {
                        &&& 0 <= j < pending.len()
                        &&& #[trigger] pending[j] == soln
                        &&& crate::validity::equihash_accepts(n, k, input, s.nonce, soln)
                        &&& forall|m: int|
                            0 <= m < j ==> !crate::validity::equihash_accepts(
                                n,
                                k,
                                input,
                                s.nonce,
                                #[trigger] pending[m],
                            )
                        &&& t.queue == pending.skip(j + 1)
                        &&& t.phase == Phase::Judging(soln)
                        &&& t.nonce == s.nonce
                        &&& t.tried == s.tried
                    },
                Action::Draw => {
                    &&& forall|m: int|
                        0 <= m < pending.len() ==> !crate::validity::equihash_accepts(
                            n,
                            k,
                            input,
                            s.nonce,
                            #[trigger] pending[m],
                        )
                    &&& s.tried < s.max_nonces
                    &&& t.tried == s.tried + 1
                },
                Action::Stop(outcome) => {
                    &&& forall|m: int|
                        0 <= m < pending.len() ==> !crate::validity::equihash_accepts(
                            n,
                            k,
                            input,
                            s.nonce,
                            #[trigger] pending[m],
                        )
                    &&& s.tried >= s.max_nonces
                    &&& outcome.winner is None
                    &&& outcome.nonces_tried == s.tried
                },
                _ => false,
            }
        }),
{
    let from = SearchState { queue: pending, ..s };
    lemma_screened_queue(n, k, input, from);
    assert(transition(s, event) == proceed(from));
}

/// A solution that is judged to be under the target wins the round, with the
/// nonce that it solves and the nonces tried up to then.
pub proof fn judged_solution_wins(n: u32, k: u32, input: Seq<u8>, s: SearchState, soln: Seq<u8>)
    requires
        s.phase == Phase::Judging(soln),
    ensures
        screened(n, k, input, transition(s, Event::Judged(true))).1 == Action::Stop(
            Outcome {
                winner: Some(Winner { nonce: s.nonce, soln }),
                nonces_tried: s.tried,
            },
        ),
{
}

/// A round is told all: every candidate, in order, as the bytes of its indices
/// on the wire, and every verdict as it is.
pub proof fn events_are_told_in_full(event: SearchEvent, n: u32, k: u32)
    ensures
        match event {
            SearchEvent::Start => event.model(n, k) is Start,
            SearchEvent::Nonce(nonce) => event.model(n, k) == Event::Nonce(nonce@),
            SearchEvent::Candidates(candidates) => {
                &&& event.model(n, k) matches Event::Candidates(queue)
                &&& queue.len() == candidates@.len()
                &&& forall|i: int|
                    0 <= i < queue.len() ==> #[trigger] queue[i] == crate::wire::wire_bytes(
                        candidates@[i]@,
                        n as int / (k + 1) + 1,
                    )
            },
            SearchEvent::Verified(valid) => event.model(n, k) == Event::Verified(valid),
            SearchEvent::Judged(under) => event.model(n, k) == Event::Judged(under),
        },
{
}

/// The nonces that are handed out to be solved, in order.
pub open spec fn handed_out(actions: Seq<SearchAction>) -> Seq<Seq<u8>>
    decreases actions.len(),
{
    if actions.len() == 0 {
        Seq::empty()
    } else {
        match actions.last() {
            SearchAction::Solve(nonce) => handed_out(actions.drop_last()).push(nonce@),
            _ => handed_out(actions.drop_last()),
        }
    }
}

/// Every nonce that a round hands out is a draw of its own: over a round of any
/// length the nonces handed out by [`RoundSearch::step`] are the draws of its
/// source, one for one and in order, and there are as many as nonces tried.
pub proof fn round_solves_its_draws(searches: Seq<RoundSearch>, actions: Seq<SearchAction>)
    requires
        searches.len() == actions.len() + 1,
        searches[0].draws() == Seq::<Seq<u8>>::empty(),
        searches[0].state().tried == 0,
        forall|i: int|
            #![trigger actions[i]]
            0 <= i < actions.len() ==> (match actions[i] {
                SearchAction::Solve(nonce) => {
                    &&& searches[i + 1].draws() == searches[i].draws().push(nonce@)
                    &&& searches[i + 1].state().tried == searches[i].state().tried + 1
                },
                _ => {
                    &&& searches[i + 1].draws() == searches[i].draws()
                    &&& searches[i + 1].state().tried == searches[i].state().tried
                },
            }),
    ensures
        handed_out(actions) == searches.last().draws(),
        handed_out(actions).len() == searches.last().state().tried,
    decreases actions.len(),
{
    if actions.len() > 0 {
        let fewer = actions.drop_last();
        let earlier = searches.drop_last();
        assert forall|i: int| #![trigger fewer[i]] 0 <= i < fewer.len() implies (match fewer[i] {
            SearchAction::Solve(nonce) => {
                &&& earlier[i + 1].draws() == earlier[i].draws().push(nonce@)
                &&& earlier[i + 1].state().tried == earlier[i].state().tried + 1
            },
            _ => {
                &&& earlier[i + 1].draws() == earlier[i].draws()
                &&& earlier[i + 1].state().tried == earlier[i].state().tried
            },
        }) by {
            assert(fewer[i] == actions[i]);
        }
        round_solves_its_draws(earlier, fewer);
        assert(actions[actions.len() - 1] == actions.last());
    }
}

} // verus!
