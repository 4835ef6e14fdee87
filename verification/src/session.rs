//! A mining session: what to do after each answer of the chain, and what was
//! mined so far.
//!
//! [`Session`] decides; talking to the chain and searching a round are left to
//! the caller, who tells the time in nanoseconds since some fixed moment.

use vstd::prelude::*;

verus! {

/// Nanoseconds of a second.
pub const NANOS_PER_SEC: u64 = 1_000_000_000;

/// After how many seconds without a new height a round is stalled.
pub const ROUND_STALL_SECS: u64 = 75;

/// How many seconds are left between two attempts to advance a round.
pub const ADVANCE_COOLDOWN_SECS: u64 = 30;

/// How long the session pauses after a solution was refused, in milliseconds.
pub const REFUSAL_PAUSE_MILLIS: u64 = 200;

/// What to do with the round that the chain is in.
#[derive(Clone, Copy, Debug, PartialEq, Eq)]
pub enum RoundPlan {
    /// Advance it: the height has not changed for that many seconds.
    Advance { stalled_secs: u64 },
    /// Search it.
    Search,
}

/// What to do after a round was searched.
#[derive(Clone, Copy, Debug, PartialEq, Eq)]
pub enum AfterSearch {
    /// Submit the winner.
    Submit,
    /// Look at the chain again.
    Refetch,
}

/// What to do after a solution was submitted.
#[derive(Clone, Copy, Debug, PartialEq, Eq)]
pub enum AfterSubmit {
    /// Look at the chain again.
    Refetch,
    /// Pause, then look at the chain again.
    Pause { millis: u64 },
    /// End the session.
    Finish,
}

/// The state of a session. Times are in nanoseconds.
pub ghost struct SessionState {
    /// Blocks to mine, or zero for no limit.
    pub max_blocks: int,
    /// The height seen last.
    pub height: u64,
    /// Searches of the round at that height.
    pub tries: int,
    pub nonces: int,
    pub blocks: int,
    /// The rewards of the blocks, in base units.
    pub reward: int,
    /// When the height was seen first.
    pub height_since: int,
    /// When the round was last tried to be advanced.
    pub advance_tried: Option<int>,
}

/// The time from `then` to `now`, and nothing if the clock went backwards.
pub open spec fn elapsed(now: int, then: int) -> int {
    if now >= then {
        now - then
    } else {
        0
    }
}

/// A sum that stops at the largest 64-bit number.
pub open spec fn capped(sum: int) -> int {
    if sum <= u64::MAX {
        sum
    } else {
        u64::MAX as int
    }
}

/// A session that begins at `now`. The height is one that no round has yet.
pub open spec fn initial(max_blocks: int, now: int) -> SessionState {
    SessionState {
        max_blocks,
        height: u64::MAX,
        tries: 0,
        nonces: 0,
        blocks: 0,
        reward: 0,
        height_since: now,
        advance_tried: None,
    }
}

/// The session after the chain was seen at `height`.
pub open spec fn observed(s: SessionState, height: u64, now: int) -> SessionState {
    if height != s.height {
        SessionState { height, tries: 0, height_since: now, advance_tried: None, ..s }
    } else {
        s
    }
}

/// The height did not change for long, and the last attempt to advance the
/// round, if any, is not recent.
pub open spec fn is_stalled(s: SessionState, now: int) -> bool {
    &&& elapsed(now, s.height_since) >= ROUND_STALL_SECS * NANOS_PER_SEC
    &&& s.advance_tried matches Some(then) ==> elapsed(now, then) >= ADVANCE_COOLDOWN_SECS
        * NANOS_PER_SEC
}

/// What to do with the round at `now`.
pub open spec fn round_plan(s: SessionState, now: int) -> RoundPlan {
    if is_stalled(s, now) {
        RoundPlan::Advance {
            stalled_secs: (elapsed(now, s.height_since) / NANOS_PER_SEC as int) as u64,
        }
    } else {
        RoundPlan::Search
    }
}

/// The session after an attempt to advance the round.
pub open spec fn advance_attempted(s: SessionState, now: int) -> SessionState {
    SessionState { advance_tried: Some(now), ..s }
}

/// The session after a search of the round.
pub open spec fn searched(s: SessionState, nonces_tried: int) -> SessionState {
    SessionState { tries: s.tries + 1, nonces: capped(s.nonces + nonces_tried), ..s }
}

/// The session after a block was mined.
pub open spec fn mined(s: SessionState, reward: int) -> SessionState {
    SessionState { blocks: s.blocks + 1, reward: capped(s.reward + reward), ..s }
}

/// The session has mined all that it was to.
pub open spec fn is_complete(s: SessionState) -> bool {
    s.max_blocks > 0 && s.blocks >= s.max_blocks
}

/// A mining session.
#[derive(Debug, PartialEq, Eq)]
pub struct Session {
    max_blocks: u64,
    current_height: u64,
    try_in_round: u32,
    total_nonces: u64,
    blocks_mined: u64,
    total_reward_base: u64,
    last_height_change_at: u64,
    last_advance_attempt_at: Option<u64>,
}

impl Session {
    pub closed spec fn state(self) -> SessionState {
        SessionState {
            max_blocks: self.max_blocks as int,
            height: self.current_height,
            tries: self.try_in_round as int,
            nonces: self.total_nonces as int,
            blocks: self.blocks_mined as int,
            reward: self.total_reward_base as int,
            height_since: self.last_height_change_at as int,
            advance_tried: match self.last_advance_attempt_at {
                Some(then) => Some(then as int),
                None => None,
            },
        }
    }

    /// A session that begins at `now` and ends after `max_blocks` blocks, or
    /// not at all if that is zero.
    pub fn new(max_blocks: u64, now: u64) -> (session: Session)
        ensures
            session.state() == initial(max_blocks as int, now as int),
    {
        Session {
            max_blocks,
            current_height: u64::MAX,
            try_in_round: 0,
            total_nonces: 0,
            blocks_mined: 0,
            total_reward_base: 0,
            last_height_change_at: now,
            last_advance_attempt_at: None,
        }
    }

    /// Notes the height of the chain, and tells whether it is a new one.
    pub fn observe_height(&mut self, height: u64, now: u64) -> (is_new: bool)
        ensures
            is_new == (height != old(self).state().height),
            final(self).state() == observed(old(self).state(), height, now as int),
    {
        if height != self.current_height {
            self.current_height = height;
            self.try_in_round = 0;
            self.last_height_change_at = now;
            self.last_advance_attempt_at = None;
            true
        } else {
            false
        }
    }

    /// What to do with the round at `now`.
    pub fn plan_round(&self, now: u64) -> (plan: RoundPlan)
        ensures
            plan == round_plan(self.state(), now as int),
    {
        let stall_for: u64 = elapsed_nanos(now, self.last_height_change_at);
        let cooled_down = match self.last_advance_attempt_at {
            Some(then) => elapsed_nanos(now, then) >= ADVANCE_COOLDOWN_SECS * NANOS_PER_SEC,
            None => true,
        };
        if stall_for >= ROUND_STALL_SECS * NANOS_PER_SEC && cooled_down {
            RoundPlan::Advance { stalled_secs: stall_for / NANOS_PER_SEC }
        } else {
            RoundPlan::Search
        }
    }

    /// Notes that the round is about to be advanced.
    pub fn note_advance(&mut self, now: u64)
        ensures
            final(self).state() == advance_attempted(old(self).state(), now as int),
    {
        self.last_advance_attempt_at = Some(now);
    }

    /// Notes that the round was searched, over `nonces_tried` nonces, with or
    /// without a winner.
    pub fn note_search(&mut self, nonces_tried: u64, won: bool) -> (next: AfterSearch)
        requires
            old(self).state().tries < u32::MAX,
        ensures
            final(self).state() == searched(old(self).state(), nonces_tried as int),
            next == if won {
                AfterSearch::Submit
            } else {
                AfterSearch::Refetch
            },
    {
        self.total_nonces = self.total_nonces.saturating_add(nonces_tried);
        self.try_in_round = self.try_in_round + 1;
        if won {
            AfterSearch::Submit
        } else {
            AfterSearch::Refetch
        }
    }

    /// Notes that a solution was accepted, for a reward of `reward` base units.
    pub fn note_accepted(&mut self, reward: u64) -> (next: AfterSubmit)
        requires
            old(self).state().blocks < u64::MAX,
        ensures
            final(self).state() == mined(old(self).state(), reward as int),
            next == if is_complete(mined(old(self).state(), reward as int)) {
                AfterSubmit::Finish
            } else {
                AfterSubmit::Refetch
            },
    {
        self.blocks_mined = self.blocks_mined + 1;
        self.total_reward_base = self.total_reward_base.saturating_add(reward);
        if self.max_blocks > 0 && self.blocks_mined >= self.max_blocks {
            AfterSubmit::Finish
        } else {
            AfterSubmit::Refetch
        }
    }

    /// What follows on a solution that was refused.
    pub fn after_refusal(&self) -> (next: AfterSubmit)
        ensures
            next == (AfterSubmit::Pause { millis: REFUSAL_PAUSE_MILLIS }),
    {
        AfterSubmit::Pause { millis: REFUSAL_PAUSE_MILLIS }
    }

    /// Searches of the round.
    pub fn try_in_round(&self) -> (tries: u32)
        ensures
            tries == self.state().tries,
    {
        self.try_in_round
    }

    /// Nonces tried in the session.
    pub fn total_nonces(&self) -> (nonces: u64)
        ensures
            nonces == self.state().nonces,
    {
        self.total_nonces
    }

    /// Blocks mined in the session.
    pub fn blocks_mined(&self) -> (blocks: u64)
        ensures
            blocks == self.state().blocks,
    {
        self.blocks_mined
    }

    /// Rewards of the session, in base units.
    pub fn total_reward_base(&self) -> (reward: u64)
        ensures
            reward == self.state().reward,
    {
        self.total_reward_base
    }
}

fn elapsed_nanos(now: u64, then: u64) -> (nanos: u64)
    ensures
        nanos == elapsed(now as int, then as int),
{
    if now >= then {
        now - then
    } else {
        0
    }
}

/// What happens to a session.
pub ghost enum Happening {
    /// The chain was seen at a height.
    Seen { height: u64, now: int },
    /// The round was found stalled, and an attempt to advance it begins.
    Advanced { asked: int, now: int },
    /// The round was searched.
    Searched { nonces_tried: int },
    /// A solution was accepted.
    Accepted { reward: int },
    /// A solution was refused.
    Refused,
}

/// A session after something happened.
pub open spec fn step(s: SessionState, h: Happening) -> SessionState {
    match h {
        Happening::Seen { height, now } => observed(s, height, now),
        Happening::Advanced { now, .. } => advance_attempted(s, now),
        Happening::Searched { nonces_tried } => searched(s, nonces_tried),
        Happening::Accepted { reward } => mined(s, reward),
        Happening::Refused => s,
    }
}

/// A session after all that happened.
pub open spec fn after(s: SessionState, past: Seq<Happening>) -> SessionState
    decreases past.len(),
{
    if past.len() == 0 {
        s
    } else {
        step(after(s, past.drop_last()), past.last())
    }
}

/// It can happen to a session: a round is advanced only where the session says
/// so, and nothing happens to one that is complete.
pub open spec fn can_happen(s: SessionState, h: Happening) -> bool {
    &&& !is_complete(s)
    &&& match h {
        Happening::Advanced { asked, now } => asked <= now && is_stalled(s, asked),
        Happening::Searched { nonces_tried } => nonces_tried >= 0,
        Happening::Accepted { reward } => reward >= 0,
        _ => true,
    }
}

/// All of it can happen to a session, one after the other.
pub open spec fn is_history(s: SessionState, past: Seq<Happening>) -> bool {
    forall|i: int|
        0 <= i < past.len() ==> can_happen(after(s, past.take(i)), #[trigger] past[i])
}

/// How many blocks were accepted.
pub open spec fn accepted_blocks(past: Seq<Happening>) -> int
    decreases past.len(),
{
    if past.len() == 0 {
        0
    } else {
        accepted_blocks(past.drop_last()) + (if past.last() is Accepted {
            1int
        } else {
            0
        })
    }
}

/// The rewards that were accepted, summed up.
pub open spec fn accepted_rewards(past: Seq<Happening>) -> int
    decreases past.len(),
{
    if past.len() == 0 {
        0
    } else {
        accepted_rewards(past.drop_last()) + (match past.last() {
            Happening::Accepted { reward } => reward,
            _ => 0,
        })
    }
}

/// The nonces that were tried, summed up.
pub open spec fn searched_nonces(past: Seq<Happening>) -> int
    decreases past.len(),
{
    if past.len() == 0 {
        0
    } else {
        searched_nonces(past.drop_last()) + (match past.last() {
            Happening::Searched { nonces_tried } => nonces_tried,
            _ => 0,
        })
    }
}

proof fn lemma_shorter_history(s: SessionState, past: Seq<Happening>)
    requires
        is_history(s, past),
        past.len() > 0,
    ensures
        is_history(s, past.drop_last()),
        can_happen(after(s, past.drop_last()), past.last()),
{
    let before = past.drop_last();
    assert(past.take(past.len() - 1) =~= before);
    assert forall|i: int| 0 <= i < before.len() implies can_happen(
        after(s, before.take(i)),
        #[trigger] before[i],
    ) by {
        assert(before.take(i) =~= past.take(i));
        assert(before[i] == past[i]);
    }
}

/// A session keeps the books: it knows how many blocks were accepted, and the
/// rewards and the nonces up to the largest number that it can hold.
pub proof fn session_keeps_the_books(max_blocks: int, began: int, past: Seq<Happening>)
    requires
        is_history(initial(max_blocks, began), past),
    ensures
        ({
            let s = after(initial(max_blocks, began), past);
            &&& s.max_blocks == max_blocks
            &&& s.blocks == accepted_blocks(past)
            &&& s.reward == capped(accepted_rewards(past))
            &&& s.nonces == capped(searched_nonces(past))
            &&& accepted_rewards(past) >= 0
            &&& searched_nonces(past) >= 0
            &&& accepted_rewards(past) <= u64::MAX ==> s.reward == accepted_rewards(past)
            &&& accepted_rewards(past) > u64::MAX ==> s.reward == u64::MAX
            &&& searched_nonces(past) <= u64::MAX ==> s.nonces == searched_nonces(past)
            &&& searched_nonces(past) > u64::MAX ==> s.nonces == u64::MAX
        }),
    decreases past.len(),
{
    if past.len() > 0 {
        lemma_shorter_history(initial(max_blocks, began), past);
        session_keeps_the_books(max_blocks, began, past.drop_last());
    }
}

/// A session with a limit ends as soon as it has mined that many blocks, and
/// mines no more.
pub proof fn session_ends_at_its_limit(max_blocks: int, began: int, past: Seq<Happening>)
    requires
        max_blocks > 0,
        is_history(initial(max_blocks, began), past),
    ensures
        accepted_blocks(past) <= max_blocks,
        is_complete(after(initial(max_blocks, began), past)) <==> accepted_blocks(past)
            == max_blocks,
    decreases past.len(),
{
    session_keeps_the_books(max_blocks, began, past);
    if past.len() > 0 {
        lemma_shorter_history(initial(max_blocks, began), past);
        session_keeps_the_books(max_blocks, began, past.drop_last());
        session_ends_at_its_limit(max_blocks, began, past.drop_last());
    }
}

/// A session without a limit never ends.
pub proof fn session_without_limit_goes_on(began: int, past: Seq<Happening>)
    requires
        is_history(initial(0, began), past),
    ensures
        !is_complete(after(initial(0, began), past)),
{
    session_keeps_the_books(0, began, past);
}

/// Something happens by which a new height is seen.
pub open spec fn brings_new_height(s: SessionState, h: Happening) -> bool {
    h matches Happening::Seen { height, .. } && height != s.height
}

/// No new height is seen after `from` and before `to`.
pub open spec fn same_round(s: SessionState, past: Seq<Happening>, from: int, to: int) -> bool {
    forall|m: int|
        from < m < to ==> !brings_new_height(after(s, past.take(m)), #[trigger] past[m])
}

proof fn lemma_after_next(s: SessionState, past: Seq<Happening>, m: int)
    requires
        0 <= m < past.len(),
    ensures
        after(s, past.take(m + 1)) == step(after(s, past.take(m)), past[m]),
{
    assert(past.take(m + 1).drop_last() =~= past.take(m));
}

/// Within a round the moment at which its height was first seen does not move,
/// and that of the last attempt to advance it moves only forward.
proof fn lemma_same_round(s: SessionState, past: Seq<Happening>, i: int, j: int)
    requires
        is_history(s, past),
        0 <= i < j <= past.len(),
        same_round(s, past, i, j),
    ensures
        ({
            let first = after(s, past.take(i + 1));
            let last = after(s, past.take(j));
            &&& last.height_since == first.height_since
            &&& first.advance_tried matches Some(t) ==> last.advance_tried matches Some(u) && t <= u
        }),
    decreases j - i,
{
    if i + 1 < j {
        let m = j - 1;
        let before = after(s, past.take(m));
        lemma_same_round(s, past, i, m);
        lemma_after_next(s, past, m);
        assert(can_happen(before, past[m]));
        assert(!brings_new_height(before, past[m]));
    }
}

/// A round is given time: it is not advanced within 75 seconds of the moment
/// at which its height was first seen.
pub proof fn advance_waits_for_a_stall(s: SessionState, past: Seq<Happening>, i: int, j: int)
    requires
        is_history(s, past),
        0 <= i < j < past.len(),
        same_round(s, past, i, j),
        brings_new_height(after(s, past.take(i)), past[i]),
        past[j] is Advanced,
    ensures
        past[j]->asked - past[i]->Seen_now >= 75 * NANOS_PER_SEC,
{
    lemma_same_round(s, past, i, j);
    lemma_after_next(s, past, i);
    assert(can_happen(after(s, past.take(j)), past[j]));
}

/// Attempts to advance one round are at least 30 seconds apart.
pub proof fn advances_are_apart(s: SessionState, past: Seq<Happening>, i: int, j: int)
    requires
        is_history(s, past),
        0 <= i < j < past.len(),
        same_round(s, past, i, j),
        past[i] is Advanced,
        past[j] is Advanced,
    ensures
        past[j]->asked - past[i]->Advanced_now >= 30 * NANOS_PER_SEC,
{
    lemma_same_round(s, past, i, j);
    lemma_after_next(s, past, i);
    assert(can_happen(after(s, past.take(j)), past[j]));
}

/// Seeing the height that is known changes nothing, so that neither the tries
/// nor the waiting times of a round are forgotten.
pub proof fn known_height_changes_nothing(s: SessionState, now: int)
    ensures
        observed(s, s.height, now) == s,
        forall|height: u64, then: int|
            observed(#[trigger] observed(s, height, then), height, now) == observed(s, height, then),
{
}

/// The height that was seen last, or else one that no round has.
pub open spec fn last_height(past: Seq<Happening>) -> u64
    decreases past.len(),
{
    if past.len() == 0 {
        u64::MAX
    } else {
        match past.last() {
            Happening::Seen { height, .. } => height,
            _ => last_height(past.drop_last()),
        }
    }
}

/// How often something was searched.
pub open spec fn searches(past: Seq<Happening>) -> int
    decreases past.len(),
{
    if past.len() == 0 {
        0
    } else {
        searches(past.drop_last()) + (if past.last() is Searched {
            1int
        } else {
            0
        })
    }
}

/// A round began with what happened at `i`: a height was seen that was not the
/// one seen last, and since then no other was.
pub open spec fn round_began_at(past: Seq<Happening>, i: int) -> bool {
    &&& 0 <= i < past.len()
    &&& past[i] is Seen
    &&& past[i]->height != last_height(past.take(i))
    &&& forall|m: int|
        i < m < past.len() ==> (#[trigger] past[m] is Seen ==> past[m]->height == past[i]->height)
}

/// The attempt to advance at `j` is the last one.
pub open spec fn is_last_advance(past: Seq<Happening>, j: int) -> bool {
    &&& 0 <= j < past.len()
    &&& past[j] is Advanced
    &&& forall|m: int| j < m < past.len() ==> !(#[trigger] past[m] is Advanced)
}

proof fn lemma_known_height(max_blocks: int, began: int, past: Seq<Happening>)
    ensures
        after(initial(max_blocks, began), past).height == last_height(past),
    decreases past.len(),
{
    if past.len() > 0 {
        lemma_known_height(max_blocks, began, past.drop_last());
    }
}

/// What a session knows of a round, from what happened since it began.
proof fn lemma_round(max_blocks: int, began: int, past: Seq<Happening>, i: int)
    requires
        round_began_at(past, i),
    ensures
        ({
            let s = after(initial(max_blocks, began), past);
            &&& s.height == past[i]->height
            &&& s.tries == searches(past.skip(i + 1))
            &&& s.height_since == past[i]->Seen_now
            &&& match s.advance_tried {
                Some(t) => exists|j: int|
                    {
                        &&& i < j
                        &&& #[trigger] is_last_advance(past, j)
                        &&& t == past[j]->Advanced_now
                    },
                None => forall|m: int|
                    i < m < past.len() ==> !(#[trigger] past[m] is Advanced),
            }
        }),
    decreases past.len(),
{
    let before = past.drop_last();
    let s0 = initial(max_blocks, began);
    lemma_known_height(max_blocks, began, before);
    if i == past.len() - 1 {
        assert(past.take(i) =~= before);
        assert(past.skip(i + 1) =~= Seq::empty());
    } else {
        assert(before[i] == past[i]);
        assert(before.take(i) =~= past.take(i));
        assert forall|m: int|
            i < m < before.len() && (#[trigger] before[m] is Seen) implies before[m]->height
            == before[i]->height by {
            assert(before[m] == past[m]);
        }
        lemma_round(max_blocks, began, before, i);
        let t = after(s0, before);
        assert(past.skip(i + 1).drop_last() =~= before.skip(i + 1));
        assert(past.skip(i + 1).last() == past.last());
        assert(past[past.len() - 1] == past.last());
        if past.last() is Advanced {
            assert(is_last_advance(past, past.len() - 1));
        } else {
            match t.advance_tried {
                Some(u) => {
                    let j = choose|j: int|
                        {
                            &&& i < j
                            &&& #[trigger] is_last_advance(before, j)
                            &&& u == before[j]->Advanced_now
                        };
                    assert forall|m: int| j < m < past.len() implies !(
                    #[trigger] past[m] is Advanced) by {
                        if m < before.len() {
                            assert(before[m] == past[m]);
                        }
                    }
                    assert(before[j] == past[j]);
                    assert(is_last_advance(past, j));
                },
                None => {
                    assert forall|m: int| i < m < past.len() implies !(
                    #[trigger] past[m] is Advanced) by {
                        if m < before.len() {
                            assert(before[m] == past[m]);
                        }
                    }
                },
            }
        }
    }
}

/// A stalled round is advanced, whatever was searched, accepted or refused in
/// it: once 75 seconds went by since its height was first seen, and 30 since
/// each attempt to advance it, the plan is to advance it, and it tells the
/// whole seconds since the height was first seen.
pub proof fn stalled_round_is_advanced(
    max_blocks: int,
    began: int,
    past: Seq<Happening>,
    i: int,
    now: int,
)
    requires
        round_began_at(past, i),
        75_000_000_000 <= now - past[i]->Seen_now <= u64::MAX,
        forall|m: int|
            i < m < past.len() && (#[trigger] past[m] is Advanced) ==> now - past[m]->Advanced_now
                >= 30_000_000_000,
    ensures
        round_plan(after(initial(max_blocks, began), past), now) matches RoundPlan::Advance {
            stalled_secs,
        } && stalled_secs * 1_000_000_000 <= now - past[i]->Seen_now < (stalled_secs + 1)
            * 1_000_000_000,
{
    lemma_round(max_blocks, began, past, i);
}

/// A round that is not stalled is searched: within 75 seconds of the moment at
/// which its height was first seen, and within 30 of the last attempt to
/// advance it.
pub proof fn other_rounds_are_searched(
    max_blocks: int,
    began: int,
    past: Seq<Happening>,
    i: int,
    now: int,
)
    requires
        round_began_at(past, i),
        now - past[i]->Seen_now < 75_000_000_000 || exists|j: int|
            i < j && #[trigger] is_last_advance(past, j) && now - past[j]->Advanced_now
                < 30_000_000_000,
    ensures
        round_plan(after(initial(max_blocks, began), past), now) is Search,
{
    lemma_round(max_blocks, began, past, i);
    let s = after(initial(max_blocks, began), past);
    if now - past[i]->Seen_now >= 75_000_000_000 {
        let j = choose|j: int|
            i < j && #[trigger] is_last_advance(past, j) && now - past[j]->Advanced_now
                < 30_000_000_000;
        assert(past[j] is Advanced);
        let l = choose|l: int|
            i < l && #[trigger] is_last_advance(past, l) && s.advance_tried == Some(
                past[l]->Advanced_now,
            );
        assert(past[l] is Advanced);
        assert(l == j);
    }
}

/// The tries of a round are its searches since its height was first seen.
pub proof fn tries_are_the_searches_of_the_round(
    max_blocks: int,
    began: int,
    past: Seq<Happening>,
    i: int,
)
    requires
        round_began_at(past, i),
    ensures
        after(initial(max_blocks, began), past).tries == searches(past.skip(i + 1)),
        after(initial(max_blocks, began), past).height == past[i]->height,
{
    lemma_round(max_blocks, began, past, i);
}

} // verus!
