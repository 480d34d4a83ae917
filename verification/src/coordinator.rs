//! The polling coordinator: repeated authorization rounds over all
//! candidates, with first-success short-circuit, a hard round budget, and
//! an inter-round delay.
//!
//! The coordinator itself is a pure state machine. The caller launches one
//! attempt per candidate, collects the round's outcomes *in completion
//! order*, and hands them to `record_round`; between rounds it waits the
//! configured delay. Which attempt finishes first is a race the design
//! accepts: the first credential observed wins and every later one,
//! including a second success in the same round, is discarded.
//!
//! `run_spec` states what a whole run yields from the per-round outcome
//! lists; the lemmas below prove the run-level guarantees: the first
//! credential observed is the one the run ends with, a run whose budget
//! passes without a credential fails, and the number of inter-round
//! delays is bounded by the budget.

use vstd::prelude::*;

use crate::types::{AttemptOutcome, User};

verus! {

/// The design's hard round budget: about two minutes of polling at the
/// configured delay.
pub const DEFAULT_MAX_ROUNDS: u32 = 24;

/// The design's inter-round delay, in seconds.
pub const DEFAULT_ROUND_DELAY_SECS: u64 = 5;

/// What a finished or running pairing run knows.
pub enum RunState {
    /// Rounds may still be recorded.
    Running,
    /// A credential was accepted; no further attempts are issued.
    Succeeded(User),
    /// The round budget passed without a credential.
    Failed,
}

/// The polling coordinator's entire state.
pub struct Coordinator {
    /// The hard round budget.
    pub max_rounds: u32,
    /// Rounds recorded so far.
    pub rounds_done: u32,
    /// Whether the run is still going, succeeded, or exhausted its budget.
    pub state: RunState,
}

/// The first credential of a round's outcomes, in the order the attempts
/// completed; `None` when the round produced only failures.
pub open spec fn first_credential(s: Seq<AttemptOutcome>) -> Option<User>
    decreases s.len(),
{
    if s.len() == 0 {
        None
    } else {
        match s[0] {
            AttemptOutcome::Credential(u) => Some(u),
            _ => first_credential(s.skip(1)),
        }
    }
}

/// One coordinator step: record a finished round's outcomes.
pub open spec fn coord_step(c: Coordinator, outs: Seq<AttemptOutcome>) -> Coordinator {
    match first_credential(outs) {
        Some(u) => Coordinator {
            rounds_done: (c.rounds_done + 1) as u32,
            state: RunState::Succeeded(u),
            ..c
        },
        None => if c.rounds_done + 1 == c.max_rounds {
            Coordinator { rounds_done: (c.rounds_done + 1) as u32, state: RunState::Failed, ..c }
        } else {
            Coordinator { rounds_done: (c.rounds_done + 1) as u32, ..c }
        },
    }
}

/// The coordinator after recording a whole run's rounds, stopping at the
/// first round that decides the run.
pub open spec fn coord_run(c: Coordinator, rounds: Seq<Seq<AttemptOutcome>>) -> Coordinator
    decreases rounds.len(),
{
    if rounds.len() == 0 || !(c.state is Running) {
        c
    } else {
        coord_run(coord_step(c, rounds[0]), rounds.skip(1))
    }
}

/// The credential a coordinator state carries, if any.
pub open spec fn run_result(c: Coordinator) -> Option<User> {
    match c.state {
        RunState::Succeeded(u) => Some(u),
        _ => None,
    }
}

/// What a run yields from the per-round outcome lists under a round
/// budget: the first credential of the first round that has one, if that
/// round starts within the budget; `None` otherwise.
pub open spec fn run_spec(rounds: Seq<Seq<AttemptOutcome>>, budget: nat) -> Option<User>
    decreases rounds.len(),
{
    if budget == 0 || rounds.len() == 0 {
        None
    } else {
        match first_credential(rounds[0]) {
            Some(u) => Some(u),
            None => run_spec(rounds.skip(1), (budget - 1) as nat),
        }
    }
}

/// How many inter-round delays a run waits: one before every round after
/// the first, none once a round succeeds or the budget ends.
pub open spec fn sleeps_spec(rounds: Seq<Seq<AttemptOutcome>>, budget: nat) -> nat
    decreases rounds.len(),
{
    if budget == 0 || rounds.len() == 0 {
        0
    } else if first_credential(rounds[0]) is Some {
        0
    } else if budget == 1 || rounds.len() == 1 {
        0
    } else {
        1 + sleeps_spec(rounds.skip(1), (budget - 1) as nat)
    }
}

impl Coordinator {
    /// The coordinator's invariant: the round counter never passes the
    /// budget, and a running coordinator still has budget left.
    pub open spec fn wf(self) -> bool {
        &&& self.rounds_done <= self.max_rounds
        &&& (self.state is Running ==> self.rounds_done < self.max_rounds)
    }

    /// A fresh coordinator with the given round budget.
    pub fn new(max_rounds: u32) -> (c: Coordinator)
        requires
            1 <= max_rounds,
        ensures
            c.wf(),
            c.max_rounds == max_rounds,
            c.rounds_done == 0,
            c.state is Running,
    {
        Coordinator { max_rounds, rounds_done: 0, state: RunState::Running }
    }

    /// Record a finished round's outcomes, given in completion order.
    /// Returns whether the run is decided: by the round's first
    /// credential, or by the budget having passed.
    pub fn record_round(&mut self, outcomes: Vec<AttemptOutcome>) -> (done: bool)
        requires
            old(self).wf(),
            old(self).state is Running,
        ensures
            final(self).wf(),
            *final(self) == coord_step(*old(self), outcomes@),
            done == !(final(self).state is Running),
    {
        let winner = round_winner(outcomes);
        self.rounds_done = self.rounds_done + 1;
        match winner {
            Some(u) => {
                self.state = RunState::Succeeded(u);
                true
            },
            None => {
                if self.rounds_done == self.max_rounds {
                    self.state = RunState::Failed;
                    true
                } else {
                    false
                }
            },
        }
    }
}

/// The first credential of a round's outcomes, in completion order. A
/// second credential in the same round — the accepted race — is
/// discarded here.
pub fn round_winner(outcomes: Vec<AttemptOutcome>) -> (r: Option<User>)
    ensures
        r == first_credential(outcomes@),
{
    let mut v = outcomes;
    let mut i: usize = 0;
    proof {
        assert(v@.skip(0) =~= v@);
    }
    while i < v.len()
        invariant
            i <= v@.len(),
            v@ == outcomes@,
            first_credential(v@) == first_credential(v@.skip(i as int)),
        decreases v@.len() - i,
    {
        proof {
            assert(v@.skip(i as int)[0] == v@[i as int]);
            assert(v@.skip(i as int).skip(1) =~= v@.skip(i as int + 1));
        }
        let is_cred = match &v[i] {
            AttemptOutcome::Credential(_) => true,
            _ => false,
        };
        if is_cred {
            match v.remove(i) {
                AttemptOutcome::Credential(u) => {
                    return Some(u);
                },
                _ => {
                    return None;
                },
            }
        }
        i = i + 1;
    }
    None
}

/// A whole run of the executable coordinator agrees with `run_spec`: fed
/// the same rounds, a running coordinator ends with exactly the credential
/// the run specification yields, and with none when it yields none.
pub proof fn lemma_machine_matches_run(c: Coordinator, rounds: Seq<Seq<AttemptOutcome>>)
    requires
        c.wf(),
        c.state is Running,
    ensures
        run_result(coord_run(c, rounds)) == run_spec(
            rounds,
            (c.max_rounds - c.rounds_done) as nat,
        ),
    decreases rounds.len(),
{
    if rounds.len() == 0 {
    } else {
        let c2 = coord_step(c, rounds[0]);
        match first_credential(rounds[0]) {
            Some(u) => {
                assert(coord_run(c, rounds) == c2);
            },
            None => {
                if c.rounds_done + 1 == c.max_rounds {
                    assert(coord_run(c, rounds) == c2);
                    assert(run_spec(rounds.skip(1), 0) is None);
                } else {
                    assert(coord_run(c, rounds) == coord_run(c2, rounds.skip(1)));
                    lemma_machine_matches_run(c2, rounds.skip(1));
                }
            },
        }
    }
}

pub proof fn lemma_first_credential_none(s: Seq<AttemptOutcome>)
    requires
        forall|p: int| 0 <= p < s.len() ==> !(s[p] is Credential),
    ensures
        first_credential(s) is None,
    decreases s.len(),
{
    if s.len() > 0 {
        assert(!(s[0] is Credential));
        assert(forall|p: int|
            0 <= p < s.skip(1).len() ==> s.skip(1)[p] == s[p + 1] && !(s.skip(1)[p]
                is Credential));
        lemma_first_credential_none(s.skip(1));
    }
}

pub proof fn lemma_first_credential_at(s: Seq<AttemptOutcome>, p: int, u: User)
    requires
        0 <= p < s.len(),
        s[p] == AttemptOutcome::Credential(u),
        forall|q: int| 0 <= q < p ==> !(s[q] is Credential),
    ensures
        first_credential(s) == Some(u),
    decreases s.len(),
{
    if p == 0 {
    } else {
        assert(!(s[0] is Credential));
        assert(s.skip(1)[p - 1] == s[p]);
        assert(forall|q: int| 0 <= q < p - 1 ==> s.skip(1)[q] == s[q + 1]);
        lemma_first_credential_at(s.skip(1), p - 1, u);
    }
}

/// The run ends with the first credential observed. If round `r` is the
/// first round with a credential, the one at the earliest completion
/// position `p` wins, the run succeeds with exactly it, and `r` delays
/// were waited: a successful round short-circuits all remaining budget.
pub proof fn lemma_run_first_success(
    rounds: Seq<Seq<AttemptOutcome>>,
    budget: nat,
    r: int,
    p: int,
    u: User,
)
    requires
        0 <= r < rounds.len(),
        r < budget,
        forall|r2: int, p2: int|
            0 <= r2 < r && 0 <= p2 < rounds[r2].len() ==> !(rounds[r2][p2] is Credential),
        0 <= p < rounds[r].len(),
        rounds[r][p] == AttemptOutcome::Credential(u),
        forall|q: int| 0 <= q < p ==> !(rounds[r][q] is Credential),
    ensures
        run_spec(rounds, budget) == Some(u),
        sleeps_spec(rounds, budget) == r,
    decreases r,
{
    if r == 0 {
        lemma_first_credential_at(rounds[0], p, u);
    } else {
        assert(forall|p2: int| 0 <= p2 < rounds[0].len() ==> !(rounds[0][p2] is Credential));
        lemma_first_credential_none(rounds[0]);
        let rest = rounds.skip(1);
        assert(rest[r - 1] == rounds[r]);
        assert(forall|r2: int, p2: int|
            0 <= r2 < r - 1 && 0 <= p2 < rest[r2].len() ==> rest[r2] == rounds[r2 + 1] && !(
            rest[r2][p2] is Credential));
        lemma_run_first_success(rest, (budget - 1) as nat, r - 1, p, u);
    }
}

/// If exactly one attempt of the whole run yields a credential — at
/// completion position `p` of round `r`, within the budget — the run ends
/// with exactly that credential, wherever in completion order the other
/// candidates' outcomes arrive.
pub proof fn lemma_unique_success(
    rounds: Seq<Seq<AttemptOutcome>>,
    budget: nat,
    r: int,
    p: int,
    u: User,
)
    requires
        0 <= r < rounds.len(),
        r < budget,
        0 <= p < rounds[r].len(),
        rounds[r][p] == AttemptOutcome::Credential(u),
        forall|r2: int, p2: int|
            0 <= r2 < rounds.len() && 0 <= p2 < rounds[r2].len() && !(r2 == r && p2 == p)
                ==> !(rounds[r2][p2] is Credential),
    ensures
        run_spec(rounds, budget) == Some(u),
{
    assert forall|r2: int, p2: int|
        0 <= r2 < r && 0 <= p2 < rounds[r2].len() implies !(rounds[r2][p2] is Credential) by {
        assert(!(r2 == r && p2 == p));
    }
    assert forall|q: int| 0 <= q < p implies !(rounds[r][q] is Credential) by {
        assert(!(r == r && q == p));
    }
    lemma_run_first_success(rounds, budget, r, p, u);
}

/// The accepted race: when two candidates both return a credential in the
/// same round — the first round with any credential — exactly the one
/// observed earlier in completion order is kept; the later one is
/// discarded, not merged.
pub proof fn lemma_same_round_race(
    rounds: Seq<Seq<AttemptOutcome>>,
    budget: nat,
    r: int,
    p1: int,
    p2: int,
    u1: User,
    u2: User,
)
    requires
        0 <= r < rounds.len(),
        r < budget,
        forall|r2: int, q: int|
            0 <= r2 < r && 0 <= q < rounds[r2].len() ==> !(rounds[r2][q] is Credential),
        0 <= p1 < p2 < rounds[r].len(),
        rounds[r][p1] == AttemptOutcome::Credential(u1),
        rounds[r][p2] == AttemptOutcome::Credential(u2),
        forall|q: int| 0 <= q < p1 ==> !(rounds[r][q] is Credential),
    ensures
        run_spec(rounds, budget) == Some(u1),
{
    lemma_run_first_success(rounds, budget, r, p1, u1);
}

/// A run in which no attempt ever yields a credential within the budget
/// fails: it yields no credential at all, so none is persisted, and the
/// full budget of rounds is spent, waiting one inter-round delay less
/// than the budget.
pub proof fn lemma_run_no_success(rounds: Seq<Seq<AttemptOutcome>>, budget: nat)
    requires
        budget <= rounds.len(),
        forall|r: int, p: int|
            0 <= r < budget && 0 <= p < rounds[r].len() ==> !(rounds[r][p] is Credential),
    ensures
        run_spec(rounds, budget) is None,
        budget >= 1 ==> sleeps_spec(rounds, budget) == budget - 1,
    decreases budget,
{
    if budget > 0 {
        assert(forall|p: int| 0 <= p < rounds[0].len() ==> !(rounds[0][p] is Credential));
        lemma_first_credential_none(rounds[0]);
        let rest = rounds.skip(1);
        assert(forall|r: int, p: int|
            0 <= r < budget - 1 && 0 <= p < rest[r].len() ==> rest[r] == rounds[r + 1] && !(
            rest[r][p] is Credential));
        lemma_run_no_success(rest, (budget - 1) as nat);
    }
}

pub proof fn lemma_first_credential_provenance(s: Seq<AttemptOutcome>)
    ensures
        match first_credential(s) {
            Some(u) => exists|p: int|
                0 <= p < s.len() && s[p] == AttemptOutcome::Credential(u),
            None => true,
        },
    decreases s.len(),
{
    if s.len() > 0 {
        match s[0] {
            AttemptOutcome::Credential(u) => {
                assert(s[0] == AttemptOutcome::Credential(u));
            },
            _ => {
                lemma_first_credential_provenance(s.skip(1));
                if let Some(u) = first_credential(s.skip(1)) {
                    let p = choose|p: int|
                        0 <= p < s.skip(1).len() && s.skip(1)[p] == AttemptOutcome::Credential(
                            u,
                        );
                    assert(s[p + 1] == AttemptOutcome::Credential(u));
                }
            },
        }
    }
}

/// A credential is never invented: when a run ends with one, some attempt
/// of some round within the budget actually returned exactly it.
pub proof fn lemma_run_provenance(rounds: Seq<Seq<AttemptOutcome>>, budget: nat)
    ensures
        match run_spec(rounds, budget) {
            Some(u) => exists|r: int, p: int|
                0 <= r < rounds.len() && r < budget && 0 <= p < rounds[r].len() && rounds[r][p]
                    == AttemptOutcome::Credential(u),
            None => true,
        },
    decreases rounds.len(),
{
    if budget == 0 || rounds.len() == 0 {
    } else {
        match first_credential(rounds[0]) {
            Some(u) => {
                lemma_first_credential_provenance(rounds[0]);
                let p = choose|p: int|
                    0 <= p < rounds[0].len() && rounds[0][p] == AttemptOutcome::Credential(u);
                assert(rounds[0][p] == AttemptOutcome::Credential(u));
            },
            None => {
                lemma_run_provenance(rounds.skip(1), (budget - 1) as nat);
                if let Some(u) = run_spec(rounds.skip(1), (budget - 1) as nat) {
                    let (r, p) = choose|r: int, p: int|
                        0 <= r < rounds.skip(1).len() && r < budget - 1 && 0 <= p
                            < rounds.skip(1)[r].len() && rounds.skip(1)[r][p]
                            == AttemptOutcome::Credential(u);
                    assert(rounds[r + 1][p] == AttemptOutcome::Credential(u));
                }
            },
        }
    }
}

/// A run with budget `n` waits at most `n - 1` inter-round delays, so
/// with delay `d` its total waiting time is bounded by `(n - 1) * d`.
pub proof fn lemma_sleeps_bound(rounds: Seq<Seq<AttemptOutcome>>, budget: nat)
    requires
        budget >= 1,
    ensures
        sleeps_spec(rounds, budget) <= budget - 1,
    decreases rounds.len(),
{
    if budget == 0 || rounds.len() == 0 {
    } else if first_credential(rounds[0]) is Some {
    } else if budget == 1 || rounds.len() == 1 {
    } else {
        lemma_sleeps_bound(rounds.skip(1), (budget - 1) as nat);
    }
}

/// Total waiting time of a run: the delays waited never exceed the budget
/// times the inter-round delay.
pub proof fn lemma_time_bound(rounds: Seq<Seq<AttemptOutcome>>, budget: nat, delay: nat)
    requires
        budget >= 1,
    ensures
        sleeps_spec(rounds, budget) * delay <= (budget - 1) * delay,
{
    lemma_sleeps_bound(rounds, budget);
    let s = sleeps_spec(rounds, budget);
    assert(s * delay <= (budget - 1) * delay) by (nonlinear_arith)
        requires
            s <= budget - 1,
            delay >= 0,
    ;
}

} // verus!
