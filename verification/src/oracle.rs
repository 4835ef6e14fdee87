//! The self-test of a device: solve random nonces on the device and on the
//! host until both agree on a valid solution or the device is refuted.
//!
//! [`OracleCheck`] draws the nonces and rules on what was found. Solving a
//! nonce, on the device and on the host, is left to the caller.

use vstd::prelude::*;

use crate::draws::NonceSource;
use crate::search::random_nonce;
use crate::validity::is_valid_solution;
use crate::wire::compress_indices;

verus! {

/// Nonces tried at most.
pub const ORACLE_BUDGET: usize = 256;

/// The parameters that a device is tested with.
pub const ORACLE_N: u32 = 96;

pub const ORACLE_K: u32 = 5;

/// What the host and the device found for a nonce.
#[derive(Clone, Copy, Debug, PartialEq, Eq)]
pub enum Finding {
    /// No solution.
    Neither,
    /// A solution of the host alone.
    CpuOnly,
    /// Solutions of the device alone; `gpu_valid` tells of the first.
    GpuOnly { candidates: usize, gpu_valid: bool },
    /// Solutions of both; `gpu_valid` tells of the device's first, and `agree`
    /// whether the solution of the host is among those of the device.
    Both { cpu_valid: bool, candidates: usize, gpu_valid: bool, agree: bool },
}

/// Why a device fails the test.
#[derive(Clone, Copy, Debug, PartialEq, Eq)]
pub enum OracleFailure {
    /// Host and device found a solution, and that of the device is invalid.
    InvalidCandidate,
    /// Only the device found solutions, and its first is invalid.
    NoneValid { candidates: usize },
    /// The budget is used up.
    Exhausted,
}

/// What the test asks for.
#[derive(Clone, Copy, Debug, PartialEq, Eq)]
pub enum OracleAction {
    /// Solve a nonce, on the host and on the device.
    Solve([u8; 32]),
    /// The test is over.
    Stop(Result<(), OracleFailure>),
}

/// `equihash` accepts a solution for a nonce.
pub open spec fn accepts(input: Seq<u8>, nonce: Seq<u8>, soln: Seq<u8>) -> bool {
    crate::validity::equihash_accepts(ORACLE_N, ORACLE_K, input, nonce, soln)
}

/// What was found for a nonce: the device is held to its first candidate, and
/// host and device agree where one of the candidates is, byte for byte on the
/// wire, the solution of the host.
pub open spec fn finding(
    input: Seq<u8>,
    nonce: Seq<u8>,
    cpu: Option<Seq<u8>>,
    gpu: Seq<Seq<u8>>,
) -> Finding {
    let candidates = gpu.len() as usize;
    match cpu {
        Some(soln) => if gpu.len() > 0 {
            Finding::Both {
                cpu_valid: accepts(input, nonce, soln),
                candidates,
                gpu_valid: accepts(input, nonce, gpu[0]),
                agree: gpu.contains(soln),
            }
        } else {
            Finding::CpuOnly
        },
        None => if gpu.len() > 0 {
            Finding::GpuOnly { candidates, gpu_valid: accepts(input, nonce, gpu[0]) }
        } else {
            Finding::Neither
        },
    }
}

/// How a finding ends the test, if it does: an invalid candidate of the device
/// refutes it, and it is confirmed where host and device agree on a valid
/// solution.
pub open spec fn ruling(f: Finding) -> Option<Result<(), OracleFailure>> {
    match f {
        Finding::Neither => None,
        Finding::CpuOnly => None,
        Finding::GpuOnly { candidates, gpu_valid } => if gpu_valid {
            None
        } else {
            Some(Err(OracleFailure::NoneValid { candidates }))
        },
        Finding::Both { cpu_valid, gpu_valid, agree, .. } => if !gpu_valid {
            Some(Err(OracleFailure::InvalidCandidate))
        } else if cpu_valid && agree {
            Some(Ok(()))
        } else {
            None
        },
    }
}

/// How the test ends after `tried` nonces, if it does.
pub open spec fn verdict(tried: int, f: Finding) -> Option<Result<(), OracleFailure>> {
    match ruling(f) {
        Some(end) => Some(end),
        None => if tried < ORACLE_BUDGET {
            None
        } else {
            Some(Err(OracleFailure::Exhausted))
        },
    }
}

/// How a finding ends the test, if it does.
pub fn rule(f: Finding) -> (end: Option<Result<(), OracleFailure>>)
    ensures
        end == ruling(f),
{
    match f {
        Finding::Neither => None,
        Finding::CpuOnly => None,
        Finding::GpuOnly { candidates, gpu_valid } => {
            if gpu_valid {
                None
            } else {
                Some(Err(OracleFailure::NoneValid { candidates }))
            }
        },
        Finding::Both { cpu_valid, gpu_valid, agree, .. } => {
            if !gpu_valid {
                Some(Err(OracleFailure::InvalidCandidate))
            } else if cpu_valid && agree {
                Some(Ok(()))
            } else {
                None
            }
        },
    }
}

/// The solution of the host, as its bytes.
pub open spec fn bytes_of(cpu: Option<Vec<u8>>) -> Option<Seq<u8>> {
    match cpu {
        Some(soln) => Some(soln@),
        None => None,
    }
}

/// What the solutions `cpu` and `gpu`, of the host and of the device, are found
/// to be for a nonce.
pub fn examine_solutions(
    input: &[u8; 81],
    nonce: &[u8; 32],
    cpu: &Option<Vec<u8>>,
    gpu: &Vec<[u32; 32]>,
) -> (f: Finding)
    ensures
        f == finding(
            input@,
            nonce@,
            bytes_of(*cpu),
            crate::search::on_the_wire(ORACLE_N, ORACLE_K, gpu@),
        ),
        f is Neither <==> *cpu is None && gpu@.len() == 0,
        f is CpuOnly <==> *cpu is Some && gpu@.len() == 0,
        f is GpuOnly <==> *cpu is None && gpu@.len() > 0,
        f is Both <==> *cpu is Some && gpu@.len() > 0,
        f matches Finding::GpuOnly { candidates, .. } ==> candidates == gpu@.len(),
        f matches Finding::Both { candidates, cpu_valid, .. } ==> candidates == gpu@.len()
            && cpu_valid == crate::validity::equihash_accepts(96, 5, input@, nonce@, (*cpu)->0@),
{
    proof {
        crate::wire::wire_length_of_96_5(Seq::new(32, |i: int| 0u32));
    }
    let candidates: usize = gpu.len();
    if candidates == 0 {
        return match cpu {
            Some(_) => Finding::CpuOnly,
            None => Finding::Neither,
        };
    }
    let first = compress_indices(ORACLE_N, ORACLE_K, &gpu[0]);
    assert(first@ == crate::search::on_the_wire(ORACLE_N, ORACLE_K, gpu@)[0]);
    let gpu_valid = is_accepted(input, nonce, first.as_slice());
    match cpu {
        Some(soln) => {
            let cpu_valid = is_accepted(input, nonce, soln.as_slice());
            let agree = is_among(soln, gpu);
            Finding::Both { cpu_valid, candidates, gpu_valid, agree }
        },
        None => Finding::GpuOnly { candidates, gpu_valid },
    }
}

fn same_bytes(a: &Vec<u8>, b: &Vec<u8>) -> (same: bool)
    ensures
        same == (a@ == b@),
{
    if a.len() != b.len() {
        return false;
    }
    let mut i: usize = 0;
    while i < a.len()
        invariant
            a@.len() == b@.len(),
            i <= a@.len(),
            forall|j: int| 0 <= j < i ==> a@[j] == b@[j],
        decreases a@.len() - i,
    {
        if a[i] != b[i] {
            return false;
        }
        i += 1;
    }
    assert(a@ =~= b@);
    true
}

/// Whether one of the candidates is `soln` on the wire.
fn is_among(soln: &Vec<u8>, gpu: &Vec<[u32; 32]>) -> (found: bool)
    ensures
        found == crate::search::on_the_wire(ORACLE_N, ORACLE_K, gpu@).contains(soln@),
{
    let ghost wired = crate::search::on_the_wire(ORACLE_N, ORACLE_K, gpu@);
    proof {
        crate::wire::wire_length_of_96_5(Seq::new(32, |i: int| 0u32));
    }
    let mut i: usize = 0;
    while i < gpu.len()
        invariant
            wired == crate::search::on_the_wire(ORACLE_N, ORACLE_K, gpu@),
            crate::wire::is_packable(ORACLE_N, ORACLE_K),
            i <= gpu@.len(),
            forall|j: int| 0 <= j < i ==> #[trigger] wired[j] != soln@,
        decreases gpu@.len() - i,
    {
        let candidate = compress_indices(ORACLE_N, ORACLE_K, &gpu[i]);
        assert(candidate@ == wired[i as int]);
        if same_bytes(&candidate, soln) {
            return true;
        }
        i += 1;
    }
    false
}

fn is_accepted(input: &[u8; 81], nonce: &[u8; 32], soln: &[u8]) -> (valid: bool)
    ensures
        valid == accepts(input@, nonce@, soln@),
{
    is_valid_solution(ORACLE_N, ORACLE_K, input.as_slice(), nonce.as_slice(), soln)
}

/// A self-test in progress.
#[derive(PartialEq, Eq)]
pub struct OracleCheck {
    input: [u8; 81],
    nonce: [u8; 32],
    tried: usize,
    source: NonceSource,
}

impl OracleCheck {
    /// The input block of the test.
    pub closed spec fn input(self) -> Seq<u8> {
        self.input@
    }

    /// The nonce drawn last.
    pub closed spec fn nonce(self) -> Seq<u8> {
        self.nonce@
    }

    /// The nonces drawn so far.
    pub closed spec fn tried(self) -> int {
        self.tried as int
    }

    /// Where the test draws its nonces from.
    pub closed spec fn source(self) -> NonceSource {
        self.source
    }

    /// The nonces themselves, the first first.
    pub open spec fn draws(self) -> Seq<Seq<u8>> {
        self.source().drawn()
    }

    /// A test under the input block `input`, with its first nonce.
    pub fn start(input: &[u8; 81]) -> (r: (OracleCheck, OracleAction))
        ensures
            r.0.input() == input@,
            r.0.tried() == 1,
            r.1 matches OracleAction::Solve(nonce) && nonce@ == r.0.nonce(),
            r.0.source().drawn() == seq![r.0.nonce()],
    {
        let mut source = NonceSource::new();
        let nonce = random_nonce(&mut source);
        (OracleCheck { input: *input, nonce, tried: 1, source }, OracleAction::Solve(nonce))
    }

    /// Which nonce it is that was drawn last, counted from one.
    pub fn nonce_number(&self) -> (number: usize)
        ensures
            number == self.tried(),
    {
        self.tried
    }

    /// What the solutions `cpu` and `gpu`, of the host and of the device, are
    /// found to be for the nonce drawn last.
    pub fn examine(&self, cpu: &Option<Vec<u8>>, gpu: &Vec<[u32; 32]>) -> (f: Finding)
        ensures
            f == finding(
                self.input(),
                self.nonce(),
                bytes_of(*cpu),
                crate::search::on_the_wire(ORACLE_N, ORACLE_K, gpu@),
            ),
    {
        examine_solutions(&self.input, &self.nonce, cpu, gpu)
    }

    /// Goes on from the finding `f` on the nonce drawn last: the test ends, or
    /// another nonce is drawn.
    pub fn proceed(&mut self, f: Finding) -> (action: OracleAction)
        ensures
            final(self).input() == old(self).input(),
            match verdict(old(self).tried(), f) {
                Some(end) => {
                    &&& action == OracleAction::Stop(end)
                    &&& *final(self) == *old(self)
                },
                None => {
                    &&& action matches OracleAction::Solve(nonce)
                    &&& final(self).nonce() == nonce@
                    &&& final(self).tried() == old(self).tried() + 1
                    &&& final(self).source().drawn() == old(self).source().drawn().push(nonce@)
                },
            },
            action matches OracleAction::Solve(nonce) ==> final(self).nonce() == nonce@
                && final(self).tried() == old(self).tried() + 1 && final(self).source().drawn() == old(
                self,
            ).source().drawn().push(nonce@),
            action is Stop ==> *final(self) == *old(self),
    {
        if let Some(end) = rule(f) {
            return OracleAction::Stop(end);
        }
        if self.tried < ORACLE_BUDGET {
            let nonce = random_nonce(&mut self.source);
            self.nonce = nonce;
            self.tried = self.tried + 1;
            OracleAction::Solve(nonce)
        } else {
            OracleAction::Stop(Err(OracleFailure::Exhausted))
        }
    }
}

/// How the test ends, and after how many nonces, if it goes on from nonce `i`
/// and `found(i)`, `found(i + 1)` and so on are the findings.
pub open spec fn test_result(found: spec_fn(int) -> Finding, i: int) -> (
    Result<(), OracleFailure>,
    int,
)
    decreases ORACLE_BUDGET - i,
{
    match verdict(i + 1, found(i)) {
        Some(end) => (end, i + 1),
        None => test_result(found, i + 1),
    }
}

/// The device's first candidate of a finding is valid.
pub open spec fn shows_valid(f: Finding) -> bool {
    match f {
        Finding::GpuOnly { gpu_valid, .. } => gpu_valid,
        Finding::Both { gpu_valid, .. } => gpu_valid,
        _ => false,
    }
}

/// The device's first candidate of a finding is invalid.
pub open spec fn shows_invalid(f: Finding) -> bool {
    match f {
        Finding::GpuOnly { gpu_valid, .. } => !gpu_valid,
        Finding::Both { gpu_valid, .. } => !gpu_valid,
        _ => false,
    }
}

/// Host and device agree on a valid solution, and the device's first candidate
/// is valid.
pub open spec fn shows_agreement(f: Finding) -> bool {
    f matches Finding::Both { cpu_valid, gpu_valid, agree, .. } && cpu_valid && gpu_valid && agree
}

/// A finding tells of agreement where the host has a solution that `equihash`
/// accepts, one of the candidates is that solution, and the first is accepted
/// too.
pub proof fn finding_tells_of_agreement(
    input: Seq<u8>,
    nonce: Seq<u8>,
    cpu: Option<Seq<u8>>,
    gpu: Seq<Seq<u8>>,
)
    ensures
        shows_agreement(finding(input, nonce, cpu, gpu)) <==> (cpu matches Some(soln) && accepts(
            input,
            nonce,
            soln,
        ) && gpu.contains(soln) && accepts(input, nonce, gpu[0])),
{
}

/// A finding tells of the device's first candidate what `equihash` says of it.
pub proof fn finding_tells_of_the_first_candidate(
    input: Seq<u8>,
    nonce: Seq<u8>,
    cpu: Option<Seq<u8>>,
    gpu: Seq<Seq<u8>>,
)
    ensures
        shows_valid(finding(input, nonce, cpu, gpu)) <==> gpu.len() > 0 && accepts(
            input,
            nonce,
            gpu[0],
        ),
        shows_invalid(finding(input, nonce, cpu, gpu)) <==> gpu.len() > 0 && !accepts(
            input,
            nonce,
            gpu[0],
        ),
{
}

proof fn lemma_test_result(found: spec_fn(int) -> Finding, i: int)
    requires
        0 <= i < ORACLE_BUDGET,
    ensures
        ({
            let (end, tried) = test_result(found, i);
            &&& i < tried <= ORACLE_BUDGET
            &&& forall|m: int| i <= m < tried - 1 ==> ruling(#[trigger] found(m)) is None
            &&& match ruling(found(tried - 1)) {
                Some(r) => end == r,
                None => tried == ORACLE_BUDGET && end == Err::<(), _>(OracleFailure::Exhausted),
            }
        }),
    decreases ORACLE_BUDGET - i,
{
    if verdict(i + 1, found(i)) is None {
        lemma_test_result(found, i + 1);
    }
}

/// A device passes only if, for the nonce tried last, it agrees with the host
/// on a valid solution; and it passes on the first nonce for which it does,
/// unless it was refuted before.
pub proof fn pass_means_agreement(found: spec_fn(int) -> Finding)
    ensures
        test_result(found, 0).0 is Ok <==> shows_agreement(found(test_result(found, 0).1 - 1)),
        forall|m: int|
            0 <= m < test_result(found, 0).1 - 1 ==> !shows_agreement(#[trigger] found(m)),
{
    lemma_test_result(found, 0);
}

/// A test ends within its budget, and its end can be trusted: it passes only
/// on a valid candidate of the device, never sees an invalid one without
/// failing for it at once, and gives up only once the budget is used up and no
/// nonce settled the matter.
pub proof fn test_result_is_sound(found: spec_fn(int) -> Finding)
    ensures
        ({
            let (end, tried) = test_result(found, 0);
            &&& 0 < tried <= ORACLE_BUDGET
            &&& forall|m: int| 0 <= m < tried - 1 ==> !shows_invalid(#[trigger] found(m))
            &&& match end {
                Ok(()) => shows_valid(found(tried - 1)),
                Err(OracleFailure::Exhausted) => tried == ORACLE_BUDGET && forall|m: int|
                    0 <= m < ORACLE_BUDGET ==> ruling(#[trigger] found(m)) is None,
                Err(_) => shows_invalid(found(tried - 1)),
            }
        }),
{
    lemma_test_result(found, 0);
}

/// A finding tells who found something, and how many candidates the device
/// has.
pub proof fn finding_tells_who_found_what(
    input: Seq<u8>,
    nonce: Seq<u8>,
    cpu: Option<Seq<u8>>,
    gpu: Seq<Seq<u8>>,
)
    requires
        gpu.len() <= usize::MAX,
    ensures
        match finding(input, nonce, cpu, gpu) {
            Finding::Neither => cpu is None && gpu.len() == 0,
            Finding::CpuOnly => cpu is Some && gpu.len() == 0,
            Finding::GpuOnly { candidates, .. } => cpu is None && gpu.len() == candidates > 0,
            Finding::Both { candidates, .. } => cpu is Some && gpu.len() == candidates > 0,
        },
        finding(input, nonce, cpu, gpu) matches Finding::Both { cpu_valid, agree, .. } ==> {
            &&& cpu_valid == crate::validity::equihash_accepts(96, 5, input, nonce, cpu->0)
            &&& agree == exists|j: int| 0 <= j < gpu.len() && #[trigger] gpu[j] == cpu->0
        },
        finding(input, nonce, cpu, gpu) matches Finding::Both { gpu_valid, .. } ==> gpu_valid
            == crate::validity::equihash_accepts(96, 5, input, nonce, gpu[0]),
        finding(input, nonce, cpu, gpu) matches Finding::GpuOnly { gpu_valid, .. } ==> gpu_valid
            == crate::validity::equihash_accepts(96, 5, input, nonce, gpu[0]),
{
}

/// After any number of nonces a finding ends the test only as it must: with a
/// pass where host and device both have a valid solution, the device's first
/// being valid and one of them being the host's; with a failure of its own kind
/// where the device's first candidate is invalid, by whether the host has a
/// solution; and otherwise not before 256 nonces were tried.
pub proof fn test_ends_only_as_it_must(tried: int, f: Finding, n: usize)
    ensures
        verdict(tried, f) == Some(Ok::<(), OracleFailure>(())) <==> (f matches Finding::Both {
            cpu_valid,
            gpu_valid,
            agree,
            ..
        } && cpu_valid && gpu_valid && agree),
        verdict(tried, f) == Some(Err::<(), _>(OracleFailure::InvalidCandidate)) <==> (
        f matches Finding::Both { gpu_valid, .. } && !gpu_valid),
        verdict(tried, f) == Some(Err::<(), _>(OracleFailure::NoneValid { candidates: n })) <==> (
        f matches Finding::GpuOnly { candidates, gpu_valid } && !gpu_valid && candidates == n),
        verdict(tried, f) == Some(Err::<(), _>(OracleFailure::Exhausted)) ==> tried >= 256,
        verdict(tried, f) is None ==> tried < 256,
{
}

/// The nonces that are handed out to be solved, in order.
pub open spec fn nonces_of(actions: Seq<OracleAction>) -> Seq<Seq<u8>>
    decreases actions.len(),
{
    if actions.len() == 0 {
        Seq::empty()
    } else {
        match actions.last() {
            OracleAction::Solve(nonce) => nonces_of(actions.drop_last()).push(nonce@),
            OracleAction::Stop(_) => nonces_of(actions.drop_last()),
        }
    }
}

/// Every nonce of a self-test is a draw of its own: over a test of any length
/// the nonces handed out, by [`OracleCheck::start`] first and then by
/// [`OracleCheck::proceed`], are the draws of its source, one for one and in
/// order.
pub proof fn test_solves_its_draws(checks: Seq<OracleCheck>, actions: Seq<OracleAction>)
    requires
        checks.len() == actions.len() > 0,
        actions[0] matches OracleAction::Solve(nonce) && checks[0].draws() == seq![nonce@],
        checks[0].tried() == 1,
        forall|i: int|
            #![trigger actions[i]]
            0 < i < actions.len() ==> (match actions[i] {
                OracleAction::Solve(nonce) => {
                    &&& checks[i].draws() == checks[i - 1].draws().push(nonce@)
                    &&& checks[i].tried() == checks[i - 1].tried() + 1
                },
                OracleAction::Stop(_) => checks[i] == checks[i - 1],
            }),
    ensures
        nonces_of(actions) == checks.last().draws(),
        nonces_of(actions).len() == checks.last().tried(),
    decreases actions.len(),
{
    let fewer = actions.drop_last();
    if actions.len() > 1 {
        let earlier = checks.drop_last();
        assert(fewer[0] == actions[0]);
        assert forall|i: int| #![trigger fewer[i]] 0 < i < fewer.len() implies (match fewer[i] {
            OracleAction::Solve(nonce) => {
                &&& earlier[i].draws() == earlier[i - 1].draws().push(nonce@)
                &&& earlier[i].tried() == earlier[i - 1].tried() + 1
            },
            OracleAction::Stop(_) => earlier[i] == earlier[i - 1],
        }) by {
            assert(fewer[i] == actions[i]);
        }
        test_solves_its_draws(earlier, fewer);
        assert(actions[actions.len() - 1] == actions.last());
    } else {
        assert(nonces_of(fewer) =~= Seq::empty());
        assert(nonces_of(actions) =~= checks.last().draws());
    }
}

} // verus!
