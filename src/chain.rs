//! Chains of remote calls. A chain is data: an ordered list of legs, each a
//! call on a peer with the balance and budget attached to it. A leg is
//! dispatched only once its predecessor has resolved; whether the chain goes
//! on after a failed leg is the chain's own explicit policy.
use vstd::prelude::*;

verus! {

/// The arguments of a remote method call.
#[derive(Debug, PartialEq, Eq)]
pub enum CallArgs {
    /// No arguments.
    Empty,
    /// A message to leave in the callee's mailbox.
    LeaveMessage(String),
    /// The account whose messages the callee should return.
    GetUnreadMessages(String),
    /// Seed and number of stays for a freshly provisioned hotel.
    NewRandom(u8, u64),
}

/// What one leg asks of its peer.
#[derive(Debug, PartialEq, Eq)]
pub enum Operation {
    CreateAccount,
    /// Move the leg's attached balance to the peer.
    Transfer,
    AddFullAccessKey(Vec<u8>),
    DeployContract(Vec<u8>),
    FunctionCall(String, CallArgs),
}

/// One scheduled remote operation.
pub struct Leg {
    pub peer: String,
    pub operation: Operation,
    pub balance: u128,
    pub budget: u64,
}

/// An ordered sequence of legs; leg `i + 1` runs after leg `i` resolves.
pub struct CallChain {
    pub legs: Vec<Leg>,
    /// Whether later legs still run after a leg has failed.
    pub continue_on_failure: bool,
}

/// How a leg that was reached resolved, or that it was never reached.
#[derive(Debug, Clone, Copy, PartialEq, Eq, Structural)]
pub enum StepKind {
    Dispatched,
    Succeeded,
    /// The peer-side operation failed.
    Failed,
    /// The leg was never dispatched because an earlier leg failed.
    Aborted,
}

/// One observable event of a chain's execution.
#[derive(Debug, Clone, Copy, PartialEq, Eq, Structural)]
pub struct Step {
    pub leg: usize,
    pub kind: StepKind,
}

pub open spec fn is_resolution(k: StepKind) -> bool {
    k != StepKind::Dispatched
}

/// Whether one of the first `n` legs failed at its peer.
pub open spec fn any_failed(oks: Seq<bool>, n: int) -> bool
    decreases n,
{
    if n <= 0 {
        false
    } else {
        any_failed(oks, n - 1) || !oks[n - 1]
    }
}

/// The events that leg `i` contributes, given the peer outcomes `oks`.
pub open spec fn steps_of(continue_on_failure: bool, oks: Seq<bool>, i: int) -> Seq<Step> {
    if !continue_on_failure && any_failed(oks, i) {
        seq![Step { leg: i as usize, kind: StepKind::Aborted }]
    } else {
        seq![
            Step { leg: i as usize, kind: StepKind::Dispatched },
            Step { leg: i as usize, kind: if oks[i] { StepKind::Succeeded } else { StepKind::Failed } },
        ]
    }
}

/// The events of the first `n` legs, in the order they are observed.
#[verifier::opaque]
pub open spec fn trace(continue_on_failure: bool, oks: Seq<bool>, n: int) -> Seq<Step>
    decreases n,
{
    if n <= 0 {
        Seq::empty()
    } else {
        trace(continue_on_failure, oks, n - 1) + steps_of(continue_on_failure, oks, n - 1)
    }
}

/// The sum of the budgets attached to the legs.
pub open spec fn budget_sum(legs: Seq<Leg>) -> int
    decreases legs.len(),
{
    if legs.len() == 0 {
        0
    } else {
        budget_sum(legs.drop_last()) + legs.last().budget
    }
}

/// Whether leg `i` opens a new batch: account actions on one peer that
/// follow each other share a batch, and every function call stands alone.
pub open spec fn starts_batch(legs: Seq<Leg>, i: int) -> bool {
    i == 0 || legs[i].operation is FunctionCall || legs[i - 1].operation is FunctionCall || legs[i].peer@ != legs[i
        - 1].peer@
}

impl CallChain {
    /// A chain of one leg: `operation` on `peer` with the given attachments.
    pub fn schedule(peer: String, operation: Operation, balance: u128, budget: u64, continue_on_failure: bool) -> (r: CallChain)
        ensures
            r.legs@ == seq![Leg { peer, operation, balance, budget }],
            r.continue_on_failure == continue_on_failure,
    {
        let mut legs: Vec<Leg> = Vec::new();
        legs.push(Leg { peer, operation, balance, budget });
        CallChain { legs, continue_on_failure }
    }

    /// Extends the chain with a leg that runs once the current last leg resolves.
    pub fn chain(self, peer: String, operation: Operation, balance: u128, budget: u64) -> (r: CallChain)
        ensures
            r.legs@ == self.legs@.push(Leg { peer, operation, balance, budget }),
            r.continue_on_failure == self.continue_on_failure,
    {
        let mut legs = self.legs;
        legs.push(Leg { peer, operation, balance, budget });
        CallChain { legs, continue_on_failure: self.continue_on_failure }
    }

    /// For each leg, whether it opens a new batch.
    pub fn batch_starts(&self) -> (r: Vec<bool>)
        ensures
            r@.len() == self.legs@.len(),
            forall|i: int| 0 <= i < r@.len() ==> #[trigger] r@[i] == starts_batch(self.legs@, i),
    {
        let mut r: Vec<bool> = Vec::new();
        let mut i: usize = 0;
        while i < self.legs.len()
            invariant
                i <= self.legs@.len(),
                r@.len() == i,
                forall|k: int| 0 <= k < i ==> #[trigger] r@[k] == starts_batch(self.legs@, k),
            decreases self.legs@.len() - i,
        {
            let opens = if i == 0 {
                true
            } else {
                let is_call = match &self.legs[i].operation {
                    Operation::FunctionCall(_, _) => true,
                    _ => false,
                };
                let after_call = match &self.legs[i - 1].operation {
                    Operation::FunctionCall(_, _) => true,
                    _ => false,
                };
                is_call || after_call || self.legs[i].peer != self.legs[i - 1].peer
            };
            r.push(opens);
            i = i + 1;
        }
        r
    }

    /// Resolves the chain leg by leg, where `remote_ok[i]` says whether the
    /// peer accepted leg `i` once it was dispatched; returns what is observed.
    pub fn resolve(&self, remote_ok: &Vec<bool>) -> (r: Vec<Step>)
        requires
            remote_ok@.len() == self.legs@.len(),
        ensures
            r@ == trace(self.continue_on_failure, remote_ok@, self.legs@.len() as int),
    {
        let n = self.legs.len();
        let mut r: Vec<Step> = Vec::new();
        reveal_with_fuel(trace, 1);
        let mut broken = false;
        let mut i: usize = 0;
        while i < n
            invariant
                n == self.legs@.len(),
                n == remote_ok@.len(),
                i <= n,
                broken == any_failed(remote_ok@, i as int),
                r@ == trace(self.continue_on_failure, remote_ok@, i as int),
            decreases n - i,
        {
            if !self.continue_on_failure && broken {
                r.push(Step { leg: i, kind: StepKind::Aborted });
            } else {
                r.push(Step { leg: i, kind: StepKind::Dispatched });
                let kind = if remote_ok[i] { StepKind::Succeeded } else { StepKind::Failed };
                r.push(Step { leg: i, kind });
            }
            broken = broken || !remote_ok[i];
            reveal_with_fuel(trace, 1);
            assert(r@ =~= trace(self.continue_on_failure, remote_ok@, i + 1));
            i = i + 1;
        }
        r
    }
}

proof fn lemma_trace_legs_below(cof: bool, oks: Seq<bool>, n: int)
    requires
        0 <= n <= oks.len() <= usize::MAX,
    ensures
        forall|p: int| 0 <= p < trace(cof, oks, n).len() ==> (#[trigger] trace(cof, oks, n)[p]).leg < n,
        n > 0 ==> trace(cof, oks, n).len() > 0 && trace(cof, oks, n).last().leg == n - 1
            && is_resolution(trace(cof, oks, n).last().kind),
    decreases n,
{
    reveal_with_fuel(trace, 1);
    if n > 0 {
        lemma_trace_legs_below(cof, oks, n - 1);
        let prev = trace(cof, oks, n - 1);
        let s = steps_of(cof, oks, n - 1);
        let t = trace(cof, oks, n);
        reveal_with_fuel(trace, 1);
        assert(t == prev + s);
        assert(t.last() == s.last());
        assert forall|p: int| 0 <= p < t.len() implies (#[trigger] t[p]).leg < n by {
            if p < prev.len() {
                assert(t[p] == prev[p]);
            } else {
                assert(t[p] == s[p - prev.len()]);
            }
        }
    }
}

/// The event at `q` comes right after the resolution of the previous leg.
#[verifier::opaque]
pub open spec fn follows_resolution(t: Seq<Step>, q: int) -> bool {
    q > 0 && t[q - 1].leg + 1 == t[q].leg && is_resolution(t[q - 1].kind)
}

proof fn lemma_unfold_follows(t: Seq<Step>, q: int)
    requires
        follows_resolution(t, q),
    ensures
        q > 0 && t[q - 1].leg + 1 == t[q].leg && is_resolution(t[q - 1].kind),
{
    reveal(follows_resolution);
}

proof fn lemma_trace_ordered(cof: bool, oks: Seq<bool>, n: int)
    requires
        0 <= n <= oks.len() <= usize::MAX,
    ensures
        ({
            let t = trace(cof, oks, n);
            &&& forall|p: int, q: int| 0 <= p < q < t.len() ==> #[trigger] t[p].leg <= #[trigger] t[q].leg
            &&& forall|q: int|
                0 <= q < t.len() && (#[trigger] t[q]).kind == StepKind::Dispatched && t[q].leg > 0
                    ==> follows_resolution(t, q)
        }),
    decreases n,
{
    reveal_with_fuel(trace, 1);
    if n > 0 {
        lemma_trace_ordered(cof, oks, n - 1);
        lemma_trace_legs_below(cof, oks, n - 1);
        let prev = trace(cof, oks, n - 1);
        let s = steps_of(cof, oks, n - 1);
        let t = trace(cof, oks, n);
        reveal_with_fuel(trace, 1);
        assert(t == prev + s);
        assert forall|p: int, q: int| 0 <= p < q < t.len() implies #[trigger] t[p].leg <= #[trigger] t[q].leg by {
            if q < prev.len() {
                assert(t[p] == prev[p] && t[q] == prev[q]);
            } else if p < prev.len() {
                assert(t[p] == prev[p]);
                assert(t[q] == s[q - prev.len()]);
            } else {
                assert(t[p] == s[p - prev.len()]);
                assert(t[q] == s[q - prev.len()]);
            }
        }
        assert forall|q: int|
            0 <= q < t.len() && (#[trigger] t[q]).kind == StepKind::Dispatched && t[q].leg > 0 implies follows_resolution(
                t,
                q,
            ) by {
            reveal(follows_resolution);
            if q < prev.len() {
                assert(t[q] == prev[q]);
                assert(prev[q].kind == StepKind::Dispatched);
                assert(follows_resolution(prev, q));
                assert(t[q - 1] == prev[q - 1]);
            } else {
                assert(t[q] == s[q - prev.len()]);
                if q > prev.len() {
                    assert(t[q - 1] == s[q - 1 - prev.len()]);
                } else {
                    assert(t[q - 1] == prev.last());
                }
            }
        }
    }
}

/// In every execution of a chain, events come in the order of the legs, and
/// a leg is dispatched only right after its predecessor has resolved: the
/// event just before the dispatch of leg `i > 0` is the resolution of leg
/// `i - 1`.
pub proof fn lemma_legs_wait_for_predecessors(continue_on_failure: bool, oks: Seq<bool>)
    requires
        oks.len() <= usize::MAX,
    ensures
        ({
            let t = trace(continue_on_failure, oks, oks.len() as int);
            &&& forall|p: int, q: int| 0 <= p < q < t.len() ==> #[trigger] t[p].leg <= #[trigger] t[q].leg
            &&& forall|q: int|
                0 <= q < t.len() && (#[trigger] t[q]).kind == StepKind::Dispatched && t[q].leg > 0 ==> q > 0
            &&& forall|p: int, q: int|
                0 <= p && q == p + 1 && q < t.len() && (#[trigger] t[q]).kind == StepKind::Dispatched && t[q].leg > 0
                    ==> (#[trigger] t[p]).leg + 1 == t[q].leg && is_resolution(t[p].kind)
        }),
{
    let t = trace(continue_on_failure, oks, oks.len() as int);
    lemma_trace_ordered(continue_on_failure, oks, oks.len() as int);
    assert forall|q: int|
        0 <= q < t.len() && (#[trigger] t[q]).kind == StepKind::Dispatched && t[q].leg > 0 implies q > 0 by {
        lemma_unfold_follows(t, q);
    }
    assert forall|p: int, q: int|
        0 <= p && q == p + 1 && q < t.len() && (#[trigger] t[q]).kind == StepKind::Dispatched && t[q].leg > 0
            implies (#[trigger] t[p]).leg + 1 == t[q].leg && is_resolution(t[p].kind) by {
        lemma_unfold_follows(t, q);
    }
}

/// What a set of chains shows when chain `k` meets the peer outcomes `rows[k]`.
pub open spec fn run_all(policies: Seq<bool>, rows: Seq<Seq<bool>>) -> Seq<Seq<Step>> {
    Seq::new(rows.len(), |k: int| trace(policies[k], rows[k], rows[k].len() as int))
}

/// Resolves independent chains, each against its own row of peer outcomes.
pub fn resolve_all(chains: &Vec<CallChain>, remote_ok: &Vec<Vec<bool>>) -> (r: Vec<Vec<Step>>)
    requires
        chains@.len() == remote_ok@.len(),
        forall|k: int| 0 <= k < chains@.len() ==> (#[trigger] remote_ok@[k])@.len() == chains@[k].legs@.len(),
    ensures
        r@.len() == chains@.len(),
        forall|k: int|
            0 <= k < chains@.len() ==> (#[trigger] r@[k])@ == trace(
                chains@[k].continue_on_failure,
                remote_ok@[k]@,
                chains@[k].legs@.len() as int,
            ),
{
    let mut r: Vec<Vec<Step>> = Vec::new();
    let mut k: usize = 0;
    while k < chains.len()
        invariant
            k <= chains@.len(),
            chains@.len() == remote_ok@.len(),
            forall|j: int| 0 <= j < chains@.len() ==> (#[trigger] remote_ok@[j])@.len() == chains@[j].legs@.len(),
            r@.len() == k,
            forall|j: int|
                0 <= j < k ==> (#[trigger] r@[j])@ == trace(
                    chains@[j].continue_on_failure,
                    remote_ok@[j]@,
                    chains@[j].legs@.len() as int,
                ),
        decreases chains@.len() - k,
    {
        let steps = chains[k].resolve(&remote_ok[k]);
        r.push(steps);
        k = k + 1;
    }
    r
}

/// A failure injected into chain `j` changes nothing that any other chain
/// shows, and a chain whose peers accept every leg completes: each of its legs
/// is dispatched and then succeeds, in order.
pub proof fn lemma_failure_stays_in_its_chain(policies: Seq<bool>, rows: Seq<Seq<bool>>, other_rows: Seq<Seq<bool>>, j: int)
    requires
        rows.len() == other_rows.len(),
        forall|k: int| 0 <= k < rows.len() && k != j ==> #[trigger] rows[k] == other_rows[k],
        forall|k: int| 0 <= k < rows.len() ==> (#[trigger] rows[k]).len() <= usize::MAX,
    ensures
        forall|k: int| 0 <= k < rows.len() && k != j ==> #[trigger] run_all(policies, rows)[k] == run_all(policies, other_rows)[k],
        forall|k: int|
            0 <= k < rows.len() && k != j && (forall|i: int| 0 <= i < rows[k].len() ==> #[trigger] rows[k][i]) ==> {
                let t = #[trigger] run_all(policies, other_rows)[k];
                &&& t.len() == 2 * rows[k].len()
                &&& forall|i: int|
                    0 <= i < rows[k].len() ==> #[trigger] t[2 * i] == (Step { leg: i as usize, kind: StepKind::Dispatched })
                        && t[2 * i + 1] == (Step { leg: i as usize, kind: StepKind::Succeeded })
            },
{
    assert forall|k: int|
        0 <= k < rows.len() && k != j && (forall|i: int| 0 <= i < rows[k].len() ==> #[trigger] rows[k][i]) implies {
            let t = #[trigger] run_all(policies, other_rows)[k];
            &&& t.len() == 2 * rows[k].len()
            &&& forall|i: int|
                0 <= i < rows[k].len() ==> #[trigger] t[2 * i] == (Step { leg: i as usize, kind: StepKind::Dispatched })
                    && t[2 * i + 1] == (Step { leg: i as usize, kind: StepKind::Succeeded })
        } by {
        assert(rows[k] == other_rows[k]);
        lemma_accepted_chain_completes(policies[k], rows[k], rows[k].len() as int);
    }
}

/// With every leg accepted, the first `n` legs each show a dispatch followed
/// by a success.
proof fn lemma_accepted_chain_completes(cof: bool, oks: Seq<bool>, n: int)
    requires
        0 <= n <= oks.len() <= usize::MAX,
        forall|i: int| 0 <= i < oks.len() ==> #[trigger] oks[i],
    ensures
        trace(cof, oks, n).len() == 2 * n,
        !any_failed(oks, n),
        forall|i: int|
            0 <= i < n ==> #[trigger] trace(cof, oks, n)[2 * i] == (Step { leg: i as usize, kind: StepKind::Dispatched })
                && trace(cof, oks, n)[2 * i + 1] == (Step { leg: i as usize, kind: StepKind::Succeeded }),
    decreases n,
{
    reveal_with_fuel(trace, 1);
    if n > 0 {
        lemma_accepted_chain_completes(cof, oks, n - 1);
        let prev = trace(cof, oks, n - 1);
        let t = trace(cof, oks, n);
        assert(t == prev + steps_of(cof, oks, n - 1));
        assert forall|i: int| 0 <= i < n implies #[trigger] t[2 * i] == (Step { leg: i as usize, kind: StepKind::Dispatched })
            && t[2 * i + 1] == (Step { leg: i as usize, kind: StepKind::Succeeded }) by {
            if i < n - 1 {
                assert(t[2 * i] == prev[2 * i]);
                assert(t[2 * i + 1] == prev[2 * i + 1]);
            }
        }
    }
}

} // verus!
