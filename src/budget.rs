//! Splitting a balance and an execution budget among beneficiaries, with one
//! share held back for the invoking service itself.
use vstd::prelude::*;

verus! {

/// Errors raised synchronously, before any remote call is scheduled.
#[derive(Debug, Clone, Copy, PartialEq, Eq, Structural)]
pub enum ProvisionError {
    /// No beneficiaries were requested, or there is nothing to hand out.
    InsufficientResources,
}

/// The outcome of a partition: what each beneficiary gets and what the
/// invoker keeps (its own share plus the truncation remainder).
#[derive(Debug, Clone, Copy, PartialEq, Eq, Structural)]
pub struct Shares {
    pub per_beneficiary_balance: u128,
    pub per_beneficiary_budget: u64,
    pub retained_balance: u128,
    pub retained_budget: u64,
}

/// Whether a partition over these totals is refused.
pub open spec fn partition_refused(total_balance: u128, total_budget: u64, count: u64) -> bool {
    count == 0 || total_balance == 0 || total_budget == 0
}

/// The shares a successful partition hands out.
pub open spec fn shares_of(total_balance: u128, total_budget: u64, count: u64) -> Shares {
    let b = (total_balance as int / (count as int + 1)) as u128;
    let g = (total_budget as int / (count as int + 1)) as u64;
    Shares {
        per_beneficiary_balance: b,
        per_beneficiary_budget: g,
        retained_balance: (total_balance - count * b) as u128,
        retained_budget: (total_budget - count * g) as u64,
    }
}

/// Divides both totals by `count + 1`, truncating; the extra share and the
/// remainder stay with the invoker.
pub fn partition(total_balance: u128, total_budget: u64, count: u64) -> (r: Result<Shares, ProvisionError>)
    ensures
        partition_refused(total_balance, total_budget, count) <==> r is Err,
        r is Err ==> r == Err::<Shares, ProvisionError>(ProvisionError::InsufficientResources),
        r is Ok ==> r->Ok_0 == shares_of(total_balance, total_budget, count),
{
    if count == 0 || total_balance == 0 || total_budget == 0 {
        return Err(ProvisionError::InsufficientResources);
    }
    let parts_b: u128 = count as u128 + 1;
    let parts_g: u128 = count as u128 + 1;
    let b: u128 = total_balance / parts_b;
    let g: u128 = total_budget as u128 / parts_g;
    proof {
        lemma_share_bounds(total_balance as int, count as int);
        lemma_share_bounds(total_budget as int, count as int);
    }
    let given_b: u128 = b * (count as u128);
    let given_g: u128 = g * (count as u128);
    Ok(Shares {
        per_beneficiary_balance: b,
        per_beneficiary_budget: g as u64,
        retained_balance: total_balance - given_b,
        retained_budget: (total_budget as u128 - given_g) as u64,
    })
}

proof fn lemma_share_bounds(total: int, count: int)
    requires
        total >= 0,
        count >= 0,
    ensures
        count * (total / (count + 1)) + total / (count + 1) <= total,
        total / (count + 1) <= total,
        (total / (count + 1)) * count == count * (total / (count + 1)),
{
    let q = total / (count + 1);
    assert(q * (count + 1) <= total) by (nonlinear_arith)
        requires
            total >= 0,
            count >= 0,
            q == total / (count + 1),
    ;
    assert(count * q + q == q * (count + 1)) by (nonlinear_arith);
    assert(q * count == count * q) by (nonlinear_arith);
    assert(q <= total) by (nonlinear_arith)
        requires
            total >= 0,
            count >= 0,
            q == total / (count + 1),
    ;
}

/// The shares handed out and the amount retained add up to the total, for the
/// balance and for the budget alike, and the invoker keeps at least one full
/// share of each.
pub proof fn lemma_partition_conserves(total_balance: u128, total_budget: u64, count: u64)
    requires
        count >= 1,
        total_balance >= count,
    ensures
        ({
            let s = shares_of(total_balance, total_budget, count);
            &&& count * s.per_beneficiary_balance + s.retained_balance == total_balance
            &&& count * s.per_beneficiary_budget + s.retained_budget == total_budget
            &&& s.retained_balance >= s.per_beneficiary_balance
            &&& s.retained_budget >= s.per_beneficiary_budget
        }),
{
    lemma_share_bounds(total_balance as int, count as int);
    lemma_share_bounds(total_budget as int, count as int);
}

} // verus!
