//! Provisioning of child hotel services: each child gets its own chain that
//! creates its account, funds it, grants it a key, installs its code and then
//! initialises it. The chains are independent of one another.
use vstd::prelude::*;
use crate::budget::{partition, partition_refused, shares_of, ProvisionError};
use crate::chain::{CallArgs, CallChain, Leg, Operation};
use crate::text::{copy_bytes, decimal, numbered};

verus! {

/// The initialisation method that each provisioned hotel exposes.
pub trait ExtHotel {
    fn new_random(seed: u8, num_stays: u64);
}

/// A service that deploys hotels.
pub struct HotelFactory {}

/// The account name of child `i`.
pub open spec fn hotel_name(i: nat) -> Seq<char> {
    "hotel"@ + decimal(i)
}

/// Whether a deployment over these resources is refused: the partition is
/// refused, or it would give each child no funds.
pub open spec fn deploy_refused(account_balance: u128, prepaid_gas: u64, num_hotels: u8) -> bool {
    partition_refused(account_balance, prepaid_gas, num_hotels as u64)
        || shares_of(account_balance, prepaid_gas, num_hotels as u64).per_beneficiary_balance == 0
}

/// Whether `legs` is exactly the provisioning chain of child `i`.
pub open spec fn is_hotel_legs(
    legs: Seq<Leg>,
    i: u8,
    stays: u64,
    funds: u128,
    gas: u64,
    key: Seq<u8>,
    code: Seq<u8>,
) -> bool {
    &&& legs.len() == 5
    &&& forall|k: int| 0 <= k < 5 ==> (#[trigger] legs[k]).peer@ == hotel_name(i as nat)
    &&& legs[0].operation is CreateAccount && legs[0].balance == 0 && legs[0].budget == 0
    &&& legs[1].operation is Transfer && legs[1].balance == funds && legs[1].budget == 0
    &&& legs[2].operation is AddFullAccessKey && legs[2].operation->AddFullAccessKey_0@ == key
        && legs[2].balance == 0 && legs[2].budget == 0
    &&& legs[3].operation is DeployContract && legs[3].operation->DeployContract_0@ == code
        && legs[3].balance == 0 && legs[3].budget == 0
    &&& legs[4].operation is FunctionCall && legs[4].operation->FunctionCall_0@ == "new_random"@
        && legs[4].operation->FunctionCall_1 is NewRandom && legs[4].operation->FunctionCall_1->NewRandom_0 == i
        && legs[4].operation->FunctionCall_1->NewRandom_1 == stays && legs[4].balance == 0 && legs[4].budget == gas
}

/// The chain that provisions child `i`; later legs do not run once a leg has failed.
fn hotel_chain(i: u8, stays: u64, funds: u128, gas: u64, key: &Vec<u8>, code: &Vec<u8>) -> (r: CallChain)
    ensures
        is_hotel_legs(r.legs@, i, stays, funds, gas, key@, code@),
        !r.continue_on_failure,
{
    let c = CallChain::schedule(numbered("hotel", i as u64), Operation::CreateAccount, 0, 0, false);
    let c = c.chain(numbered("hotel", i as u64), Operation::Transfer, funds, 0);
    let c = c.chain(numbered("hotel", i as u64), Operation::AddFullAccessKey(copy_bytes(key)), 0, 0);
    let c = c.chain(numbered("hotel", i as u64), Operation::DeployContract(copy_bytes(code)), 0, 0);
    let c = c.chain(
        numbered("hotel", i as u64),
        Operation::FunctionCall(String::from_str("new_random"), CallArgs::NewRandom(i, stays)),
        0,
        gas,
    );
    assert(forall|k: int| 0 <= k < 5 ==> (#[trigger] c.legs@[k]).peer@ == hotel_name(i as nat));
    c
}

impl HotelFactory {
    /// Builds one independent provisioning chain per hotel. The balance and
    /// the gas are split over `num_hotels + 1` shares, one kept back for this
    /// service. Best effort: a child that fails is not rolled back.
    pub fn deploy_hotels(
        &self,
        num_hotels: u8,
        stays_per_hotel: u64,
        account_balance: u128,
        prepaid_gas: u64,
        signer_pk: &Vec<u8>,
        code: &Vec<u8>,
    ) -> (r: Result<Vec<CallChain>, ProvisionError>)
        ensures
            r is Err <==> deploy_refused(account_balance, prepaid_gas, num_hotels),
            r is Err ==> r == Err::<Vec<CallChain>, ProvisionError>(ProvisionError::InsufficientResources),
            r is Ok ==> r->Ok_0@.len() == num_hotels as int && forall|k: int|
                0 <= k < num_hotels ==> #[trigger] is_hotel_legs(
                    r->Ok_0@[k].legs@,
                    k as u8,
                    stays_per_hotel,
                    shares_of(account_balance, prepaid_gas, num_hotels as u64).per_beneficiary_balance,
                    shares_of(account_balance, prepaid_gas, num_hotels as u64).per_beneficiary_budget,
                    signer_pk@,
                    code@,
                ),
    {
        let shares = match partition(account_balance, prepaid_gas, num_hotels as u64) {
            Ok(s) => s,
            Err(e) => {
                return Err(e);
            },
        };
        if shares.per_beneficiary_balance == 0 {
            return Err(ProvisionError::InsufficientResources);
        }
        let mut chains: Vec<CallChain> = Vec::new();
        let mut i: u8 = 0;
        while i < num_hotels
            invariant
                i <= num_hotels,
                shares == shares_of(account_balance, prepaid_gas, num_hotels as u64),
                chains@.len() == i as int,
                forall|k: int|
                    0 <= k < i ==> #[trigger] is_hotel_legs(
                        chains@[k].legs@,
                        k as u8,
                        stays_per_hotel,
                        shares.per_beneficiary_balance,
                        shares.per_beneficiary_budget,
                        signer_pk@,
                        code@,
                    ),
            decreases num_hotels - i,
        {
            let c = hotel_chain(
                i,
                stays_per_hotel,
                shares.per_beneficiary_balance,
                shares.per_beneficiary_budget,
                signer_pk,
                code,
            );
            chains.push(c);
            i = i + 1;
        }
        Ok(chains)
    }
}

} // verus!
