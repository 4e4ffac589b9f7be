use courier::budget::{partition, ProvisionError, Shares};
use courier::chain::{CallArgs, Operation};
use courier::factory::HotelFactory;
use courier::hotel::{Hotel, Reservation};
use courier::text::numbered;

#[test]
fn deploy_three_splits_by_four() {
    let f = HotelFactory {};
    let key = vec![0u8, 1, 2];
    let code = vec![9u8, 8];
    let chains = f.deploy_hotels(3, 10, 100, 1000, &key, &code).unwrap();
    assert_eq!(chains.len(), 3);
    for (i, c) in chains.iter().enumerate() {
        let name = format!("hotel{}", i);
        assert_eq!(c.legs.len(), 5);
        assert!(c.legs.iter().all(|l| l.peer == name));
        assert_eq!(c.legs[0].operation, Operation::CreateAccount);
        assert_eq!(c.legs[1].operation, Operation::Transfer);
        assert_eq!(c.legs[1].balance, 25);
        assert_eq!(c.legs[2].operation, Operation::AddFullAccessKey(key.clone()));
        assert_eq!(c.legs[3].operation, Operation::DeployContract(code.clone()));
        assert_eq!(
            c.legs[4].operation,
            Operation::FunctionCall("new_random".to_string(), CallArgs::NewRandom(i as u8, 10))
        );
        assert_eq!(c.legs[4].budget, 250);
    }
}

#[test]
fn deploy_zero_is_insufficient() {
    let f = HotelFactory {};
    let r = f.deploy_hotels(0, 10, 100, 1000, &vec![], &vec![]);
    assert_eq!(r.err(), Some(ProvisionError::InsufficientResources));
}

#[test]
fn deploy_with_zero_share_is_insufficient() {
    let f = HotelFactory {};
    let r = f.deploy_hotels(3, 10, 3, 1000, &vec![], &vec![]);
    assert_eq!(r.err(), Some(ProvisionError::InsufficientResources));
    let r = f.deploy_hotels(3, 10, 100, 0, &vec![], &vec![]);
    assert_eq!(r.err(), Some(ProvisionError::InsufficientResources));
}

#[test]
fn partition_conserves_totals() {
    let s = partition(103, 1003, 3).unwrap();
    assert_eq!(
        s,
        Shares { per_beneficiary_balance: 25, per_beneficiary_budget: 250, retained_balance: 28, retained_budget: 253 }
    );
    assert_eq!(3 * s.per_beneficiary_balance + s.retained_balance, 103);
    assert_eq!(3 * s.per_beneficiary_budget as u128 + s.retained_budget as u128, 1003);
}

#[test]
fn partition_of_100_and_1000_by_3() {
    let s = partition(100, 1000, 3).unwrap();
    assert_eq!(s.per_beneficiary_balance, 25);
    assert_eq!(s.per_beneficiary_budget, 250);
    assert_eq!(s.retained_balance, 25);
    assert_eq!(s.retained_budget, 250);
}

#[test]
fn partition_refusals() {
    assert_eq!(partition(100, 1000, 0), Err(ProvisionError::InsufficientResources));
    assert_eq!(partition(0, 1000, 2), Err(ProvisionError::InsufficientResources));
    assert_eq!(partition(100, 0, 2), Err(ProvisionError::InsufficientResources));
    let big = partition(u128::MAX, u64::MAX, u64::MAX).unwrap();
    assert_eq!(big.per_beneficiary_budget, 0);
}

#[test]
fn numbered_names() {
    assert_eq!(numbered("hotel", 0), "hotel0");
    assert_eq!(numbered("hotel", 12), "hotel12");
    assert_eq!(numbered("", u64::MAX), "18446744073709551615");
}

#[test]
fn reservation_from_draws_is_exact() {
    let r = Reservation::from_draws(1234, 250, 65, 401);
    assert_eq!(r.user.id, "User34");
    assert!(r.user.is_business);
    assert_eq!(r.amount, 50);
    assert_eq!(r.date, "2019-10-3");
    assert_eq!(r.room_number, 1);
    let r = Reservation::from_draws(7, 99, 30, 199);
    assert_eq!(r.user.id, "User7");
    assert!(!r.user.is_business);
    assert_eq!(r.date, "2019-10-30");
}

#[test]
fn random_hotel_has_the_requested_stays() {
    let h = Hotel::new_random(7, 12);
    let again = Hotel::new_random(7, 12);
    let rs = h.get_reservations();
    assert_eq!(rs.len(), 12);
    for (a, b) in rs.iter().zip(again.get_reservations().iter()) {
        assert!(a.user.id.starts_with("User"));
        assert!(a.amount < 100 && a.room_number < 200);
        assert!(a.date.starts_with("2019-10-"));
        assert_eq!((a.user.id.clone(), a.amount, a.date.clone(), a.room_number), (b.user.id.clone(), b.amount, b.date.clone(), b.room_number));
    }
    assert_eq!(Hotel::new_random(1, 0).get_reservations().len(), 0);
}

#[test]
fn hotel_from_draws_uses_four_values_each() {
    let h = Hotel::from_draws(&vec![1234, 250, 65, 401, 7, 99, 30, 199, 5]);
    let rs = h.get_reservations();
    assert_eq!(rs.len(), 2);
    assert_eq!(rs[0].user.id, "User34");
    assert_eq!(rs[0].date, "2019-10-3");
    assert_eq!(rs[1].user.id, "User7");
    assert_eq!(rs[1].room_number, 199);
}
