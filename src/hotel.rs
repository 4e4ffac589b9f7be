//! A hotel service seeded with pseudo-random past reservations.
use vstd::prelude::*;
use rand::rngs::StdRng;
use rand::{Rng, SeedableRng};
use crate::text::{decimal, numbered};

verus! {

/// rand's standard seedable generator, held as an opaque value.
#[verifier::external_type_specification]
#[verifier::external_body]
pub struct ExStdRng(StdRng);

/// Relies on rand's `SeedableRng::from_seed` for `StdRng`, given a seed of 32
/// copies of `seed`; nothing is assumed of the stream it yields.
#[verifier::external_body]
fn seeded_rng(seed: u8) -> (r: StdRng) {
    StdRng::from_seed([seed; 32])
}

/// Relies on rand's `Rng::gen::<u64>`: the next value of the stream, of
/// which nothing is assumed.
#[verifier::external_body]
fn next_u64(rng: &mut StdRng) -> (r: u64) {
    rng.gen::<u64>()
}

pub struct User {
    pub is_business: bool,
    pub id: String,
}

pub struct Reservation {
    pub user: User,
    pub amount: u64,
    pub date: String,
    pub room_number: u64,
}

/// Whether the user is a business, its id, the amount, the date and the room.
pub type ReservationView = (bool, Seq<char>, u64, Seq<char>, u64);

impl View for Reservation {
    type V = ReservationView;

    open spec fn view(&self) -> ReservationView {
        (self.user.is_business, self.user.id@, self.amount, self.date@, self.room_number)
    }
}

/// The reservation made from four successive draws.
pub open spec fn drawn(user_draw: u64, amount_draw: u64, day_draw: u64, room_draw: u64) -> ReservationView {
    let user_id = user_draw % 100;
    (
        user_id % 2 == 0,
        "User"@ + decimal(user_id as nat),
        amount_draw % 100,
        "2019-10-"@ + decimal((day_draw % 31) as nat),
        room_draw % 200,
    )
}

/// The reservations made from `draws`, four successive draws each.
pub open spec fn drawn_all(draws: Seq<u64>) -> Seq<ReservationView> {
    Seq::new(
        (draws.len() / 4) as nat,
        |j: int| drawn(draws[4 * j], draws[4 * j + 1], draws[4 * j + 2], draws[4 * j + 3]),
    )
}

pub open spec fn reservations_view(v: Seq<Reservation>) -> Seq<ReservationView> {
    v.map_values(|r: Reservation| r@)
}

impl Reservation {
    /// A reservation from four draws: a user number below 100 (even numbers
    /// are businesses), an amount below 100, a day of October 2019 written as
    /// a number below 31, and a room below 200.
    pub fn from_draws(user_draw: u64, amount_draw: u64, day_draw: u64, room_draw: u64) -> (r: Reservation)
        ensures
            r@ == drawn(user_draw, amount_draw, day_draw, room_draw),
    {
        let user_id = user_draw % 100;
        let user = User { is_business: user_id % 2 == 0, id: numbered("User", user_id) };
        Reservation {
            user,
            amount: amount_draw % 100,
            date: numbered("2019-10-", day_draw % 31),
            room_number: room_draw % 200,
        }
    }

    fn copy(&self) -> (r: Reservation)
        ensures
            r@ == self@,
    {
        Reservation {
            user: User { is_business: self.user.is_business, id: self.user.id.clone() },
            amount: self.amount,
            date: self.date.clone(),
            room_number: self.room_number,
        }
    }
}

pub struct Hotel {
    pub past_reservations: Vec<Reservation>,
}

impl Default for Hotel {
    fn default() -> (r: Self)
        ensures
            r.past_reservations@.len() == 0,
    {
        Hotel { past_reservations: Vec::new() }
    }
}

proof fn lemma_reservations_push(a: Seq<Reservation>, x: Reservation)
    ensures
        reservations_view(a.push(x)) == reservations_view(a).push(x@),
{
    assert(reservations_view(a.push(x)) =~= reservations_view(a).push(x@));
}

impl Hotel {
    /// A hotel whose past reservations are made from `draws`, four
    /// successive values each, in order; a trailing incomplete group of
    /// values is not used.
    pub fn from_draws(draws: &Vec<u64>) -> (r: Self)
        ensures
            reservations_view(r.past_reservations@) == drawn_all(draws@),
    {
        let mut res = Hotel { past_reservations: Vec::new() };
        let mut i: usize = 0;
        while draws.len() - i >= 4
            invariant
                i <= draws@.len(),
                i % 4 == 0,
                reservations_view(res.past_reservations@) == drawn_all(draws@).take(i as int / 4),
            decreases draws@.len() - i,
        {
            let ghost prev = res.past_reservations@;
            let reservation = Reservation::from_draws(draws[i], draws[i + 1], draws[i + 2], draws[i + 3]);
            res.past_reservations.push(reservation);
            proof {
                lemma_reservations_push(prev, reservation);
                let j = i as int / 4;
                assert(4 * j == i);
                assert(drawn_all(draws@).take(j + 1) =~= drawn_all(draws@).take(j).push(reservation@));
                assert((i + 4) as int / 4 == j + 1);
            }
            i = i + 4;
        }
        assert(drawn_all(draws@).take(i as int / 4) =~= drawn_all(draws@));
        res
    }

    /// A hotel with `num_stays` past reservations, made from the first
    /// `4 * num_stays` draws of a generator seeded with `seed`.
    pub fn new_random(seed: u8, num_stays: u64) -> (r: Self)
        ensures
            r.past_reservations@.len() == num_stays,
            exists|d: Seq<u64>| d.len() == 4 * num_stays && #[trigger] drawn_all(d) == reservations_view(r.past_reservations@),
    {
        let mut rng = seeded_rng(seed);
        let mut draws: Vec<u64> = Vec::new();
        let mut k: u64 = 0;
        while k < num_stays
            invariant
                k <= num_stays,
                draws@.len() == 4 * k,
            decreases num_stays - k,
        {
            draws.push(next_u64(&mut rng));
            draws.push(next_u64(&mut rng));
            draws.push(next_u64(&mut rng));
            draws.push(next_u64(&mut rng));
            k = k + 1;
        }
        let res = Hotel::from_draws(&draws);
        assert(drawn_all(draws@) == reservations_view(res.past_reservations@));
        assert(reservations_view(res.past_reservations@).len() == res.past_reservations@.len());
        res
    }

    /// A copy of the past reservations.
    pub fn get_reservations(&self) -> (r: Vec<Reservation>)
        ensures
            reservations_view(r@) == reservations_view(self.past_reservations@),
    {
        let mut r: Vec<Reservation> = Vec::new();
        let mut i: usize = 0;
        while i < self.past_reservations.len()
            invariant
                i <= self.past_reservations@.len(),
                reservations_view(r@) == reservations_view(self.past_reservations@.take(i as int)),
            decreases self.past_reservations@.len() - i,
        {
            let ghost prev = r@;
            let x = self.past_reservations[i].copy();
            r.push(x);
            proof {
                lemma_reservations_push(prev, x);
                assert(self.past_reservations@.take(i + 1) == self.past_reservations@.take(i as int).push(
                    self.past_reservations@[i as int],
                ));
                lemma_reservations_push(self.past_reservations@.take(i as int), self.past_reservations@[i as int]);
            }
            i = i + 1;
        }
        assert(self.past_reservations@.take(i as int) =~= self.past_reservations@);
        r
    }
}

} // verus!
