//! The spend of a day, in millionths of a dollar, against its cap.

use vstd::prelude::*;

verus! {

/// The total after a charge.
pub fn budget_add(spent: u64, amount: u64) -> (r: u64)
    requires
        spent + amount <= u64::MAX,
    ensures
        r == spent + amount,
{
    spent + amount
}

/// The total after a reservation that keeps within the cap.
pub open spec fn reserved(spent: u64, amount: u64, cap: u64) -> Option<u64> {
    if spent + amount <= cap {
        Some((spent + amount) as u64)
    } else {
        None
    }
}

/// Reserves an amount, where the total keeps within the cap; otherwise nothing is
/// reserved.
pub fn budget_try_reserve(spent: u64, amount: u64, cap: u64) -> (r: Option<u64>)
    ensures
        r == reserved(spent, amount, cap),
{
    if amount <= cap && spent <= cap - amount {
        Some(spent + amount)
    } else {
        None
    }
}

/// The total after a reservation gave way to what was spent. A refund does not take
/// the total below zero.
pub open spec fn settled(spent: u64, amount: u64, actual: u64) -> u64 {
    let rest = if spent >= amount {
        spent - amount
    } else {
        0
    };
    if rest + actual > u64::MAX {
        u64::MAX
    } else {
        (rest + actual) as u64
    }
}

/// Puts what was spent in the place of a reservation.
pub fn budget_settle(spent: u64, amount: u64, actual: u64) -> (r: u64)
    ensures
        r == settled(spent, amount, actual),
{
    let rest: u64 = if spent >= amount {
        spent - amount
    } else {
        0
    };
    if rest > u64::MAX - actual {
        u64::MAX
    } else {
        rest + actual
    }
}

/// A reservation that is settled charges what was spent, and one that is given up
/// charges nothing.
pub proof fn settling_charges_what_was_spent(spent: u64, amount: u64, cap: u64, actual: u64)
    requires
        reserved(spent, amount, cap) is Some,
        spent + actual <= u64::MAX,
    ensures
        settled(reserved(spent, amount, cap)->0, amount, actual) == spent + actual,
        settled(reserved(spent, amount, cap)->0, amount, 0) == spent,
{
}

/// The total after one attempt after the other to reserve an amount.
pub open spec fn after_attempts(spent: u64, amounts: Seq<u64>, cap: u64) -> u64
    decreases amounts.len(),
{
    if amounts.len() == 0 {
        spent
    } else {
        let before = after_attempts(spent, amounts.drop_last(), cap);
        match reserved(before, amounts.last(), cap) {
            Some(total) => total,
            None => before,
        }
    }
}

/// However many reservations are tried, a total within the cap stays within it.
pub proof fn reservations_keep_within_the_cap(spent: u64, amounts: Seq<u64>, cap: u64)
    requires
        spent <= cap,
    ensures
        spent <= after_attempts(spent, amounts, cap) <= cap,
    decreases amounts.len(),
{
    if amounts.len() > 0 {
        reservations_keep_within_the_cap(spent, amounts.drop_last(), cap);
    }
}

/// A reservation that is held. It is given back where it was not settled.
pub struct BudgetReservation {
    pub day: String,
    pub reserve: u64,
    /// It is neither settled nor given back.
    pub armed: bool,
}

impl BudgetReservation {
    /// Takes note of a reservation that was made.
    pub fn new(day: &str, reserve: u64) -> (r: BudgetReservation)
        ensures
            r.day@ == day@,
            r.reserve == reserve,
            r.armed,
    {
        BudgetReservation { day: String::from_str(day), reserve, armed: true }
    }

    /// The total once the reservation is settled.
    pub fn settle(&mut self, spent: u64, actual: u64) -> (r: u64)
        ensures
            r == settled(spent, old(self).reserve, actual),
            !final(self).armed,
            final(self).reserve == old(self).reserve,
            final(self).day == old(self).day,
    {
        self.armed = false;
        budget_settle(spent, self.reserve, actual)
    }

    /// The total once a reservation is let go: as if it had not been made, unless it
    /// was settled.
    pub fn release(&mut self, spent: u64) -> (r: u64)
        ensures
            r == if old(self).armed {
                settled(spent, old(self).reserve, 0)
            } else {
                spent
            },
            !final(self).armed,
            final(self).reserve == old(self).reserve,
            final(self).day == old(self).day,
    {
        if self.armed {
            self.armed = false;
            budget_settle(spent, self.reserve, 0)
        } else {
            spent
        }
    }
}

/// A reservation is made exactly where the total with it is no more than the cap, and then
/// the total grows by the amount.
pub proof fn a_reservation_is_made_where_there_is_room(spent: u64, amount: u64, cap: u64)
    ensures
        reserved(spent, amount, cap) is Some <==> spent + amount <= cap,
        reserved(spent, amount, cap) is Some ==> reserved(spent, amount, cap)->0 - spent == amount,
{
}

/// Settling takes the reservation off the total and puts what was spent on it, whatever else
/// was charged meanwhile; a total that is below the reservation counts as nothing, and the
/// total stops at the largest number.
pub proof fn settling_replaces_the_reservation(spent: u64, amount: u64, actual: u64)
    ensures
        spent >= amount && spent - amount + actual <= u64::MAX ==> settled(spent, amount, actual)
            == spent - amount + actual,
        spent < amount ==> settled(spent, amount, actual) == actual,
        settled(spent, amount, actual) >= actual,
        spent >= amount && spent - amount + actual > u64::MAX ==> settled(spent, amount, actual)
            == u64::MAX,
        settled(spent, amount, amount) == spent || spent < amount,
{
}

} // verus!
