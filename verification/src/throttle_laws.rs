//! How long logins are held back, said of one login after the other.
use vstd::arithmetic::power2::{lemma2_to64, pow2};
use vstd::prelude::*;

use crate::throttle::{doubled, lockout_secs, LoginThrottle};

verus! {

proof fn lemma_doubled_is_a_power(n: nat)
    ensures
        doubled(n) == pow2(n),
    decreases n,
{
    if n == 0 {
        lemma2_to64();
    } else {
        lemma_doubled_is_a_power((n - 1) as nat);
        vstd::arithmetic::power2::lemma_pow2_unfold(n);
    }
}

proof fn lemma_lock(failures: u32)
    requires
        failures >= 5,
    ensures
        failures <= 13 ==> lockout_secs(failures) == pow2((failures - 5) as nat),
        failures > 13 ==> lockout_secs(failures) == 300,
        1 <= lockout_secs(failures) <= 300,
{
    lemma2_to64();
    let shift: nat = if failures - 5 > 20 {
        20
    } else {
        (failures - 5) as nat
    };
    lemma_doubled_is_a_power(shift);
    if shift > 8 {
        lemma_powers_grow(9, shift);
    } else if shift < 8 {
        lemma_powers_grow(shift, 8);
    }
    lemma_powers_grow(0, shift);
}

proof fn lemma_powers_grow(a: nat, b: nat)
    requires
        a <= b,
    ensures
        pow2(a) <= pow2(b),
    decreases b,
{
    if a < b {
        lemma_powers_grow(a, (b - 1) as nat);
        vstd::arithmetic::power2::lemma_pow2_unfold(b);
    }
}

/// A failure counts one more for its account, and for no other, where the table has room. From the
/// fifth in a row on the account is locked: for a second, doubled with each further failure, and for
/// five minutes at most.
pub proof fn lemma_failures_lock(
    t: &mut LoginThrottle,
    subject: &str,
    now: u64,
    other: Seq<char>,
)
    requires
        call_ensures(LoginThrottle::record_failure, (t, subject, now), ()),
        now <= u64::MAX - 300_000,
        old(t)@.len() < 10_000,
        other != subject@,
    ensures
        final(t)@.contains_key(subject@),
        final(t)@.contains_key(other) == old(t)@.contains_key(other),
        old(t)@.contains_key(other) ==> final(t)@[other] == old(t)@[other],
        ({
            let n: u32 = if old(t)@.contains_key(subject@) {
                old(t)@[subject@].failures
            } else {
                0
            };
            let a = final(t)@[subject@];
            &&& n < u32::MAX ==> a.failures == n + 1
            &&& n == u32::MAX ==> a.failures == n
            &&& a.failures < 5 ==> a.locked_until_ms == (if old(t)@.contains_key(subject@) {
                old(t)@[subject@].locked_until_ms
            } else {
                None
            })
            &&& 5 <= a.failures <= 13 ==> a.locked_until_ms is Some && a.locked_until_ms->0 - now
                == 1000 * pow2((a.failures - 5) as nat)
            &&& 13 < a.failures ==> a.locked_until_ms is Some && a.locked_until_ms->0 - now
                == 300_000
        }),
{
    let a = final(t)@[subject@];
    if a.failures >= 5 {
        lemma_lock(a.failures);
    }
}

/// A full table keeps the accounts that are locked, with what is known of them, and takes in no
/// account for which there is no room.
pub proof fn lemma_full_table_keeps_locks(
    t: &mut LoginThrottle,
    subject: &str,
    now: u64,
    other: Seq<char>,
    until: u64,
)
    requires
        call_ensures(LoginThrottle::record_failure, (t, subject, now), ()),
        other != subject@,
        old(t)@.contains_key(other),
        old(t)@[other].locked_until_ms == Some(until),
        until > now,
    ensures
        final(t)@.contains_key(other),
        final(t)@[other] == old(t)@[other],
{
}

/// An account may try exactly where it is not locked, and is else told how long it still is.
pub proof fn lemma_locked_until_it_is_over(
    t: LoginThrottle,
    subject: &str,
    now: u64,
    r: Option<u64>,
)
    requires
        call_ensures(LoginThrottle::locked_for, (&t, subject, now), r),
    ensures
        r matches Some(ms) ==> ms > 0 && t@.contains_key(subject@) && t@[subject@].locked_until_ms
            == Some((now + ms) as u64) && now + ms <= u64::MAX,
        r is None ==> !t@.contains_key(subject@) || t@[subject@].locked_until_ms is None
            || t@[subject@].locked_until_ms->0 <= now,
{
}

/// A success forgets the failures of its account and of no other.
pub proof fn lemma_success_forgets(t: &mut LoginThrottle, subject: &str, other: Seq<char>)
    requires
        call_ensures(LoginThrottle::record_success, (t, subject), ()),
        other != subject@,
    ensures
        !final(t)@.contains_key(subject@),
        final(t)@.contains_key(other) == old(t)@.contains_key(other),
        old(t)@.contains_key(other) ==> final(t)@[other] == old(t)@[other],
{
}

/// A full table makes room: it forgets every account that is not locked.
pub proof fn lemma_full_table_makes_room(
    t: &mut LoginThrottle,
    subject: &str,
    now: u64,
    other: Seq<char>,
)
    requires
        call_ensures(LoginThrottle::record_failure, (t, subject, now), ()),
        other != subject@,
        old(t)@.len() >= 10_000,
        old(t)@.contains_key(other),
        old(t)@[other].locked_until_ms matches Some(until) ==> until <= now,
    ensures
        !final(t)@.contains_key(other),
{
}

} // verus!
