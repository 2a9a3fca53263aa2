//! The login throttle: an account that fails too often is locked for a while that grows with
//! every further failure.
use vstd::prelude::*;
use vstd::string::*;

use crate::text::same;

verus! {

/// The failures in a row that lock an account.
pub const LOGIN_FAILURES_BEFORE_LOCKOUT: u32 = 5;

/// The longest lock, in seconds.
pub const LOGIN_LOCKOUT_MAX_SECS: u64 = 300;

/// The most password checks at a time.
pub const MAX_CONCURRENT_LOGINS: usize = 8;

/// The most accounts that are tracked.
pub const MAX_TRACKED_ACCOUNTS: usize = 10_000;

/// What is known of an account's failures.
#[derive(Clone, Copy, Debug, PartialEq, Eq, Structural)]
pub struct Attempt {
    pub failures: u32,
    pub locked_until_ms: Option<u64>,
}

#[derive(Debug)]
struct Account {
    subject: String,
    attempt: Attempt,
}

/// The accounts that have failed of late. Whoever shares it guards it with a lock.
#[derive(Debug)]
pub struct LoginThrottle {
    accounts: Vec<Account>,
}

/// 2 to the power of `n`.
pub open spec fn doubled(n: nat) -> nat
    decreases n,
{
    if n == 0 {
        1
    } else {
        2 * doubled((n - 1) as nat)
    }
}

/// How long an account is locked after this many failures, in seconds: one second at the
/// threshold, doubling with each further failure up to the longest lock.
pub open spec fn lockout_secs(failures: u32) -> nat {
    let shift = if failures - LOGIN_FAILURES_BEFORE_LOCKOUT > 20 {
        20
    } else {
        failures - LOGIN_FAILURES_BEFORE_LOCKOUT
    };
    let secs = doubled(shift as nat);
    if secs > LOGIN_LOCKOUT_MAX_SECS {
        LOGIN_LOCKOUT_MAX_SECS as nat
    } else {
        secs
    }
}

/// Whether an account is locked at `now`.
pub open spec fn locked_at(a: Attempt, now: u64) -> bool {
    a.locked_until_ms matches Some(until) && until > now
}

/// What is known of an account after one more failure.
pub open spec fn after_failure(a: Attempt, now: u64) -> Attempt {
    let failures = if a.failures == u32::MAX {
        u32::MAX
    } else {
        (a.failures + 1) as u32
    };
    Attempt {
        failures,
        locked_until_ms: if failures >= LOGIN_FAILURES_BEFORE_LOCKOUT {
            Some((now + 1000 * lockout_secs(failures)) as u64)
        } else {
            a.locked_until_ms
        },
    }
}

/// The accounts that are locked at `now`.
pub open spec fn locked_accounts(m: Map<Seq<char>, Attempt>, now: u64) -> Map<Seq<char>, Attempt> {
    Map::new(|s: Seq<char>| m.contains_key(s) && locked_at(m[s], now), |s: Seq<char>| m[s])
}

/// What is known of an account, from the start where nothing is.
pub open spec fn known(m: Map<Seq<char>, Attempt>, subject: Seq<char>) -> Attempt {
    if m.contains_key(subject) {
        m[subject]
    } else {
        Attempt { failures: 0, locked_until_ms: None }
    }
}

/// The accounts after a failure of `subject`. A full table first forgets all that are not locked;
/// one that is full of locked accounts takes no new one.
pub open spec fn failed(m: Map<Seq<char>, Attempt>, subject: Seq<char>, now: u64) -> Map<
    Seq<char>,
    Attempt,
> {
    let kept = if m.len() >= MAX_TRACKED_ACCOUNTS {
        locked_accounts(m, now)
    } else {
        m
    };
    if kept.len() >= MAX_TRACKED_ACCOUNTS && !kept.contains_key(subject) {
        kept
    } else {
        kept.insert(subject, after_failure(known(kept, subject), now))
    }
}

spec fn distinct(accounts: Seq<Account>) -> bool {
    forall|i: int, j: int|
        0 <= i < j < accounts.len() ==> (#[trigger] accounts[i]).subject@ != (
        #[trigger] accounts[j]).subject@
}

spec fn table(accounts: Seq<Account>) -> Map<Seq<char>, Attempt>
    decreases accounts.len(),
{
    if accounts.len() == 0 {
        Map::empty()
    } else {
        table(accounts.drop_last()).insert(accounts.last().subject@, accounts.last().attempt)
    }
}

proof fn lemma_table(accounts: Seq<Account>)
    requires
        distinct(accounts),
    ensures
        forall|s: Seq<char>| #[trigger]
            table(accounts).contains_key(s) ==> exists|i: int|
                0 <= i < accounts.len() && (#[trigger] accounts[i]).subject@ == s,
        forall|i: int|
            0 <= i < accounts.len() ==> table(accounts).contains_key(
                (#[trigger] accounts[i]).subject@,
            ) && table(accounts)[accounts[i].subject@] == accounts[i].attempt,
        table(accounts).dom().finite(),
        table(accounts).len() == accounts.len(),
    decreases accounts.len(),
{
    if accounts.len() > 0 {
        let rest = accounts.drop_last();
        lemma_table(rest);
        assert(forall|i: int| 0 <= i < rest.len() ==> rest[i] == accounts[i]);
        let last = accounts.last().subject@;
        assert(!table(rest).contains_key(last)) by {
            if table(rest).contains_key(last) {
                let i = choose|i: int| 0 <= i < rest.len() && (#[trigger] rest[i]).subject@ == last;
                assert(accounts[i].subject@ == accounts[accounts.len() - 1].subject@);
            }
        }
        assert forall|s: Seq<char>| #[trigger] table(accounts).contains_key(s) implies exists|i: int|
            0 <= i < accounts.len() && (#[trigger] accounts[i]).subject@ == s by {
            if s == last {
                assert(accounts[accounts.len() - 1].subject@ == s);
            } else {
                let i = choose|i: int| 0 <= i < rest.len() && (#[trigger] rest[i]).subject@ == s;
                assert(accounts[i].subject@ == s);
            }
        }
        assert forall|i: int| 0 <= i < accounts.len() implies table(accounts).contains_key(
            (#[trigger] accounts[i]).subject@,
        ) && table(accounts)[accounts[i].subject@] == accounts[i].attempt by {
            if i < rest.len() {
                assert(rest[i] == accounts[i]);
                assert(accounts[i].subject@ != accounts[accounts.len() - 1].subject@);
            }
        }
    }
}

proof fn lemma_doubled(n: nat)
    ensures
        n >= 9 ==> doubled(n) > LOGIN_LOCKOUT_MAX_SECS,
        n == 0 ==> doubled(n) == 1,
        n == 1 ==> doubled(n) == 2,
        n == 2 ==> doubled(n) == 4,
        n == 3 ==> doubled(n) == 8,
        n == 4 ==> doubled(n) == 16,
        n == 5 ==> doubled(n) == 32,
        n == 6 ==> doubled(n) == 64,
        n == 7 ==> doubled(n) == 128,
        n == 8 ==> doubled(n) == 256,
        doubled(n) >= 1,
    decreases n,
{
    if n > 0 {
        lemma_doubled((n - 1) as nat);
    }
}

fn lockout(failures: u32) -> (secs: u64)
    requires
        failures >= LOGIN_FAILURES_BEFORE_LOCKOUT,
    ensures
        secs == lockout_secs(failures),
        1 <= secs <= LOGIN_LOCKOUT_MAX_SECS,
{
    let past: u32 = failures - LOGIN_FAILURES_BEFORE_LOCKOUT;
    let shift: u32 = if past > 20 {
        20
    } else {
        past
    };
    proof {
        lemma_doubled(shift as nat);
    }
    match shift {
        0 => 1,
        1 => 2,
        2 => 4,
        3 => 8,
        4 => 16,
        5 => 32,
        6 => 64,
        7 => 128,
        8 => 256,
        _ => LOGIN_LOCKOUT_MAX_SECS,
    }
}

impl View for LoginThrottle {
    type V = Map<Seq<char>, Attempt>;

    closed spec fn view(&self) -> Map<Seq<char>, Attempt> {
        table(self.accounts@)
    }
}

impl LoginThrottle {
    /// Whether each account is tracked once.
    pub closed spec fn wf(&self) -> bool {
        distinct(self.accounts@)
    }

    /// A throttle that tracks no account.
    pub fn new() -> (t: LoginThrottle)
        ensures
            t.wf(),
            t@ == Map::<Seq<char>, Attempt>::empty(),
    {
        LoginThrottle { accounts: Vec::new() }
    }

    fn find(&self, subject: &str) -> (at: Option<usize>)
        requires
            self.wf(),
        ensures
            match at {
                Some(i) => i < self.accounts@.len() && self.accounts@[i as int].subject@ == subject@
                    && self@.contains_key(subject@) && self@[subject@]
                    == self.accounts@[i as int].attempt,
                None => !self@.contains_key(subject@),
            },
    {
        proof {
            lemma_table(self.accounts@);
        }
        let mut i: usize = 0;
        while i < self.accounts.len()
            invariant
                i <= self.accounts@.len(),
                forall|k: int|
                    0 <= k < i ==> (#[trigger] self.accounts@[k]).subject@ != subject@,
                forall|k: int|
                    0 <= k < self.accounts@.len() ==> self@.contains_key(
                        (#[trigger] self.accounts@[k]).subject@,
                    ) && self@[self.accounts@[k].subject@] == self.accounts@[k].attempt,
            decreases self.accounts@.len() - i,
        {
            if same(self.accounts[i].subject.as_str(), subject) {
                return Some(i);
            }
            i = i + 1;
        }
        None
    }

    /// How long `subject` is still locked at `now`, in milliseconds; `None` where it may try.
    pub fn locked_for(&self, subject: &str, now: u64) -> (r: Option<u64>)
        requires
            self.wf(),
        ensures
            r == if self@.contains_key(subject@) && locked_at(self@[subject@], now) {
                Some((self@[subject@].locked_until_ms->0 - now) as u64)
            } else {
                None::<u64>
            },
    {
        match self.find(subject) {
            Some(i) => match self.accounts[i].attempt.locked_until_ms {
                Some(until) => if until > now {
                    Some(until - now)
                } else {
                    None
                },
                None => None,
            },
            None => None,
        }
    }

    fn forget_unlocked(&mut self, now: u64)
        requires
            old(self).wf(),
        ensures
            final(self).wf(),
            final(self)@ == locked_accounts(old(self)@, now),
    {
        let ghost before = self.accounts@;
        let mut kept: Vec<Account> = Vec::new();
        let ghost mut from: Seq<int> = Seq::empty();
        let mut i: usize = 0;
        while i < self.accounts.len()
            invariant
                before == self.accounts@,
                distinct(before),
                i <= before.len(),
                from.len() == kept@.len(),
                forall|k: int|
                    0 <= k < from.len() ==> 0 <= #[trigger] from[k] < i && kept@[k].subject@
                        == before[from[k]].subject@ && kept@[k].attempt == before[from[k]].attempt
                        && locked_at(before[from[k]].attempt, now),
                forall|k: int, l: int| 0 <= k < l < from.len() ==> from[k] < from[l],
                forall|m: int|
                    0 <= m < i && locked_at((#[trigger] before[m]).attempt, now) ==> from.contains(
                        m,
                    ),
            decreases before.len() - i,
        {
            let a = self.accounts[i].attempt;
            let locked = match a.locked_until_ms {
                Some(until) => until > now,
                None => false,
            };
            let ghost had = from;
            if locked {
                kept.push(Account { subject: self.accounts[i].subject.clone(), attempt: a });
                proof {
                    from = from.push(i as int);
                    assert(from[had.len() as int] == i);
                    assert forall|m: int|
                        0 <= m < i + 1 && locked_at(
                            (#[trigger] before[m]).attempt,
                            now,
                        ) implies from.contains(m) by {
                        if m < i {
                            let k = choose|k: int| 0 <= k < had.len() && had[k] == m;
                            assert(from[k] == m);
                        }
                    }
                }
            }
            i = i + 1;
        }
        self.accounts = kept;
        proof {
            assert(distinct(kept@)) by {
                assert forall|k: int, l: int| 0 <= k < l < kept@.len() implies (
                #[trigger] kept@[k]).subject@ != (#[trigger] kept@[l]).subject@ by {
                    assert(from[k] < from[l]);
                    assert(before[from[k]].subject@ != before[from[l]].subject@);
                }
            }
            lemma_table(before);
            lemma_table(kept@);
            let got = table(kept@);
            let want = locked_accounts(table(before), now);
            assert forall|s: Seq<char>| got.contains_key(s) implies #[trigger] want.contains_key(s)
                && want[s] == got[s] by {
                let k = choose|k: int| 0 <= k < kept@.len() && (#[trigger] kept@[k]).subject@ == s;
                assert(before[from[k]].subject@ == s);
            }
            assert forall|s: Seq<char>| want.contains_key(s) implies #[trigger] got.contains_key(
                s,
            ) by {
                assert(table(before).contains_key(s) && locked_at(table(before)[s], now));
                let m = choose|m: int| 0 <= m < before.len() && (#[trigger] before[m]).subject@
                    == s;
                assert(locked_at(before[m].attempt, now));
                let k = choose|k: int| 0 <= k < from.len() && from[k] == m;
                assert(kept@[k].subject@ == s);
            }
            assert(got =~= want);
        }
    }

    /// Records a failed login of `subject`.
    pub fn record_failure(&mut self, subject: &str, now: u64)
        requires
            old(self).wf(),
            now <= u64::MAX - 300_000,
        ensures
            final(self).wf(),
            final(self)@ == failed(old(self)@, subject@, now),
    {
        proof {
            lemma_table(self.accounts@);
        }
        if self.accounts.len() >= MAX_TRACKED_ACCOUNTS {
            self.forget_unlocked(now);
        }
        let ghost kept = self@;
        proof {
            lemma_table(self.accounts@);
        }
        match self.find(subject) {
            Some(i) => {
                let attempt = failed_once(self.accounts[i].attempt, now);
                let ghost before = self.accounts@;
                self.accounts[i].attempt = attempt;
                proof {
                    let after = self.accounts@;
                    assert(forall|k: int|
                        0 <= k < before.len() ==> (#[trigger] after[k]).subject@
                            == before[k].subject@);
                    assert(distinct(after)) by {
                        assert forall|k: int, l: int| 0 <= k < l < after.len() implies (
                        #[trigger] after[k]).subject@ != (#[trigger] after[l]).subject@ by {
                            assert(before[k].subject@ != before[l].subject@);
                        }
                    }
                    lemma_table(after);
                    let want = table(before).insert(subject@, attempt);
                    assert forall|s: Seq<char>| table(after).contains_key(
                        s,
                    ) implies want.contains_key(s) && want[s] == table(after)[s] by {
                        let k = choose|k: int|
                            0 <= k < after.len() && (#[trigger] after[k]).subject@ == s;
                        assert(before[k].subject@ == s);
                        if k != i {
                            assert(before[k].subject@ != before[i as int].subject@);
                        }
                    }
                    assert forall|s: Seq<char>| want.contains_key(s) implies table(
                        after,
                    ).contains_key(s) by {
                        if s == subject@ {
                            assert(after[i as int].subject@ == s);
                        } else {
                            let k = choose|k: int|
                                0 <= k < before.len() && (#[trigger] before[k]).subject@ == s;
                            assert(after[k].subject@ == s);
                        }
                    }
                    assert(table(after) =~= want);
                }
            },
            None => {
                if self.accounts.len() >= MAX_TRACKED_ACCOUNTS {
                    return;
                }
                let attempt = failed_once(Attempt { failures: 0, locked_until_ms: None }, now);
                let ghost before = self.accounts@;
                self.accounts.push(Account { subject: subject.to_owned(), attempt });
                proof {
                    assert(self.accounts@.drop_last() =~= before);
                    assert forall|k: int, l: int| 0 <= k < l < self.accounts@.len() implies (
                    #[trigger] self.accounts@[k]).subject@ != (
                    #[trigger] self.accounts@[l]).subject@ by {
                        assert(self.accounts@[k] == before[k]);
                        if l == before.len() {
                            assert(kept.contains_key(before[k].subject@));
                        } else {
                            assert(self.accounts@[l] == before[l]);
                        }
                    }
                }
            },
        }
    }

    /// Records a successful login of `subject`: its failures are forgotten.
    pub fn record_success(&mut self, subject: &str)
        requires
            old(self).wf(),
        ensures
            final(self).wf(),
            final(self)@ == old(self)@.remove(subject@),
    {
        if let Some(i) = self.find(subject) {
            let ghost before = self.accounts@;
            self.accounts.remove(i);
            proof {
                let after = self.accounts@;
                assert(after =~= before.remove(i as int));
                assert(distinct(after)) by {
                    assert forall|k: int, l: int| 0 <= k < l < after.len() implies (
                    #[trigger] after[k]).subject@ != (#[trigger] after[l]).subject@ by {
                        let k0 = if k < i {
                            k
                        } else {
                            k + 1
                        };
                        let l0 = if l < i {
                            l
                        } else {
                            l + 1
                        };
                        assert(before[k0].subject@ != before[l0].subject@);
                    }
                }
                lemma_table(before);
                lemma_table(after);
                let want = table(before).remove(subject@);
                assert forall|s: Seq<char>| table(after).contains_key(s) implies want.contains_key(
                    s,
                ) && want[s] == table(after)[s] by {
                    let k = choose|k: int|
                        0 <= k < after.len() && (#[trigger] after[k]).subject@ == s;
                    let k0 = if k < i {
                        k
                    } else {
                        k + 1
                    };
                    assert(before[k0] == after[k]);
                    if k0 < i {
                        assert(before[k0].subject@ != before[i as int].subject@);
                    } else {
                        assert(before[i as int].subject@ != before[k0].subject@);
                    }
                }
                assert forall|s: Seq<char>| want.contains_key(s) implies table(after).contains_key(
                    s,
                ) by {
                    let k0 = choose|k: int|
                        0 <= k < before.len() && (#[trigger] before[k]).subject@ == s;
                    let k = if k0 < i {
                        k0
                    } else {
                        k0 - 1
                    };
                    assert(after[k] == before[k0]);
                }
                assert(table(after) =~= want);
            }
        } else {
            assert(self@ =~= old(self)@.remove(subject@));
        }
    }
}

fn failed_once(a: Attempt, now: u64) -> (r: Attempt)
    requires
        now <= u64::MAX - 300_000,
    ensures
        r == after_failure(a, now),
{
    let failures: u32 = if a.failures == u32::MAX {
        u32::MAX
    } else {
        a.failures + 1
    };
    if failures >= LOGIN_FAILURES_BEFORE_LOCKOUT {
        let secs: u64 = lockout(failures);
        Attempt { failures, locked_until_ms: Some(now + 1000 * secs) }
    } else {
        Attempt { failures, locked_until_ms: a.locked_until_ms }
    }
}

/// The accounts after failures of `subject` at these times.
pub open spec fn failed_at(m: Map<Seq<char>, Attempt>, subject: Seq<char>, times: Seq<u64>) -> Map<
    Seq<char>,
    Attempt,
>
    decreases times.len(),
{
    if times.len() == 0 {
        m
    } else {
        failed(failed_at(m, subject, times.drop_last()), subject, times.last())
    }
}

/// The failures that are counted of `n`: a counter that is full stays full.
pub open spec fn counted(n: nat) -> u32 {
    if n > u32::MAX {
        u32::MAX
    } else {
        n as u32
    }
}

proof fn lemma_counted(m: Map<Seq<char>, Attempt>, subject: Seq<char>, times: Seq<u64>)
    requires
        m.len() < MAX_TRACKED_ACCOUNTS,
        times.len() > 1 ==> m.len() + 1 < MAX_TRACKED_ACCOUNTS,
        m.dom().finite(),
        !m.contains_key(subject),
        forall|i: int| 0 <= i < times.len() ==> #[trigger] times[i] <= u64::MAX - 300_000,
    ensures
        ({
            let after = failed_at(m, subject, times);
            &&& after.dom().finite()
            &&& after.len() <= m.len() + 1
            &&& times.len() == 0 ==> after == m
            &&& known(after, subject).failures == counted(times.len())
            &&& times.len() > 0 ==> after.contains_key(subject)
            &&& times.len() < LOGIN_FAILURES_BEFORE_LOCKOUT ==> known(
                after,
                subject,
            ).locked_until_ms is None
            &&& times.len() >= LOGIN_FAILURES_BEFORE_LOCKOUT ==> known(
                after,
                subject,
            ).locked_until_ms == Some(
                (times.last() + 1000 * lockout_secs(counted(times.len()))) as u64,
            )
            &&& forall|other: Seq<char>|
                other != subject ==> #[trigger] known(after, other) == known(m, other)
        }),
    decreases times.len(),
{
    if times.len() > 0 {
        let earlier = times.drop_last();
        assert forall|i: int| 0 <= i < earlier.len() implies #[trigger] earlier[i] <= u64::MAX
            - 300_000 by {
            assert(earlier[i] == times[i]);
        }
        lemma_counted(m, subject, earlier);
        let before = failed_at(m, subject, earlier);
        let after = failed_at(m, subject, times);
        assert(after == before.insert(
            subject,
            after_failure(known(before, subject), times.last()),
        ));
        assert(after.dom() =~= before.dom().insert(subject));
        assert forall|other: Seq<char>| other != subject implies #[trigger] known(after, other)
            == known(m, other) by {
            assert(known(before, other) == known(m, other));
        }
    }
}

/// An account is locked from the threshold of failures on, and not before: for at least one
/// second after the last failure. Other accounts are not touched, and a success clears the lock.
/// The table must not fill up with the account: a full table forgets who is not locked.
pub proof fn lemma_locks_at_the_threshold(
    m: Map<Seq<char>, Attempt>,
    subject: Seq<char>,
    times: Seq<u64>,
    other: Seq<char>,
)
    requires
        m.len() < MAX_TRACKED_ACCOUNTS,
        times.len() > 1 ==> m.len() + 1 < MAX_TRACKED_ACCOUNTS,
        m.dom().finite(),
        !m.contains_key(subject),
        times.len() > 0,
        forall|i: int| 0 <= i < times.len() ==> #[trigger] times[i] <= u64::MAX - 300_000,
        other != subject,
    ensures
        ({
            let after = failed_at(m, subject, times);
            &&& locked_at(known(after, subject), (times.last() + 999) as u64) <==> times.len()
                >= LOGIN_FAILURES_BEFORE_LOCKOUT
            &&& known(after, other) == known(m, other)
            &&& forall|now: u64| !#[trigger] locked_at(known(after.remove(subject), subject), now)
        }),
{
    lemma_counted(m, subject, times);
    if times.len() >= LOGIN_FAILURES_BEFORE_LOCKOUT {
        lemma_lockout_bounds(counted(times.len()));
    }
}

proof fn lemma_lockout_bounds(failures: u32)
    requires
        failures >= LOGIN_FAILURES_BEFORE_LOCKOUT,
    ensures
        1 <= lockout_secs(failures) <= LOGIN_LOCKOUT_MAX_SECS,
{
    let past = failures - LOGIN_FAILURES_BEFORE_LOCKOUT;
    lemma_doubled(
        (if past > 20 {
            20
        } else {
            past
        }) as nat,
    );
}

/// No more accounts are tracked than there is room for, however many fail.
pub proof fn lemma_table_is_bounded(m: Map<Seq<char>, Attempt>, subject: Seq<char>, now: u64)
    requires
        m.dom().finite(),
        m.len() <= MAX_TRACKED_ACCOUNTS,
    ensures
        failed(m, subject, now).dom().finite(),
        failed(m, subject, now).len() <= MAX_TRACKED_ACCOUNTS,
{
    let kept = locked_accounts(m, now);
    assert(kept.dom().subset_of(m.dom()));
    vstd::set_lib::lemma_len_subset(kept.dom(), m.dom());
}

proof fn lemma_doubled_grows(a: nat, b: nat)
    requires
        a <= b,
    ensures
        doubled(a) <= doubled(b),
    decreases b,
{
    if a < b {
        lemma_doubled_grows(a, (b - 1) as nat);
    }
}

/// Locks never get shorter with further failures, and none is longer than the longest.
pub proof fn lemma_lockout_grows(a: u32, b: u32)
    requires
        LOGIN_FAILURES_BEFORE_LOCKOUT <= a <= b,
    ensures
        lockout_secs(a) <= lockout_secs(b) <= LOGIN_LOCKOUT_MAX_SECS,
{
    let shift = |n: u32|
        if n - LOGIN_FAILURES_BEFORE_LOCKOUT > 20 {
            20nat
        } else {
            (n - LOGIN_FAILURES_BEFORE_LOCKOUT) as nat
        };
    lemma_doubled_grows(shift(a), shift(b));
}

} // verus!
