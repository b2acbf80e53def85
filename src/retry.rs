//! Classification of page-fetch failures and the fixed backoff schedule for
//! secondary rate limits.
use vstd::prelude::*;

verus! {

/// How many times a page fetch is retried after a secondary rate limit.
pub const MAX_RETRIES: u32 = 3;

/// HTTP status of a forbidden request.
pub const FORBIDDEN: u16 = 403;

/// A failed page fetch, as reported by the remote API: its HTTP status, when the
/// failure came from the server, and its message text.
#[derive(Clone, Debug, PartialEq, Eq)]
pub struct FetchError {
    pub status: Option<u16>,
    pub message: String,
}

/// What to do after a failed attempt.
#[derive(Clone, Copy, Debug, PartialEq, Eq, Structural)]
pub enum RetryAction {
    /// Sleep this many seconds, then fetch the page again.
    Wait(u64),
    /// Report the failure as final.
    GiveUp,
}

/// ASCII letters folded to lower case, as code points; other characters unchanged.
pub open spec fn fold_ascii(c: char) -> u32 {
    if 65 <= (c as u32) && (c as u32) <= 90 {
        (c as u32 + 32) as u32
    } else {
        c as u32
    }
}

/// `pat` occurs in `text` at position `i`, ignoring ASCII case.
pub open spec fn matches_at(text: Seq<char>, pat: Seq<char>, i: int) -> bool {
    &&& 0 <= i
    &&& i + pat.len() <= text.len()
    &&& forall|j: int| 0 <= j < pat.len() ==> fold_ascii(#[trigger] text[i + j]) == fold_ascii(pat[j])
}

/// `pat` occurs somewhere in `text`, ignoring ASCII case.
pub open spec fn contains_ignore_ascii_case(text: Seq<char>, pat: Seq<char>) -> bool {
    exists|i: int| matches_at(text, pat, i)
}

/// The phrase that marks a secondary rate limit in an error message.
pub open spec fn rate_limit_phrase() -> Seq<char> {
    seq!['r', 'a', 't', 'e', ' ', 'l', 'i', 'm', 'i', 't']
}

/// A secondary rate limit: status 403 and a message that mentions "rate limit"
/// in any ASCII case.
pub open spec fn is_secondary_rate_limit_spec(status: Option<u16>, message: Seq<char>) -> bool {
    status == Some(FORBIDDEN) && contains_ignore_ascii_case(message, rate_limit_phrase())
}

/// Seconds waited before the retry numbered `k` (counted from 1): `2^k`.
pub open spec fn backoff_secs(k: nat) -> nat
    decreases k,
{
    if k == 0 {
        1
    } else {
        2 * backoff_secs((k - 1) as nat)
    }
}

/// One step of the retry state machine: from the number of retries already made
/// and whether the failure is retryable, the new number of retries and the action.
pub open spec fn retry_transition(attempts: nat, retryable: bool) -> (nat, RetryAction) {
    if retryable && attempts < MAX_RETRIES {
        (attempts + 1, RetryAction::Wait(backoff_secs(attempts + 1) as u64))
    } else {
        (attempts, RetryAction::GiveUp)
    }
}

/// Case-insensitive (ASCII) search of `pat` in `text`.
pub fn contains_ignoring_ascii_case(text: &str, pat: &Vec<char>) -> (r: bool)
    ensures
        r == contains_ignore_ascii_case(text@, pat@),
{
    let n = text.unicode_len();
    let m = pat.len();
    if m > n {
        assert forall|i: int| !matches_at(text@, pat@, i) by {}
        return false;
    }
    let mut i: usize = 0;
    while i <= n - m
        invariant
            n == text@.len(),
            m == pat@.len(),
            m <= n,
            i <= n - m + 1,
            forall|k: int| 0 <= k < i ==> !matches_at(text@, pat@, k),
        decreases n - m + 1 - i,
    {
        let mut j: usize = 0;
        let mut ok = true;
        while ok && j < m
            invariant
                n == text@.len(),
                m == pat@.len(),
                i + m <= n,
                j <= m,
                forall|l: int| 0 <= l < j ==> fold_ascii(#[trigger] text@[i + l]) == fold_ascii(pat@[l]),
                !ok ==> j < m && fold_ascii(text@[i + j]) != fold_ascii(pat@[j as int]),
            decreases m - j + (if ok { 1int } else { 0int }),
        {
            let a = text.get_char(i + j) as u32;
            let b = pat[j] as u32;
            let fa: u32 = if 65 <= a && a <= 90 { a + 32 } else { a };
            let fb: u32 = if 65 <= b && b <= 90 { b + 32 } else { b };
            if fa != fb {
                ok = false;
            } else {
                j = j + 1;
            }
        }
        if ok {
            assert(matches_at(text@, pat@, i as int));
            return true;
        }
        assert(!matches_at(text@, pat@, i as int)) by {
            assert(fold_ascii(text@[i + j]) != fold_ascii(pat@[j as int]));
        }
        i = i + 1;
    }
    assert forall|k: int| !matches_at(text@, pat@, k) by {
        if 0 <= k && k + m <= n {
            assert(k < i);
        }
    }
    false
}

impl FetchError {
    /// Whether this failure is a secondary rate limit, the one retryable kind.
    pub fn is_secondary_rate_limit(&self) -> (r: bool)
        ensures
            r == is_secondary_rate_limit_spec(self.status, self.message@),
    {
        match self.status {
            Some(s) => {
                if s != FORBIDDEN {
                    return false;
                }
            },
            None => {
                return false;
            },
        }
        let phrase = vec!['r', 'a', 't', 'e', ' ', 'l', 'i', 'm', 'i', 't'];
        assert(phrase@ == rate_limit_phrase());
        contains_ignoring_ascii_case(self.message.as_str(), &phrase)
    }
}

/// The retry counter of one page fetch; it never exceeds `MAX_RETRIES`.
#[derive(Clone, Copy, Debug)]
pub struct RetryState {
    pub attempts: u32,
}

impl RetryState {
    pub open spec fn wf(&self) -> bool {
        self.attempts <= MAX_RETRIES
    }

    /// The state before the first attempt.
    pub fn new() -> (r: RetryState)
        ensures
            r.attempts == 0,
            r.wf(),
    {
        RetryState { attempts: 0 }
    }

    /// Decides what follows a failed attempt: a wait of `2^k` seconds before
    /// retry `k` for a secondary rate limit while fewer than `MAX_RETRIES`
    /// retries were made, and giving up otherwise.
    pub fn on_failure(&mut self, err: &FetchError) -> (r: RetryAction)
        requires
            old(self).wf(),
        ensures
            final(self).wf(),
            (final(self).attempts as nat, r) == retry_transition(
                old(self).attempts as nat,
                is_secondary_rate_limit_spec(err.status, err.message@),
            ),
    {
        if err.is_secondary_rate_limit() && self.attempts < MAX_RETRIES {
            self.attempts = self.attempts + 1;
            let mut secs: u64 = 1;
            let mut k: u32 = 0;
            while k < self.attempts
                invariant
                    k <= self.attempts <= MAX_RETRIES,
                    secs as nat == backoff_secs(k as nat),
                    secs <= 8,
                decreases self.attempts - k,
            {
                proof {
                    assert(k < 3);
                    reveal_with_fuel(backoff_secs, 4);
                }
                secs = secs * 2;
                k = k + 1;
            }
            RetryAction::Wait(secs)
        } else {
            RetryAction::GiveUp
        }
    }
}

/// Where a fetch ends when it fails `failures` times in a row with a secondary
/// rate limit and then succeeds, starting with `attempts` retries already made:
/// whether it succeeds, and the waits, in seconds, that come before.
pub open spec fn run_with_failures(failures: nat, attempts: nat) -> (bool, Seq<nat>)
    decreases failures,
{
    if failures == 0 {
        (true, seq![])
    } else {
        let (next, action) = retry_transition(attempts, true);
        match action {
            RetryAction::Wait(secs) => {
                let (ok, rest) = run_with_failures((failures - 1) as nat, next);
                (ok, seq![secs as nat] + rest)
            },
            RetryAction::GiveUp => (false, seq![]),
        }
    }
}

/// Consecutive secondary rate limits are retried after 2, 4 and 8 seconds; a
/// fourth one in a row is final.
pub proof fn lemma_rate_limit_schedule()
    ensures
        retry_transition(0, true) == (1nat, RetryAction::Wait(2)),
        retry_transition(1, true) == (2nat, RetryAction::Wait(4)),
        retry_transition(2, true) == (3nat, RetryAction::Wait(8)),
        retry_transition(3, true) == (3nat, RetryAction::GiveUp),
{
    reveal_with_fuel(backoff_secs, 4);
}

/// A fetch that hits `n` secondary rate limits in a row and then would succeed
/// succeeds after waits of 2, 4, 8 seconds (the first `n` of them) when
/// `n <= 3`, and fails after all three waits when `n >= 4`.
pub proof fn lemma_failures_then_success(n: nat)
    ensures
        n <= 3 ==> run_with_failures(n, 0) == (true, seq![2nat, 4nat, 8nat].take(n as int)),
        n >= 4 ==> run_with_failures(n, 0) == (false, seq![2nat, 4nat, 8nat]),
{
    lemma_rate_limit_schedule();
    reveal_with_fuel(run_with_failures, 5);
    let s = seq![2nat, 4nat, 8nat];
    if n == 0 {
        assert(s.take(0) =~= seq![]);
    } else if n == 1 {
        assert(s.take(1) =~= seq![2nat]);
        assert(seq![2nat] + seq![] =~= seq![2nat]);
    } else if n == 2 {
        assert(s.take(2) =~= seq![2nat, 4nat]);
        assert(seq![4nat] + seq![] =~= seq![4nat]);
        assert(seq![2nat] + seq![4nat] =~= seq![2nat, 4nat]);
    } else if n == 3 {
        assert(s.take(3) =~= s);
        assert(seq![8nat] + seq![] =~= seq![8nat]);
        assert(seq![4nat] + seq![8nat] =~= seq![4nat, 8nat]);
        assert(seq![2nat] + seq![4nat, 8nat] =~= s);
    } else {
        let m = (n - 4) as nat;
        assert(run_with_failures((m + 1) as nat, 3) == (false, Seq::<nat>::empty()));
        assert(seq![8nat] + seq![] =~= seq![8nat]);
        assert(seq![4nat] + seq![8nat] =~= seq![4nat, 8nat]);
        assert(seq![2nat] + seq![4nat, 8nat] =~= s);
    }
}

/// Any failure that is not a secondary rate limit is final at once, whatever
/// number of retries came before.
pub proof fn lemma_other_failures_are_final(attempts: nat, status: Option<u16>, message: Seq<char>)
    requires
        !is_secondary_rate_limit_spec(status, message),
    ensures
        retry_transition(attempts, is_secondary_rate_limit_spec(status, message)) == (
        attempts,
        RetryAction::GiveUp,
        ),
{
}

} // verus!
