//! Reacting to changes in the feed directory: which files matter, and how often a change
//! that another process holds open is tried again.
use vstd::prelude::*;
use crate::text::{ascii_lower, ascii_lower_chars, chars_of, compare_chars, lemma_chars_order_facts};

verus! {

/// How many times a change is tried before it is given up.
pub const MAX_ATTEMPTS: u32 = 10;

/// The wait, in milliseconds, after the first attempt that found the file in use.
pub const FIRST_DELAY_MS: u64 = 100;

/// The longest wait, in milliseconds, between two attempts.
pub const MAX_DELAY_MS: u64 = 2000;

/// The Windows error code of a sharing violation (`ERROR_SHARING_VIOLATION`).
pub const SHARING_VIOLATION: i32 = 32;

/// The extension of a file name, as `Path::extension` finds it: what follows the last
/// `.`, unless there is no `.`, the only `.` starts the name, or the name is `..`.
pub open spec fn extension_of(name: Seq<char>) -> Option<Seq<char>>
    decreases name.len(),
{
    if name == ".."@ {
        None
    } else {
        last_dot_split(name, name.len() as int)
    }
}

/// Looking back from `i`: the text after the last `.` before `i`, when that `.` is not
/// the first character.
pub open spec fn last_dot_split(name: Seq<char>, i: int) -> Option<Seq<char>>
    decreases i,
{
    if i <= 0 {
        None
    } else if name[i - 1] == '.' {
        if i - 1 == 0 {
            None
        } else {
            Some(name.subrange(i, name.len() as int))
        }
    } else {
        last_dot_split(name, i - 1)
    }
}

/// The file name is that of a package: its extension is `nupkg`, ignoring ASCII case.
pub open spec fn is_package_name(name: Seq<char>) -> bool {
    match extension_of(name) {
        Some(e) => ascii_lower(e) == "nupkg"@,
        None => false,
    }
}

/// Whether the file named `file_name` is a package (`.nupkg`, ignoring ASCII case).
pub fn is_nupkg(file_name: &str) -> (r: bool)
    ensures
        r == is_package_name(file_name@),
{
    let v = chars_of(file_name);
    let n = v.len();
    if n == 2 && v[0] == '.' && v[1] == '.' {
        proof {
            reveal_strlit("..");
        }
        assert(v@ =~= ".."@);
        return false;
    }
    proof {
        reveal_strlit("..");
        if v@ == ".."@ {
            assert(v@[0] == '.' && v@[1] == '.');
        }
    }
    let mut i: usize = n;
    while i > 0 && v[i - 1] != '.'
        invariant
            i <= n,
            n == v@.len(),
            last_dot_split(v@, n as int) == last_dot_split(v@, i as int),
        decreases i,
    {
        i = i - 1;
    }
    if i <= 1 {
        return false;
    }
    let mut ext: Vec<char> = Vec::new();
    let mut j: usize = i;
    while j < n
        invariant
            i <= j <= n,
            n == v@.len(),
            ext@ == v@.subrange(i as int, j as int),
        decreases n - j,
    {
        ext.push(v[j]);
        j = j + 1;
    }
    let lower = ascii_lower_chars(&ext);
    let want = chars_of("nupkg");
    proof {
        lemma_chars_order_facts(lower@, want@);
    }
    compare_chars(&lower, &want) == 0
}

/// A change is held up by another process: some error in its chain has the raw OS
/// code of a sharing violation.
pub open spec fn sharing_violation(codes: Seq<Option<i32>>) -> bool {
    exists|i: int| 0 <= i < codes.len() && codes[i] == Some(SHARING_VIOLATION)
}

/// Whether the raw OS error codes of an error's chain (`None` for an error that has
/// none) show a sharing violation.
pub fn is_sharing_violation(codes: &Vec<Option<i32>>) -> (r: bool)
    ensures
        r == sharing_violation(codes@),
{
    let n = codes.len();
    for i in 0..n
        invariant
            n == codes@.len(),
            forall|j: int| 0 <= j < i ==> codes@[j] != Some(SHARING_VIOLATION),
    {
        let found = match codes[i] {
            Some(c) => c == SHARING_VIOLATION,
            None => false,
        };
        if found {
            assert(codes@[i as int] == Some(SHARING_VIOLATION));
            return true;
        }
    }
    false
}

/// What became of one attempt to apply a change to the feed.
#[derive(Debug, PartialEq, Eq, Structural, Clone, Copy)]
pub enum AttemptOutcome {
    /// The change was applied.
    Applied,
    /// The file was held by another process.
    SharingViolation,
    /// Any other failure.
    Failed,
}

/// What to do after an attempt.
#[derive(Debug, PartialEq, Eq, Structural, Clone, Copy)]
pub enum RetryAction {
    /// The change is applied: stop.
    Finish,
    /// Wait this many milliseconds, then try again.
    RetryAfter(u64),
    /// Stop and report the failure.
    GiveUp,
}

/// Where a change stands: which attempt comes next and how long the wait before the
/// one after it will be.
#[derive(Debug, PartialEq, Eq, Structural, Clone, Copy)]
pub struct RetryState {
    pub attempt: u32,
    pub delay_ms: u64,
}

/// The wait after the `k`-th attempt found the file in use: 100 ms, doubled after
/// each such attempt, at most 2 s.
pub open spec fn delay_after(k: nat) -> nat
    decreases k,
{
    if k <= 1 {
        FIRST_DELAY_MS as nat
    } else {
        let d = 2 * delay_after((k - 1) as nat);
        if d <= MAX_DELAY_MS {
            d
        } else {
            MAX_DELAY_MS as nat
        }
    }
}

impl RetryState {
    /// The state is one that the retries reach: attempt `1..=10`, with the wait that
    /// belongs to it.
    pub open spec fn well_formed(self) -> bool {
        &&& 1 <= self.attempt <= MAX_ATTEMPTS
        &&& self.delay_ms == delay_after(self.attempt as nat)
    }

    /// Before the first attempt.
    pub fn start() -> (r: RetryState)
        ensures
            r.well_formed(),
            r.attempt == 1,
            r.delay_ms == FIRST_DELAY_MS,
    {
        RetryState { attempt: 1, delay_ms: FIRST_DELAY_MS }
    }

    /// What to do after an attempt with `outcome`, and the state for the next attempt:
    /// stop when it was applied or failed otherwise, or when this was the last attempt;
    /// else wait the current delay and double it, up to 2 s.
    pub fn next(&self, outcome: AttemptOutcome) -> (r: (RetryState, RetryAction))
        requires
            self.well_formed(),
        ensures
            r.0.well_formed(),
            match outcome {
                AttemptOutcome::Applied => r.1 == RetryAction::Finish && r.0 == *self,
                AttemptOutcome::Failed => r.1 == RetryAction::GiveUp && r.0 == *self,
                AttemptOutcome::SharingViolation => if self.attempt < MAX_ATTEMPTS {
                    &&& r.1 == RetryAction::RetryAfter(self.delay_ms)
                    &&& r.0.attempt == self.attempt + 1
                    &&& r.0.delay_ms == if 2 * self.delay_ms <= MAX_DELAY_MS {
                        2 * self.delay_ms
                    } else {
                        MAX_DELAY_MS as int
                    }
                } else {
                    r.1 == RetryAction::GiveUp && r.0 == *self
                },
            },
    {
        match outcome {
            AttemptOutcome::Applied => (*self, RetryAction::Finish),
            AttemptOutcome::Failed => (*self, RetryAction::GiveUp),
            AttemptOutcome::SharingViolation => {
                if self.attempt < MAX_ATTEMPTS {
                    let doubled = if self.delay_ms <= MAX_DELAY_MS / 2 {
                        self.delay_ms * 2
                    } else {
                        MAX_DELAY_MS
                    };
                    let next = RetryState { attempt: self.attempt + 1, delay_ms: doubled };
                    assert(delay_after(next.attempt as nat) == doubled);
                    (next, RetryAction::RetryAfter(self.delay_ms))
                } else {
                    (*self, RetryAction::GiveUp)
                }
            },
        }
    }
}

/// Every wait between attempts is between 100 ms and 2 s.
pub proof fn law_delay_bounded(k: nat)
    ensures
        FIRST_DELAY_MS <= delay_after(k) <= MAX_DELAY_MS,
    decreases k,
{
    if k > 1 {
        law_delay_bounded((k - 1) as nat);
    }
}

} // verus!
