use vstd::prelude::*;

verus! {

/// What one connection attempt came to.
pub enum AttemptOutcome {
    Success,
    AuthRejected,
    ConnectionRefused,
    TimedOut,
    HostUnreachable,
    /// A failure none of the known signals describes; holds the diagnostic text.
    UnknownFailure(String),
    /// The connection mechanism itself could not be started.
    ExecutionError(String),
}

/// Mathematical model of an [`AttemptOutcome`].
pub enum OutcomeView {
    Success,
    AuthRejected,
    ConnectionRefused,
    TimedOut,
    HostUnreachable,
    UnknownFailure(Seq<char>),
    ExecutionError(Seq<char>),
}

impl View for AttemptOutcome {
    type V = OutcomeView;

    open spec fn view(&self) -> OutcomeView {
        match self {
            AttemptOutcome::Success => OutcomeView::Success,
            AttemptOutcome::AuthRejected => OutcomeView::AuthRejected,
            AttemptOutcome::ConnectionRefused => OutcomeView::ConnectionRefused,
            AttemptOutcome::TimedOut => OutcomeView::TimedOut,
            AttemptOutcome::HostUnreachable => OutcomeView::HostUnreachable,
            AttemptOutcome::UnknownFailure(d) => OutcomeView::UnknownFailure(d@),
            AttemptOutcome::ExecutionError(d) => OutcomeView::ExecutionError(d@),
        }
    }
}

impl AttemptOutcome {
    /// Whether the attempt authenticated.
    pub fn is_success(&self) -> (r: bool)
        ensures
            r == (self@ is Success),
    {
        match self {
            AttemptOutcome::Success => true,
            _ => false,
        }
    }

    /// Whether the outcome reports a local fault rather than a rejected credential.
    pub fn is_execution_error(&self) -> (r: bool)
        ensures
            r == (self@ is ExecutionError),
    {
        match self {
            AttemptOutcome::ExecutionError(_) => true,
            _ => false,
        }
    }
}

/// Diagnostic text by which the SSH client reports a rejected key.
pub const AUTH_SIGNAL: &'static str = "Permission denied";

/// Diagnostic text by which the SSH client reports a refused connection.
pub const REFUSED_SIGNAL: &'static str = "Connection refused";

/// Diagnostic text by which the SSH client reports a connect timeout.
pub const TIMEOUT_SIGNAL: &'static str = "Connection timed out";

/// Diagnostic text by which the SSH client reports a host name it could not resolve.
pub const HOST_SIGNAL: &'static str = "Could not resolve hostname";

/// The outcome of an attempt that ran to completion, from whether the
/// client exited successfully and what it wrote as diagnostics. Signals are
/// tried in a fixed priority order.
pub open spec fn classify_spec(exited_ok: bool, diag: Seq<char>) -> OutcomeView {
    if exited_ok {
        OutcomeView::Success
    } else if contains(diag, AUTH_SIGNAL@) {
        OutcomeView::AuthRejected
    } else if contains(diag, REFUSED_SIGNAL@) {
        OutcomeView::ConnectionRefused
    } else if contains(diag, TIMEOUT_SIGNAL@) {
        OutcomeView::TimedOut
    } else if contains(diag, HOST_SIGNAL@) {
        OutcomeView::HostUnreachable
    } else {
        OutcomeView::UnknownFailure(diag)
    }
}

/// Classifies a finished attempt.
pub fn classify(exited_ok: bool, diag: &str) -> (r: AttemptOutcome)
    ensures
        r@ == classify_spec(exited_ok, diag@),
{
    if exited_ok {
        AttemptOutcome::Success
    } else if str_contains(diag, AUTH_SIGNAL) {
        AttemptOutcome::AuthRejected
    } else if str_contains(diag, REFUSED_SIGNAL) {
        AttemptOutcome::ConnectionRefused
    } else if str_contains(diag, TIMEOUT_SIGNAL) {
        AttemptOutcome::TimedOut
    } else if str_contains(diag, HOST_SIGNAL) {
        AttemptOutcome::HostUnreachable
    } else {
        AttemptOutcome::UnknownFailure(diag.to_owned())
    }
}

/// The outcome of an attempt whose connection mechanism failed to start.
pub fn execution_error(detail: &str) -> (r: AttemptOutcome)
    ensures
        r@ == OutcomeView::ExecutionError(detail@),
{
    AttemptOutcome::ExecutionError(detail.to_owned())
}

/// `pat` occurs in `s` as a contiguous run of characters.
pub open spec fn contains(s: Seq<char>, pat: Seq<char>) -> bool {
    exists|i: int| 0 <= i && i + pat.len() <= s.len() && #[trigger] s.subrange(i, i + pat.len()) == pat
}

/// Substring search over characters.
pub fn str_contains(s: &str, pat: &str) -> (r: bool)
    ensures
        r == contains(s@, pat@),
{
    let n = s.unicode_len();
    let m = pat.unicode_len();
    if m > n {
        return false;
    }
    let mut i: usize = 0;
    while i <= n - m
        invariant
            n == s@.len(),
            m == pat@.len(),
            m <= n,
            i <= n - m + 1,
            forall|k: int| 0 <= k < i ==> #[trigger] s@.subrange(k, k + m) != pat@,
        decreases n - m + 1 - i,
    {
        let mut j: usize = 0;
        let mut same = true;
        while j < m
            invariant
                n == s@.len(),
                m == pat@.len(),
                i + m <= n,
                j <= m,
                same == (forall|t: int| 0 <= t < j ==> s@[i + t] == pat@[t]),
            decreases m - j,
        {
            if s.get_char(i + j) != pat.get_char(j) {
                same = false;
            }
            j = j + 1;
        }
        if same {
            assert(s@.subrange(i as int, i + m) =~= pat@);
            return true;
        }
        proof {
            let w = choose|t: int| 0 <= t < m && s@[i + t] != pat@[t];
            assert(s@.subrange(i as int, i + m)[w] != pat@[w]);
        }
        i = i + 1;
    }
    proof {
        if contains(s@, pat@) {
            let k = choose|k: int| 0 <= k && k + pat@.len() <= s@.len() && #[trigger] s@.subrange(k, k + pat@.len()) == pat@;
            assert(s@.subrange(k, k + m) != pat@);
        }
    }
    false
}

} // verus!
