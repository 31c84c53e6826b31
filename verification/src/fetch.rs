//! The decisions of the resilient fetch layer.
//!
//! Retrieval is tiered: a direct request, then — on a transport error, a
//! blocked status or a bot-mitigation challenge page — a solve request
//! against a local unblocking service; match-report pages are additionally
//! polled for a marker element until a bounded attempt count runs out. The
//! transports themselves are plain I/O and live with the caller; every
//! decision between them is made here, over plain values.

use vstd::prelude::*;
use crate::errors::FetchError;
use crate::text::{contains_seq, str_contains};

verus! {

/// Timeout of the direct request, in seconds.
pub const DIRECT_TIMEOUT_SECS: u64 = 10;

/// Timeout of the liveness probe against the unblocking service, seconds.
pub const PROBE_TIMEOUT_SECS: u64 = 2;

/// Solve budget handed to the unblocking service, in milliseconds.
pub const SOLVE_BUDGET_MS: u64 = 55_000;

/// Timeout of the solve request itself, in seconds.
pub const SOLVE_TIMEOUT_SECS: u64 = 60;

/// How many times a match-report page is polled for its marker element.
pub const POLL_MAX_ATTEMPTS: u32 = 15;

/// Seconds between two polls.
pub const POLL_INTERVAL_SECS: u64 = 2;

/// The success envelope of the unblocking service.
pub struct FlareSolution {
    pub url: String,
    pub status: u16,
    pub response: String,
}

/// The answer envelope of the unblocking service.
pub struct FlareResponse {
    pub status: String,
    pub message: String,
    pub solution: Option<FlareSolution>,
    pub start_timestamp: u64,
}

/// A served body that is an interstitial challenge page rather than the
/// requested document.
pub open spec fn spec_is_challenge(body: Seq<char>) -> bool {
    ||| contains_seq(body, "running directly"@)
    ||| contains_seq(body, "Just a moment..."@)
    ||| contains_seq(body, "Enable JavaScript"@)
}

/// Does the served body show a known challenge marker?
pub fn is_challenge_page(body: &str) -> (r: bool)
    ensures
        r == spec_is_challenge(body@),
{
    str_contains(body, "running directly") || str_contains(body, "Just a moment...") || str_contains(
        body,
        "Enable JavaScript",
    )
}

/// What to do with the direct request's answer.
pub enum DirectOutcome {
    /// A 2xx answer free of challenge markers: the document itself.
    UseBody(String),
    /// Anything else: fall back to the unblocking service.
    EngageSolver,
}

#[verifier::ext_equal]
pub ghost enum DirectOutcomeV {
    UseBody(Seq<char>),
    EngageSolver,
}

impl DeepView for DirectOutcome {
    type V = DirectOutcomeV;

    open spec fn deep_view(&self) -> DirectOutcomeV {
        match self {
            DirectOutcome::UseBody(b) => DirectOutcomeV::UseBody(b@),
            DirectOutcome::EngageSolver => DirectOutcomeV::EngageSolver,
        }
    }
}

/// Decides on the direct request's answer: a successful status whose body
/// shows no challenge marker is returned immediately; everything else goes
/// to the unblocking service.
pub fn classify_direct_response(status: u16, body: String) -> (r: DirectOutcome)
    ensures
        r.deep_view() == (if 200 <= status < 300 && !spec_is_challenge(body@) {
            DirectOutcomeV::UseBody(body@)
        } else {
            DirectOutcomeV::EngageSolver
        }),
{
    if 200 <= status && status < 300 && !is_challenge_page(body.as_str()) {
        DirectOutcome::UseBody(body)
    } else {
        DirectOutcome::EngageSolver
    }
}

/// The diagnostic carried by a failed solve.
pub open spec fn spec_solver_error_msg(status: Seq<char>, message: Seq<char>) -> Seq<char> {
    "unblocking service reported status="@ + status + ", message="@ + message
}

/// Decides on the unblocking service's answer envelope: only a well-formed
/// success envelope (status `ok` with a solution) yields the resolved
/// document body; anything else fails with the envelope's diagnostics.
pub fn solver_outcome(resp: FlareResponse) -> (r: Result<String, FetchError>)
    ensures
        (r is Ok) <==> (resp.status@ == "ok"@ && resp.solution is Some),
        r matches Ok(b) ==> b@ == resp.solution->0.response@,
        r matches Err(e) ==> e matches FetchError::FetchFailed(m) && m@ == spec_solver_error_msg(
            resp.status@,
            resp.message@,
        ),
{
    let ok = crate::text::str_eq(resp.status.as_str(), "ok");
    if ok {
        if let Some(sol) = resp.solution {
            return Ok(sol.response);
        }
    }
    let mut msg = "unblocking service reported status=".to_owned();
    msg.append(resp.status.as_str());
    msg.append(", message=");
    msg.append(resp.message.as_str());
    proof {
        assert(msg@ =~= spec_solver_error_msg(resp.status@, resp.message@));
    }
    Err(FetchError::FetchFailed(msg))
}

/// What the polling loop does next.
#[derive(Clone, Copy, PartialEq, Eq, Structural, Debug)]
pub enum PollDecision {
    /// The marker element appeared: the page is ready.
    Ready,
    /// Not yet there and attempts remain: wait one interval and look again.
    WaitAndRetry,
    /// The attempt budget ran out: the caller dumps the last document for
    /// offline inspection and reports the timeout.
    GiveUp,
}

/// One step of the interstitial poll: `found` is whether the marker element
/// is present, `attempts_made` how many looks have happened (this one
/// included).
pub fn poll_step(found: bool, attempts_made: u32) -> (r: PollDecision)
    ensures
        r == (if found {
            PollDecision::Ready
        } else if attempts_made >= POLL_MAX_ATTEMPTS {
            PollDecision::GiveUp
        } else {
            PollDecision::WaitAndRetry
        }),
{
    if found {
        PollDecision::Ready
    } else if attempts_made >= POLL_MAX_ATTEMPTS {
        PollDecision::GiveUp
    } else {
        PollDecision::WaitAndRetry
    }
}

/// Relies on `rand::thread_rng` and `rand::Rng::gen_range`: a delay drawn
/// from the inclusive politeness window. Nothing beyond the window can be
/// promised of a random value.
#[verifier::external_body]
pub fn politeness_delay_secs(lo: u64, hi: u64) -> (r: u64)
    requires
        lo <= hi,
    ensures
        lo <= r <= hi,
{
    rand::Rng::gen_range(&mut rand::thread_rng(), lo..=hi)
}

} // verus!
