//! The series fetcher: paginates the upstream API from a timestamp onwards.
//!
//! The fetcher owns no connection. A driver sends the request that a `Step`
//! names, hands the upstream's reply to `FetchRun::advance`, writes the page
//! to the store where the decision says so, and carries out the next step,
//! until the run stops.

use crate::models::Series;
use crate::text::{decimal_text, format_integer};
use vstd::prelude::*;
use vstd::string::StringExecFns;

verus! {

/// The seconds to wait after the upstream has limited the rate.
pub const BACKOFF_SECONDS: u64 = 5;

/// The status with which the upstream limits the rate.
pub const TOO_MANY_REQUESTS: u16 = 429;

/// What an HTTP status means to the fetcher.
#[derive(Clone, Copy, Debug, PartialEq, Eq, Structural)]
pub enum StatusClass {
    /// 200 to 299: the body holds a page.
    Success,
    /// 429: the same request is to be sent again after a pause.
    RateLimited,
    /// Any other status: the run is given up until the next tick.
    Rejected,
}

/// The upstream's reply to one page request.
#[derive(Clone, Copy, Debug, PartialEq, Eq, Structural)]
pub enum Reply {
    /// The rate was limited.
    RateLimited,
    /// The request got no answer: the upstream could not be reached.
    Unreachable,
    /// A status that is neither a success nor a rate limit.
    Rejected,
    /// A page without records.
    Empty,
    /// A page with records, the last of which ends at `last_end_time`.
    Page { last_end_time: i64 },
}

/// Why a run stopped.
#[derive(Clone, Copy, Debug, PartialEq, Eq, Structural)]
pub enum Outcome {
    /// The upstream had no more records.
    Exhausted,
    /// The next page would start at or after the time the run began.
    CaughtUp,
    /// The upstream rejected a request.
    Rejected,
}

/// What the driver does next.
#[derive(Clone, Copy, Debug, PartialEq, Eq, Structural)]
pub enum Step {
    /// Ask for the page that starts at `from`.
    Request { from: i64 },
    /// Wait `seconds`, then ask again for the page that starts at `from`.
    Retry { seconds: u64, from: i64 },
    /// End the run.
    Stop { outcome: Outcome },
}

/// The fetcher's answer to a reply.
#[derive(Clone, Copy, Debug, PartialEq, Eq, Structural)]
pub struct Decision {
    /// Whether the page of the reply is written to the store before `next`
    /// is carried out.
    pub persist: bool,
    /// The next step.
    pub next: Step,
}

/// One run of the fetcher for one series.
#[derive(Clone, Copy, Debug, PartialEq, Eq, Structural)]
pub struct FetchRun {
    /// Where the next page starts.
    pub from_timestamp: i64,
    /// The time at which the run began.
    pub now: i64,
    /// Why the run stopped, once it has.
    pub stopped: Option<Outcome>,
}

/// The class of an HTTP status.
pub open spec fn class_of(status: u16) -> StatusClass {
    if 200 <= status < 300 {
        StatusClass::Success
    } else if status == TOO_MANY_REQUESTS {
        StatusClass::RateLimited
    } else {
        StatusClass::Rejected
    }
}

/// Classifies an HTTP status.
pub fn classify_status(status: u16) -> (class: StatusClass)
    ensures
        class == class_of(status),
{
    if 200 <= status && status < 300 {
        StatusClass::Success
    } else if status == TOO_MANY_REQUESTS {
        StatusClass::RateLimited
    } else {
        StatusClass::Rejected
    }
}

/// The reply that a page stands for, given the end times of its records.
pub open spec fn reply_of(end_times: Seq<i64>) -> Reply {
    if end_times.len() == 0 {
        Reply::Empty
    } else {
        Reply::Page { last_end_time: end_times.last() }
    }
}

/// Sums up a page of a successful response by the end times of its records.
pub fn page_reply(end_times: &Vec<i64>) -> (reply: Reply)
    ensures
        reply == reply_of(end_times@),
{
    if end_times.len() == 0 {
        Reply::Empty
    } else {
        Reply::Page { last_end_time: end_times[end_times.len() - 1] }
    }
}

/// The timestamp strictly past `end_time`, held at the largest `i64`.
pub open spec fn after(end_time: i64) -> i64 {
    if end_time < i64::MAX {
        (end_time + 1) as i64
    } else {
        i64::MAX
    }
}

impl FetchRun {
    /// The step that a run begins with: the first page is always asked for.
    pub open spec fn first_step(self) -> Step {
        Step::Request { from: self.from_timestamp }
    }

    /// The run and the decision after a reply.
    pub open spec fn advanced(self, reply: Reply) -> (FetchRun, Decision) {
        match self.stopped {
            Some(outcome) => (self, Decision { persist: false, next: Step::Stop { outcome } }),
            None => match reply {
                Reply::RateLimited | Reply::Unreachable => (
                    self,
                    Decision {
                        persist: false,
                        next: Step::Retry { seconds: BACKOFF_SECONDS, from: self.from_timestamp },
                    },
                ),
                Reply::Rejected => (
                    FetchRun { stopped: Some(Outcome::Rejected), ..self },
                    Decision { persist: false, next: Step::Stop { outcome: Outcome::Rejected } },
                ),
                Reply::Empty => (
                    FetchRun { stopped: Some(Outcome::Exhausted), ..self },
                    Decision { persist: false, next: Step::Stop { outcome: Outcome::Exhausted } },
                ),
                Reply::Page { last_end_time } => if last_end_time + 1 >= self.now {
                    (
                        FetchRun {
                            from_timestamp: after(last_end_time),
                            stopped: Some(Outcome::CaughtUp),
                            ..self
                        },
                        Decision { persist: true, next: Step::Stop { outcome: Outcome::CaughtUp } },
                    )
                } else {
                    (
                        FetchRun { from_timestamp: after(last_end_time), ..self },
                        Decision {
                            persist: true,
                            next: Step::Request { from: after(last_end_time) },
                        },
                    )
                },
            },
        }
    }

    /// Begins a run at `from_timestamp`; `now` is the time at which it begins.
    pub fn start(from_timestamp: i64, now: i64) -> (run: FetchRun)
        ensures
            run == (FetchRun { from_timestamp, now, stopped: None }),
    {
        FetchRun { from_timestamp, now, stopped: None }
    }

    /// The first step of a run.
    pub fn first(&self) -> (step: Step)
        ensures
            step == self.first_step(),
    {
        Step::Request { from: self.from_timestamp }
    }

    /// Takes the upstream's reply to the last request and decides what
    /// follows.
    ///
    /// A rate limit leaves the run as it is and asks for the same page after
    /// a pause, and so does an upstream that could not be reached. A rejection or an empty page stops the run. A page with
    /// records is written to the store; the next page starts one second
    /// after the end of its last record, and the run stops once that is at or
    /// after the time the run began.
    pub fn advance(&mut self, reply: Reply) -> (decision: Decision)
        ensures
            (*final(self), decision) == old(self).advanced(reply),
    {
        if let Some(outcome) = self.stopped {
            return Decision { persist: false, next: Step::Stop { outcome } };
        }
        match reply {
            Reply::RateLimited | Reply::Unreachable => Decision {
                persist: false,
                next: Step::Retry { seconds: BACKOFF_SECONDS, from: self.from_timestamp },
            },
            Reply::Rejected => {
                self.stopped = Some(Outcome::Rejected);
                Decision { persist: false, next: Step::Stop { outcome: Outcome::Rejected } }
            },
            Reply::Empty => {
                self.stopped = Some(Outcome::Exhausted);
                Decision { persist: false, next: Step::Stop { outcome: Outcome::Exhausted } }
            },
            Reply::Page { last_end_time } => {
                let next_from: i64 = if last_end_time < i64::MAX {
                    last_end_time + 1
                } else {
                    i64::MAX
                };
                self.from_timestamp = next_from;
                if last_end_time == i64::MAX || next_from >= self.now {
                    self.stopped = Some(Outcome::CaughtUp);
                    Decision { persist: true, next: Step::Stop { outcome: Outcome::CaughtUp } }
                } else {
                    Decision { persist: true, next: Step::Request { from: next_from } }
                }
            },
        }
    }
}

/// Pagination advance: after a page whose last record ends at `end_time`, a
/// run that goes on asks for the page that starts at `end_time + 1`, and a
/// run that does not go on has caught up with the time it began at.
pub proof fn lemma_page_advances(run: FetchRun, end_time: i64)
    requires
        run.stopped is None,
    ensures
        ({
            let (next, decision) = run.advanced(Reply::Page { last_end_time: end_time });
            &&& decision.persist
            &&& end_time + 1 < run.now ==> decision.next == (Step::Request {
                from: (end_time + 1) as i64,
            }) && next.from_timestamp == end_time + 1 && next.stopped is None
            &&& end_time + 1 >= run.now ==> decision.next == (Step::Stop {
                outcome: Outcome::CaughtUp,
            }) && next.stopped == Some(Outcome::CaughtUp)
        }),
{
}

/// Rate-limit retry: a rate-limited reply changes nothing of the run; the same
/// page is asked for again after the pause, and nothing is written. The same
/// holds where the upstream could not be reached.
pub proof fn lemma_rate_limit_retries(run: FetchRun, reply: Reply)
    requires
        run.stopped is None,
        reply is RateLimited || reply is Unreachable,
    ensures
        ({
            let (next, decision) = run.advanced(reply);
            &&& next == run
            &&& !decision.persist
            &&& decision.next == (Step::Retry {
                seconds: BACKOFF_SECONDS,
                from: run.from_timestamp,
            })
        }),
{
}

/// The path of a series below the upstream's history endpoint.
pub open spec fn path_of(series: Series) -> Seq<char> {
    match series {
        Series::Depth => "depths/BTC.BTC"@,
        Series::RunePool => "runepool"@,
        Series::Swap => "swaps"@,
        Series::Earnings => "earnings"@,
    }
}

/// The address of the page of a series that starts at `from`, below `base`.
pub open spec fn address_of(base: Seq<char>, series: Series, from: i64) -> Seq<char> {
    base + path_of(series) + "?interval=hour&from="@ + decimal_text(from) + "&count=400"@
}

/// Writes the address of a page request: hourly intervals of the series from
/// `from` onwards, a page of 400 records. `base` is the upstream's history endpoint
/// with its closing slash.
pub fn request_address(base: &str, series: Series, from: i64) -> (address: String)
    ensures
        address@ == address_of(base@, series, from),
{
    let mut address: String = String::from_str(base);
    match series {
        Series::Depth => address.append("depths/BTC.BTC"),
        Series::RunePool => address.append("runepool"),
        Series::Swap => address.append("swaps"),
        Series::Earnings => address.append("earnings"),
    }
    address.append("?interval=hour&from=");
    let digits: String = format_integer(from);
    address.append(digits.as_str());
    address.append("&count=400");
    address
}

} // verus!
