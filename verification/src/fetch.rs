//! The rules of talking to a rate-limited, paginated remote service: when
//! to send again, how long to wait first, when to give up, and when a listing
//! is complete. The caller sends, sleeps and decodes; this module decides.

use crate::text::{parse_decimal, parse_u64};
use vstd::prelude::*;
use vstd::string::*;

verus! {

/// How many times one request may be sent, the first time included.
pub const MAX_ATTEMPTS: u32 = 3;

/// The status by which a service says that it is being asked too often.
pub const TOO_MANY_REQUESTS: u16 = 429;

/// How many items a listing asks for per page.
pub const PAGE_SIZE: u64 = 1000;

/// Why a request came to nothing.
#[derive(Debug, Clone, Copy, PartialEq, Eq, Structural)]
pub enum FetchError {
    /// The request could not be sent, or no response came back.
    Connection,
    /// The service answered with a status that is neither a success nor a
    /// rate limit.
    Status(u16),
    /// A rate-limit response did not say how long to wait.
    MissingRetryAfter,
    /// A rate-limit response named a wait that is no number of seconds.
    InvalidRetryAfter,
    /// The service was still limiting the rate after the last allowed attempt.
    RateLimitExhausted,
    /// The body of a successful response could not be decoded.
    MalformedBody,
}

impl FetchError {
    /// The failure in words.
    pub open spec fn spec_message(self) -> Seq<char> {
        match self {
            FetchError::Connection => "Failed to send the request"@,
            FetchError::Status(_) => "The request was answered with an error status"@,
            FetchError::MissingRetryAfter => "Failed to get Retry-After header"@,
            FetchError::InvalidRetryAfter => "Failed to read Retry-After header as seconds"@,
            FetchError::RateLimitExhausted => "Failed to get response in time"@,
            FetchError::MalformedBody => "Failed to decode the response"@,
        }
    }

    /// The failure in words.
    pub fn message(&self) -> (message: String)
        ensures
            message@ == self.spec_message(),
    {
        match self {
            FetchError::Connection => String::from_str("Failed to send the request"),
            FetchError::Status(_) => String::from_str(
                "The request was answered with an error status",
            ),
            FetchError::MissingRetryAfter => String::from_str("Failed to get Retry-After header"),
            FetchError::InvalidRetryAfter => String::from_str(
                "Failed to read Retry-After header as seconds",
            ),
            FetchError::RateLimitExhausted => String::from_str("Failed to get response in time"),
            FetchError::MalformedBody => String::from_str("Failed to decode the response"),
        }
    }
}

/// The `Retry-After` header of a response, as far as the transport could
/// read it.
#[derive(Debug, PartialEq, Eq)]
pub enum RetryAfter {
    /// The response has no such header.
    Missing,
    /// The header is there and is not text.
    Unreadable,
    /// The header's text.
    Text(String),
}

/// The mathematical content of a `RetryAfter`.
pub enum RetryAfterView {
    Missing,
    Unreadable,
    Text(Seq<char>),
}

impl View for RetryAfter {
    type V = RetryAfterView;

    open spec fn view(&self) -> RetryAfterView {
        match self {
            RetryAfter::Missing => RetryAfterView::Missing,
            RetryAfter::Unreadable => RetryAfterView::Unreadable,
            RetryAfter::Text(text) => RetryAfterView::Text(text@),
        }
    }
}

/// What to do about a response.
#[derive(Debug, Clone, Copy, PartialEq, Eq, Structural)]
pub enum Verdict {
    /// It is a success: decode its body.
    Accept,
    /// The rate is limited: wait that many seconds, then ask whether another
    /// attempt is allowed.
    Wait(u64),
    /// The request has failed; nothing is to be waited for.
    Fail(FetchError),
}

/// Whether a status says that the request succeeded.
pub open spec fn is_success(status: u16) -> bool {
    200 <= status <= 299
}

/// The verdict on a response with this status and this `Retry-After` header.
///
/// A rate-limit response must say how long to wait, in whole seconds;
/// a success is accepted; every other status is an error. The header is
/// read on a rate-limit response only.
pub open spec fn verdict_on(status: u16, retry_after: RetryAfterView) -> Verdict {
    if status == TOO_MANY_REQUESTS {
        match retry_after {
            RetryAfterView::Missing => Verdict::Fail(FetchError::MissingRetryAfter),
            RetryAfterView::Unreadable => Verdict::Fail(FetchError::InvalidRetryAfter),
            RetryAfterView::Text(text) => match parse_decimal(text) {
                Some(seconds) => Verdict::Wait(seconds),
                None => Verdict::Fail(FetchError::InvalidRetryAfter),
            },
        }
    } else if is_success(status) {
        Verdict::Accept
    } else {
        Verdict::Fail(FetchError::Status(status))
    }
}

/// Judges a response by its status and its `Retry-After` header.
pub fn on_response(status: u16, retry_after: &RetryAfter) -> (verdict: Verdict)
    ensures
        verdict == verdict_on(status, retry_after@),
{
    if status == TOO_MANY_REQUESTS {
        match retry_after {
            RetryAfter::Missing => Verdict::Fail(FetchError::MissingRetryAfter),
            RetryAfter::Unreadable => Verdict::Fail(FetchError::InvalidRetryAfter),
            RetryAfter::Text(text) => match parse_u64(text.as_str()) {
                Some(seconds) => Verdict::Wait(seconds),
                None => Verdict::Fail(FetchError::InvalidRetryAfter),
            },
        }
    } else if 200 <= status && status <= 299 {
        Verdict::Accept
    } else {
        Verdict::Fail(FetchError::Status(status))
    }
}

/// Counts the attempts made at one request.
#[derive(Debug)]
pub struct Fetcher {
    attempts: u32,
}

impl Fetcher {
    #[verifier::type_invariant]
    spec fn within_cap(&self) -> bool {
        self.attempts <= MAX_ATTEMPTS
    }

    /// The number of attempts made so far.
    pub closed spec fn attempts(&self) -> nat {
        self.attempts as nat
    }

    /// A request that has not been sent yet.
    pub fn new() -> (fetcher: Fetcher)
        ensures
            fetcher.attempts() == 0,
    {
        Fetcher { attempts: 0 }
    }

    /// Asks for leave to send the request, now or again. While attempts are
    /// left, the attempt is counted and granted; after the last one the
    /// request has failed for good.
    pub fn next_attempt(&mut self) -> (leave: Result<(), FetchError>)
        ensures
            old(self).attempts() < MAX_ATTEMPTS ==> leave is Ok && final(self).attempts() == old(
                self,
            ).attempts() + 1,
            old(self).attempts() >= MAX_ATTEMPTS ==> leave == Err::<(), FetchError>(
                FetchError::RateLimitExhausted,
            ) && final(self).attempts() == old(self).attempts(),
            final(self).attempts() <= MAX_ATTEMPTS,
    {
        proof {
            use_type_invariant(&*self);
        }
        if self.attempts < MAX_ATTEMPTS {
            let made = self.attempts + 1;
            *self = Fetcher { attempts: made };
            Ok(())
        } else {
            Err(FetchError::RateLimitExhausted)
        }
    }

    /// The number of attempts made so far.
    pub fn attempts_made(&self) -> (made: u32)
        ensures
            made == self.attempts(),
            made <= MAX_ATTEMPTS,
    {
        proof {
            use_type_invariant(self);
        }
        self.attempts
    }
}

/// A response as far as the rules read it: its status and its `Retry-After`
/// header.
pub struct ResponseView {
    pub status: u16,
    pub retry_after: RetryAfterView,
}

/// How a request fares that has been sent `attempts` times already, when the
/// service answers with `responses`, one for each further attempt: the waits
/// that are made, in seconds, and the end, which is the place of the
/// accepted response among `responses` or a failure. Nothing while the
/// responses do not suffice.
pub open spec fn session(attempts: nat, responses: Seq<ResponseView>) -> Option<
    (Seq<u64>, Result<nat, FetchError>),
>
    decreases responses.len(),
{
    if attempts >= MAX_ATTEMPTS {
        Some((Seq::empty(), Err(FetchError::RateLimitExhausted)))
    } else if responses.len() == 0 {
        None
    } else {
        match verdict_on(responses[0].status, responses[0].retry_after) {
            Verdict::Accept => Some((Seq::empty(), Ok(0nat))),
            Verdict::Fail(error) => Some((Seq::empty(), Err(error))),
            Verdict::Wait(seconds) => match session(attempts + 1, responses.skip(1)) {
                Some((waits, Ok(place))) => Some((seq![seconds] + waits, Ok(place + 1))),
                Some((waits, Err(error))) => Some((seq![seconds] + waits, Err(error))),
                None => None,
            },
        }
    }
}

/// A request is sent at most `MAX_ATTEMPTS` times: each wait follows an
/// attempt, and so does every end but giving up.
pub proof fn lemma_session_is_capped(attempts: nat, responses: Seq<ResponseView>)
    requires
        attempts <= MAX_ATTEMPTS,
    ensures
        session(attempts, responses) matches Some((waits, end)) ==> attempts + waits.len()
            <= MAX_ATTEMPTS && (end is Ok ==> attempts + waits.len() < MAX_ATTEMPTS && end->Ok_0
            == waits.len()),
    decreases responses.len(),
{
    if attempts < MAX_ATTEMPTS && responses.len() > 0 {
        lemma_session_is_capped(attempts + 1, responses.skip(1));
    }
}

/// A service that limits the rate once, asking for `seconds`, and then
/// answers with a success is waited for once, for exactly that long, and
/// its second response is accepted.
pub proof fn lemma_one_rate_limit(wait: Seq<char>, seconds: u64, success: ResponseView)
    requires
        parse_decimal(wait) == Some(seconds),
        is_success(success.status),
    ensures
        session(
            0,
            seq![
                ResponseView {
                    status: TOO_MANY_REQUESTS,
                    retry_after: RetryAfterView::Text(wait),
                },
                success,
            ],
        ) == Some((seq![seconds], Ok::<nat, FetchError>(1nat))),
{
    let limited = ResponseView {
        status: TOO_MANY_REQUESTS,
        retry_after: RetryAfterView::Text(wait),
    };
    let responses = seq![limited, success];
    assert(responses.skip(1)[0] == success);
    assert(session(1, responses.skip(1)) == Some(
        (Seq::<u64>::empty(), Ok::<nat, FetchError>(0nat)),
    ));
    assert(seq![seconds] + Seq::<u64>::empty() =~= seq![seconds]);
}

/// A rate-limit response that does not say how long to wait fails the
/// request at once: nothing is waited for, and nothing is sent again.
pub proof fn lemma_rate_limit_without_wait(attempts: nat, responses: Seq<ResponseView>)
    requires
        attempts < MAX_ATTEMPTS,
        responses.len() > 0,
        responses[0].status == TOO_MANY_REQUESTS,
        responses[0].retry_after is Missing,
    ensures
        session(attempts, responses) == Some(
            (Seq::<u64>::empty(), Err::<nat, FetchError>(FetchError::MissingRetryAfter)),
        ),
{
}

/// What a listing asks for next.
#[derive(Debug, Clone, Copy, PartialEq, Eq, Structural)]
pub struct PageRequest {
    pub page: u64,
    pub page_size: u64,
}

/// A listing under way: the page to ask for next, and the items of the
/// pages before it.
#[derive(Debug)]
pub struct Pager<T> {
    page: u64,
    items: Vec<T>,
}

/// What became of a listing when a page came in.
#[derive(Debug)]
pub enum PageStep<T> {
    /// There is more: ask for the next page.
    More(Pager<T>),
    /// That was the last page: these are all the items.
    Done(Vec<T>),
}

impl<T> Pager<T> {
    /// The page to ask for next.
    pub closed spec fn page(&self) -> u64 {
        self.page
    }

    /// The items gathered so far, in the order in which they came.
    pub closed spec fn items(&self) -> Seq<T> {
        self.items@
    }

    /// A listing of which nothing has been asked yet.
    pub fn new() -> (pager: Pager<T>)
        ensures
            pager.page() == 1,
            pager.items() == Seq::<T>::empty(),
    {
        Pager { page: 1, items: Vec::new() }
    }

    /// The page to ask for, at the fixed page size.
    pub fn request(&self) -> (request: PageRequest)
        ensures
            request == (PageRequest { page: self.page(), page_size: PAGE_SIZE }),
    {
        PageRequest { page: self.page, page_size: PAGE_SIZE }
    }

    /// Whether the page number can still grow.
    pub fn can_advance(&self) -> (can: bool)
        ensures
            can == (self.page() < u64::MAX),
    {
        self.page < u64::MAX
    }

    /// Takes in the page that was asked for: its items follow those already
    /// there. The listing goes on to the next page while the service names
    /// one, and is complete when it does not.
    pub fn absorb(self, results: Vec<T>, has_next: bool) -> (step: PageStep<T>)
        requires
            self.page() < u64::MAX,
        ensures
            has_next ==> (step matches PageStep::More(pager) && pager.page() == self.page() + 1
                && pager.items() == self.items() + results@),
            !has_next ==> (step matches PageStep::Done(items) && items@ == self.items()
                + results@),
    {
        let mut items = self.items;
        let mut results = results;
        items.append(&mut results);
        if has_next {
            PageStep::More(Pager { page: self.page + 1, items })
        } else {
            PageStep::Done(items)
        }
    }
}

} // verus!
