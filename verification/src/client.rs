//! The policy of a request: what is sent, when a failure is tried again, and
//! how long to wait before that.
use vstd::prelude::*;
use crate::auth::{opt_text, AnthropicAuthConfig};
use crate::convert::RequestMeta;
use crate::error::AiError;
use crate::message::{copy_text, Text};
use crate::number::{decimal_value, in_i64, read_decimal, read_unsigned, unsigned_value};
use crate::text::{
    chars_of, decimal, decimal_text, joined, owned, parts, same_text, split_text, split_words,
    trim_text, trimmed, words,
};
use crate::time::{civil_days, days_wide};
use crate::wire::ApiErrorBody;

verus! {

/// The interface that every message of this client names.
pub const API_ID: &'static str = "anthropic-messages";

/// How often a request is tried again unless configured otherwise.
pub const DEFAULT_MAX_RETRIES: u32 = 2;

/// How long to wait for the head of a response, in milliseconds.
pub const DEFAULT_TIMEOUT_MS: u64 = 600_000;

/// A length of time.
#[derive(Debug, Clone, Copy, PartialEq, Eq, Structural)]
pub struct Delay {
    pub secs: u64,
    pub nanos: u32,
}

/// The month that an HTTP date names.
pub open spec fn month_number(s: Text) -> Option<int> {
    if s == "Jan"@ {
        Some(1)
    } else if s == "Feb"@ {
        Some(2)
    } else if s == "Mar"@ {
        Some(3)
    } else if s == "Apr"@ {
        Some(4)
    } else if s == "May"@ {
        Some(5)
    } else if s == "Jun"@ {
        Some(6)
    } else if s == "Jul"@ {
        Some(7)
    } else if s == "Aug"@ {
        Some(8)
    } else if s == "Sep"@ {
        Some(9)
    } else if s == "Oct"@ {
        Some(10)
    } else if s == "Nov"@ {
        Some(11)
    } else if s == "Dec"@ {
        Some(12)
    } else {
        None
    }
}

/// The seconds of a day that `h:m:s` is; a second may be a leap second.
pub open spec fn clock_seconds(s: Text) -> Option<int> {
    let t = parts(s, ':');
    if t.len() != 3 {
        None
    } else {
        match (decimal_value(t[0]), decimal_value(t[1]), decimal_value(t[2])) {
            (Some(h), Some(m), Some(sec)) => if 0 <= h <= 23 && 0 <= m <= 59 && 0 <= sec <= 60 {
                Some(h * 3600 + m * 60 + sec)
            } else {
                None
            },
            _ => None,
        }
    }
}

/// The Unix second that an HTTP date of the preferred form gives
/// (`Sun, 06 Nov 1994 08:49:37 GMT`); none for another form.
pub open spec fn imf_instant(s: Text) -> Option<int> {
    let w = words(s);
    if w.len() != 6 || w[5] != "GMT"@ {
        None
    } else {
        match (decimal_value(w[1]), month_number(w[2]), decimal_value(w[3]), clock_seconds(w[4])) {
            (Some(day), Some(month), Some(year), Some(clock)) => Some(
                civil_days(year as int, month, day as int) * 86_400 + clock,
            ),
            _ => None,
        }
    }
}

fn read_month(s: &str) -> (r: Option<i64>)
    ensures
        match r {
            Some(m) => month_number(s@) == Some(m as int),
            None => month_number(s@) is None,
        },
{
    if same_text(s, "Jan") {
        Some(1)
    } else if same_text(s, "Feb") {
        Some(2)
    } else if same_text(s, "Mar") {
        Some(3)
    } else if same_text(s, "Apr") {
        Some(4)
    } else if same_text(s, "May") {
        Some(5)
    } else if same_text(s, "Jun") {
        Some(6)
    } else if same_text(s, "Jul") {
        Some(7)
    } else if same_text(s, "Aug") {
        Some(8)
    } else if same_text(s, "Sep") {
        Some(9)
    } else if same_text(s, "Oct") {
        Some(10)
    } else if same_text(s, "Nov") {
        Some(11)
    } else if same_text(s, "Dec") {
        Some(12)
    } else {
        None
    }
}

fn parse_decimal(s: &str) -> (r: Option<i64>)
    ensures
        r == decimal_value(s@),
{
    let v = chars_of(s);
    read_decimal(&v)
}

fn read_clock(s: &str) -> (r: Option<i128>)
    ensures
        match r {
            Some(n) => clock_seconds(s@) == Some(n as int) && 0 <= n <= 90_000,
            None => clock_seconds(s@) is None,
        },
{
    let t = split_text(s, ':');
    let ghost p = parts(s@, ':');
    if t.len() != 3 {
        assert(t.deep_view().len() == t.len());
        return None;
    }
    assert(t.deep_view().len() == 3);
    assert(p[0] == t@[0]@ && p[1] == t@[1]@ && p[2] == t@[2]@);
    match (parse_decimal(t[0].as_str()), parse_decimal(t[1].as_str()), parse_decimal(t[2].as_str())) {
        (Some(h), Some(m), Some(sec)) => if 0 <= h && h <= 23 && 0 <= m && m <= 59 && 0 <= sec && sec <= 60 {
            Some(h as i128 * 3600 + m as i128 * 60 + sec as i128)
        } else {
            None
        },
        _ => None,
    }
}

/// The Unix second that an HTTP date gives, whatever its size.
pub fn imf_seconds(value: &str) -> (r: Option<i128>)
    ensures
        match r {
            Some(n) => imf_instant(value@) == Some(n as int),
            None => imf_instant(value@) is None,
        },
{
    let w = split_words(value);
    let ghost p = words(value@);
    assert(w.deep_view().len() == w.len());
    if w.len() != 6 {
        return None;
    }
    assert(p[1] == w@[1]@ && p[2] == w@[2]@ && p[3] == w@[3]@ && p[4] == w@[4]@ && p[5] == w@[5]@);
    if !same_text(w[5].as_str(), "GMT") {
        return None;
    }
    match (
        parse_decimal(w[1].as_str()),
        read_month(w[2].as_str()),
        parse_decimal(w[3].as_str()),
        read_clock(w[4].as_str()),
    ) {
        (Some(day), Some(month), Some(year), Some(clock)) => {
            let days = days_wide(year, month, day);
            Some(days * 86_400 + clock)
        },
        _ => None,
    }
}

/// The instant of an HTTP date, where it gives one, is a 64-bit number.
pub open spec fn date_fits(s: Text) -> bool {
    imf_instant(s) is Some ==> in_i64(imf_instant(s)->0)
}

/// The Unix second that an HTTP date gives.
pub fn parse_imf_fixdate(value: &str) -> (r: Option<i64>)
    requires
        date_fits(value@),
    ensures
        match r {
            Some(n) => imf_instant(value@) == Some(n as int),
            None => imf_instant(value@) is None,
        },
{
    match imf_seconds(value) {
        Some(n) => Some(n as i64),
        None => None,
    }
}

/// The seconds that a `retry-after` header asks to wait, at the Unix second
/// `now`: a number of seconds, or a date, which may be past.
pub open spec fn retry_after_secs(value: Text, now: int) -> Option<int> {
    let t = trimmed(value);
    match unsigned_value(t, 10) {
        Some(n) => Some(n as int),
        None => match imf_instant(t) {
            Some(target) => Some(
                if target > now {
                    target - now
                } else {
                    0
                },
            ),
            None => None,
        },
    }
}

/// A `retry-after` date, and how far it lies from `now`, are 64-bit numbers.
pub open spec fn wait_fits(value: Text, now: int) -> bool {
    let t = trimmed(value);
    unsigned_value(t, 10) is None && imf_instant(t) is Some ==> in_i64(imf_instant(t)->0) && in_i64(
        imf_instant(t)->0 - now,
    )
}

/// Whether `parse_retry_after` can be asked about the value.
pub fn retry_after_fits(value: &str, now: i64) -> (r: bool)
    ensures
        r == wait_fits(value@, now as int),
{
    let t = trim_text(value);
    let v = chars_of(t.as_str());
    assert(v@.subrange(0, v.len() as int) =~= v@);
    match read_unsigned(&v, 0, 10) {
        Some(_) => true,
        None => match imf_seconds(t.as_str()) {
            Some(n) => i64::MIN as i128 <= n && n <= i64::MAX as i128 && i64::MIN as i128 <= n - now as i128 && n
                - now as i128 <= i64::MAX as i128,
            None => true,
        },
    }
}

/// The seconds that a `retry-after` header asks to wait, at the Unix second
/// `now`.
pub fn parse_retry_after(value: &str, now: i64) -> (r: Option<Delay>)
    requires
        wait_fits(value@, now as int),
    ensures
        match r {
            Some(d) => retry_after_secs(value@, now as int) == Some(d.secs as int) && d.nanos == 0,
            None => retry_after_secs(value@, now as int) is None,
        },
{
    let t = trim_text(value);
    let v = chars_of(t.as_str());
    assert(v@.subrange(0, v.len() as int) =~= v@);
    match read_unsigned(&v, 0, 10) {
        Some(n) => Some(Delay { secs: n, nanos: 0 }),
        None => match parse_imf_fixdate(t.as_str()) {
            Some(target) => {
                let ahead: i64 = target - now;
                let secs: u64 = if ahead > 0 {
                    ahead as u64
                } else {
                    0
                };
                Some(Delay { secs, nanos: 0 })
            },
            None => None,
        },
    }
}

/// A request that brought no success.
#[derive(Debug, PartialEq, Eq)]
pub enum RequestFailure {
    Transport,
    Timeout,
    Http {
        status: u16,
        body: String,
        parsed: Option<ApiErrorBody>,
        retry_hint: Option<bool>,
        retry_after: Option<Delay>,
        request_id: Option<String>,
    },
}

/// What the `x-should-retry` header says.
pub open spec fn hint_of(value: Option<Text>) -> Option<bool> {
    if value == Some("true"@) {
        Some(true)
    } else if value == Some("false"@) {
        Some(false)
    } else {
        None
    }
}

pub fn retry_hint(value: Option<&str>) -> (r: Option<bool>)
    ensures
        r == hint_of(opt_text(value)),
{
    match value {
        Some(v) => if same_text(v, "true") {
            Some(true)
        } else if same_text(v, "false") {
            Some(false)
        } else {
            None
        },
        None => None,
    }
}

/// Statuses that are worth another try.
pub open spec fn transient_status(status: u16) -> bool {
    status == 408 || status == 409 || status == 429 || status >= 500
}

/// Whether a failure of the try `attempt` is tried again.
pub open spec fn may_retry(failure: RequestFailure, attempt: u32, max_retries: u32) -> bool {
    attempt < max_retries && match failure {
        RequestFailure::Transport => true,
        RequestFailure::Timeout => true,
        RequestFailure::Http { status, body: _, parsed: _, retry_hint, retry_after: _, request_id: _ } =>
            match retry_hint {
                Some(b) => b,
                None => transient_status(status),
            },
    }
}

/// The delay that the provider asked for, where it is at most a minute.
pub open spec fn asked_delay(failure: RequestFailure) -> Option<Delay> {
    match failure {
        RequestFailure::Http { retry_after: Some(d), .. } => if d.secs < 60 || (d.secs == 60 && d.nanos == 0) {
            Some(d)
        } else {
            None
        },
        _ => None,
    }
}

/// The backoff before the retry after `attempt` failures, in milliseconds,
/// before jitter: half a second, doubled each time, up to eight seconds.
pub open spec fn backoff_ms(attempt: u32) -> u64 {
    if attempt == 0 {
        500
    } else if attempt == 1 {
        1000
    } else if attempt == 2 {
        2000
    } else if attempt == 3 {
        4000
    } else {
        8000
    }
}

/// The backoff before a retry, in milliseconds, before jitter.
pub fn retry_backoff_ms(attempt: u32) -> (r: u64)
    ensures
        r == backoff_ms(attempt),
{
    let mut base: u64 = 500;
    let mut n: u32 = 0;
    while n < attempt && n < 4
        invariant
            n <= 4,
            n <= attempt,
            n == 0 ==> base == 500,
            n == 1 ==> base == 1000,
            n == 2 ==> base == 2000,
            n == 3 ==> base == 4000,
            n == 4 ==> base == 8000,
        decreases 4 - n,
    {
        base = base * 2;
        n = n + 1;
    }
    base
}

/// How long to wait before a retry.
#[derive(Debug, Clone, Copy, PartialEq, Eq, Structural)]
pub enum RetryWait {
    /// As long as the provider asked.
    Asked(Delay),
    /// This many milliseconds, less jitter.
    Backoff(u64),
}

/// What to do about a failure.
#[derive(Debug, PartialEq, Eq)]
pub enum FailureStep {
    Retry(RetryWait),
    GiveUp(AiError),
}

/// The error that a failure is reported as.
pub open spec fn reported_as(failure: RequestFailure, e: AiError) -> bool {
    match failure {
        RequestFailure::Transport => e is Connection,
        RequestFailure::Timeout => e is ConnectionTimeout,
        RequestFailure::Http { status, body, parsed, retry_hint: _, retry_after: _, request_id } => match e {
            AiError::Api { status: s, message: m, body: b, request_id: i } => s == status && m@ == decimal(
                status as nat,
            ) + " "@ + trimmed(body@) && b == parsed && i == request_id,
            _ => false,
        },
    }
}

impl RequestFailure {
    pub fn into_error(self) -> (r: AiError)
        ensures
            reported_as(self, r),
    {
        match self {
            RequestFailure::Transport => AiError::Connection,
            RequestFailure::Timeout => AiError::ConnectionTimeout,
            RequestFailure::Http { status, body, parsed, retry_hint: _, retry_after: _, request_id } => {
                let code = decimal_text(status as u64);
                let head = joined(code.as_str(), " ");
                let t = trim_text(body.as_str());
                AiError::Api {
                    status,
                    message: joined(head.as_str(), t.as_str()),
                    body: parsed,
                    request_id,
                }
            },
        }
    }

    /// Whether this failure of the try `attempt` is tried again.
    pub fn retriable(&self, attempt: u32, max_retries: u32) -> (r: bool)
        ensures
            r == may_retry(*self, attempt, max_retries),
    {
        match self {
            RequestFailure::Transport => attempt < max_retries,
            RequestFailure::Timeout => attempt < max_retries,
            RequestFailure::Http { status, body: _, parsed: _, retry_hint, retry_after: _, request_id: _ } => {
                let default_retry = *status == 408 || *status == 409 || *status == 429 || *status >= 500;
                attempt < max_retries && match retry_hint {
                    Some(b) => *b,
                    None => default_retry,
                }
            },
        }
    }

    /// How long to wait before this failure of the try `attempt` is tried again.
    pub fn retry_delay(&self, attempt: u32) -> (r: RetryWait)
        ensures
            r == match asked_delay(*self) {
                Some(d) => RetryWait::Asked(d),
                None => RetryWait::Backoff(backoff_ms(attempt)),
            },
    {
        if let RequestFailure::Http { retry_after: Some(d), .. } = self {
            if d.secs < 60 || (d.secs == 60 && d.nanos == 0) {
                return RetryWait::Asked(*d);
            }
        }
        RetryWait::Backoff(retry_backoff_ms(attempt))
    }
}

/// What to do about the failure of the try `attempt`.
pub fn after_failure(failure: RequestFailure, attempt: u32, max_retries: u32) -> (r: FailureStep)
    ensures
        may_retry(failure, attempt, max_retries) ==> r == FailureStep::Retry(
            match asked_delay(failure) {
                Some(d) => RetryWait::Asked(d),
                None => RetryWait::Backoff(backoff_ms(attempt)),
            },
        ),
        !may_retry(failure, attempt, max_retries) ==> r is GiveUp && reported_as(failure, r->GiveUp_0),
{
    if failure.retriable(attempt, max_retries) {
        FailureStep::Retry(failure.retry_delay(attempt))
    } else {
        FailureStep::GiveUp(failure.into_error())
    }
}

/// The head of a response, as far as the policy reads it.
#[derive(Debug, PartialEq, Eq)]
pub struct ResponseHead {
    pub status: u16,
    pub should_retry: Option<String>,
    /// The `retry-after-ms` header, where it is a number.
    pub retry_after_ms: Option<Delay>,
    pub retry_after: Option<String>,
    pub request_id: Option<String>,
}

/// The delay that a head asks for: in milliseconds first, else in seconds or as
/// a date.
pub open spec fn head_delay(head: ResponseHead, now: int) -> Option<int> {
    match head.retry_after {
        Some(v) => retry_after_secs(v@, now),
        None => None,
    }
}

/// Whether a head is a success.
pub fn is_success(status: u16) -> (r: bool)
    ensures
        r == (200 <= status < 300),
{
    200 <= status && status < 300
}

/// The failure that a head other than success stands for, with the body that
/// came and what it decodes to.
pub fn head_failure(head: &ResponseHead, body: String, parsed: Option<ApiErrorBody>, now: i64) -> (r: RequestFailure)
    requires
        head.retry_after_ms is None && head.retry_after is Some ==> wait_fits(
            head.retry_after->0@,
            now as int,
        ),
    ensures
        match r {
            RequestFailure::Http { status, body: b, parsed: p, retry_hint: h, retry_after: d, request_id: i } =>
                status == head.status && b == body && p == parsed && h == hint_of(
                    head.should_retry.deep_view(),
                ) && i == head.request_id && (match head.retry_after_ms {
                    Some(ms) => d == Some(ms),
                    None => match d {
                        Some(w) => w.nanos == 0 && head_delay(*head, now as int) == Some(w.secs as int),
                        None => head_delay(*head, now as int) is None,
                    },
                }),
            _ => false,
        },
{
    let hint = match &head.should_retry {
        Some(v) => retry_hint(Some(v.as_str())),
        None => None,
    };
    let retry_after = match head.retry_after_ms {
        Some(ms) => Some(ms),
        None => match &head.retry_after {
            Some(v) => parse_retry_after(v.as_str(), now),
            None => None,
        },
    };
    RequestFailure::Http {
        status: head.status,
        body,
        parsed,
        retry_hint: hint,
        retry_after,
        request_id: copy_text(&head.request_id),
    }
}

/// What is known of a request when it starts.
pub fn request_meta(provider: &String, model: &String, timestamp: i64) -> (r: RequestMeta)
    ensures
        r.api@ == API_ID@,
        r.provider == *provider,
        r.model == *model,
        r.timestamp == timestamp,
        r.duration is None,
{
    RequestMeta {
        api: owned(API_ID),
        provider: provider.clone(),
        model: model.clone(),
        timestamp,
        duration: None,
    }
}

/// The headers of a request besides its content type.
pub fn request_headers(auth: &AnthropicAuthConfig) -> (r: Vec<(String, String)>)
    ensures
        r.len() == 3,
        r@[0].0@ == "accept"@ && r@[0].1@ == "application/json"@,
        r@[1].0@ == "anthropic-version"@ && r@[1].1@ == "2023-06-01"@,
        auth.is_oauth ==> r@[2].0@ == "authorization"@ && r@[2].1@ == "Bearer "@ + auth.api_key@,
        !auth.is_oauth ==> r@[2].0@ == "x-api-key"@ && r@[2].1@ == auth.api_key@,
{
    let mut out: Vec<(String, String)> = Vec::new();
    out.push((owned("accept"), owned("application/json")));
    out.push((owned("anthropic-version"), owned("2023-06-01")));
    out.push(auth.auth_header());
    out
}

/// A number of milliseconds that a 64-bit counter can hold.
pub fn clamp_ms(ms: u128) -> (r: u64)
    ensures
        r == if ms <= u64::MAX {
            ms as u64
        } else {
            u64::MAX
        },
{
    if ms <= u64::MAX as u128 {
        ms as u64
    } else {
        u64::MAX
    }
}

/// A Unix time in milliseconds that a 64-bit timestamp can hold.
pub fn clamp_timestamp(ms: u128) -> (r: i64)
    ensures
        r == if ms <= i64::MAX {
            ms as i64
        } else {
            i64::MAX
        },
{
    if ms <= i64::MAX as u128 {
        ms as i64
    } else {
        i64::MAX
    }
}

/// Nothing is tried more often than the budget allows.
pub proof fn law_retries_within_budget(failure: RequestFailure, attempt: u32, max_retries: u32)
    requires
        may_retry(failure, attempt, max_retries),
    ensures
        attempt + 1 <= max_retries,
{
}

/// The provider's word on retrying beats the status, both ways.
pub proof fn law_retry_hint_overrides_status(failure: RequestFailure, attempt: u32, max_retries: u32, hint: bool)
    requires
        attempt < max_retries,
        failure is Http,
        failure->retry_hint == Some(hint),
    ensures
        may_retry(failure, attempt, max_retries) == hint,
{
}

/// The backoff never shrinks and never exceeds eight seconds.
pub proof fn law_backoff_grows_to_cap(a: u32, b: u32)
    requires
        a <= b,
    ensures
        500 <= backoff_ms(a) <= backoff_ms(b) <= 8000,
{
}

/// A date that is past asks for no wait.
pub proof fn law_past_date_asks_no_wait(value: Text, now: int)
    requires
        unsigned_value(trimmed(value), 10) is None,
        imf_instant(trimmed(value)) is Some,
        imf_instant(trimmed(value))->0 <= now,
    ensures
        retry_after_secs(value, now) == Some(0int),
{
}

/// A request that the network failed, or that got no answer in time, is tried again
/// while tries are left; one that the service refused where the status says that it may
/// do better later: a conflict, a limit, a timeout or a fault of its own.
pub proof fn law_transient_failures_are_retried(failure: RequestFailure, attempt: u32, max_retries: u32)
    ensures
        attempt >= max_retries ==> !may_retry(failure, attempt, max_retries),
        attempt < max_retries && (failure is Transport || failure is Timeout) ==> may_retry(failure, attempt, max_retries),
        attempt < max_retries && failure is Http && failure->retry_hint is None ==> may_retry(failure, attempt, max_retries)
            == (failure->Http_status == 408 || failure->Http_status == 409 || failure->Http_status == 429
            || failure->Http_status >= 500),
{
}

/// A wait that the service asks for is taken where it is no longer than a minute; else
/// the wait is half a second, doubled for each try up to eight seconds.
pub proof fn law_wait_before_retry(failure: RequestFailure, d: Delay, attempt: u32)
    ensures
        failure is Http && failure->retry_after == Some(d) && (d.secs < 60 || (d.secs == 60 && d.nanos == 0))
            ==> asked_delay(failure) == Some(d),
        failure is Http && failure->retry_after == Some(d) && (d.secs > 60 || (d.secs == 60 && d.nanos > 0))
            ==> asked_delay(failure) is None,
        failure is Http && failure->retry_after is None ==> asked_delay(failure) is None,
        !(failure is Http) ==> asked_delay(failure) is None,
        backoff_ms(0) == 500,
        attempt < u32::MAX ==> backoff_ms((attempt + 1) as u32) == (if 2 * backoff_ms(attempt) <= 8000 {
            2 * backoff_ms(attempt)
        } else {
            8000
        }),
{
}

/// A failure is told as what it is; one of the service by its status and body.
pub proof fn law_failure_is_told_as_it_is(failure: RequestFailure, e: AiError)
    requires
        reported_as(failure, e),
    ensures
        failure is Transport ==> e is Connection,
        failure is Timeout ==> e is ConnectionTimeout,
        failure is Http ==> {
            &&& e is Api
            &&& e->status == failure->Http_status
            &&& e->message@ == decimal(failure->Http_status as nat) + " "@ + trimmed(failure->Http_body@)
            &&& e->request_id == failure->Http_request_id
            &&& e->body == failure->parsed
        },
{
}

/// A hint of the service says yes or no, and anything else says nothing.
pub proof fn law_hint_is_yes_or_no(value: Option<Text>)
    ensures
        value == Some("true"@) ==> hint_of(value) == Some(true),
        value == Some("false"@) ==> hint_of(value) == Some(false),
        value != Some("true"@) && value != Some("false"@) ==> hint_of(value) is None,
{
    reveal_strlit("true");
    reveal_strlit("false");
    assert("true"@.len() == 4 && "false"@.len() == 5);
}

/// A wait in seconds is that many seconds; a wait until a date is the time up to it.
pub proof fn law_retry_after_is_a_wait(value: Text, now: int)
    ensures
        unsigned_value(trimmed(value), 10) is Some ==> retry_after_secs(value, now) == Some(
            unsigned_value(trimmed(value), 10)->0 as int,
        ),
        unsigned_value(trimmed(value), 10) is None && imf_instant(trimmed(value)) is None ==> retry_after_secs(value, now)
            is None,
        unsigned_value(trimmed(value), 10) is None && imf_instant(trimmed(value)) is Some && imf_instant(trimmed(value))->0
            > now ==> now + retry_after_secs(value, now)->0 == imf_instant(trimmed(value))->0,
{
}

/// A date in its words is the second at which that day and time begin.
pub proof fn law_date_is_its_second(s: Text, day: i64, month: int, year: i64, h: i64, m: i64, sec: i64)
    requires
        words(s).len() == 6,
        words(s)[5] == "GMT"@,
        decimal_value(words(s)[1]) == Some(day),
        month_number(words(s)[2]) == Some(month),
        decimal_value(words(s)[3]) == Some(year),
        parts(words(s)[4], ':').len() == 3,
        decimal_value(parts(words(s)[4], ':')[0]) == Some(h),
        decimal_value(parts(words(s)[4], ':')[1]) == Some(m),
        decimal_value(parts(words(s)[4], ':')[2]) == Some(sec),
    ensures
        h <= 23 && m <= 59 && sec <= 60 ==> imf_instant(s) == Some(
            civil_days(year as int, month, day as int) * 86_400 + h * 3600 + m * 60 + sec,
        ),
        h > 23 || m > 59 || sec > 60 ==> imf_instant(s) is None,
{
}

/// The months are numbered in their order.
pub proof fn law_months_are_numbered()
    ensures
        month_number("Jan"@) == Some(1int),
        month_number("Feb"@) == Some(2int),
        month_number("Mar"@) == Some(3int),
        month_number("Apr"@) == Some(4int),
        month_number("May"@) == Some(5int),
        month_number("Jun"@) == Some(6int),
        month_number("Jul"@) == Some(7int),
        month_number("Aug"@) == Some(8int),
        month_number("Sep"@) == Some(9int),
        month_number("Oct"@) == Some(10int),
        month_number("Nov"@) == Some(11int),
        month_number("Dec"@) == Some(12int),
{
    reveal_strlit("Jan");
    reveal_strlit("Feb");
    reveal_strlit("Mar");
    reveal_strlit("Apr");
    reveal_strlit("May");
    reveal_strlit("Jun");
    reveal_strlit("Jul");
    reveal_strlit("Aug");
    reveal_strlit("Sep");
    reveal_strlit("Oct");
    reveal_strlit("Nov");
    reveal_strlit("Dec");
    assert("Jan"@[0] == 'J' && "Jan"@[1] == 'a' && "Jan"@[2] == 'n');
    assert("Feb"@[0] == 'F');
    assert("Mar"@[0] == 'M' && "Mar"@[2] == 'r');
    assert("Apr"@[0] == 'A' && "Apr"@[1] == 'p');
    assert("May"@[0] == 'M' && "May"@[2] == 'y');
    assert("Jun"@[0] == 'J' && "Jun"@[1] == 'u' && "Jun"@[2] == 'n');
    assert("Jul"@[0] == 'J' && "Jul"@[2] == 'l');
    assert("Aug"@[0] == 'A' && "Aug"@[1] == 'u');
    assert("Sep"@[0] == 'S');
    assert("Oct"@[0] == 'O');
    assert("Nov"@[0] == 'N');
    assert("Dec"@[0] == 'D');
}

} // verus!
