//! Requests: what is tried again, when, and what is reported.
use omp_headless::auth::AnthropicAuthConfig;
use omp_headless::client::{
    after_failure, clamp_ms, clamp_timestamp, head_failure, is_success, parse_imf_fixdate, parse_retry_after,
    request_headers, request_meta, retry_after_fits, retry_backoff_ms, retry_hint, Delay, FailureStep,
    RequestFailure, ResponseHead, RetryWait,
};
use omp_headless::error::AiError;
use omp_headless::time::days_from_civil;
use omp_headless::wire::ApiErrorBody;

/// 2026-01-01T00:00:00Z.
const NOW: i64 = 1_767_225_600;

#[test]
fn imf_fixdate_known_epochs() {
    // Unix epoch and a few reference points (verified against `date -u`).
    assert_eq!(days_from_civil(1970, 1, 1), 0);
    assert_eq!(parse_imf_fixdate("Thu, 01 Jan 1970 00:00:00 GMT"), Some(0));
    // 2015-10-21 07:28:00 UTC = 1_445_412_480 (RFC 7231 canonical example).
    assert_eq!(parse_imf_fixdate("Wed, 21 Oct 2015 07:28:00 GMT"), Some(1_445_412_480));
    // Leap day.
    assert_eq!(parse_imf_fixdate("Mon, 29 Feb 2016 00:00:00 GMT"), Some(1_456_704_000));
}

#[test]
fn imf_fixdate_rejects_malformed() {
    assert_eq!(parse_imf_fixdate("Wed, 21 Oct 2015 07:28:00 PST"), None); // non-GMT zone
    assert_eq!(parse_imf_fixdate("21 Oct 2015 07:28:00 GMT"), None); // missing weekday
    assert_eq!(parse_imf_fixdate("Wed, 21 Foo 2015 07:28:00 GMT"), None); // bad month
    assert_eq!(parse_imf_fixdate("Wed, 21 Oct 2015 07:28 GMT"), None); // truncated time
    assert_eq!(parse_imf_fixdate("Sunday, 06-Nov-94 08:49:37 GMT"), None); // RFC 850 form
}

#[test]
fn imf_fixdate_is_written_in_digits() {
    assert_eq!(parse_imf_fixdate("Wed, 21 Oct 2015 07:-1:00 GMT"), None);
    assert_eq!(parse_imf_fixdate("Wed, 21 Oct 2015 07:00:-1 GMT"), None);
    assert_eq!(parse_imf_fixdate("Wed, 21 Oct 2015 +7:00:00 GMT"), None);
    assert_eq!(parse_imf_fixdate("Wed, +1 Oct 2015 07:28:00 GMT"), None);
    assert_eq!(parse_imf_fixdate("Wed, 21 Oct -015 07:28:00 GMT"), None);
    assert_eq!(parse_imf_fixdate("Wed, 21 Oct 2015 07:60:00 GMT"), None);
    assert_eq!(parse_imf_fixdate("Wed, 21 Oct 2015 07:28:61 GMT"), None);
    assert_eq!(parse_imf_fixdate("Wed, 21 Oct 2015 07:28:60 GMT"), Some(1_445_412_540)); // leap second
}

#[test]
fn retry_after_prefers_integer_seconds() {
    assert_eq!(parse_retry_after("45", NOW), Some(Delay { secs: 45, nanos: 0 }));
    assert_eq!(parse_retry_after("  7  ", NOW), Some(Delay { secs: 7, nanos: 0 }));
}

#[test]
fn retry_after_http_date_relative_to_now() {
    // A far-past date clamps to zero rather than going negative.
    let past = parse_retry_after("Thu, 01 Jan 1970 00:00:00 GMT", NOW).expect("parses");
    assert_eq!(past, Delay { secs: 0, nanos: 0 });
    // A future date yields a positive, sane delay (well under a year).
    let year_3000 = parse_retry_after("Sat, 01 Jan 3000 00:00:00 GMT", NOW).expect("parses");
    assert!(year_3000.secs > 0);
}

#[test]
fn retry_after_garbage_is_none() {
    assert_eq!(parse_retry_after("soon", NOW), None);
    assert_eq!(parse_retry_after("", NOW), None);
}

#[test]
fn retry_after_date_is_counted_from_now() {
    assert_eq!(
        parse_retry_after("Thu, 01 Jan 2026 00:01:30 GMT", NOW),
        Some(Delay { secs: 90, nanos: 0 })
    );
    assert!(retry_after_fits("Thu, 01 Jan 2026 00:01:30 GMT", NOW));
    assert!(!retry_after_fits("Thu, 01 Jan 9223372036854775807 00:01:30 GMT", NOW));
}

fn http(status: u16, retry_hint: Option<bool>, retry_after: Option<Delay>) -> RequestFailure {
    RequestFailure::Http {
        status,
        body: "  busy \n".to_string(),
        parsed: Some(ApiErrorBody { error_type: "overloaded_error".to_string(), message: "busy".to_string() }),
        retry_hint,
        retry_after,
        request_id: Some("req".to_string()),
    }
}

#[test]
fn transient_failures_are_tried_again_within_the_budget() {
    for status in [408, 409, 429, 500, 529] {
        assert!(http(status, None, None).retriable(0, 2));
        assert!(http(status, None, None).retriable(1, 2));
        assert!(!http(status, None, None).retriable(2, 2));
    }
    for status in [400, 401, 403, 404, 413] {
        assert!(!http(status, None, None).retriable(0, 2));
    }
    assert!(RequestFailure::Transport.retriable(0, 2));
    assert!(RequestFailure::Timeout.retriable(0, 2));
    assert!(!RequestFailure::Transport.retriable(0, 0));
}

#[test]
fn word_of_the_provider_beats_the_status() {
    assert!(http(400, Some(true), None).retriable(0, 2));
    assert!(!http(500, Some(false), None).retriable(0, 2));
    assert_eq!(retry_hint(Some("true")), Some(true));
    assert_eq!(retry_hint(Some("false")), Some(false));
    assert_eq!(retry_hint(Some("maybe")), None);
    assert_eq!(retry_hint(None), None);
}

#[test]
fn backoff_doubles_up_to_eight_seconds() {
    let waits: Vec<u64> = (0..7).map(retry_backoff_ms).collect();
    assert_eq!(waits, vec![500, 1000, 2000, 4000, 8000, 8000, 8000]);
}

#[test]
fn asked_delay_is_kept_up_to_a_minute() {
    let minute = Delay { secs: 60, nanos: 0 };
    let longer = Delay { secs: 60, nanos: 1 };
    assert_eq!(
        after_failure(http(429, None, Some(minute)), 1, 2),
        FailureStep::Retry(RetryWait::Asked(minute))
    );
    assert_eq!(
        after_failure(http(429, None, Some(longer)), 1, 2),
        FailureStep::Retry(RetryWait::Backoff(1000))
    );
}

#[test]
fn last_failure_is_reported() {
    match after_failure(http(429, None, None), 2, 2) {
        FailureStep::GiveUp(AiError::Api { status, message, body, request_id }) => {
            assert_eq!(status, 429);
            assert_eq!(message, "429 busy");
            assert_eq!(body.unwrap().message, "busy");
            assert_eq!(request_id.as_deref(), Some("req"));
        }
        other => panic!("{other:?}"),
    }
    assert_eq!(after_failure(RequestFailure::Transport, 2, 2), FailureStep::GiveUp(AiError::Connection));
    assert_eq!(after_failure(RequestFailure::Timeout, 2, 2), FailureStep::GiveUp(AiError::ConnectionTimeout));
}

#[test]
fn failure_takes_over_the_head_of_the_response() {
    let head = ResponseHead {
        status: 503,
        should_retry: Some("false".to_string()),
        retry_after_ms: None,
        retry_after: Some("12".to_string()),
        request_id: None,
    };
    assert_eq!(
        head_failure(&head, "b".to_string(), None, NOW),
        RequestFailure::Http {
            status: 503,
            body: "b".to_string(),
            parsed: None,
            retry_hint: Some(false),
            retry_after: Some(Delay { secs: 12, nanos: 0 }),
            request_id: None,
        }
    );
    let head = ResponseHead { retry_after_ms: Some(Delay { secs: 0, nanos: 5 }), ..head };
    match head_failure(&head, "b".to_string(), None, NOW) {
        RequestFailure::Http { retry_after, .. } => assert_eq!(retry_after, Some(Delay { secs: 0, nanos: 5 })),
        other => panic!("{other:?}"),
    }
}

#[test]
fn success_is_the_range_of_two_hundreds() {
    assert!(!is_success(199));
    assert!(is_success(200));
    assert!(is_success(299));
    assert!(!is_success(300));
}

#[test]
fn request_carries_version_and_key() {
    let auth = AnthropicAuthConfig::new("sk".to_string(), None, None);
    let headers = request_headers(&auth);
    assert!(headers.contains(&("x-api-key".to_string(), "sk".to_string())));
    assert!(headers.iter().any(|(k, v)| k == "anthropic-version" && v == "2023-06-01"));
    let meta = request_meta(&"deepseek".to_string(), &"m".to_string(), 7);
    assert_eq!(meta.api, "anthropic-messages");
    assert_eq!((meta.provider.as_str(), meta.model.as_str(), meta.timestamp, meta.duration), ("deepseek", "m", 7, None));
}

#[test]
fn clocks_are_clamped() {
    assert_eq!(clamp_ms(5), 5);
    assert_eq!(clamp_ms(u128::MAX), u64::MAX);
    assert_eq!(clamp_timestamp(5), 5);
    assert_eq!(clamp_timestamp(u128::MAX), i64::MAX);
}
