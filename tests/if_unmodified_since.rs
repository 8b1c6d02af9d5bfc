use http_types::conditional::IfUnmodifiedSince;
use http_types::error::Error;
use http_types::headers::{HeaderName, HeaderValue, Headers};
use http_types::http_date::fmt_http_date;
use http_types::timestamp::Timestamp;
use std::time::{Duration, SystemTime, UNIX_EPOCH};

fn to_timestamp(t: SystemTime) -> Timestamp {
    let d = t.duration_since(UNIX_EPOCH).unwrap();
    Timestamp::from_unix(d.as_secs(), d.subsec_nanos())
}

fn to_system_time(t: Timestamp) -> SystemTime {
    UNIX_EPOCH + Duration::new(t.secs, t.nanos)
}

fn value_of(text: &str) -> HeaderValue {
    HeaderValue::from_str(text).unwrap()
}

#[test]
fn smoke() -> Result<(), Error> {
    let time = SystemTime::now() + Duration::from_secs(5 * 60);
    let expires = IfUnmodifiedSince::new(to_timestamp(time));

    let mut headers = Headers::new();
    expires.apply(&mut headers);

    let expires = IfUnmodifiedSince::from_headers(&headers)?.unwrap();

    // HTTP dates only have second-precision
    let elapsed = time.duration_since(to_system_time(expires.modified())).unwrap();
    assert_eq!(elapsed.as_secs(), 0);
    Ok(())
}

#[test]
fn bad_request_on_parse_error() -> Result<(), Error> {
    let mut headers = Headers::new();
    headers.insert(
        HeaderName::if_unmodified_since(),
        value_of("<nori ate the tag. yum.>"),
    );
    let err = IfUnmodifiedSince::from_headers(&headers).unwrap_err();
    assert_eq!(err.status(), 400);
    Ok(())
}

#[test]
fn round_trip_truncates_to_whole_seconds() {
    let t = Timestamp::from_unix(784111777, 999_999_999);
    let mut headers = Headers::new();
    IfUnmodifiedSince::new(t).apply(&mut headers);
    let read = IfUnmodifiedSince::from_headers(&headers).unwrap().unwrap();
    assert_eq!(read.modified(), Timestamp::from_unix(784111777, 0));
}

#[test]
fn missing_header_is_none() {
    let mut headers = Headers::new();
    headers.insert(
        HeaderName::from_str("Last-Modified").unwrap(),
        value_of("Sun, 06 Nov 1994 08:49:37 GMT"),
    );
    assert_eq!(IfUnmodifiedSince::from_headers(&headers), Ok(None));
    assert_eq!(IfUnmodifiedSince::from_headers(&Headers::new()), Ok(None));
}

#[test]
fn malformed_header_is_bad_request() {
    let mut headers = Headers::new();
    headers.insert(HeaderName::if_unmodified_since(), value_of("yesterday"));
    assert_eq!(
        IfUnmodifiedSince::from_headers(&headers),
        Err(Error::MalformedHeader)
    );
}

#[test]
fn last_of_several_values_is_read() {
    let mut headers = Headers::new();
    headers.append(HeaderName::if_unmodified_since(), value_of("not a date"));
    headers.append(
        HeaderName::if_unmodified_since(),
        value_of("Sun, 06 Nov 1994 08:49:37 GMT"),
    );
    let read = IfUnmodifiedSince::from_headers(&headers).unwrap().unwrap();
    assert_eq!(read.modified(), Timestamp::from_secs(784111777));

    headers.append(HeaderName::if_unmodified_since(), value_of("not a date"));
    assert_eq!(
        IfUnmodifiedSince::from_headers(&headers),
        Err(Error::MalformedHeader)
    );
}

#[test]
fn second_apply_overwrites_first() {
    let mut headers = Headers::new();
    IfUnmodifiedSince::new(Timestamp::from_secs(0)).apply(&mut headers);
    IfUnmodifiedSince::new(Timestamp::from_secs(784111777)).apply(&mut headers);
    let values = headers.get(&HeaderName::if_unmodified_since()).unwrap();
    assert_eq!(values.len(), 1);
    assert_eq!(values[0].as_bytes(), b"Sun, 06 Nov 1994 08:49:37 GMT");
}

#[test]
fn apply_leaves_other_headers() {
    let mut headers = Headers::new();
    let other = HeaderName::from_str("etag").unwrap();
    headers.insert(other.clone(), value_of("\"abc\""));
    IfUnmodifiedSince::new(Timestamp::from_secs(0)).apply(&mut headers);
    let values = headers.get(&other).unwrap();
    assert_eq!(values.len(), 1);
    assert_eq!(values[0].as_bytes(), b"\"abc\"");
}

#[test]
fn ordering_follows_instant() {
    let a = IfUnmodifiedSince::new(Timestamp::from_unix(100, 5));
    let b = IfUnmodifiedSince::new(Timestamp::from_unix(100, 6));
    let c = IfUnmodifiedSince::new(Timestamp::from_unix(101, 0));
    assert!(a < b);
    assert!(b < c);
    assert!(a < c);
    assert!(!(c < a));
    assert_eq!(a.partial_cmp(&a), Some(std::cmp::Ordering::Equal));
}

#[test]
fn name_and_value() {
    let h = IfUnmodifiedSince::new(Timestamp::from_unix(784111777, 42));
    assert_eq!(h.name().as_bytes(), b"if-unmodified-since");
    assert_eq!(h.value().as_bytes(), b"Sun, 06 Nov 1994 08:49:37 GMT");
    let values = h.to_header_values();
    assert_eq!(values.len(), 1);
    assert_eq!(values[0].as_bytes(), fmt_http_date(784111777).as_slice());
}

#[test]
fn header_name_is_case_insensitive() {
    let mut headers = Headers::new();
    headers.insert(
        HeaderName::from_str("If-Unmodified-Since").unwrap(),
        value_of("Thu, 01 Jan 1970 00:00:00 GMT"),
    );
    let read = IfUnmodifiedSince::from_headers(&headers).unwrap().unwrap();
    assert_eq!(read.modified(), Timestamp::from_secs(0));
}

#[test]
fn error_status_is_400() {
    assert_eq!(Error::MalformedHeader.status(), 400);
}
