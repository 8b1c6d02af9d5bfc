use http_types::headers::{HeaderName, HeaderValue};
use http_types::http_date::{date_from_secs, fmt_http_date, parse_imf_fixdate, MAX_SECS};

#[test]
fn formats_rfc_example() {
    assert_eq!(fmt_http_date(784111777), b"Sun, 06 Nov 1994 08:49:37 GMT".to_vec());
}

#[test]
fn formats_epoch_and_last_second() {
    assert_eq!(fmt_http_date(0), b"Thu, 01 Jan 1970 00:00:00 GMT".to_vec());
    assert_eq!(
        fmt_http_date(MAX_SECS - 1),
        b"Fri, 31 Dec 9999 23:59:59 GMT".to_vec()
    );
}

#[test]
fn formats_leap_day() {
    assert_eq!(fmt_http_date(951782400), b"Tue, 29 Feb 2000 00:00:00 GMT".to_vec());
    assert_eq!(fmt_http_date(951868800), b"Wed, 01 Mar 2000 00:00:00 GMT".to_vec());
}

#[test]
fn breaks_down_date() {
    let d = date_from_secs(784111777);
    assert_eq!(
        (d.year, d.month, d.day, d.hour, d.minute, d.second, d.week_day),
        (1994, 11, 6, 8, 49, 37, 7)
    );
}

#[test]
fn parses_rfc_example() {
    assert_eq!(
        parse_imf_fixdate(b"Sun, 06 Nov 1994 08:49:37 GMT"),
        Some(784111777)
    );
    assert_eq!(parse_imf_fixdate(b"Thu, 01 Jan 1970 00:00:00 GMT"), Some(0));
    assert_eq!(
        parse_imf_fixdate(b"Fri, 31 Dec 9999 23:59:59 GMT"),
        Some(MAX_SECS - 1)
    );
}

#[test]
fn rejects_bad_dates() {
    // wrong day of the week
    assert_eq!(parse_imf_fixdate(b"Mon, 06 Nov 1994 08:49:37 GMT"), None);
    // no such day
    assert_eq!(parse_imf_fixdate(b"Fri, 30 Feb 2001 00:00:00 GMT"), None);
    assert_eq!(parse_imf_fixdate(b"Thu, 29 Feb 2001 00:00:00 GMT"), None);
    // before the epoch
    assert_eq!(parse_imf_fixdate(b"Wed, 31 Dec 1969 23:59:59 GMT"), None);
    // out of range fields
    assert_eq!(parse_imf_fixdate(b"Sun, 06 Nov 1994 24:00:00 GMT"), None);
    assert_eq!(parse_imf_fixdate(b"Sun, 06 Nov 1994 08:60:37 GMT"), None);
    assert_eq!(parse_imf_fixdate(b"Sun, 06 Nov 1994 08:49:60 GMT"), None);
    // other layouts and text
    assert_eq!(parse_imf_fixdate(b"Sunday, 06-Nov-94 08:49:37 GMT"), None);
    assert_eq!(parse_imf_fixdate(b"Sun Nov  6 08:49:37 1994"), None);
    assert_eq!(parse_imf_fixdate(b"Sun, 06 Nov 1994 08:49:37 UTC"), None);
    assert_eq!(parse_imf_fixdate(b"Sun, 06 Nox 1994 08:49:37 GMT"), None);
    assert_eq!(parse_imf_fixdate(b"Sun, 0x Nov 1994 08:49:37 GMT"), None);
    assert_eq!(parse_imf_fixdate(b""), None);
    assert_eq!(parse_imf_fixdate(b"<nori ate the tag. yum.>"), None);
}

#[test]
fn leap_day_parses() {
    assert_eq!(
        parse_imf_fixdate(b"Tue, 29 Feb 2000 00:00:00 GMT"),
        Some(951782400)
    );
}

#[test]
fn formatted_dates_read_back() {
    for secs in [0u64, 59, 86399, 86400, 784111777, 951782400, 4102444800, MAX_SECS - 1] {
        assert_eq!(parse_imf_fixdate(&fmt_http_date(secs)), Some(secs));
    }
}

#[test]
fn header_names_are_lower_cased() {
    let n = HeaderName::from_str("If-Unmodified-SINCE").unwrap();
    assert_eq!(n.as_bytes(), b"if-unmodified-since");
    assert!(n.same_as(&HeaderName::if_unmodified_since()));
    assert!(!n.same_as(&HeaderName::from_str("etag").unwrap()));
    assert!(HeaderName::from_str("caf\u{e9}").is_none());
}

#[test]
fn header_values_are_ascii() {
    assert!(HeaderValue::from_str("caf\u{e9}").is_none());
    assert!(HeaderValue::from_bytes(vec![65, 200]).is_none());
    assert_eq!(HeaderValue::from_bytes(vec![65, 66]).unwrap().as_bytes(), b"AB");
}
