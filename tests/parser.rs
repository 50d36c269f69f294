use chrono::{FixedOffset, TimeZone};
use rrinlog_core::models::NewLog;
use rrinlog_core::parser::{parse_date, parse_nginx_line, ParseError};

const SAMPLE: &str = r#"127.0.0.1 - - [04/Nov/2017:13:05:35 -0500] "GET /js/embed.min.js HTTP/2.0" 200 20480 "https://nbsoftsolutions.com/blog/monitoring-windows-system-metrics-with-grafana" "Mozilla/5.0 (Windows NT 10.0; Win64; x64) AppleWebKit/537.36 (KHTML, like Gecko) Chrome/61.0.3163.100 Safari/537.36" "comments.nbsoftsolutions.com""#;

fn some(s: &str) -> Option<String> {
    Some(s.to_string())
}

#[test]
fn test_parse_date() {
    let expected = FixedOffset::west_opt(5 * 3600)
        .unwrap()
        .with_ymd_and_hms(2017, 11, 3, 6, 49, 45)
        .unwrap();
    let actual = parse_date("03/Nov/2017:06:49:45 -0500").unwrap();
    assert_eq!(expected.timestamp(), actual);
}

#[test]
fn test_parse_bad_date() {
    let actual = parse_date("2017-12-01");
    assert!(actual.is_err());
    let err: ParseError = actual.unwrap_err();
    let s = err.message();
    assert_eq!("Text could not be parsed into date `2017-12-01`", s);
}

#[test]
fn test_parse_nginx() {
    let actual = parse_nginx_line(SAMPLE).unwrap();
    assert_eq!(
        NewLog {
            epoch: 1509818735,
            remote_addr: some("127.0.0.1"),
            remote_user: some("-"),
            status: Some(200),
            method: some("GET"),
            path: some("/js/embed.min.js"),
            version: some("2.0"),
            body_bytes_sent: Some(20480),
            referer: some(
                "https://nbsoftsolutions.com/blog/monitoring-windows-system-metrics-with-grafana"
            ),
            user_agent: some(
                "Mozilla/5.0 (Windows NT 10.0; Win64; x64) AppleWebKit/537.36 (KHTML, like Gecko) Chrome/61.0.3163.100 Safari/537.36"
            ),
            host: "comments.nbsoftsolutions.com".to_string(),
        },
        actual
    )
}

#[test]
fn date_is_normalised_to_utc() {
    // 2017-11-03T11:49:45Z
    assert_eq!(parse_date("03/Nov/2017:06:49:45 -0500"), Ok(1509709785));
    assert_eq!(parse_date("03/Nov/2017:11:49:45 +0000"), Ok(1509709785));
    assert_eq!(parse_date("03/Nov/2017:13:19:45 +0130"), Ok(1509709785));
}

#[test]
fn date_without_offset_is_invalid() {
    assert_eq!(
        parse_date("03/Nov/2017:06:49:45"),
        Err(ParseError::InvalidDate("03/Nov/2017:06:49:45".to_string()))
    );
    assert_eq!(
        parse_date("03/Foo/2017:06:49:45 -0500"),
        Err(ParseError::InvalidDate("03/Foo/2017:06:49:45 -0500".to_string()))
    );
}

#[test]
fn unmatched_text_is_no_match() {
    let r = parse_nginx_line("Cats are alright");
    assert_eq!(r, Err(ParseError::NoMatch("Cats are alright".to_string())));
    assert_eq!(
        r.unwrap_err().message(),
        "Text did not match regex `Cats are alright`"
    );
    assert_eq!(parse_nginx_line(""), Err(ParseError::NoMatch(String::new())));
}

#[test]
fn malformed_timestamp_is_invalid_date() {
    let line = SAMPLE.replace("04/Nov/2017:13:05:35 -0500", "2017-12-01");
    assert_eq!(
        parse_nginx_line(&line),
        Err(ParseError::InvalidDate("2017-12-01".to_string()))
    );
}

#[test]
fn non_numeric_status_and_size_are_absent() {
    let line = SAMPLE.replace("200 20480", "abc -");
    let log = parse_nginx_line(&line).unwrap();
    assert_eq!(log.status, None);
    assert_eq!(log.body_bytes_sent, None);
    assert_eq!(log.epoch, 1509818735);
    assert_eq!(log.method, some("GET"));
}

#[test]
fn numeric_fields_follow_i32_parsing() {
    let signed = parse_nginx_line(&SAMPLE.replace("200 20480", "+404 -2147483648")).unwrap();
    assert_eq!(signed.status, Some(404));
    assert_eq!(signed.body_bytes_sent, Some(i32::MIN));
    let large = parse_nginx_line(&SAMPLE.replace("200 20480", "2147483647 2147483648")).unwrap();
    assert_eq!(large.status, Some(i32::MAX));
    assert_eq!(large.body_bytes_sent, None);
    let zeros = parse_nginx_line(&SAMPLE.replace("200 20480", "000200 0")).unwrap();
    assert_eq!(zeros.status, Some(200));
    assert_eq!(zeros.body_bytes_sent, Some(0));
}

#[test]
fn empty_captures_are_absent() {
    let line = r#"10.0.0.7 -  [04/Nov/2017:13:05:35 -0500] "GET  HTTP/1.1" 304 0 "" "" "example.com""#;
    let log = parse_nginx_line(line).unwrap();
    assert_eq!(log.remote_addr, some("10.0.0.7"));
    assert_eq!(log.remote_user, None);
    assert_eq!(log.path, None);
    assert_eq!(log.version, some("1.1"));
    assert_eq!(log.status, Some(304));
    assert_eq!(log.referer, None);
    assert_eq!(log.user_agent, None);
    assert_eq!(log.host, "example.com");
}

#[test]
fn empty_host_does_not_match() {
    let line = SAMPLE.replace("\"comments.nbsoftsolutions.com\"", "\"\"");
    assert_eq!(parse_nginx_line(&line), Err(ParseError::NoMatch(line.clone())));
}

#[test]
fn leftmost_match_is_taken() {
    let line = format!("junk {} trailing", SAMPLE);
    let log = parse_nginx_line(&line).unwrap();
    assert_eq!(log.remote_addr, some("127.0.0.1"));
    assert_eq!(log.host, "comments.nbsoftsolutions.com");
    let glued = format!("x{}", SAMPLE);
    assert_eq!(parse_nginx_line(&glued).unwrap().remote_addr, some("x127.0.0.1"));
}

#[test]
fn unicode_whitespace_separates_fields() {
    let line = SAMPLE.replacen(' ', "\u{a0}", 1);
    let log = parse_nginx_line(&line).unwrap();
    assert_eq!(log.remote_addr, some("127.0.0.1"));
}

#[test]
fn version_keeps_inner_quotes() {
    let line = SAMPLE.replace("HTTP/2.0\"", "HTTP/2\"0\"");
    let log = parse_nginx_line(&line).unwrap();
    assert_eq!(log.version, some("2\"0"));
}

#[test]
fn display_shows_fields_in_order() {
    let log = parse_nginx_line(SAMPLE).unwrap();
    assert_eq!(
        log.display(),
        "1509818735 127.0.0.1 - 200 GET /js/embed.min.js 2.0 20480 https://nbsoftsolutions.com/blog/monitoring-windows-system-metrics-with-grafana Mozilla/5.0 (Windows NT 10.0; Win64; x64) AppleWebKit/537.36 (KHTML, like Gecko) Chrome/61.0.3163.100 Safari/537.36 comments.nbsoftsolutions.com"
    );
}

#[test]
fn display_fills_absent_fields() {
    let log = NewLog {
        epoch: -5,
        remote_addr: None,
        remote_user: None,
        status: None,
        method: None,
        path: None,
        version: None,
        body_bytes_sent: None,
        referer: None,
        user_agent: None,
        host: "h".to_string(),
    };
    assert_eq!(log.display(), "-5 NA NA 200 NA NA NA 0 NA NA h");
    let extreme = NewLog { epoch: i64::MIN, status: Some(-7), body_bytes_sent: Some(i32::MAX), ..log };
    assert_eq!(
        extreme.display(),
        "-9223372036854775808 NA NA -7 NA NA NA 2147483647 NA NA h"
    );
}

#[test]
fn date_layout_is_exact() {
    for bad in [
        "3/Nov/2017:06:49:45 -0500",
        "03/Nov/2017:06:49:45 -05:00",
        "03/nov/2017:06:49:45 -0500",
        "03/Nov/2017 06:49:45 -0500",
        "03/Nov/17:06:49:45 -0500",
        "03/Nov/2017:06:49:45 0500",
        " 03/Nov/2017:06:49:45 -0500",
        "",
    ] {
        assert_eq!(parse_date(bad), Err(ParseError::InvalidDate(bad.to_string())), "{}", bad);
    }
}

#[test]
fn impossible_dates_are_invalid() {
    for bad in ["31/Nov/2017:06:49:45 -0500", "03/Nov/2017:24:49:45 -0500", "29/Feb/2017:00:00:00 +0000"] {
        assert_eq!(parse_date(bad), Err(ParseError::InvalidDate(bad.to_string())), "{}", bad);
    }
    assert_eq!(parse_date("29/Feb/2016:00:00:00 +0000"), Ok(1456704000));
    assert_eq!(parse_date("01/Jan/1970:00:00:00 +0000"), Ok(0));
}
