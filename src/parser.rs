//! The access-log line grammar and the timestamp parser.
//!
//! A line reads, field by field:
//! `remote_addr - remote_user [time_local] "method path HTTP/version" status body_bytes_sent
//! "referer" "user_agent" "host"`, with single whitespace characters between the parts.
//! `remote_addr`, `method`, `path`, `version`, `status` and `body_bytes_sent` are runs of
//! non-whitespace (`remote_user` and `path` may be empty), `time_local` runs up to the
//! closing `]`, and the three quoted fields run up to the next `"` (`host` is not empty).
//! The pattern may start anywhere in the line: the leftmost start that matches is taken.
use vstd::prelude::*;
use crate::models::{opt_view, LogView, NewLog};
use crate::text::{append_str, chars_of, is_digit, is_space, is_space_char, i32_of, parse_i32, string_of};

verus! {

/// What ends a run of field characters.
#[derive(Clone, Copy, PartialEq, Eq)]
pub enum Stop {
    Space,
    Quote,
    Bracket,
}

pub open spec fn stops(c: char, k: Stop) -> bool {
    match k {
        Stop::Space => is_space(c),
        Stop::Quote => c == '"',
        Stop::Bracket => c == ']',
    }
}

/// The end of the longest run of characters from `i` on that `k` does not stop.
pub open spec fn scan(s: Seq<char>, i: int, k: Stop) -> int
    decreases s.len() - i,
{
    if i < 0 || i >= s.len() || stops(s[i], k) {
        i
    } else {
        scan(s, i + 1, k)
    }
}

/// `s[i]` exists and is `c`.
pub open spec fn ch(s: Seq<char>, i: int, c: char) -> bool {
    0 <= i < s.len() && s[i] == c
}

/// `s[i]` exists and is whitespace.
pub open spec fn sp(s: Seq<char>, i: int) -> bool {
    0 <= i < s.len() && is_space(s[i])
}

/// The characters `start..end` of a line.
#[derive(Clone, Copy, PartialEq, Eq, Debug)]
pub struct Span {
    pub start: usize,
    pub end: usize,
}

/// Where each field of a matching line lies.
#[derive(Clone, Copy, PartialEq, Eq, Debug)]
pub struct LineSpans {
    pub remote_addr: Span,
    pub remote_user: Span,
    pub time_local: Span,
    pub method: Span,
    pub path: Span,
    pub version: Span,
    pub status: Span,
    pub body_bytes_sent: Span,
    pub referer: Span,
    pub user_agent: Span,
    pub host: Span,
}

pub open spec fn span(a: int, b: int) -> Span {
    Span { start: a as usize, end: b as usize }
}

/// The fields of a line when the pattern matches starting at `p`.
pub open spec fn spans_at(s: Seq<char>, p: int) -> Option<LineSpans> {
    let a1 = scan(s, p, Stop::Space);
    let u0 = a1 + 3;
    let u1 = scan(s, u0, Stop::Space);
    let t0 = u1 + 2;
    let t1 = scan(s, t0, Stop::Bracket);
    let m0 = t1 + 3;
    let m1 = scan(s, m0, Stop::Space);
    let q0 = m1 + 1;
    let q1 = scan(s, q0, Stop::Space);
    let v0 = q1 + 6;
    let v1 = scan(s, v0, Stop::Space);
    let c0 = v1 + 1;
    let c1 = scan(s, c0, Stop::Space);
    let b0 = c1 + 1;
    let b1 = scan(s, b0, Stop::Space);
    let f0 = b1 + 2;
    let f1 = scan(s, f0, Stop::Quote);
    let g0 = f1 + 3;
    let g1 = scan(s, g0, Stop::Quote);
    let h0 = g1 + 3;
    let h1 = scan(s, h0, Stop::Quote);
    if 0 <= p < a1 && sp(s, a1) && ch(s, a1 + 1, '-') && sp(s, a1 + 2)
        && sp(s, u1) && ch(s, u1 + 1, '[')
        && t0 < t1 && ch(s, t1, ']') && sp(s, t1 + 1) && ch(s, t1 + 2, '"')
        && m0 < m1 && sp(s, m1)
        && sp(s, q1) && ch(s, q1 + 1, 'H') && ch(s, q1 + 2, 'T') && ch(s, q1 + 3, 'T')
        && ch(s, q1 + 4, 'P') && ch(s, q1 + 5, '/')
        && v0 + 1 < v1 && ch(s, v1 - 1, '"') && sp(s, v1)
        && c0 < c1 && sp(s, c1)
        && b0 < b1 && sp(s, b1) && ch(s, b1 + 1, '"')
        && ch(s, f1, '"') && sp(s, f1 + 1) && ch(s, f1 + 2, '"')
        && ch(s, g1, '"') && sp(s, g1 + 1) && ch(s, g1 + 2, '"')
        && h0 < h1 && ch(s, h1, '"') {
        Some(LineSpans {
            remote_addr: span(p, a1),
            remote_user: span(u0, u1),
            time_local: span(t0, t1),
            method: span(m0, m1),
            path: span(q0, q1),
            version: span(v0, v1 - 1),
            status: span(c0, c1),
            body_bytes_sent: span(b0, b1),
            referer: span(f0, f1),
            user_agent: span(g0, g1),
            host: span(h0, h1),
        })
    } else {
        None
    }
}

/// The match whose start is leftmost among the starts `p..`.
pub open spec fn first_spans(s: Seq<char>, p: int) -> Option<LineSpans>
    decreases s.len() - p,
{
    if p < 0 || p >= s.len() {
        None
    } else if spans_at(s, p) is Some {
        spans_at(s, p)
    } else {
        first_spans(s, p + 1)
    }
}

/// The fields of `s` under the line grammar, or `None` where it does not match.
pub open spec fn line_spans(s: Seq<char>) -> Option<LineSpans> {
    first_spans(s, 0)
}

fn stops_exec(c: char, k: Stop) -> (r: bool)
    ensures
        r == stops(c, k),
{
    match k {
        Stop::Space => is_space_char(c),
        Stop::Quote => c == '"',
        Stop::Bracket => c == ']',
    }
}

fn scan_exec(v: &Vec<char>, i: usize, k: Stop) -> (j: usize)
    requires
        i <= v@.len(),
    ensures
        j as int == scan(v@, i as int, k),
        i <= j <= v@.len(),
{
    let mut j = i;
    while j < v.len() && !stops_exec(v[j], k)
        invariant
            i <= j <= v@.len(),
            scan(v@, j as int, k) == scan(v@, i as int, k),
        decreases v@.len() - j,
    {
        j = j + 1;
    }
    j
}

fn ch_exec(v: &Vec<char>, i: usize, c: char) -> (r: bool)
    ensures
        r == ch(v@, i as int, c),
{
    i < v.len() && v[i] == c
}

fn sp_exec(v: &Vec<char>, i: usize) -> (r: bool)
    ensures
        r == sp(v@, i as int),
{
    i < v.len() && is_space_char(v[i])
}

pub open spec fn span_within(sp: Span, n: int) -> bool {
    sp.start <= sp.end <= n
}

/// Every field lies within a line of length `n`.
pub open spec fn spans_within(c: LineSpans, n: int) -> bool {
    span_within(c.remote_addr, n) && span_within(c.remote_user, n) && span_within(c.time_local, n)
        && span_within(c.method, n) && span_within(c.path, n) && span_within(c.version, n)
        && span_within(c.status, n) && span_within(c.body_bytes_sent, n)
        && span_within(c.referer, n) && span_within(c.user_agent, n) && span_within(c.host, n)
}

/// Tries the pattern at start `p`.
fn spans_at_exec(v: &Vec<char>, p: usize) -> (r: Option<LineSpans>)
    requires
        p <= v@.len(),
    ensures
        r == spans_at(v@, p as int),
        r is Some ==> spans_within(r->0, v@.len() as int),
{
    let n = v.len();
    let a1 = scan_exec(v, p, Stop::Space);
    if !(p < a1 && sp_exec(v, a1) && ch_exec(v, a1 + 1, '-') && sp_exec(v, a1 + 2)) {
        return None;
    }
    let u0 = a1 + 3;
    let u1 = scan_exec(v, u0, Stop::Space);
    if !(sp_exec(v, u1) && ch_exec(v, u1 + 1, '[')) {
        return None;
    }
    let t0 = u1 + 2;
    let t1 = scan_exec(v, t0, Stop::Bracket);
    if !(t0 < t1 && ch_exec(v, t1, ']') && sp_exec(v, t1 + 1) && ch_exec(v, t1 + 2, '"')) {
        return None;
    }
    let m0 = t1 + 3;
    let m1 = scan_exec(v, m0, Stop::Space);
    if !(m0 < m1 && sp_exec(v, m1)) {
        return None;
    }
    let q0 = m1 + 1;
    let q1 = scan_exec(v, q0, Stop::Space);
    if !(sp_exec(v, q1) && ch_exec(v, q1 + 1, 'H') && ch_exec(v, q1 + 2, 'T') && ch_exec(
        v,
        q1 + 3,
        'T',
    ) && ch_exec(v, q1 + 4, 'P') && ch_exec(v, q1 + 5, '/')) {
        return None;
    }
    let v0 = q1 + 6;
    let v1 = scan_exec(v, v0, Stop::Space);
    if !(v0 < v1 - 1 && ch_exec(v, v1 - 1, '"') && sp_exec(v, v1)) {
        return None;
    }
    let c0 = v1 + 1;
    let c1 = scan_exec(v, c0, Stop::Space);
    if !(c0 < c1 && sp_exec(v, c1)) {
        return None;
    }
    let b0 = c1 + 1;
    let b1 = scan_exec(v, b0, Stop::Space);
    if !(b0 < b1 && sp_exec(v, b1) && ch_exec(v, b1 + 1, '"')) {
        return None;
    }
    let f0 = b1 + 2;
    let f1 = scan_exec(v, f0, Stop::Quote);
    if !(ch_exec(v, f1, '"') && sp_exec(v, f1 + 1) && ch_exec(v, f1 + 2, '"')) {
        return None;
    }
    let g0 = f1 + 3;
    let g1 = scan_exec(v, g0, Stop::Quote);
    if !(ch_exec(v, g1, '"') && sp_exec(v, g1 + 1) && ch_exec(v, g1 + 2, '"')) {
        return None;
    }
    let h0 = g1 + 3;
    let h1 = scan_exec(v, h0, Stop::Quote);
    if !(h0 < h1 && ch_exec(v, h1, '"')) {
        return None;
    }
    Some(
        LineSpans {
            remote_addr: Span { start: p, end: a1 },
            remote_user: Span { start: u0, end: u1 },
            time_local: Span { start: t0, end: t1 },
            method: Span { start: m0, end: m1 },
            path: Span { start: q0, end: q1 },
            version: Span { start: v0, end: v1 - 1 },
            status: Span { start: c0, end: c1 },
            body_bytes_sent: Span { start: b0, end: b1 },
            referer: Span { start: f0, end: f1 },
            user_agent: Span { start: g0, end: g1 },
            host: Span { start: h0, end: h1 },
        },
    )
}

/// Finds the leftmost start at which the pattern matches.
fn line_spans_exec(v: &Vec<char>) -> (r: Option<LineSpans>)
    ensures
        r == line_spans(v@),
        r is Some ==> spans_within(r->0, v@.len() as int),
{
    let mut p: usize = 0;
    while p < v.len()
        invariant
            p <= v@.len(),
            first_spans(v@, p as int) == line_spans(v@),
        decreases v@.len() - p,
    {
        let r = spans_at_exec(v, p);
        if r.is_some() {
            return r;
        }
        p = p + 1;
    }
    None
}

/// Why a line could not be read.
#[derive(Debug, PartialEq, Clone)]
pub enum ParseError {
    /// The line does not match the grammar; holds the whole line.
    NoMatch(String),
    /// The line matches, but its `time_local` is no valid timestamp; holds that text.
    InvalidDate(String),
}

/// The content of a [`ParseError`].
pub enum ParseErrorView {
    NoMatch(Seq<char>),
    InvalidDate(Seq<char>),
}

impl View for ParseError {
    type V = ParseErrorView;

    open spec fn view(&self) -> ParseErrorView {
        match self {
            ParseError::NoMatch(t) => ParseErrorView::NoMatch(t@),
            ParseError::InvalidDate(t) => ParseErrorView::InvalidDate(t@),
        }
    }
}

impl ParseError {
    /// A sentence that names the failure and quotes the offending text.
    pub fn message(&self) -> (r: String)
        ensures
            r@ == match self@ {
                ParseErrorView::NoMatch(t) => "Text did not match regex `"@ + t + "`"@,
                ParseErrorView::InvalidDate(t) => "Text could not be parsed into date `"@ + t
                    + "`"@,
            },
    {
        let (head, t) = match self {
            ParseError::NoMatch(t) => ("Text did not match regex `", t),
            ParseError::InvalidDate(t) => ("Text could not be parsed into date `", t),
        };
        let mut r = head.to_owned();
        append_str(&mut r, t.as_str());
        append_str(&mut r, "`");
        r
    }
}

/// The epoch seconds that chrono reads from a `time_local` text in the layout
/// `DD/Mon/YYYY:HH:MM:SS +HHMM`, or `None` where it rejects the text.
pub uninterp spec fn time_local_epoch(text: Seq<char>) -> Option<i64>;

/// Relies on chrono's `DateTime::parse_from_str` with the format `%d/%b/%Y:%H:%M:%S %z`, and
/// on `DateTime::timestamp` for the seconds since the epoch of what it parsed.
#[verifier::external_body]
fn chrono_time_local(text: &str) -> (r: Option<i64>)
    ensures
        r == time_local_epoch(text@),
{
    match chrono::DateTime::parse_from_str(text, "%d/%b/%Y:%H:%M:%S %z") {
        Ok(dt) => Some(dt.timestamp()),
        Err(_) => None,
    }
}

/// `a`, `b`, `c` spell the English abbreviation of a month, as nginx writes it (`Jan` to `Dec`).
pub open spec fn is_month(a: char, b: char, c: char) -> bool {
    (a == 'J' && b == 'a' && c == 'n') || (a == 'F' && b == 'e' && c == 'b') || (a == 'M' && b
        == 'a' && c == 'r') || (a == 'A' && b == 'p' && c == 'r') || (a == 'M' && b == 'a' && c
        == 'y') || (a == 'J' && b == 'u' && c == 'n') || (a == 'J' && b == 'u' && c == 'l') || (a
        == 'A' && b == 'u' && c == 'g') || (a == 'S' && b == 'e' && c == 'p') || (a == 'O' && b
        == 'c' && c == 't') || (a == 'N' && b == 'o' && c == 'v') || (a == 'D' && b == 'e' && c
        == 'c')
}

/// `t[from..to]` are all ASCII digits.
pub open spec fn digits_at(t: Seq<char>, from: int, to: int) -> bool {
    forall|i: int| from <= i < to ==> is_digit(#[trigger] t[i])
}

/// `t` has the layout `DD/Mon/YYYY:HH:MM:SS +HHMM`: two-digit day, month abbreviation,
/// four-digit year, two-digit hour, minute and second, and a signed four-digit offset.
pub open spec fn time_local_layout(t: Seq<char>) -> bool {
    &&& t.len() == 26
    &&& digits_at(t, 0, 2) && t[2] == '/' && is_month(t[3], t[4], t[5]) && t[6] == '/'
    &&& digits_at(t, 7, 11) && t[11] == ':' && digits_at(t, 12, 14) && t[14] == ':'
    &&& digits_at(t, 15, 17) && t[17] == ':' && digits_at(t, 18, 20) && t[20] == ' '
    &&& (t[21] == '+' || t[21] == '-') && digits_at(t, 22, 26)
}

/// The outcome of [`parse_date`] on `text`: text out of layout is rejected, the rest goes
/// to chrono, which rejects the dates and times that do not exist.
pub open spec fn date_result(text: Seq<char>) -> Result<i64, ParseErrorView> {
    if !time_local_layout(text) {
        Err(ParseErrorView::InvalidDate(text))
    } else {
        match time_local_epoch(text) {
            Some(e) => Ok(e),
            None => Err(ParseErrorView::InvalidDate(text)),
        }
    }
}

pub open spec fn date_view(r: Result<i64, ParseError>) -> Result<i64, ParseErrorView> {
    match r {
        Ok(e) => Ok(e),
        Err(e) => Err(e@),
    }
}

fn digits_at_exec(v: &Vec<char>, from: usize, to: usize) -> (r: bool)
    requires
        from <= to <= v@.len(),
    ensures
        r == digits_at(v@, from as int, to as int),
{
    let mut i = from;
    while i < to
        invariant
            from <= i <= to <= v@.len(),
            digits_at(v@, from as int, i as int),
        decreases to - i,
    {
        if !('0' <= v[i] && v[i] <= '9') {
            return false;
        }
        i = i + 1;
    }
    true
}

fn is_month_exec(a: char, b: char, c: char) -> (r: bool)
    ensures
        r == is_month(a, b, c),
{
    (a == 'J' && b == 'a' && c == 'n') || (a == 'F' && b == 'e' && c == 'b') || (a == 'M' && b
        == 'a' && c == 'r') || (a == 'A' && b == 'p' && c == 'r') || (a == 'M' && b == 'a' && c
        == 'y') || (a == 'J' && b == 'u' && c == 'n') || (a == 'J' && b == 'u' && c == 'l') || (a
        == 'A' && b == 'u' && c == 'g') || (a == 'S' && b == 'e' && c == 'p') || (a == 'O' && b
        == 'c' && c == 't') || (a == 'N' && b == 'o' && c == 'v') || (a == 'D' && b == 'e' && c
        == 'c')
}

/// Reads an nginx `time_local` timestamp (`03/Nov/2017:06:49:45 -0500`) as seconds since the
/// epoch, with the offset applied. Text out of that layout, or naming a date or time that does
/// not exist, gives `InvalidDate` holding it unchanged.
pub fn parse_date(text: &str) -> (r: Result<i64, ParseError>)
    ensures
        date_view(r) == date_result(text@),
{
    let v = chars_of(text);
    let in_layout = v.len() == 26 && digits_at_exec(&v, 0, 2) && v[2] == '/' && is_month_exec(
        v[3],
        v[4],
        v[5],
    ) && v[6] == '/' && digits_at_exec(&v, 7, 11) && v[11] == ':' && digits_at_exec(&v, 12, 14)
        && v[14] == ':' && digits_at_exec(&v, 15, 17) && v[17] == ':' && digits_at_exec(&v, 18, 20)
        && v[20] == ' ' && (v[21] == '+' || v[21] == '-') && digits_at_exec(&v, 22, 26);
    if !in_layout {
        return Err(ParseError::InvalidDate(text.to_owned()));
    }
    match chrono_time_local(text) {
        Some(e) => Ok(e),
        None => Err(ParseError::InvalidDate(text.to_owned())),
    }
}

/// The text of one field.
pub open spec fn field_text(s: Seq<char>, sp: Span) -> Seq<char> {
    s.subrange(sp.start as int, sp.end as int)
}

/// An optional text field: absent where the capture is empty.
pub open spec fn text_field(t: Seq<char>) -> Option<Seq<char>> {
    if t.len() == 0 {
        None
    } else {
        Some(t)
    }
}

/// The record that the fields `c` of line `s` make, with its timestamp read as `epoch`.
pub open spec fn record_of(s: Seq<char>, c: LineSpans, epoch: i64) -> LogView {
    LogView {
        epoch,
        remote_addr: text_field(field_text(s, c.remote_addr)),
        remote_user: text_field(field_text(s, c.remote_user)),
        status: i32_of(field_text(s, c.status)),
        method: text_field(field_text(s, c.method)),
        path: text_field(field_text(s, c.path)),
        version: text_field(field_text(s, c.version)),
        body_bytes_sent: i32_of(field_text(s, c.body_bytes_sent)),
        referer: text_field(field_text(s, c.referer)),
        user_agent: text_field(field_text(s, c.user_agent)),
        host: field_text(s, c.host),
    }
}

/// The outcome of [`parse_nginx_line`] on `s`.
pub open spec fn parse_line(s: Seq<char>) -> Result<LogView, ParseErrorView> {
    match line_spans(s) {
        None => Err(ParseErrorView::NoMatch(s)),
        Some(c) => match date_result(field_text(s, c.time_local)) {
            Err(e) => Err(e),
            Ok(e) => Ok(record_of(s, c, e)),
        },
    }
}

pub open spec fn line_view(r: Result<NewLog, ParseError>) -> Result<LogView, ParseErrorView> {
    match r {
        Ok(l) => Ok(l@),
        Err(e) => Err(e@),
    }
}

fn field_string(v: &Vec<char>, sp: Span) -> (r: String)
    requires
        span_within(sp, v@.len() as int),
    ensures
        r@ == field_text(v@, sp),
{
    string_of(v, sp.start, sp.end)
}

fn optional_field(v: &Vec<char>, sp: Span) -> (r: Option<String>)
    requires
        span_within(sp, v@.len() as int),
    ensures
        opt_view(r) == text_field(field_text(v@, sp)),
{
    if sp.start == sp.end {
        None
    } else {
        Some(string_of(v, sp.start, sp.end))
    }
}

/// Parses one access-log line into a record.
///
/// Where the line does not match the grammar the error is `NoMatch` with the whole line;
/// where it matches but its timestamp does not parse, `InvalidDate` with the timestamp text.
/// `status` and `body_bytes_sent` that are no `i32` are left absent.
pub fn parse_nginx_line(text: &str) -> (r: Result<NewLog, ParseError>)
    ensures
        line_view(r) == parse_line(text@),
{
    let v = chars_of(text);
    match line_spans_exec(&v) {
        None => Err(ParseError::NoMatch(text.to_owned())),
        Some(c) => {
            let time_local = field_string(&v, c.time_local);
            match parse_date(time_local.as_str()) {
                Err(e) => Err(e),
                Ok(epoch) => Ok(
                    NewLog {
                        epoch,
                        remote_addr: optional_field(&v, c.remote_addr),
                        remote_user: optional_field(&v, c.remote_user),
                        status: parse_i32(&v, c.status.start, c.status.end),
                        method: optional_field(&v, c.method),
                        path: optional_field(&v, c.path),
                        version: optional_field(&v, c.version),
                        body_bytes_sent: parse_i32(
                            &v,
                            c.body_bytes_sent.start,
                            c.body_bytes_sent.end,
                        ),
                        referer: optional_field(&v, c.referer),
                        user_agent: optional_field(&v, c.user_agent),
                        host: field_string(&v, c.host),
                    },
                ),
            }
        },
    }
}

/// The text of each field of a line.
pub struct LineFields {
    pub remote_addr: Seq<char>,
    pub remote_user: Seq<char>,
    pub time_local: Seq<char>,
    pub method: Seq<char>,
    pub path: Seq<char>,
    pub version: Seq<char>,
    pub status: Seq<char>,
    pub body_bytes_sent: Seq<char>,
    pub referer: Seq<char>,
    pub user_agent: Seq<char>,
    pub host: Seq<char>,
}

/// No character of `t` ends a run under `k`.
pub open spec fn runs_through(t: Seq<char>, k: Stop) -> bool {
    forall|i: int| 0 <= i < t.len() ==> !stops(#[trigger] t[i], k)
}

/// Field texts that the grammar can capture: non-whitespace runs (non-empty but for
/// `remote_user` and `path`), a `time_local` without `]`, quoted fields without `"`, and a
/// non-empty `host`.
pub open spec fn fields_well_formed(f: LineFields) -> bool {
    &&& f.remote_addr.len() > 0 && runs_through(f.remote_addr, Stop::Space)
    &&& runs_through(f.remote_user, Stop::Space)
    &&& f.time_local.len() > 0 && runs_through(f.time_local, Stop::Bracket)
    &&& f.method.len() > 0 && runs_through(f.method, Stop::Space)
    &&& runs_through(f.path, Stop::Space)
    &&& f.version.len() > 0 && runs_through(f.version, Stop::Space)
    &&& f.status.len() > 0 && runs_through(f.status, Stop::Space)
    &&& f.body_bytes_sent.len() > 0 && runs_through(f.body_bytes_sent, Stop::Space)
    &&& runs_through(f.referer, Stop::Quote)
    &&& runs_through(f.user_agent, Stop::Quote)
    &&& f.host.len() > 0 && runs_through(f.host, Stop::Quote)
}

/// The pieces of `s`, one after another.
pub open spec fn join(p: Seq<Seq<char>>) -> Seq<char>
    decreases p.len(),
{
    if p.len() == 0 {
        Seq::empty()
    } else {
        join(p.drop_last()) + p.last()
    }
}

/// The parts of the line that nginx writes for the fields `f`, with one space between them.
pub open spec fn line_pieces(f: LineFields) -> Seq<Seq<char>> {
    seq![
        f.remote_addr,
        seq![' ', '-', ' '],
        f.remote_user,
        seq![' ', '['],
        f.time_local,
        seq![']', ' ', '"'],
        f.method,
        seq![' '],
        f.path,
        seq![' ', 'H', 'T', 'T', 'P', '/'],
        f.version,
        seq!['"', ' '],
        f.status,
        seq![' '],
        f.body_bytes_sent,
        seq![' ', '"'],
        f.referer,
        seq!['"', ' ', '"'],
        f.user_agent,
        seq!['"', ' ', '"'],
        f.host,
        seq!['"'],
    ]
}

/// The line that nginx writes for the fields `f`.
pub open spec fn render_line(f: LineFields) -> Seq<char> {
    join(line_pieces(f))
}

/// The record that the fields `f` make, with the timestamp read as `epoch`.
pub open spec fn record_of_fields(f: LineFields, epoch: i64) -> LogView {
    LogView {
        epoch,
        remote_addr: text_field(f.remote_addr),
        remote_user: text_field(f.remote_user),
        status: i32_of(f.status),
        method: text_field(f.method),
        path: text_field(f.path),
        version: text_field(f.version),
        body_bytes_sent: i32_of(f.body_bytes_sent),
        referer: text_field(f.referer),
        user_agent: text_field(f.user_agent),
        host: f.host,
    }
}

/// Where piece `k` starts in `join(p)`.
pub open spec fn piece_start(p: Seq<Seq<char>>, k: int) -> int {
    join(p.take(k)).len() as int
}

proof fn lemma_piece_start_next(p: Seq<Seq<char>>, k: int)
    requires
        0 <= k < p.len(),
    ensures
        piece_start(p, k + 1) == piece_start(p, k) + p[k].len(),
        piece_start(p, 0) == 0,
{
    assert(p.take(k + 1).drop_last() =~= p.take(k));
    assert(p.take(0) =~= Seq::<Seq<char>>::empty());
}

proof fn lemma_join_len(p: Seq<Seq<char>>)
    ensures
        join(p).len() == piece_start(p, p.len() as int),
{
    assert(p.take(p.len() as int) =~= p);
}

/// Piece `k` of `p` stands in `join(p)` from `piece_start(p, k)` on.
proof fn lemma_piece_at(p: Seq<Seq<char>>, k: int)
    requires
        0 <= k < p.len(),
    ensures
        piece_start(p, k) + p[k].len() <= join(p).len(),
        join(p).subrange(piece_start(p, k), piece_start(p, k) + p[k].len()) == p[k],
    decreases p.len(),
{
    let q = p.drop_last();
    if k == p.len() - 1 {
        assert(p.take(k) =~= q);
        assert(join(p).subrange(piece_start(p, k), piece_start(p, k) + p[k].len()) =~= p[k]);
    } else {
        lemma_piece_at(q, k);
        assert(q.take(k) =~= p.take(k));
        assert(q[k] == p[k]);
        let a = piece_start(p, k);
        assert(join(p).subrange(a, a + p[k].len()) =~= join(q).subrange(a, a + p[k].len()));
    }
}

proof fn lemma_pieces_placed(p: Seq<Seq<char>>)
    ensures
        forall|j: int|
            0 <= j < p.len() ==> {
                &&& piece_start(p, j + 1) == #[trigger] piece_start(p, j) + p[j].len()
                &&& join(p).subrange(piece_start(p, j), piece_start(p, j) + p[j].len()) == p[j]
                &&& piece_start(p, j) + p[j].len() <= join(p).len()
            },
{
    assert forall|j: int| 0 <= j < p.len() implies {
        &&& piece_start(p, j + 1) == #[trigger] piece_start(p, j) + p[j].len()
        &&& join(p).subrange(piece_start(p, j), piece_start(p, j) + p[j].len()) == p[j]
        &&& piece_start(p, j) + p[j].len() <= join(p).len()
    } by {
        lemma_piece_start_next(p, j);
        lemma_piece_at(p, j);
    }
}

proof fn lemma_piece_chars(s: Seq<char>, p: Seq<Seq<char>>, k: int, o: int)
    requires
        0 <= k < p.len(),
        0 <= o,
        o + p[k].len() <= s.len(),
        s.subrange(o, o + p[k].len()) == p[k],
    ensures
        forall|i: int| 0 <= i < p[k].len() ==> s[o + i] == #[trigger] p[k][i],
{
    assert forall|i: int| 0 <= i < p[k].len() implies s[o + i] == #[trigger] p[k][i] by {
        assert(s.subrange(o, o + p[k].len())[i] == s[o + i]);
    }
}

proof fn lemma_scan_field(s: Seq<char>, o: int, x: Seq<char>, k: Stop)
    requires
        0 <= o,
        o + x.len() < s.len(),
        s.subrange(o, o + x.len()) == x,
        runs_through(x, k),
        stops(s[o + x.len()], k),
    ensures
        scan(s, o, k) == o + x.len(),
    decreases x.len(),
{
    if x.len() > 0 {
        assert(s[o] == x[0]);
        assert(s.subrange(o + 1, o + x.len()) =~= x.skip(1));
        lemma_scan_field(s, o + 1, x.skip(1), k);
    }
}

/// The grammar finds the fields of a rendered line where they were put.
pub open spec fn captures_fields(s: Seq<char>, c: LineSpans, f: LineFields) -> bool {
    &&& field_text(s, c.remote_addr) == f.remote_addr
    &&& field_text(s, c.remote_user) == f.remote_user
    &&& field_text(s, c.time_local) == f.time_local
    &&& field_text(s, c.method) == f.method
    &&& field_text(s, c.path) == f.path
    &&& field_text(s, c.version) == f.version
    &&& field_text(s, c.status) == f.status
    &&& field_text(s, c.body_bytes_sent) == f.body_bytes_sent
    &&& field_text(s, c.referer) == f.referer
    &&& field_text(s, c.user_agent) == f.user_agent
    &&& field_text(s, c.host) == f.host
}

/// A line rendered from well-formed fields parses back to exactly those fields: the record
/// when the timestamp reads, else `InvalidDate` with the timestamp text.
pub proof fn lemma_rendered_line_parses(f: LineFields)
    requires
        fields_well_formed(f),
        render_line(f).len() <= usize::MAX,
    ensures
        parse_line(render_line(f)) == match date_result(f.time_local) {
            Ok(e) => Ok(record_of_fields(f, e)),
            Err(e) => Err(e),
        },
{
    lemma_rendered_line_spans(f);
    let s = render_line(f);
    let c = line_spans(s)->0;
    match date_result(f.time_local) {
        Ok(e) => {
            assert(record_of(s, c, e) == record_of_fields(f, e));
        },
        Err(_) => {},
    }
}

#[verifier::rlimit(80)]
proof fn lemma_rendered_line_spans(f: LineFields)
    requires
        fields_well_formed(f),
        render_line(f).len() <= usize::MAX,
    ensures
        line_spans(render_line(f)) is Some,
        captures_fields(render_line(f), line_spans(render_line(f))->0, f),
{
    let s = render_line(f);
    let p = line_pieces(f);
    lemma_pieces_placed(p);
    lemma_piece_start_next(p, 0);
    lemma_join_len(p);
    let a1 = f.remote_addr.len() as int;
    let u0 = a1 + 3;
    let u1 = u0 + f.remote_user.len();
    let t0 = u1 + 2;
    let t1 = t0 + f.time_local.len();
    let m0 = t1 + 3;
    let m1 = m0 + f.method.len();
    let q0 = m1 + 1;
    let q1 = q0 + f.path.len();
    let v0 = q1 + 6;
    let v1 = v0 + f.version.len() + 1;
    let c0 = v1 + 1;
    let c1 = c0 + f.status.len();
    let b0 = c1 + 1;
    let b1 = b0 + f.body_bytes_sent.len();
    let f0 = b1 + 2;
    let f1 = f0 + f.referer.len();
    let g0 = f1 + 3;
    let g1 = g0 + f.user_agent.len();
    let h0 = g1 + 3;
    let h1 = h0 + f.host.len();
    assert(piece_start(p, 1) == a1);
    assert(piece_start(p, 2) == u0);
    assert(piece_start(p, 3) == u1);
    assert(piece_start(p, 4) == t0);
    assert(piece_start(p, 5) == t1);
    assert(piece_start(p, 6) == m0);
    assert(piece_start(p, 7) == m1);
    assert(piece_start(p, 8) == q0);
    assert(piece_start(p, 9) == q1);
    assert(piece_start(p, 10) == v0);
    assert(piece_start(p, 11) == v1 - 1);
    assert(piece_start(p, 12) == c0);
    assert(piece_start(p, 13) == c1);
    assert(piece_start(p, 14) == b0);
    assert(piece_start(p, 15) == b1);
    assert(piece_start(p, 16) == f0);
    assert(piece_start(p, 17) == f1);
    assert(piece_start(p, 18) == g0);
    assert(piece_start(p, 19) == g1);
    assert(piece_start(p, 20) == h0);
    assert(piece_start(p, 21) == h1);
    assert(piece_start(p, 22) == h1 + 1);
    assert(s.len() == h1 + 1);
    lemma_piece_chars(s, p, 1, a1);
    lemma_piece_chars(s, p, 3, u1);
    lemma_piece_chars(s, p, 5, t1);
    lemma_piece_chars(s, p, 7, m1);
    lemma_piece_chars(s, p, 9, q1);
    lemma_piece_chars(s, p, 11, v1 - 1);
    lemma_piece_chars(s, p, 13, c1);
    lemma_piece_chars(s, p, 15, b1);
    lemma_piece_chars(s, p, 17, f1);
    lemma_piece_chars(s, p, 19, g1);
    lemma_piece_chars(s, p, 21, h1);
    assert(s[a1] == ' ' && s[a1 + 1] == '-' && s[a1 + 2] == ' ');
    assert(s[u1] == ' ' && s[u1 + 1] == '[');
    assert(s[t1] == ']' && s[t1 + 1] == ' ' && s[t1 + 2] == '"');
    assert(p[7][0] == ' ');
    assert(s[m1] == ' ');
    assert(s[q1] == ' ' && s[q1 + 1] == 'H' && s[q1 + 2] == 'T' && s[q1 + 3] == 'T');
    assert(s[q1 + 4] == 'P' && s[q1 + 5] == '/');
    assert(s[v1 - 1] == '"' && s[v1] == ' ');
    assert(p[13][0] == ' ');
    assert(s[c1] == ' ');
    assert(s[b1] == ' ' && s[b1 + 1] == '"');
    assert(s[f1] == '"' && s[f1 + 1] == ' ' && s[f1 + 2] == '"');
    assert(s[g1] == '"' && s[g1 + 1] == ' ' && s[g1 + 2] == '"');
    assert(p[21][0] == '"');
    assert(s[h1] == '"');
    lemma_scan_field(s, 0, f.remote_addr, Stop::Space);
    lemma_scan_field(s, u0, f.remote_user, Stop::Space);
    lemma_scan_field(s, t0, f.time_local, Stop::Bracket);
    lemma_scan_field(s, m0, f.method, Stop::Space);
    lemma_scan_field(s, q0, f.path, Stop::Space);
    // `HTTP/`, the version and its closing quote make one run of non-whitespace.
    let vq = f.version.push('"');
    assert(s.subrange(v0, v1) =~= vq) by {
        assert(s.subrange(v0, v1 - 1) == f.version);
    }
    assert forall|i: int| 0 <= i < vq.len() implies !stops(#[trigger] vq[i], Stop::Space) by {
        if i < f.version.len() {
            assert(vq[i] == f.version[i]);
        }
    }
    lemma_scan_field(s, v0, vq, Stop::Space);
    lemma_scan_field(s, c0, f.status, Stop::Space);
    lemma_scan_field(s, b0, f.body_bytes_sent, Stop::Space);
    lemma_scan_field(s, f0, f.referer, Stop::Quote);
    lemma_scan_field(s, g0, f.user_agent, Stop::Quote);
    lemma_scan_field(s, h0, f.host, Stop::Quote);
    assert(spans_at(s, 0) is Some);
    assert(line_spans(s) == spans_at(s, 0));
    let c = spans_at(s, 0)->0;
    assert(c.remote_addr.start as int == 0 && c.remote_addr.end as int == a1);
    assert(c.remote_user.start as int == u0 && c.remote_user.end as int == u1);
    assert(c.time_local.start as int == t0 && c.time_local.end as int == t1);
    assert(c.method.start as int == m0 && c.method.end as int == m1);
    assert(c.path.start as int == q0 && c.path.end as int == q1);
    assert(c.version.start as int == v0 && c.version.end as int == v1 - 1);
    assert(c.status.start as int == c0 && c.status.end as int == c1);
    assert(c.body_bytes_sent.start as int == b0 && c.body_bytes_sent.end as int == b1);
    assert(c.referer.start as int == f0 && c.referer.end as int == f1);
    assert(c.user_agent.start as int == g0 && c.user_agent.end as int == g1);
    assert(c.host.start as int == h0 && c.host.end as int == h1);
}

} // verus!
