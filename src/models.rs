//! The records that a log line becomes.
use vstd::prelude::*;
use crate::text::{append_decimal, append_str, decimal};

verus! {

/// A stored access-log row, as read back from the `logs` table.
#[derive(Debug, PartialEq)]
pub struct Log {
    pub epoch: i64,
    pub remote_addr: Option<String>,
    pub remote_user: Option<String>,
    pub status: Option<i32>,
    pub method: Option<String>,
    pub path: Option<String>,
    pub version: Option<String>,
    pub body_bytes_send: Option<i32>,
    pub referer: Option<String>,
    pub user_agent: Option<String>,
    pub host: String,
}

/// One parsed access-log line, ready to be inserted into the `logs` table.
#[derive(Debug, PartialEq, Clone)]
pub struct NewLog {
    pub epoch: i64,
    pub remote_addr: Option<String>,
    pub remote_user: Option<String>,
    pub status: Option<i32>,
    pub method: Option<String>,
    pub path: Option<String>,
    pub version: Option<String>,
    pub body_bytes_sent: Option<i32>,
    pub referer: Option<String>,
    pub user_agent: Option<String>,
    pub host: String,
}

/// The mathematical content of a [`NewLog`]: its text fields as character sequences.
pub struct LogView {
    pub epoch: i64,
    pub remote_addr: Option<Seq<char>>,
    pub remote_user: Option<Seq<char>>,
    pub status: Option<i32>,
    pub method: Option<Seq<char>>,
    pub path: Option<Seq<char>>,
    pub version: Option<Seq<char>>,
    pub body_bytes_sent: Option<i32>,
    pub referer: Option<Seq<char>>,
    pub user_agent: Option<Seq<char>>,
    pub host: Seq<char>,
}

pub open spec fn opt_view(o: Option<String>) -> Option<Seq<char>> {
    match o {
        Some(s) => Some(s@),
        None => None,
    }
}

impl View for NewLog {
    type V = LogView;

    open spec fn view(&self) -> LogView {
        LogView {
            epoch: self.epoch,
            remote_addr: opt_view(self.remote_addr),
            remote_user: opt_view(self.remote_user),
            status: self.status,
            method: opt_view(self.method),
            path: opt_view(self.path),
            version: opt_view(self.version),
            body_bytes_sent: self.body_bytes_sent,
            referer: opt_view(self.referer),
            user_agent: opt_view(self.user_agent),
            host: self.host@,
        }
    }
}

/// A text field as shown, with `NA` for an absent one.
pub open spec fn shown(o: Option<Seq<char>>) -> Seq<char> {
    match o {
        Some(t) => t,
        None => "NA"@,
    }
}

/// The one-line text of a record: its fields in table order, separated by single spaces, with
/// `NA` for an absent text field, 200 for an absent status and 0 for an absent size.
pub open spec fn display_text(v: LogView) -> Seq<char> {
    decimal(v.epoch as int) + " "@ + shown(v.remote_addr) + " "@ + shown(v.remote_user) + " "@
        + decimal(
        match v.status {
            Some(n) => n as int,
            None => 200,
        },
    ) + " "@ + shown(v.method) + " "@ + shown(v.path) + " "@ + shown(v.version) + " "@
        + decimal(
        match v.body_bytes_sent {
            Some(n) => n as int,
            None => 0,
        },
    ) + " "@ + shown(v.referer) + " "@ + shown(v.user_agent) + " "@ + v.host
}

fn append_shown(s: &mut String, o: &Option<String>)
    ensures
        final(s)@ == old(s)@ + shown(opt_view(*o)) + " "@,
{
    match o {
        Some(t) => append_str(s, t.as_str()),
        None => append_str(s, "NA"),
    }
    append_str(s, " ");
}

impl NewLog {
    /// The record as one line of text, as the dry run prints it.
    pub fn display(&self) -> (r: String)
        ensures
            r@ == display_text(self@),
    {
        let mut r = String::new();
        append_decimal(&mut r, self.epoch);
        append_str(&mut r, " ");
        append_shown(&mut r, &self.remote_addr);
        append_shown(&mut r, &self.remote_user);
        let status: i64 = match self.status {
            Some(n) => n as i64,
            None => 200,
        };
        append_decimal(&mut r, status);
        append_str(&mut r, " ");
        append_shown(&mut r, &self.method);
        append_shown(&mut r, &self.path);
        append_shown(&mut r, &self.version);
        let size: i64 = match self.body_bytes_sent {
            Some(n) => n as i64,
            None => 0,
        };
        append_decimal(&mut r, size);
        append_str(&mut r, " ");
        append_shown(&mut r, &self.referer);
        append_shown(&mut r, &self.user_agent);
        append_str(&mut r, self.host.as_str());
        assert(r@ =~= display_text(self@));
        r
    }
}

} // verus!
