//! Turning a batch of raw lines into the records to store, and reporting on the write.
//!
//! Storing is the caller's: it writes [`PreparedBatch::records`] in one transaction when
//! [`PreparedBatch::needs_write`] says so, and hands the outcome to [`PreparedBatch::report`].
use vstd::prelude::*;
use crate::models::{LogView, NewLog};
use crate::parser::{line_view, parse_line, parse_nginx_line, ParseError, ParseErrorView};
use crate::text::{trim, trimmed};

verus! {

/// `a` is one of the filtered addresses.
pub open spec fn in_filter(ips: Seq<String>, a: Seq<char>) -> bool {
    exists|i: int| 0 <= i < ips.len() && #[trigger] ips[i]@ == a
}

/// A record from a filtered address, which is not stored.
pub open spec fn is_filtered(ips: Seq<String>, r: LogView) -> bool {
    match r.remote_addr {
        Some(a) => in_filter(ips, a),
        None => false,
    }
}

/// How one raw line reads: it is trimmed, then parsed.
pub open spec fn line_outcome(l: Seq<char>) -> Result<LogView, ParseErrorView> {
    parse_line(trimmed(l))
}

/// The records of `lines` to store, in order: those that parse and are not filtered.
pub open spec fn kept_records(lines: Seq<String>, ips: Seq<String>) -> Seq<LogView>
    decreases lines.len(),
{
    if lines.len() == 0 {
        Seq::empty()
    } else {
        let rest = kept_records(lines.drop_last(), ips);
        match line_outcome(lines.last()@) {
            Ok(r) => if is_filtered(ips, r) {
                rest
            } else {
                rest.push(r)
            },
            Err(_) => rest,
        }
    }
}

/// The errors of the lines of `lines` that do not parse, in order.
pub open spec fn line_errors(lines: Seq<String>) -> Seq<ParseErrorView>
    decreases lines.len(),
{
    if lines.len() == 0 {
        Seq::empty()
    } else {
        let rest = line_errors(lines.drop_last());
        match line_outcome(lines.last()@) {
            Ok(_) => rest,
            Err(e) => rest.push(e),
        }
    }
}

/// The number of lines of `lines` that parse but come from a filtered address.
pub open spec fn filtered_count(lines: Seq<String>, ips: Seq<String>) -> nat
    decreases lines.len(),
{
    if lines.len() == 0 {
        0
    } else {
        let rest = filtered_count(lines.drop_last(), ips);
        match line_outcome(lines.last()@) {
            Ok(r) => if is_filtered(ips, r) {
                rest + 1
            } else {
                rest
            },
            Err(_) => rest,
        }
    }
}

pub open spec fn records_view(v: Seq<NewLog>) -> Seq<LogView> {
    v.map_values(|r: NewLog| r@)
}

pub open spec fn errors_view(v: Seq<ParseError>) -> Seq<ParseErrorView> {
    v.map_values(|e: ParseError| e@)
}

/// A batch once parsed and filtered, before it is stored.
pub struct PreparedBatch {
    /// The records to store, in the order of their lines.
    pub records: Vec<NewLog>,
    /// The lines that did not parse, in order; each is logged, then dropped.
    pub errors: Vec<ParseError>,
    /// The number of lines in the batch.
    pub attempted: usize,
    /// The number of lines that parsed but came from a filtered address.
    pub filtered: usize,
}

/// What became of one batch.
#[derive(Debug, PartialEq, Eq, Clone, Copy)]
pub struct PersistReport {
    /// The number of lines in the batch.
    pub attempted: usize,
    /// The number of records committed.
    pub succeeded: usize,
    /// The wall time that parsing and storing took, in microseconds.
    pub duration_us: i64,
}

/// Whether `a` is one of `ips`.
fn contains_ip(ips: &Vec<String>, a: &String) -> (r: bool)
    ensures
        r == in_filter(ips@, a@),
{
    let mut i: usize = 0;
    while i < ips.len()
        invariant
            i <= ips@.len(),
            forall|j: int| 0 <= j < i ==> ips@[j]@ != a@,
        decreases ips@.len() - i,
    {
        if ips[i] == *a {
            assert(ips@[i as int]@ == a@);
            return true;
        }
        i = i + 1;
    }
    false
}

/// Whether the address of `log` is one of `ips`.
pub fn filtered_out(ips: &Vec<String>, log: &NewLog) -> (r: bool)
    ensures
        r == is_filtered(ips@, log@),
{
    match &log.remote_addr {
        None => false,
        Some(a) => contains_ip(ips, a),
    }
}

/// Parses every line of a batch (each trimmed first) and drops the records whose address is
/// filtered. A line that does not parse goes to `errors` and the rest of the batch goes on.
pub fn prepare_batch(lines: &[String], ips: &Vec<String>) -> (r: PreparedBatch)
    ensures
        r.attempted == lines@.len(),
        records_view(r.records@) == kept_records(lines@, ips@),
        errors_view(r.errors@) == line_errors(lines@),
        r.filtered == filtered_count(lines@, ips@),
{
    let mut records: Vec<NewLog> = Vec::new();
    let mut errors: Vec<ParseError> = Vec::new();
    let mut filtered: usize = 0;
    let mut i: usize = 0;
    while i < lines.len()
        invariant
            i <= lines@.len(),
            records_view(records@) == kept_records(lines@.take(i as int), ips@),
            errors_view(errors@) == line_errors(lines@.take(i as int)),
            filtered == filtered_count(lines@.take(i as int), ips@),
            filtered <= i,
        decreases lines@.len() - i,
    {
        let ghost pre = lines@.take(i as int);
        let ghost next = lines@.take(i + 1);
        assert(next.drop_last() == pre);
        assert(next.last() == lines@[i as int]);
        let line = trim(lines[i].as_str());
        let r = parse_nginx_line(line.as_str());
        match r {
            Ok(log) => {
                if filtered_out(ips, &log) {
                    filtered = filtered + 1;
                } else {
                    let ghost old_records = records@;
                    records.push(log);
                    assert(records_view(records@) == records_view(old_records).push(log@));
                }
            },
            Err(e) => {
                let ghost old_errors = errors@;
                errors.push(e);
                assert(errors_view(errors@) == errors_view(old_errors).push(e@));
            },
        }
        i = i + 1;
    }
    assert(lines@.take(lines@.len() as int) == lines@);
    PreparedBatch { records, errors, attempted: lines.len(), filtered }
}

impl PreparedBatch {
    /// A storage transaction is owed only when some record is left to store.
    pub fn needs_write(&self) -> (r: bool)
        ensures
            r == (self.records@.len() > 0),
    {
        self.records.len() > 0
    }

    /// The report once the records were written (`written`) or the transaction failed, which
    /// loses the whole batch.
    pub fn report(&self, written: bool, duration_us: i64) -> (r: PersistReport)
        ensures
            r.attempted == self.attempted,
            r.succeeded == (if written { self.records@.len() } else { 0 }),
            r.duration_us == duration_us,
    {
        PersistReport {
            attempted: self.attempted,
            succeeded: if written { self.records.len() } else { 0 },
            duration_us,
        }
    }
}

/// A line that does not parse is dropped on its own: next to a line that parses and is not
/// filtered, the batch keeps exactly that line's record and reports exactly the one error.
pub proof fn lemma_bad_line_dropped_alone(bad: String, good: String, ips: Seq<String>)
    requires
        line_outcome(bad@) is Err,
        line_outcome(good@) is Ok,
        !is_filtered(ips, line_outcome(good@)->Ok_0),
    ensures
        kept_records(seq![bad, good], ips) == seq![line_outcome(good@)->Ok_0],
        line_errors(seq![bad, good]) == seq![line_outcome(bad@)->Err_0],
        filtered_count(seq![bad, good], ips) == 0,
{
    let lines = seq![bad, good];
    assert(lines.last() == good);
    assert(seq![bad].last() == bad);
    assert(lines.drop_last() =~= seq![bad]);
    assert(seq![bad].drop_last() =~= Seq::<String>::empty());
    assert(kept_records(Seq::<String>::empty(), ips) == Seq::<LogView>::empty());
    assert(line_errors(Seq::<String>::empty()) == Seq::<ParseErrorView>::empty());
    assert(filtered_count(Seq::<String>::empty(), ips) == 0);
    assert(kept_records(seq![bad], ips) =~= Seq::<LogView>::empty());
    assert(line_errors(seq![bad]) =~= seq![line_outcome(bad@)->Err_0]);
    assert(kept_records(lines, ips) =~= seq![line_outcome(good@)->Ok_0]);
    assert(line_errors(lines) =~= seq![line_outcome(bad@)->Err_0]);
    assert(filtered_count(seq![bad], ips) == 0);
}

/// A line that parses but comes from a filtered address counts among the lines of its batch,
/// yet adds no record to store.
pub proof fn lemma_filtered_line_not_stored(lines: Seq<String>, line: String, ips: Seq<String>)
    requires
        line_outcome(line@) is Ok,
        is_filtered(ips, line_outcome(line@)->Ok_0),
    ensures
        lines.push(line).len() == lines.len() + 1,
        kept_records(lines.push(line), ips) == kept_records(lines, ips),
        line_errors(lines.push(line)) == line_errors(lines),
        filtered_count(lines.push(line), ips) == filtered_count(lines, ips) + 1,
{
    assert(lines.push(line).drop_last() =~= lines);
}

/// No stored record comes from a filtered address.
pub proof fn lemma_kept_records_unfiltered(lines: Seq<String>, ips: Seq<String>)
    ensures
        forall|i: int|
            0 <= i < kept_records(lines, ips).len() ==> !is_filtered(
                ips,
                #[trigger] kept_records(lines, ips)[i],
            ),
    decreases lines.len(),
{
    if lines.len() > 0 {
        let rest = kept_records(lines.drop_last(), ips);
        lemma_kept_records_unfiltered(lines.drop_last(), ips);
        let all = kept_records(lines, ips);
        assert forall|i: int| 0 <= i < all.len() implies !is_filtered(ips, #[trigger] all[i]) by {
            if i < rest.len() {
                assert(all[i] == rest[i]);
            }
        }
    }
}

} // verus!
