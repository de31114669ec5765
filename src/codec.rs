//! The headerless CSV codec: each row is `user_agent,response_time,timestamp`
//! with the timestamp optional (an empty third field); a row of fewer than
//! three fields is malformed.

use crate::instant::format_rfc3339;
use crate::instant::parse_rfc3339;
use crate::instant::rfc3339_text;
use crate::instant::parsed_instant;
use crate::instant::parsed_rfc3339;
use crate::instant::Timestamp;
use crate::records::LogResponse;
use crate::records::NewLog;
use vstd::prelude::*;
use vstd::string::StrSliceExecFns;
use vstd::string::StringExecFns;

verus! {

/// What a headerless, comma-separated CSV reader makes of some bytes: each
/// record's fields, or nothing for a record that it could not read.
pub uninterp spec fn csv_records(data: Seq<u8>) -> Seq<Option<Seq<Seq<char>>>>;

/// The fields of a record as text.
pub open spec fn fields_view(fields: Seq<String>) -> Seq<Seq<char>> {
    fields.map_values(|f: String| f@)
}

/// Relies on csv's `Reader` with `has_headers(false)` and default settings
/// otherwise, read through `into_records`: one entry per record, in order,
/// and none for input without bytes.
#[verifier::external_body]
fn read_csv_records(data: &[u8]) -> (r: Vec<Option<Vec<String>>>)
    ensures
        r@.len() == csv_records(data@).len(),
        forall|i: int|
            0 <= i < r@.len() ==> match #[trigger] r@[i] {
                Some(fields) => csv_records(data@)[i] == Some(fields_view(fields@)),
                None => csv_records(data@)[i] is None,
            },
        data@.len() == 0 ==> r@.len() == 0,
{
    let reader = csv::ReaderBuilder::new().has_headers(false).from_reader(data);
    reader
        .into_records()
        .map(|rec| rec.ok().map(|rec| rec.iter().map(String::from).collect()))
        .collect()
}

/// The value of a decimal digit.
pub open spec fn digit_value(c: char) -> int {
    c as int - '0' as int
}

pub open spec fn is_digit(c: char) -> bool {
    '0' <= c <= '9'
}

/// The value of a string of decimal digits, most significant first.
pub open spec fn decimal_value(s: Seq<char>) -> nat
    decreases s.len(),
{
    if s.len() == 0 {
        0
    } else {
        (decimal_value(s.drop_last()) * 10 + digit_value(s.last())) as nat
    }
}

/// A non-empty string of decimal digits.
pub open spec fn all_digits(s: Seq<char>) -> bool {
    s.len() > 0 && forall|i: int| 0 <= i < s.len() ==> is_digit(#[trigger] s[i])
}

/// The digits of a response time: the text without an optional leading `+`.
pub open spec fn unsigned_part(s: Seq<char>) -> Seq<char> {
    if s.len() > 0 && s[0] == '+' {
        s.drop_first()
    } else {
        s
    }
}

/// A response time on the wire: an optional `+` and decimal digits whose
/// value fits in an `i32`. Negative times are refused.
pub open spec fn response_time_of(s: Seq<char>) -> Option<i32> {
    let d = unsigned_part(s);
    if all_digits(d) && decimal_value(d) <= i32::MAX {
        Some(decimal_value(d) as i32)
    } else {
        None
    }
}

proof fn lemma_decimal_value_grows(s: Seq<char>, k: int)
    requires
        0 <= k <= s.len(),
        forall|i: int| 0 <= i < s.len() ==> is_digit(#[trigger] s[i]),
    ensures
        decimal_value(s.subrange(0, k)) <= decimal_value(s),
    decreases s.len() - k,
{
    if k < s.len() {
        lemma_decimal_value_grows(s, k + 1);
        assert(s.subrange(0, k + 1).drop_last() =~= s.subrange(0, k));
    } else {
        assert(s.subrange(0, k) =~= s);
    }
}

/// Parses a response time as `response_time_of` describes it.
pub fn parse_response_time(s: &str) -> (r: Option<i32>)
    ensures
        r == response_time_of(s@),
{
    let n = s.unicode_len();
    let mut i: usize = 0;
    if n > 0 && s.get_char(0) == '+' {
        i = 1;
    }
    let start = i;
    let ghost d = unsigned_part(s@);
    assert(d =~= s@.subrange(start as int, n as int));
    if i == n {
        return None;
    }
    let mut v: u64 = 0;
    while i < n
        invariant
            start <= i <= n,
            n == s@.len(),
            d == s@.subrange(start as int, n as int),
            d == unsigned_part(s@),
            v == decimal_value(s@.subrange(start as int, i as int)),
            v <= i32::MAX,
            forall|j: int| start <= j < i ==> is_digit(#[trigger] s@[j]),
        decreases n - i,
    {
        let c = s.get_char(i);
        assert(d[i - start] == c);
        if c < '0' || c > '9' {
            assert(!all_digits(d));
            return None;
        }
        let ghost next = s@.subrange(start as int, i + 1);
        assert(next.drop_last() =~= s@.subrange(start as int, i as int));
        assert(next.last() == c);
        v = v * 10 + (c as u64 - '0' as u64);
        i = i + 1;
        if v > i32::MAX as u64 {
            proof {
                if all_digits(d) {
                    lemma_decimal_value_grows(d, i - start);
                    assert(d.subrange(0, i - start) =~= next);
                }
            }
            return None;
        }
    }
    assert(d =~= s@.subrange(start as int, i as int));
    Some(v as i32)
}

/// The model of an ingress record: user agent, response time, timestamp.
pub type RowModel = (Seq<char>, i32, Option<Timestamp>);

impl View for NewLog {
    type V = RowModel;

    open spec fn view(&self) -> RowModel {
        (self.user_agent@, self.response_time, self.timestamp)
    }
}

/// The record that the fields of a CSV row stand for, if they are
/// well-formed: a user agent, a response time, and a timestamp that is
/// missing where the third field is empty. Further fields are ignored.
pub open spec fn row_of(fields: Seq<Seq<char>>) -> Option<RowModel> {
    if fields.len() < 3 {
        None
    } else {
        match response_time_of(fields[1]) {
            None => None,
            Some(rt) => if fields[2].len() == 0 {
                Some((fields[0], rt, None))
            } else {
                match parsed_instant(fields[2]) {
                    Some(t) => Some((fields[0], rt, Some(t))),
                    None => None,
                }
            },
        }
    }
}

/// The well-formed rows among some records, in order.
pub open spec fn well_formed_rows(records: Seq<Option<Seq<Seq<char>>>>) -> Seq<RowModel>
    decreases records.len(),
{
    if records.len() == 0 {
        Seq::empty()
    } else {
        let rest = well_formed_rows(records.drop_last());
        match records.last() {
            Some(fields) => match row_of(fields) {
                Some(row) => rest.push(row),
                None => rest,
            },
            None => rest,
        }
    }
}

/// The well-formed rows of a CSV text.
pub open spec fn decoded_rows(data: Seq<u8>) -> Seq<RowModel> {
    well_formed_rows(csv_records(data))
}

/// Whether a row can be stored: its response time is not negative and its
/// timestamp is one that chrono can represent.
pub open spec fn row_acceptable(row: RowModel) -> bool {
    &&& row.1 >= 0
    &&& row.2 matches Some(t) ==> t.wf()
}

/// Decodes the fields of one CSV row.
pub fn decode_row(fields: &Vec<String>) -> (r: Option<NewLog>)
    ensures
        match r {
            Some(log) => row_of(fields_view(fields@)) == Some(log@) && row_acceptable(log@),
            None => row_of(fields_view(fields@)) is None,
        },
{
    let ghost fv = fields_view(fields@);
    if fields.len() < 3 {
        return None;
    }
    assert(fv[1] == fields@[1]@ && fv[2] == fields@[2]@ && fv[0] == fields@[0]@);
    let response_time = match parse_response_time(fields[1].as_str()) {
        Some(rt) => rt,
        None => return None,
    };
    let timestamp = if fields[2].as_str().unicode_len() == 0 {
        None
    } else {
        match parse_rfc3339(fields[2].as_str()) {
            Some(t) => Some(t),
            None => return None,
        }
    };
    Some(NewLog { user_agent: fields[0].clone(), response_time, timestamp })
}

/// The well-formed rows among some records, in order; the others are
/// skipped.
pub fn decode_records(records: &Vec<Option<Vec<String>>>) -> (r: Vec<NewLog>)
    ensures
        r@.map_values(|l: NewLog| l@) == well_formed_rows(records_view(records@)),
        forall|i: int| 0 <= i < r@.len() ==> row_acceptable(#[trigger] r@[i]@),
{
    let mut out: Vec<NewLog> = Vec::new();
    let mut i: usize = 0;
    while i < records.len()
        invariant
            i <= records@.len(),
            out@.map_values(|l: NewLog| l@) == well_formed_rows(
                records_view(records@.subrange(0, i as int)),
            ),
            forall|k: int| 0 <= k < out@.len() ==> row_acceptable(#[trigger] out@[k]@),
        decreases records.len() - i,
    {
        let ghost before = records_view(records@.subrange(0, i as int));
        let ghost after = records_view(records@.subrange(0, i + 1));
        assert(after.drop_last() =~= before);
        match &records[i] {
            Some(fields) => {
                assert(after.last() == Some(fields_view(fields@)));
                match decode_row(fields) {
                    Some(log) => {
                        out.push(log);
                        assert(out@.map_values(|l: NewLog| l@) =~= well_formed_rows(after));
                    },
                    None => {},
                }
            },
            None => {},
        }
        i = i + 1;
    }
    assert(records@.subrange(0, records@.len() as int) =~= records@);
    out
}

/// The records of a reader's output as text.
pub open spec fn records_view(records: Seq<Option<Vec<String>>>) -> Seq<Option<Seq<Seq<char>>>> {
    records.map_values(
        |r: Option<Vec<String>>| match r {
            Some(fields) => Some(fields_view(fields@)),
            None => None,
        },
    )
}

/// Reads a headerless CSV text and keeps its well-formed rows, in order.
/// A text without bytes has no rows.
pub fn decode_csv(data: &[u8]) -> (r: Vec<NewLog>)
    ensures
        r@.map_values(|l: NewLog| l@) == decoded_rows(data@),
        forall|i: int| 0 <= i < r@.len() ==> row_acceptable(#[trigger] r@[i]@),
        data@.len() == 0 ==> decoded_rows(data@).len() == 0,
{
    let records = read_csv_records(data);
    assert(records_view(records@) =~= csv_records(data@));
    let rows = decode_records(&records);
    proof {
        if data@.len() == 0 {
            assert(csv_records(data@).len() == 0);
        }
    }
    rows
}

/// Reads a headerless CSV text and decodes each of its records, in order:
/// the record for a well-formed row, nothing for a malformed one.
pub fn decode_csv_each(data: &[u8]) -> (r: Vec<Option<NewLog>>)
    ensures
        r@.len() == csv_records(data@).len(),
        forall|i: int|
            0 <= i < r@.len() ==> match #[trigger] r@[i] {
                Some(log) => (csv_records(data@)[i] matches Some(f) && row_of(f) == Some(log@))
                    && row_acceptable(log@),
                None => !(csv_records(data@)[i] matches Some(f) && row_of(f) is Some),
            },
{
    let records = read_csv_records(data);
    let mut out: Vec<Option<NewLog>> = Vec::new();
    let mut i: usize = 0;
    while i < records.len()
        invariant
            i <= records@.len(),
            records@.len() == csv_records(data@).len(),
            forall|k: int|
                0 <= k < records@.len() ==> match #[trigger] records@[k] {
                    Some(fields) => csv_records(data@)[k] == Some(fields_view(fields@)),
                    None => csv_records(data@)[k] is None,
                },
            out@.len() == i,
            forall|k: int|
                0 <= k < i ==> match #[trigger] out@[k] {
                    Some(log) => (csv_records(data@)[k] matches Some(f) && row_of(f) == Some(log@))
                        && row_acceptable(log@),
                    None => !(csv_records(data@)[k] matches Some(f) && row_of(f) is Some),
                },
        decreases records.len() - i,
    {
        let decoded = match &records[i] {
            Some(fields) => decode_row(fields),
            None => None,
        };
        out.push(decoded);
        i = i + 1;
    }
    out
}

/// The decimal digit for `d`.
pub open spec fn digit_char(d: nat) -> char {
    if d == 0 { '0' } else if d == 1 { '1' } else if d == 2 { '2' } else if d == 3 { '3' }
    else if d == 4 { '4' } else if d == 5 { '5' } else if d == 6 { '6' } else if d == 7 { '7' }
    else if d == 8 { '8' } else { '9' }
}

/// The shortest decimal text of `n`.
pub open spec fn decimal_digits(n: nat) -> Seq<char>
    decreases n,
{
    if n < 10 {
        seq![digit_char(n)]
    } else {
        decimal_digits(n / 10).push(digit_char(n % 10))
    }
}

fn digit_text(d: u32) -> (r: &'static str)
    requires
        d < 10,
    ensures
        r@ == seq![digit_char(d as nat)],
{
    let r = match d {
        0 => "0",
        1 => "1",
        2 => "2",
        3 => "3",
        4 => "4",
        5 => "5",
        6 => "6",
        7 => "7",
        8 => "8",
        _ => "9",
    };
    proof {
        reveal_strlit("0");
        reveal_strlit("1");
        reveal_strlit("2");
        reveal_strlit("3");
        reveal_strlit("4");
        reveal_strlit("5");
        reveal_strlit("6");
        reveal_strlit("7");
        reveal_strlit("8");
        reveal_strlit("9");
    }
    assert(r@ =~= seq![digit_char(d as nat)]);
    r
}

/// Writes `n` in decimal.
pub fn decimal_text(n: u32) -> (r: String)
    ensures
        r@ == decimal_digits(n as nat),
    decreases n,
{
    if n < 10 {
        String::from_str(digit_text(n))
    } else {
        let mut s = decimal_text(n / 10);
        s.append(digit_text(n % 10));
        assert(s@ =~= decimal_digits(n as nat));
        s
    }
}

/// A response time written in decimal reads back as the same value.
pub proof fn lemma_decimal_round_trip(n: nat)
    requires
        n <= i32::MAX,
    ensures
        response_time_of(decimal_digits(n)) == Some(n as i32),
{
    lemma_decimal_digits_value(n);
    assert(unsigned_part(decimal_digits(n)) == decimal_digits(n));
}

proof fn lemma_decimal_digits_value(n: nat)
    ensures
        all_digits(decimal_digits(n)),
        decimal_value(decimal_digits(n)) == n,
        decimal_digits(n)[0] != '+',
    decreases n,
{
    lemma_digit_char(n % 10);
    if n < 10 {
        let s = decimal_digits(n);
        assert(s.drop_last() =~= Seq::<char>::empty());
        assert(decimal_value(Seq::<char>::empty()) == 0);
    } else {
        lemma_decimal_digits_value(n / 10);
        let s = decimal_digits(n);
        assert(s.drop_last() =~= decimal_digits(n / 10));
        assert(n == (n / 10) * 10 + n % 10);
        assert forall|i: int| 0 <= i < s.len() implies is_digit(#[trigger] s[i]) by {
            if i < s.len() - 1 {
                assert(s[i] == decimal_digits(n / 10)[i]);
            }
        }
    }
}

proof fn lemma_digit_char(d: nat)
    requires
        d < 10,
    ensures
        is_digit(digit_char(d)),
        digit_value(digit_char(d)) == d,
{
}

/// What csv's `Writer` with `has_headers(false)` writes for one record,
/// quoting included.
pub uninterp spec fn csv_line(fields: Seq<Seq<char>>) -> Seq<char>;

/// Relies on csv's `Writer` with `has_headers(false)`: it writes one record
/// as one line. Writing into a `Vec` does not fail, nor does a first record,
/// and the output of UTF-8 fields is UTF-8.
#[verifier::external_body]
fn encode_csv_record(fields: &Vec<String>) -> (r: String)
    ensures
        r@ == csv_line(fields_view(fields@)),
{
    let mut writer = csv::WriterBuilder::new().has_headers(false).from_writer(Vec::new());
    writer.write_record(fields).unwrap();
    String::from_utf8(writer.into_inner().unwrap()).unwrap()
}

/// The fields under which a record goes out as CSV.
pub open spec fn response_fields(l: LogResponse) -> Seq<Seq<char>> {
    seq![
        l.user_agent@,
        decimal_digits(l.response_time as nat),
        rfc3339_text(l.timestamp.secs, l.timestamp.nanos),
    ]
}

/// The headerless CSV text of some records, one line each, in order.
pub open spec fn encoded_csv(logs: Seq<LogResponse>) -> Seq<char>
    decreases logs.len(),
{
    if logs.len() == 0 {
        Seq::empty()
    } else {
        encoded_csv(logs.drop_last()) + csv_line(response_fields(logs.last()))
    }
}

/// Writes some records as headerless CSV.
pub fn encode_csv(logs: &Vec<LogResponse>) -> (r: String)
    requires
        forall|i: int| 0 <= i < logs@.len() ==> (#[trigger] logs@[i]).timestamp.wf(),
    ensures
        r@ == encoded_csv(logs@),
{
    let mut out = String::new();
    let mut i: usize = 0;
    while i < logs.len()
        invariant
            i <= logs@.len(),
            forall|k: int| 0 <= k < logs@.len() ==> (#[trigger] logs@[k]).timestamp.wf(),
            out@ == encoded_csv(logs@.subrange(0, i as int)),
        decreases logs.len() - i,
    {
        let log = &logs[i];
        let mut fields: Vec<String> = Vec::new();
        fields.push(log.user_agent.clone());
        fields.push(decimal_text(log.response_time));
        fields.push(format_rfc3339(log.timestamp));
        assert(fields_view(fields@) =~= response_fields(*log));
        let line = encode_csv_record(&fields);
        out.append(line.as_str());
        assert(logs@.subrange(0, i + 1).drop_last() =~= logs@.subrange(0, i as int));
        i = i + 1;
    }
    assert(logs@.subrange(0, logs@.len() as int) =~= logs@);
    out
}

} // verus!
