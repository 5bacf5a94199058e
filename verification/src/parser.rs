//! Record parsers for plain-text, JSON Lines and CSV logs. A record is one
//! line: from its start offset through its line feed (or the end of the
//! data); its text is the decoded line without trailing white space.

use vstd::prelude::*;
use crate::decode::{bytes_to_string, decodable_len, decoded_text};
use crate::domain::{ByteRange, FieldValue, LogRecord, RecordView, SourceId, fields_view};
use crate::scan::{lemma_next_lf_found, lemma_next_lf_none, lf, line_end, next_lf};
use crate::text::{
    chars_of, is_white_space, trim_end_seq, trim_end_string, trim_seq, trim_start_seq, trim_string,
};

verus! {

/// Every line of `d` (from any position to the end of its line) is short
/// enough to decode.
pub open spec fn lines_decodable(d: Seq<u8>) -> bool {
    forall|i: int| 0 <= i < d.len() ==> decodable_len(#[trigger] line_end(d, i) - i)
}

/// A parser for the records of one log source.
pub trait LogParser: Send + Sync {
    fn parse_record(&self, mmap: &[u8], offset: u64) -> Option<LogRecord>
        requires
            lines_decodable(mmap@),
    ;

    fn next_record_offset(&self, mmap: &[u8], current: u64) -> Option<u64>;

    fn field_names(&self) -> Vec<String>;
}

/// The text of the record starting at `offset`.
pub open spec fn record_raw(d: Seq<u8>, offset: int) -> Seq<char> {
    trim_end_seq(decoded_text(d.subrange(offset, line_end(d, offset))))
}

/// Removing trailing white space keeps a prefix of the text, cuts only white
/// space, and leaves no white space at the end.
proof fn lemma_trim_end_cuts_trailing_space(s: Seq<char>)
    ensures
        trim_end_seq(s).len() <= s.len(),
        trim_end_seq(s) == s.subrange(0, trim_end_seq(s).len() as int),
        forall|j: int| trim_end_seq(s).len() <= j < s.len() ==> is_white_space(#[trigger] s[j]),
        trim_end_seq(s).len() == 0 || !is_white_space(trim_end_seq(s).last()),
    decreases s.len(),
{
    if s.len() > 0 && is_white_space(s.last()) {
        lemma_trim_end_cuts_trailing_space(s.drop_last());
        let t = trim_end_seq(s.drop_last());
        assert(s.drop_last().subrange(0, t.len() as int) =~= s.subrange(0, t.len() as int));
        assert forall|j: int| t.len() <= j < s.len() implies is_white_space(#[trigger] s[j]) by {
            if j < s.len() - 1 {
                assert(s[j] == s.drop_last()[j]);
            }
        }
    } else {
        assert(s.subrange(0, s.len() as int) =~= s);
    }
}

/// A record's text is its decoded line without the trailing white space:
/// it starts where the line starts (leading white space included), and
/// what follows it in the line is white space only, while the record's
/// text itself does not end in white space.
pub proof fn law_record_keeps_line_start(d: Seq<u8>, offset: int)
    ensures
        record_raw(d, offset).len() <= decoded_text(d.subrange(offset, line_end(d, offset))).len(),
        record_raw(d, offset) == decoded_text(d.subrange(offset, line_end(d, offset))).subrange(
            0,
            record_raw(d, offset).len() as int,
        ),
        forall|j: int|
            record_raw(d, offset).len() <= j < decoded_text(
                d.subrange(offset, line_end(d, offset)),
            ).len() ==> is_white_space(
                #[trigger] decoded_text(d.subrange(offset, line_end(d, offset)))[j],
            ),
        record_raw(d, offset).len() == 0 || !is_white_space(record_raw(d, offset).last()),
{
    lemma_trim_end_cuts_trailing_space(decoded_text(d.subrange(offset, line_end(d, offset))));
}

/// Where the record after the one at `current` starts: just after the next
/// line feed, if `current` is inside the data and a line feed follows.
pub open spec fn next_offset(d: Seq<u8>, current: u64) -> Option<u64> {
    if current >= d.len() {
        None
    } else {
        match next_lf(d, current as int) {
            Some(p) => Some((p + 1) as u64),
            None => None,
        }
    }
}

/// The record at `offset` with the given fields, if `offset` is inside the
/// data.
pub open spec fn record_with_fields(
    id: Seq<char>,
    d: Seq<u8>,
    offset: u64,
    fields: Seq<(Seq<char>, Seq<char>)>,
) -> RecordView {
    RecordView {
        source_id: id,
        raw: record_raw(d, offset as int),
        fields: fields,
        byte_range: ByteRange { start: offset, end: line_end(d, offset as int) as u64 },
    }
}

/// The position of the first line feed at or after `start`, and the end of
/// the record starting there.
fn find_line_end(mmap: &[u8], start: usize) -> (r: (Option<usize>, usize))
    requires
        start < mmap@.len(),
    ensures
        r.0 == match next_lf(mmap@, start as int) {
            Some(p) => Some(p as usize),
            None => None::<usize>,
        },
        r.1 == line_end(mmap@, start as int),
        start < r.1 <= mmap@.len(),
        r.0 matches Some(p) ==> start <= p < mmap@.len(),
{
    let rest = &mmap[start..mmap.len()];
    match memchr::memchr(10u8, rest) {
        Some(p) => {
            proof {
                assert forall|j: int| start <= j < start + p implies mmap@[j] != lf() by {
                    assert(rest@[j - start] == mmap@[j]);
                }
                assert(mmap@[start + p] == rest@[p as int]);
                lemma_next_lf_found(mmap@, start as int, start + p);
            }
            (Some(start + p), start + p + 1)
        },
        None => {
            proof {
                assert forall|j: int| start <= j < mmap@.len() implies mmap@[j] != lf() by {
                    assert(rest@[j - start] == mmap@[j]);
                }
                lemma_next_lf_none(mmap@, start as int);
            }
            (None, mmap.len())
        },
    }
}

/// The text and end offset of the record starting at `offset`.
fn record_text(mmap: &[u8], offset: u64) -> (r: (String, u64))
    requires
        offset < mmap@.len(),
        lines_decodable(mmap@),
    ensures
        r.0@ == record_raw(mmap@, offset as int),
        r.1 == line_end(mmap@, offset as int),
{
    let len = mmap.len();
    assert(offset < len);
    let start = offset as usize;
    let (_, end) = find_line_end(mmap, start);
    assert(decodable_len(line_end(mmap@, start as int) - start));
    let text = bytes_to_string(&mmap[start..end]);
    let chars = chars_of(text.as_str());
    (trim_end_string(&chars), end as u64)
}

/// Shared by all formats: where the next record starts.
fn next_record_start(mmap: &[u8], current: u64) -> (r: Option<u64>)
    ensures
        r == next_offset(mmap@, current),
{
    if current >= mmap.len() as u64 {
        return None;
    }
    let (found, _) = find_line_end(mmap, current as usize);
    match found {
        Some(p) => Some(p as u64 + 1),
        None => None,
    }
}

/// Parser for plain-text logs: records have no fields.
pub struct TextParser {
    source_id: SourceId,
}

impl View for TextParser {
    type V = Seq<char>;

    closed spec fn view(&self) -> Seq<char> {
        self.source_id@
    }
}

impl TextParser {
    pub fn new(source_id: SourceId) -> (p: Self)
        ensures
            p@ == source_id@,
    {
        Self { source_id }
    }
}

/// The record a text parser reads at `offset`.
pub open spec fn text_record(id: Seq<char>, d: Seq<u8>, offset: u64) -> Option<RecordView> {
    if offset >= d.len() {
        None
    } else {
        Some(record_with_fields(id, d, offset, Seq::empty()))
    }
}

impl LogParser for TextParser {
    fn parse_record(&self, mmap: &[u8], offset: u64) -> (r: Option<LogRecord>)
        ensures
            r matches Some(rec) ==> text_record(self@, mmap@, offset) == Some(rec@),
            r is None <==> text_record(self@, mmap@, offset) is None,
    {
        if offset >= mmap.len() as u64 {
            return None;
        }
        let (raw, end) = record_text(mmap, offset);
        let fields: Vec<FieldValue> = Vec::new();
        let rec = LogRecord {
            source_id: self.source_id.clone(),
            raw,
            fields,
            byte_range: ByteRange { start: offset, end },
        };
        assert(rec@.fields =~= Seq::<(Seq<char>, Seq<char>)>::empty());
        Some(rec)
    }

    fn next_record_offset(&self, mmap: &[u8], current: u64) -> (r: Option<u64>)
        ensures
            r == next_offset(mmap@, current),
    {
        next_record_start(mmap, current)
    }

    fn field_names(&self) -> (names: Vec<String>)
        ensures
            names@.len() == 0,
    {
        Vec::new()
    }
}

/// What serde_json makes of a line: `Some(entries)` when the text is a JSON
/// object (its members, each value as the string itself for a JSON string
/// and as compact JSON text otherwise), `None` otherwise.
pub uninterp spec fn json_object_entries(text: Seq<char>) -> Option<Seq<(Seq<char>, Seq<char>)>>;

/// `serde_json::from_str::<Value>`, and for an object its members in map
/// order with string values unquoted and other values rendered by
/// `Value`'s `Display`.
#[verifier::external_body]
fn json_object_fields(text: &str) -> (r: Option<Vec<(String, String)>>)
    ensures
        r.deep_view() == json_object_entries(text@),
{
    match serde_json::from_str::<serde_json::Value>(text) {
        Ok(serde_json::Value::Object(m)) => Some(
            m.into_iter().map(|(k, v)| match v {
                serde_json::Value::String(s) => (k, s),
                other => (k, other.to_string()),
            }).collect(),
        ),
        _ => None,
    }
}

/// Parser for JSON Lines logs: a line that is a JSON object gives one field
/// per member.
pub struct JsonlParser {
    source_id: SourceId,
}

impl View for JsonlParser {
    type V = Seq<char>;

    closed spec fn view(&self) -> Seq<char> {
        self.source_id@
    }
}

impl JsonlParser {
    pub fn new(source_id: SourceId) -> (p: Self)
        ensures
            p@ == source_id@,
    {
        Self { source_id }
    }
}

/// The record a JSON Lines parser reads at `offset`.
pub open spec fn jsonl_record(id: Seq<char>, d: Seq<u8>, offset: u64) -> Option<RecordView> {
    if offset >= d.len() {
        None
    } else {
        let fields = match json_object_entries(record_raw(d, offset as int)) {
            Some(entries) => entries,
            None => Seq::empty(),
        };
        Some(record_with_fields(id, d, offset, fields))
    }
}

impl LogParser for JsonlParser {
    fn parse_record(&self, mmap: &[u8], offset: u64) -> (r: Option<LogRecord>)
        ensures
            r matches Some(rec) ==> jsonl_record(self@, mmap@, offset) == Some(rec@),
            r is None <==> jsonl_record(self@, mmap@, offset) is None,
    {
        if offset >= mmap.len() as u64 {
            return None;
        }
        let (raw, end) = record_text(mmap, offset);
        let mut fields: Vec<FieldValue> = Vec::new();
        let entries = json_object_fields(raw.as_str());
        let ghost expected = match json_object_entries(raw@) {
            Some(e) => e,
            None => Seq::empty(),
        };
        match entries {
            Some(pairs) => {
                let mut i: usize = 0;
                while i < pairs.len()
                    invariant
                        i <= pairs@.len(),
                        pairs.deep_view() == expected,
                        expected.len() == pairs@.len(),
                        fields@.len() == i,
                        fields_view(fields@) == expected.take(i as int),
                    decreases pairs@.len() - i,
                {
                    let f = FieldValue { key: pairs[i].0.clone(), value: pairs[i].1.clone() };
                    let ghost before = fields@;
                    proof {
                        assert(pairs.deep_view()[i as int] == pairs@[i as int].deep_view());
                        assert(f@ == expected[i as int]);
                    }
                    fields.push(f);
                    i = i + 1;
                    assert forall|j: int| 0 <= j < i implies fields_view(fields@)[j] == expected.take(
                        i as int,
                    )[j] by {
                        if j < i - 1 {
                            assert(fields@[j] == before[j]);
                            assert(fields_view(before)[j] == expected.take(i - 1)[j]);
                        }
                    }
                    assert(fields_view(fields@) =~= expected.take(i as int));
                }
                assert(expected.take(i as int) =~= expected);
            },
            None => {
                assert(fields_view(fields@) =~= expected);
            },
        }
        Some(
            LogRecord {
                source_id: self.source_id.clone(),
                raw,
                fields,
                byte_range: ByteRange { start: offset, end },
            },
        )
    }

    fn next_record_offset(&self, mmap: &[u8], current: u64) -> (r: Option<u64>)
        ensures
            r == next_offset(mmap@, current),
    {
        next_record_start(mmap, current)
    }

    fn field_names(&self) -> (names: Vec<String>)
        ensures
            names@.len() == 0,
    {
        Vec::new()
    }
}

/// Splitting a CSV line, from character `i` on, with the fields found so
/// far, the current field and whether a quoted section is open: a comma
/// outside quotes ends a field; a quote opens or closes a quoted section,
/// and two quotes inside one stand for a quote; a carriage return or line
/// feed ends the line; each field is trimmed of white space.
pub open spec fn csv_scan(
    line: Seq<char>,
    i: int,
    fields: Seq<Seq<char>>,
    cur: Seq<char>,
    in_quotes: bool,
) -> Seq<Seq<char>>
    decreases line.len() - i,
{
    if i < 0 || i >= line.len() {
        fields.push(trim_seq(cur))
    } else {
        let c = line[i];
        if c == '"' {
            if in_quotes {
                if i + 1 < line.len() && line[i + 1] == '"' {
                    csv_scan(line, i + 2, fields, cur.push('"'), true)
                } else {
                    csv_scan(line, i + 1, fields, cur, false)
                }
            } else {
                csv_scan(line, i + 1, fields, cur, true)
            }
        } else if c == ',' && !in_quotes {
            csv_scan(line, i + 1, fields.push(trim_seq(cur)), Seq::empty(), in_quotes)
        } else if c == '\r' || c == '\n' {
            fields.push(trim_seq(cur))
        } else {
            csv_scan(line, i + 1, fields, cur.push(c), in_quotes)
        }
    }
}

/// The fields of a CSV line.
pub open spec fn csv_fields(line: Seq<char>) -> Seq<Seq<char>> {
    csv_scan(line, 0, Seq::empty(), Seq::empty(), false)
}

/// The number of quote characters in `line[0..i]`.
pub open spec fn quotes_before(line: Seq<char>, i: int) -> nat
    decreases i,
{
    if i <= 0 || i > line.len() {
        0
    } else {
        quotes_before(line, i - 1) + if line[i - 1] == '"' {
            1nat
        } else {
            0nat
        }
    }
}

/// The commas from position `i` on, before the first carriage return or line
/// feed, that stand outside quotes (after an even number of quote
/// characters).
pub open spec fn unquoted_commas_from(line: Seq<char>, i: int) -> nat
    decreases line.len() - i,
{
    if i < 0 || i >= line.len() || line[i] == '\r' || line[i] == '\n' {
        0
    } else {
        unquoted_commas_from(line, i + 1) + if line[i] == ',' && quotes_before(line, i) % 2 == 0 {
            1nat
        } else {
            0nat
        }
    }
}

/// Whether a text has no white space at either end.
pub open spec fn is_trimmed(s: Seq<char>) -> bool {
    trim_seq(s) == s
}

proof fn lemma_trim_end_shape(s: Seq<char>)
    ensures
        trim_end_seq(s).len() == 0 || !is_white_space(trim_end_seq(s).last()),
    decreases s.len(),
{
    if s.len() > 0 && is_white_space(s.last()) {
        lemma_trim_end_shape(s.drop_last());
    }
}

proof fn lemma_trim_start_shape(s: Seq<char>)
    ensures
        trim_start_seq(s).len() == 0 || !is_white_space(trim_start_seq(s)[0]),
        trim_start_seq(s).len() > 0 ==> trim_start_seq(s).last() == s.last(),
    decreases s.len(),
{
    if s.len() > 0 && is_white_space(s[0]) {
        lemma_trim_start_shape(s.drop_first());
    }
}

/// Trimming twice is trimming once.
proof fn lemma_trim_trimmed(s: Seq<char>)
    ensures
        is_trimmed(trim_seq(s)),
{
    let e = trim_end_seq(s);
    let t = trim_start_seq(e);
    lemma_trim_end_shape(s);
    lemma_trim_start_shape(e);
    assert(trim_end_seq(t) == t);
}

/// The scan from position `i` (with `in_quotes` matching the parity of the
/// quotes before it) keeps the fields found so far, adds trimmed fields, and
/// adds one more field than the unquoted commas ahead.
proof fn lemma_csv_scan_fields(
    line: Seq<char>,
    i: int,
    fields: Seq<Seq<char>>,
    cur: Seq<char>,
    in_quotes: bool,
)
    requires
        0 <= i <= line.len(),
        in_quotes == (quotes_before(line, i) % 2 == 1),
    ensures
        csv_scan(line, i, fields, cur, in_quotes).len() == fields.len() + 1 + unquoted_commas_from(
            line,
            i,
        ),
        forall|j: int| 0 <= j < fields.len() ==> #[trigger] csv_scan(line, i, fields, cur, in_quotes)[j]
            == fields[j],
        forall|j: int|
            fields.len() <= j < csv_scan(line, i, fields, cur, in_quotes).len() ==> is_trimmed(
                #[trigger] csv_scan(line, i, fields, cur, in_quotes)[j],
            ),
    decreases line.len() - i,
{
    lemma_trim_trimmed(cur);
    if i < line.len() {
        let c = line[i];
        assert(quotes_before(line, i + 1) == quotes_before(line, i) + if c == '"' {
            1nat
        } else {
            0nat
        });
        if c == '"' {
            if in_quotes {
                if i + 1 < line.len() && line[i + 1] == '"' {
                    assert(quotes_before(line, i + 2) == quotes_before(line, i + 1) + 1);
                    lemma_csv_scan_fields(line, i + 2, fields, cur.push('"'), true);
                } else {
                    lemma_csv_scan_fields(line, i + 1, fields, cur, false);
                }
            } else {
                lemma_csv_scan_fields(line, i + 1, fields, cur, true);
            }
        } else if c == ',' && !in_quotes {
            lemma_csv_scan_fields(line, i + 1, fields.push(trim_seq(cur)), Seq::empty(), in_quotes);
        } else if c == '\r' || c == '\n' {
        } else {
            lemma_csv_scan_fields(line, i + 1, fields, cur.push(c), in_quotes);
        }
    }
}

/// A CSV line gives one more field than it has commas outside quotes
/// (before any carriage return or line feed), so never none, and every
/// field has no white space at either end.
pub proof fn law_csv_fields(line: Seq<char>)
    ensures
        csv_fields(line).len() == 1 + unquoted_commas_from(line, 0),
        forall|j: int| 0 <= j < csv_fields(line).len() ==> is_trimmed(#[trigger] csv_fields(line)[j]),
{
    lemma_csv_scan_fields(line, 0, Seq::empty(), Seq::empty(), false);
}

/// The texts of a vector of strings.
pub open spec fn strings_view(v: Seq<String>) -> Seq<Seq<char>> {
    v.map_values(|s: String| s@)
}

proof fn lemma_strings_view_push(v: Seq<String>, s: String)
    ensures
        strings_view(v.push(s)) == strings_view(v).push(s@),
{
    assert(strings_view(v.push(s)) =~= strings_view(v).push(s@));
}

/// Split a CSV line into its (trimmed) fields.
pub fn parse_csv_line(line: &str) -> (r: Vec<String>)
    ensures
        strings_view(r@) == csv_fields(line@),
{
    let chars = chars_of(line);
    let mut fields: Vec<String> = Vec::new();
    let mut current: Vec<char> = Vec::new();
    let mut in_quotes = false;
    let mut i: usize = 0;
    assert(strings_view(fields@) =~= Seq::<Seq<char>>::empty());
    while i < chars.len()
        invariant
            chars@ == line@,
            i <= chars@.len(),
            csv_scan(line@, i as int, strings_view(fields@), current@, in_quotes) == csv_fields(
                line@,
            ),
        decreases chars@.len() - i,
    {
        let c = chars[i];
        if c == '"' {
            if in_quotes {
                if i + 1 < chars.len() && chars[i + 1] == '"' {
                    current.push('"');
                    i = i + 2;
                } else {
                    in_quotes = false;
                    i = i + 1;
                }
            } else {
                in_quotes = true;
                i = i + 1;
            }
        } else if c == ',' && !in_quotes {
            let field = trim_string(&current);
            proof {
                lemma_strings_view_push(fields@, field);
            }
            fields.push(field);
            current = Vec::new();
            assert(current@ =~= Seq::<char>::empty());
            i = i + 1;
        } else if c == '\r' || c == '\n' {
            i = chars.len();
        } else {
            current.push(c);
            i = i + 1;
        }
    }
    let field = trim_string(&current);
    proof {
        lemma_strings_view_push(fields@, field);
    }
    fields.push(field);
    fields
}

/// The fields of a CSV record: header names paired with values, as many as
/// the shorter of the two lists.
pub open spec fn zip_fields(headers: Seq<Seq<char>>, values: Seq<Seq<char>>) -> Seq<
    (Seq<char>, Seq<char>),
> {
    Seq::new(
        if headers.len() < values.len() {
            headers.len()
        } else {
            values.len()
        },
        |i: int| (headers[i], values[i]),
    )
}

/// Parser for CSV logs: each value of a line is paired with the header at
/// the same position.
pub struct CsvParser {
    source_id: SourceId,
    headers: Vec<String>,
}

impl View for CsvParser {
    type V = (Seq<char>, Seq<Seq<char>>);

    closed spec fn view(&self) -> (Seq<char>, Seq<Seq<char>>) {
        (self.source_id@, strings_view(self.headers@))
    }
}

/// A copy of a list of strings.
pub fn clone_strings(v: &Vec<String>) -> (r: Vec<String>)
    ensures
        strings_view(r@) == strings_view(v@),
{
    let mut r: Vec<String> = Vec::new();
    let mut i: usize = 0;
    while i < v.len()
        invariant
            i <= v@.len(),
            strings_view(r@) == strings_view(v@.take(i as int)),
        decreases v@.len() - i,
    {
        let s = v[i].clone();
        proof {
            lemma_strings_view_push(r@, s);
            assert(v@.take(i + 1) =~= v@.take(i as int).push(v@[i as int]));
            lemma_strings_view_push(v@.take(i as int), v@[i as int]);
        }
        r.push(s);
        i = i + 1;
    }
    assert(v@.take(i as int) =~= v@);
    r
}

impl CsvParser {
    pub fn new(source_id: SourceId) -> (p: Self)
        ensures
            p@.0 == source_id@,
            p@.1.len() == 0,
    {
        Self { source_id, headers: Vec::new() }
    }

    pub fn with_headers(source_id: SourceId, headers: Vec<String>) -> (p: Self)
        ensures
            p@ == (source_id@, strings_view(headers@)),
    {
        Self { source_id, headers }
    }
}

/// The record a CSV parser reads at `offset`.
pub open spec fn csv_record(
    id: Seq<char>,
    headers: Seq<Seq<char>>,
    d: Seq<u8>,
    offset: u64,
) -> Option<RecordView> {
    if offset >= d.len() {
        None
    } else {
        Some(
            record_with_fields(
                id,
                d,
                offset,
                zip_fields(headers, csv_fields(record_raw(d, offset as int))),
            ),
        )
    }
}

impl LogParser for CsvParser {
    fn parse_record(&self, mmap: &[u8], offset: u64) -> (r: Option<LogRecord>)
        ensures
            r matches Some(rec) ==> csv_record(self@.0, self@.1, mmap@, offset) == Some(rec@),
            r is None <==> csv_record(self@.0, self@.1, mmap@, offset) is None,
    {
        if offset >= mmap.len() as u64 {
            return None;
        }
        let (raw, end) = record_text(mmap, offset);
        let values = parse_csv_line(raw.as_str());
        let ghost expected = zip_fields(strings_view(self.headers@), strings_view(values@));
        let n = if self.headers.len() < values.len() {
            self.headers.len()
        } else {
            values.len()
        };
        let mut fields: Vec<FieldValue> = Vec::new();
        let mut i: usize = 0;
        while i < n
            invariant
                n == expected.len(),
                n <= self.headers@.len(),
                n <= values@.len(),
                expected == zip_fields(strings_view(self.headers@), strings_view(values@)),
                i <= n,
                fields@.len() == i,
                fields_view(fields@) == expected.take(i as int),
            decreases n - i,
        {
            let f = FieldValue { key: self.headers[i].clone(), value: values[i].clone() };
            let ghost before = fields@;
            assert(f@ == expected[i as int]);
            fields.push(f);
            i = i + 1;
            assert forall|j: int| 0 <= j < i implies fields_view(fields@)[j] == expected.take(
                i as int,
            )[j] by {
                if j < i - 1 {
                    assert(fields@[j] == before[j]);
                    assert(fields_view(before)[j] == expected.take(i - 1)[j]);
                }
            }
            assert(fields_view(fields@) =~= expected.take(i as int));
        }
        assert(expected.take(i as int) =~= expected);
        Some(
            LogRecord {
                source_id: self.source_id.clone(),
                raw,
                fields,
                byte_range: ByteRange { start: offset, end },
            },
        )
    }

    fn next_record_offset(&self, mmap: &[u8], current: u64) -> (r: Option<u64>)
        ensures
            r == next_offset(mmap@, current),
    {
        next_record_start(mmap, current)
    }

    fn field_names(&self) -> (names: Vec<String>)
        ensures
            strings_view(names@) == self@.1,
    {
        clone_strings(&self.headers)
    }
}

} // verus!
