//! A log source held in memory: its bytes, its line index, the parser for
//! its format and the fingerprint of the file it was read from.

use vstd::prelude::*;
use crate::domain::{FileFingerprint, LogFormat, LogRecord, RecordView, SourceId};
use crate::index::{LineIndex, RecordIndex, parallel_line_starts};
use crate::parser::{
    CsvParser, JsonlParser, LogParser, TextParser, csv_record, jsonl_record, lines_decodable,
    text_record,
};
use crate::scan::line_starts;

verus! {

/// The parser of a source, by format.
pub enum ParserKind {
    Text(TextParser),
    Jsonl(JsonlParser),
    Csv(CsvParser),
}

/// The parser of a source as a value: its format, source and CSV headers.
pub enum ParserView {
    Text(Seq<char>),
    Jsonl(Seq<char>),
    Csv(Seq<char>, Seq<Seq<char>>),
}

impl View for ParserKind {
    type V = ParserView;

    open spec fn view(&self) -> ParserView {
        match self {
            ParserKind::Text(p) => ParserView::Text(p@),
            ParserKind::Jsonl(p) => ParserView::Jsonl(p@),
            ParserKind::Csv(p) => ParserView::Csv(p@.0, p@.1),
        }
    }
}

/// The record a parser reads at `offset`.
pub open spec fn parser_record(p: ParserView, d: Seq<u8>, offset: u64) -> Option<RecordView> {
    match p {
        ParserView::Text(id) => text_record(id, d, offset),
        ParserView::Jsonl(id) => jsonl_record(id, d, offset),
        ParserView::Csv(id, headers) => csv_record(id, headers, d, offset),
    }
}

impl ParserKind {
    /// The parser for `format` (CSV without headers).
    pub fn for_format(format: LogFormat, source_id: SourceId) -> (p: Self)
        ensures
            p@ == match format {
                LogFormat::Text => ParserView::Text(source_id@),
                LogFormat::Jsonl => ParserView::Jsonl(source_id@),
                LogFormat::Csv => ParserView::Csv(source_id@, Seq::empty()),
            },
    {
        match format {
            LogFormat::Text => ParserKind::Text(TextParser::new(source_id)),
            LogFormat::Jsonl => ParserKind::Jsonl(JsonlParser::new(source_id)),
            LogFormat::Csv => {
                let p = CsvParser::new(source_id);
                assert(p@.1 =~= Seq::<Seq<char>>::empty());
                ParserKind::Csv(p)
            },
        }
    }

    /// The record at `offset` of `data`.
    pub fn parse_record(&self, data: &[u8], offset: u64) -> (r: Option<LogRecord>)
        requires
            lines_decodable(data@),
        ensures
            match r {
                Some(rec) => parser_record(self@, data@, offset) == Some(rec@),
                None => parser_record(self@, data@, offset) is None,
            },
    {
        match self {
            ParserKind::Text(p) => p.parse_record(data, offset),
            ParserKind::Jsonl(p) => p.parse_record(data, offset),
            ParserKind::Csv(p) => p.parse_record(data, offset),
        }
    }
}

/// Files larger than this are indexed in parallel.
pub open spec fn parallel_threshold() -> int {
    4194304int
}

/// The content of a backend.
pub struct BackendView {
    pub path: Seq<char>,
    pub data: Seq<u8>,
    pub offsets: Seq<u64>,
    pub parser: ParserView,
    pub fingerprint: FileFingerprint,
}

/// Record `record_no` of a backend: the parser's record at that record's
/// offset, when the index has such a record.
pub open spec fn backend_record(b: BackendView, record_no: u64) -> Option<RecordView> {
    if (record_no as usize as int) < b.offsets.len() {
        parser_record(b.parser, b.data, b.offsets[record_no as usize as int])
    } else {
        None
    }
}

/// A log source: the bytes of the file, its line index, the parser for its
/// format, and the file's fingerprint when it was read.
pub struct LogBackend {
    path: String,
    data: Vec<u8>,
    index: LineIndex,
    parser: ParserKind,
    fingerprint: FileFingerprint,
}

impl View for LogBackend {
    type V = BackendView;

    closed spec fn view(&self) -> BackendView {
        BackendView {
            path: self.path@,
            data: self.data@,
            offsets: self.index@,
            parser: self.parser@,
            fingerprint: self.fingerprint,
        }
    }
}

impl LogBackend {
    #[verifier::type_invariant]
    spec fn decodable(&self) -> bool {
        lines_decodable(self.data@)
    }

    /// The backend for the file at `path` with contents `data`, read as
    /// `format`, whose fingerprint is `fingerprint`. Its index is `cached`
    /// when a valid cached index was found, else built from the data (in
    /// parallel for data over 4 MiB).
    pub fn from_parts(
        path: String,
        data: Vec<u8>,
        format: LogFormat,
        source_id: SourceId,
        fingerprint: FileFingerprint,
        cached: Option<LineIndex>,
    ) -> (b: Self)
        requires
            lines_decodable(data@),
        ensures
            b@.path == path@,
            b@.data == data@,
            b@.fingerprint == fingerprint,
            b@.offsets == match cached {
                Some(idx) => idx@,
                None => if data@.len() > parallel_threshold() {
                    parallel_line_starts(data@)
                } else {
                    line_starts(data@)
                },
            },
            b@.parser == match format {
                LogFormat::Text => ParserView::Text(source_id@),
                LogFormat::Jsonl => ParserView::Jsonl(source_id@),
                LogFormat::Csv => ParserView::Csv(source_id@, Seq::empty()),
            },
    {
        let index = match cached {
            Some(idx) => idx,
            None => if data.len() > 4 * 1024 * 1024 {
                LineIndex::build_parallel(data.as_slice())
            } else {
                LineIndex::build(data.as_slice())
            },
        };
        let parser = ParserKind::for_format(format, source_id);
        LogBackend { path, data, index, parser, fingerprint }
    }

    /// Record `record_no`, if the index has it and the parser reads one
    /// there.
    pub fn record_at(&self, record_no: u64) -> (r: Option<LogRecord>)
        ensures
            match r {
                Some(rec) => backend_record(self@, record_no) == Some(rec@),
                None => backend_record(self@, record_no) is None,
            },
    {
        proof {
            use_type_invariant(self);
        }
        match self.index.offset_of(record_no) {
            Some(offset) => self.parser.parse_record(self.data.as_slice(), offset),
            None => None,
        }
    }

    /// The number of records in the index.
    pub fn record_count(&self) -> (n: u64)
        ensures
            n == self@.offsets.len(),
            n <= usize::MAX,
    {
        self.index.record_count()
    }

    /// The bytes of the source.
    pub fn raw_bytes(&self) -> (r: &[u8])
        ensures
            r@ == self@.data,
    {
        self.data.as_slice()
    }

    /// The path of the file the source was read from.
    pub fn path(&self) -> (r: &str)
        ensures
            r@ == self@.path,
    {
        self.path.as_str()
    }

    /// The line index.
    pub fn line_index(&self) -> (r: &LineIndex)
        ensures
            r@ == self@.offsets,
    {
        &self.index
    }

    /// The fingerprint of the file when it was read.
    pub fn fingerprint(&self) -> (r: FileFingerprint)
        ensures
            r == self@.fingerprint,
    {
        self.fingerprint
    }

    /// Whether the file must be re-indexed, given its current fingerprint
    /// (`None` when it cannot be read): whenever that differs from the one
    /// recorded.
    pub fn needs_reindex(&self, current: &Option<FileFingerprint>) -> (r: bool)
        ensures
            r == match current {
                Some(c) => *c != self@.fingerprint,
                None => true,
            },
    {
        self.fingerprint.has_changed(current)
    }

    /// Replace the contents with the file's new bytes and fingerprint, and
    /// rebuild the index from them.
    pub fn reload(&mut self, data: Vec<u8>, fingerprint: FileFingerprint)
        requires
            lines_decodable(data@),
        ensures
            final(self)@ == (BackendView {
                data: data@,
                offsets: line_starts(data@),
                fingerprint,
                ..old(self)@
            }),
    {
        let index = LineIndex::build(data.as_slice());
        self.data = data;
        self.fingerprint = fingerprint;
        self.index = index;
    }
}

} // verus!
