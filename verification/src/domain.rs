//! Domain types: sources, formats, byte ranges, records, search hits and
//! file fingerprints.

use vstd::prelude::*;
use crate::text::{str_eq, unicode_lowercase};

verus! {

/// Unique identifier for a log source (the path of the file it was read from).
pub struct SourceId(pub String);

impl View for SourceId {
    type V = Seq<char>;

    open spec fn view(&self) -> Seq<char> {
        self.0@
    }
}

impl Clone for SourceId {
    fn clone(&self) -> (r: Self)
        ensures
            r@ == self@,
    {
        SourceId(self.0.clone())
    }
}

impl SourceId {
    /// The identifier of the source read from the file at `path` (the path
    /// as text).
    pub fn from_path(path: &str) -> (id: Self)
        ensures
            id@ == path@,
    {
        SourceId(path.to_owned())
    }

    /// Whether two identifiers are the same.
    pub fn same_as(&self, other: &SourceId) -> (r: bool)
        ensures
            r == (self@ == other@),
    {
        self.0 == other.0
    }
}

/// Log file format.
#[derive(Debug, Clone, Copy, PartialEq, Eq, Structural)]
pub enum LogFormat {
    Text,
    Jsonl,
    Csv,
}

/// The format named by an already lower-cased file extension.
pub open spec fn format_of_lowercase_extension(ext: Seq<char>) -> Option<LogFormat> {
    if ext == "log"@ || ext == "txt"@ || ext == "out"@ {
        Some(LogFormat::Text)
    } else if ext == "jsonl"@ || ext == "ndjson"@ {
        Some(LogFormat::Jsonl)
    } else if ext == "csv"@ {
        Some(LogFormat::Csv)
    } else {
        None
    }
}

impl LogFormat {
    /// The format for a file extension, compared without regard to case.
    pub fn from_extension(ext: &str) -> (r: Option<Self>)
        ensures
            r == format_of_lowercase_extension(unicode_lowercase(ext@)),
    {
        let lower = ext.to_lowercase();
        let e = lower.as_str();
        if str_eq(e, "log") || str_eq(e, "txt") || str_eq(e, "out") {
            Some(LogFormat::Text)
        } else if str_eq(e, "jsonl") || str_eq(e, "ndjson") {
            Some(LogFormat::Jsonl)
        } else if str_eq(e, "csv") {
            Some(LogFormat::Csv)
        } else {
            None
        }
    }
}

/// The format of a file from its extension (if it has one that is valid
/// text): the format the extension names, or plain text.
pub fn detect_format(ext: Option<&str>) -> (f: LogFormat)
    ensures
        f == match ext {
            Some(e) => match format_of_lowercase_extension(unicode_lowercase(e@)) {
                Some(g) => g,
                None => LogFormat::Text,
            },
            None => LogFormat::Text,
        },
{
    match ext {
        Some(e) => match LogFormat::from_extension(e) {
            Some(g) => g,
            None => LogFormat::Text,
        },
        None => LogFormat::Text,
    }
}

/// Byte range within a file.
#[derive(Debug, Clone, Copy, PartialEq, Eq, Structural)]
pub struct ByteRange {
    pub start: u64,
    pub end: u64,
}

/// A key-value field from structured logs.
pub struct FieldValue {
    pub key: String,
    pub value: String,
}

impl View for FieldValue {
    type V = (Seq<char>, Seq<char>);

    open spec fn view(&self) -> (Seq<char>, Seq<char>) {
        (self.key@, self.value@)
    }
}

impl Clone for FieldValue {
    fn clone(&self) -> (r: Self)
        ensures
            r@ == self@,
    {
        FieldValue { key: self.key.clone(), value: self.value.clone() }
    }
}

/// The fields of a record as (key, value) texts.
pub open spec fn fields_view(fields: Seq<FieldValue>) -> Seq<(Seq<char>, Seq<char>)> {
    fields.map_values(|f: FieldValue| f@)
}

/// The content of a parsed log record.
pub struct RecordView {
    pub source_id: Seq<char>,
    pub raw: Seq<char>,
    pub fields: Seq<(Seq<char>, Seq<char>)>,
    pub byte_range: ByteRange,
}

/// A parsed log record.
pub struct LogRecord {
    pub source_id: SourceId,
    pub raw: String,
    pub fields: Vec<FieldValue>,
    pub byte_range: ByteRange,
}

impl View for LogRecord {
    type V = RecordView;

    open spec fn view(&self) -> RecordView {
        RecordView {
            source_id: self.source_id@,
            raw: self.raw@,
            fields: fields_view(self.fields@),
            byte_range: self.byte_range,
        }
    }
}

/// The content of a search hit.
pub struct HitView {
    pub source_id: Seq<char>,
    pub record_index: u64,
    pub byte_range: ByteRange,
}

/// A search hit result.
pub struct SearchHit {
    pub source_id: SourceId,
    pub record_index: u64,
    pub byte_range: ByteRange,
}

impl View for SearchHit {
    type V = HitView;

    open spec fn view(&self) -> HitView {
        HitView {
            source_id: self.source_id@,
            record_index: self.record_index,
            byte_range: self.byte_range,
        }
    }
}

impl Clone for SearchHit {
    fn clone(&self) -> (r: Self)
        ensures
            r@ == self@,
    {
        SearchHit {
            source_id: self.source_id.clone(),
            record_index: self.record_index,
            byte_range: self.byte_range,
        }
    }
}

/// The hits as values.
pub open spec fn hits_view(hits: Seq<SearchHit>) -> Seq<HitView> {
    hits.map_values(|h: SearchHit| h@)
}

/// Size and modification time of a file, used to validate cached indexes.
#[derive(Debug, Clone, Copy, PartialEq, Eq, Structural)]
pub struct FileFingerprint {
    pub file_size: u64,
    pub modified_time: u64,
}

impl FileFingerprint {
    /// Whether the file has changed, given its current fingerprint (`None`
    /// when it could not be read): it has unless the current fingerprint
    /// equals this one.
    pub fn has_changed(&self, current: &Option<FileFingerprint>) -> (r: bool)
        ensures
            r == match current {
                Some(c) => *c != *self,
                None => true,
            },
    {
        match current {
            Some(c) => *c != *self,
            None => true,
        }
    }
}

} // verus!
