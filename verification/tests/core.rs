use logseek::backend::LogBackend;
use logseek::cache::{cache_filename, index_cache_bytes, parse_index_cache};
use logseek::domain::{ByteRange, FieldValue, FileFingerprint, LogFormat, LogRecord, SourceId};
use logseek::index::{LineIndex, RecordIndex};
use logseek::parser::{CsvParser, JsonlParser, LogParser, TextParser};
use logseek::query::{QueryEngine, SearchError, SearchQuery};
use logseek::session::Session;

fn fp(size: u64, time: u64) -> FileFingerprint {
    FileFingerprint { file_size: size, modified_time: time }
}

fn backend(content: &[u8]) -> LogBackend {
    LogBackend::from_parts(
        "test.log".to_string(),
        content.to_vec(),
        LogFormat::Text,
        SourceId("test".to_string()),
        fp(content.len() as u64, 0),
        None,
    )
}

fn query(pattern: &str, is_regex: bool) -> SearchQuery {
    SearchQuery {
        pattern: pattern.to_string(),
        is_regex,
        case_insensitive: false,
        whole_word: false,
        field_filters: vec![],
    }
}

#[test]
fn index_cache_test_roundtrip() {
    let f = fp(100, 1000);
    let idx = LineIndex::from_offsets(vec![0, 10, 20]);
    let bytes = index_cache_bytes(&f, &idx);
    let loaded = parse_index_cache(&bytes, &f).unwrap();
    assert_eq!(loaded.offsets(), &[0, 10, 20]);
}

#[test]
fn test_fingerprint_mismatch() {
    let f = fp(100, 1000);
    let bytes = index_cache_bytes(&f, &LineIndex::from_offsets(vec![0]));
    let f2 = fp(200, 2000);
    assert!(parse_index_cache(&bytes, &f2).is_none());
}

#[test]
fn test_deterministic_path() {
    assert_eq!(cache_filename("/a/b.log"), cache_filename("/a/b.log"));
}

#[test]
fn test_fingerprint_equality() {
    let a = fp(100, 1000);
    let b = fp(100, 1000);
    assert_eq!(a, b);
}

#[test]
fn test_logformat_from_extension() {
    assert_eq!(LogFormat::from_extension("log"), Some(LogFormat::Text));
    assert_eq!(LogFormat::from_extension("jsonl"), Some(LogFormat::Jsonl));
    assert_eq!(LogFormat::from_extension("csv"), Some(LogFormat::Csv));
    assert_eq!(LogFormat::from_extension("xyz"), None);
}

#[test]
fn test_logrecord_construction() {
    let record = LogRecord {
        source_id: SourceId("test".to_string()),
        raw: "test line".to_string(),
        fields: vec![FieldValue { key: "level".to_string(), value: "INFO".to_string() }],
        byte_range: ByteRange { start: 0, end: 9 },
    };
    assert_eq!(record.source_id.0, "test");
    assert_eq!(record.fields.len(), 1);
}

#[test]
fn test_source_id_from_path() {
    let id = SourceId::from_path("/var/log/test.log");
    assert_eq!(id.0, "/var/log/test.log");
}

fn csv_parser() -> CsvParser {
    CsvParser::with_headers(SourceId("t".into()), vec!["a".into(), "b".into()])
}

#[test]
fn test_simple() {
    let r = csv_parser().parse_record(b"x,y\n", 0).unwrap();
    assert_eq!(r.fields[0].value, "x");
    assert_eq!(r.fields[1].value, "y");
}

#[test]
fn test_quoted() {
    let r = csv_parser().parse_record(b"\"hello, world\",y\n", 0).unwrap();
    assert_eq!(r.fields[0].value, "hello, world");
}

#[test]
fn test_field_names() {
    assert_eq!(csv_parser().field_names(), vec!["a", "b"]);
}

#[test]
fn test_valid_object() {
    let p = JsonlParser::new(SourceId("t".into()));
    let r = p.parse_record(b"{\"a\":\"1\"}\n", 0).unwrap();
    assert_eq!(r.fields.len(), 1);
    assert_eq!(r.fields[0].key, "a");
}

#[test]
fn test_malformed_json() {
    let p = JsonlParser::new(SourceId("t".into()));
    let r = p.parse_record(b"not json\n", 0).unwrap();
    assert!(r.fields.is_empty());
}

#[test]
fn test_single_line() {
    let p = TextParser::new(SourceId("t".into()));
    let r = p.parse_record(b"hello\n", 0).unwrap();
    assert_eq!(r.raw, "hello");
}

#[test]
fn test_multiple_lines() {
    let p = TextParser::new(SourceId("t".into()));
    let d = b"a\nb\nc\n";
    assert_eq!(p.parse_record(d, 0).unwrap().raw, "a");
    let off = p.next_record_offset(d, 0).unwrap();
    assert_eq!(p.parse_record(d, off).unwrap().raw, "b");
}

#[test]
fn test_empty() {
    let p = TextParser::new(SourceId("t".into()));
    assert!(p.parse_record(b"", 0).is_none());
}

#[test]
fn test_no_trailing_newline() {
    let p = TextParser::new(SourceId("t".into()));
    assert_eq!(p.parse_record(b"end", 0).unwrap().raw, "end");
}

#[test]
fn test_plain_search() {
    let b = backend(b"error\ngood\nerror\n");
    assert_eq!(QueryEngine::search(&b, &query("error", false)).unwrap().len(), 2);
}

#[test]
fn test_regex_search() {
    let b = backend(b"err.*\ngood\n");
    assert_eq!(QueryEngine::search(&b, &query("err.*", true)).unwrap().len(), 1);
}

#[test]
fn test_no_matches() {
    let b = backend(b"line\n");
    assert!(QueryEngine::search(&b, &query("xyz", false)).unwrap().is_empty());
}

#[test]
fn test_invalid_regex() {
    let b = backend(b"test\n");
    assert!(QueryEngine::search(&b, &query("[bad", true)).is_err());
}

#[test]
fn test_default() {
    let s = Session::default_session();
    assert_eq!(s.version, 1);
    assert!(s.sources.is_empty());
}

#[test]
fn test_open_text() {
    let b = backend(b"a\nb\nc\n");
    assert_eq!(b.record_count(), 3);
}

#[test]
fn test_record_at() {
    let b = backend(b"a\nb\nc\n");
    assert_eq!(b.record_at(1).unwrap().raw, "b");
}

#[test]
fn test_out_of_bounds() {
    let b = backend(b"a\n");
    assert!(b.record_at(100).is_none());
}

#[test]
fn test_build_empty() {
    assert_eq!(LineIndex::build(b"").record_count(), 1);
}

#[test]
fn test_build_multiple() {
    assert_eq!(LineIndex::build(b"a\nb\nc\n").record_count(), 3);
}

#[test]
fn test_offset_lookup() {
    let idx = LineIndex::build(b"a\nb\nc\n");
    assert_eq!(idx.offset_of(0), Some(0));
    assert_eq!(idx.offset_of(1), Some(2));
}

#[test]
fn test_parallel_matches_sequential() {
    let data = b"a\nb\nc\nd\ne\n";
    assert_eq!(LineIndex::build(data).offsets(), LineIndex::build_parallel(data).offsets());
}

#[test]
fn test_incremental_append() {
    let mut idx = LineIndex::build(b"a\n");
    idx.append_new_offsets(b"a\nb\nc\n", 2);
    assert_eq!(idx.record_count(), 3);
}

#[test]
fn search_error_carries_the_regex_message() {
    let b = backend(b"test\n");
    match QueryEngine::search(&b, &query("[bad", true)) {
        Err(e) => {
            let SearchError::InvalidPattern(m) = &e;
            assert!(!m.is_empty());
            assert_eq!(e.message(), *m);
        }
        Ok(_) => panic!("expected an error"),
    }
}
