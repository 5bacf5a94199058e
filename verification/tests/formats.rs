use logseek::cache::{cache_filename, index_cache_bytes, parse_index_cache};
use logseek::decode::{bytes_to_string, decode_line};
use logseek::domain::{detect_format, FileFingerprint, LogFormat, SourceId};
use logseek::index::{LineIndex, RecordIndex};
use logseek::parser::{parse_csv_line, CsvParser, LogParser};
use logseek::query::{build_search_pattern, QueryEngine, SearchQuery};
use logseek::backend::LogBackend;
use logseek::theme::{zebra_color, Rgb, ThemeMode};

#[test]
fn test_utf8_detection() {
    let data = "Hello World".as_bytes();
    assert_eq!(bytes_to_string(data), "Hello World");
}

#[test]
fn test_gbk_detection() {
    let data = [0xC4, 0xE3, 0xBA, 0xC3, 0xCA, 0xC0, 0xBD, 0xE7];
    assert_eq!(bytes_to_string(&data), "你好世界");
}

#[test]
fn test_utf8_bom() {
    let data = [0xEF, 0xBB, 0xBF, 0x48, 0x65, 0x6C, 0x6C, 0x6F];
    assert_eq!(bytes_to_string(&data), "Hello");
}

#[test]
fn utf16_with_byte_order_marks() {
    assert_eq!(bytes_to_string(&[0xFF, 0xFE, 0x41, 0x00, 0x42, 0x00]), "AB");
    assert_eq!(bytes_to_string(&[0xFE, 0xFF, 0x00, 0x41, 0x00, 0x42]), "AB");
}

#[test]
fn decode_line_trims_nothing_but_decodes() {
    assert_eq!(decode_line(b"plain"), "plain");
    assert_eq!(decode_line(&[]), "");
}

#[test]
fn cache_file_names_are_hex_hashes() {
    let name = cache_filename("/var/log/app.log");
    assert_eq!(name.len(), 16 + ".olidx".len());
    assert!(name.ends_with(".olidx"));
    assert!(name[..16].chars().all(|c| c.is_ascii_hexdigit() && !c.is_ascii_uppercase()));
    assert_ne!(cache_filename("/a"), cache_filename("/b"));
}

#[test]
fn cache_bytes_layout() {
    let fp = FileFingerprint { file_size: 7, modified_time: 9 };
    let bytes = index_cache_bytes(&fp, &LineIndex::from_offsets(vec![0, 3]));
    assert_eq!(&bytes[..5], b"OLIDX");
    assert_eq!(&bytes[5..7], &1u16.to_le_bytes());
    assert_eq!(&bytes[7..15], &7u64.to_le_bytes());
    assert_eq!(&bytes[15..23], &9u64.to_le_bytes());
    assert_eq!(&bytes[23..31], &2u64.to_le_bytes());
    assert_eq!(bytes.len(), 31 + 16);
}

#[test]
fn damaged_caches_are_refused() {
    let fp = FileFingerprint { file_size: 7, modified_time: 9 };
    let mut bytes = index_cache_bytes(&fp, &LineIndex::from_offsets(vec![0, 3]));
    assert!(parse_index_cache(&bytes[..bytes.len() - 1], &fp).is_none());
    assert!(parse_index_cache(&bytes[..3], &fp).is_none());
    bytes[0] = b'X';
    assert!(parse_index_cache(&bytes, &fp).is_none());
    let mut versioned = index_cache_bytes(&fp, &LineIndex::from_offsets(vec![0]));
    versioned[5] = 2;
    assert!(parse_index_cache(&versioned, &fp).is_none());
}

#[test]
fn fingerprint_change() {
    let fp = FileFingerprint { file_size: 1, modified_time: 2 };
    assert!(!fp.has_changed(&Some(fp)));
    assert!(fp.has_changed(&Some(FileFingerprint { file_size: 1, modified_time: 3 })));
    assert!(fp.has_changed(&None));
}

#[test]
fn formats_from_extensions() {
    assert_eq!(LogFormat::from_extension("TXT"), Some(LogFormat::Text));
    assert_eq!(LogFormat::from_extension("NdJson"), Some(LogFormat::Jsonl));
    assert_eq!(detect_format(Some("out")), LogFormat::Text);
    assert_eq!(detect_format(Some("csv")), LogFormat::Csv);
    assert_eq!(detect_format(Some("bin")), LogFormat::Text);
    assert_eq!(detect_format(None), LogFormat::Text);
}

#[test]
fn csv_lines_split_on_unquoted_commas() {
    assert_eq!(parse_csv_line("a,b,c"), vec!["a", "b", "c"]);
    assert_eq!(parse_csv_line(" a , \"b,c\" ,d"), vec!["a", "b,c", "d"]);
    assert_eq!(parse_csv_line(""), vec![""]);
}

#[test]
fn csv_without_headers_names_nothing() {
    let p = CsvParser::new(SourceId("t".to_string()));
    assert!(p.field_names().is_empty());
    let r = p.parse_record(b"x,y\n", 0).unwrap();
    assert!(r.fields.is_empty());
    assert_eq!(r.raw, "x,y");
}

#[test]
fn search_patterns() {
    let mut q = SearchQuery {
        pattern: "a.b".to_string(),
        is_regex: false,
        case_insensitive: false,
        whole_word: false,
        field_filters: vec![],
    };
    assert_eq!(build_search_pattern(&q), "a\\.b");
    q.whole_word = true;
    assert_eq!(build_search_pattern(&q), "\\ba\\.b\\b");
    q.case_insensitive = true;
    q.is_regex = true;
    assert_eq!(build_search_pattern(&q), "(?i)\\ba.b\\b");
    q.pattern = String::new();
    assert_eq!(build_search_pattern(&q), "(?i)");
}

#[test]
fn parallel_search_agrees_with_search() {
    let b = LogBackend::from_parts(
        "p".to_string(),
        b"one\ntwo\nthree\nfour\n".to_vec(),
        LogFormat::Text,
        SourceId("p".to_string()),
        FileFingerprint { file_size: 19, modified_time: 0 },
        None,
    );
    let q = SearchQuery {
        pattern: "o".to_string(),
        is_regex: false,
        case_insensitive: true,
        whole_word: false,
        field_filters: vec![],
    };
    let a: Vec<u64> = QueryEngine::search(&b, &q).unwrap().iter().map(|h| h.record_index).collect();
    let p: Vec<u64> =
        QueryEngine::search_parallel(&b, &q).unwrap().iter().map(|h| h.record_index).collect();
    assert_eq!(a, vec![0, 1, 3]);
    assert_eq!(a, p);
}

#[test]
fn cached_index_is_used_when_given() {
    let b = LogBackend::from_parts(
        "p".to_string(),
        b"a\nb\n".to_vec(),
        LogFormat::Text,
        SourceId("p".to_string()),
        FileFingerprint { file_size: 4, modified_time: 0 },
        Some(LineIndex::from_offsets(vec![0])),
    );
    assert_eq!(b.record_count(), 1);
    assert_eq!(b.line_index().offsets(), &[0]);
    assert!(b.needs_reindex(&Some(FileFingerprint { file_size: 5, modified_time: 0 })));
    assert!(!b.needs_reindex(&Some(FileFingerprint { file_size: 4, modified_time: 0 })));
}

#[test]
fn reloading_rebuilds_the_index() {
    let mut b = LogBackend::from_parts(
        "p".to_string(),
        b"a\n".to_vec(),
        LogFormat::Text,
        SourceId("p".to_string()),
        FileFingerprint { file_size: 2, modified_time: 0 },
        None,
    );
    b.reload(b"a\nb\nc".to_vec(), FileFingerprint { file_size: 5, modified_time: 1 });
    assert_eq!(b.record_count(), 3);
    assert_eq!(b.record_at(2).unwrap().raw, "c");
    assert_eq!(b.fingerprint(), FileFingerprint { file_size: 5, modified_time: 1 });
    assert_eq!(b.raw_bytes(), b"a\nb\nc");
}

#[test]
fn index_of_lines_without_final_newline() {
    let idx = LineIndex::build(b"ab\ncd");
    assert_eq!(idx.offsets(), &[0, 3]);
    assert_eq!(idx.record_count(), 2);
    let mut grown = LineIndex::build(b"ab\n");
    grown.append_new_offsets(b"ab\ncd\nef\n", 3);
    assert_eq!(grown.offsets(), LineIndex::build(b"ab\ncd\nef\n").offsets());
    grown.append_new_offsets(b"ab\ncd\nef\n", 99);
    assert_eq!(grown.record_count(), 3);
}

#[test]
fn zebra_rows() {
    let scheme = ThemeMode::Dark.colors();
    assert_eq!(zebra_color(0, &scheme), scheme.bg);
    let odd = zebra_color(1, &scheme);
    assert_eq!(odd, Rgb { r: scheme.bg.r + 8, g: scheme.bg.g + 8, b: scheme.bg.b + 8 });
    assert_ne!(ThemeMode::Light.colors(), scheme);
    assert_eq!(ThemeMode::Dark.toggled(), ThemeMode::Light);
}

#[test]
fn utf8_text_without_bom_decodes_to_itself() {
    let text = "héllo ✓ 日志";
    assert_eq!(decode_line(text.as_bytes()), text);
    assert_eq!(bytes_to_string(text.as_bytes()), text);
    let fields = parse_csv_line("x,\"y,z\", w ,");
    assert_eq!(fields, vec!["x", "y,z", "w", ""]);
}
