use std::sync::Arc;

use logseek::actions::{is_log_extension, workspace_names, ClearOutcome};
use logseek::backend::LogBackend;
use logseek::domain::{FileFingerprint, LogFormat, SourceId};
use logseek::highlight::{find_match_span, highlight_match, highlight_text};
use logseek::query::SearchQuery;
use logseek::state::{AppState, LogSource, DEFAULT_WORKSPACE_NAME};
use logseek::theme::ThemeMode;
use logseek::workspace::Workspace;

fn backend(name: &str, content: &[u8]) -> LogBackend {
    LogBackend::from_parts(
        format!("/tmp/{}", name),
        content.to_vec(),
        LogFormat::Text,
        SourceId(name.to_string()),
        FileFingerprint { file_size: content.len() as u64, modified_time: 0 },
        None,
    )
}

fn make_source(name: &str) -> LogSource {
    source_with(name, b"line1\nline2\n")
}

fn source_with(name: &str, content: &[u8]) -> LogSource {
    let id = SourceId(name.to_string());
    LogSource {
        id,
        name: name.to_string(),
        path: format!("/tmp/{}", name),
        format: LogFormat::Text,
        backend: Arc::new(backend(name, content)),
    }
}

fn query(pattern: &str) -> SearchQuery {
    SearchQuery {
        pattern: pattern.to_string(),
        is_regex: false,
        case_insensitive: true,
        whole_word: false,
        field_filters: vec![],
    }
}

#[test]
fn test_add_source() {
    let mut state = AppState::new();
    state.add_source(make_source("test"));
    assert_eq!(state.sources.len(), 1);
    assert_eq!(state.active_source, Some(0));
}

#[test]
fn test_remove_source() {
    let mut state = AppState::new();
    state.add_source(make_source("a"));
    state.add_source(make_source("b"));
    state.remove_source(0);
    assert_eq!(state.sources.len(), 1);
    assert_eq!(state.active_source, Some(0));
}

#[test]
fn test_active_backend() {
    let mut state = AppState::new();
    assert!(state.active_backend().is_none());
    state.add_source(make_source("test"));
    assert!(state.active_backend().is_some());
}

#[test]
fn removing_the_last_source_leaves_none_active() {
    let mut state = AppState::new();
    state.add_source(make_source("a"));
    state.remove_source(5);
    assert_eq!(state.sources.len(), 1);
    state.remove_source(0);
    assert!(state.sources.is_empty());
    assert_eq!(state.active_source, None);
}

#[test]
fn toggling_the_theme_twice_restores_it() {
    let mut state = AppState::new();
    assert_eq!(state.theme, ThemeMode::Light);
    state.toggle_theme();
    assert_eq!(state.theme, ThemeMode::Dark);
    state.toggle_theme();
    assert_eq!(state.theme, ThemeMode::Light);
}

#[test]
fn search_current_reports_the_count_and_goes_to_the_first_match() {
    let mut state = AppState::new();
    state.add_source(source_with("a", b"error one\nok\nERROR two\n"));
    state.search_query = query("error");
    state.search_current();
    assert_eq!(state.search_results.len(), 2);
    assert_eq!(state.search_results[0].record_index, 0);
    assert_eq!(state.search_results[1].record_index, 2);
    assert_eq!(state.current_match_index, Some(0));
    assert_eq!(state.scroll_to_line, Some(0));
    assert_eq!(state.status_message, "搜索完成: 2 条匹配 (1/2)");
}

#[test]
fn search_current_without_matches_or_sources() {
    let mut state = AppState::new();
    state.search_query = query("x");
    state.search_current();
    assert_eq!(state.status_message, "没有打开的日志文件");
    state.add_source(source_with("a", b"abc\n"));
    state.search_current();
    assert!(state.search_results.is_empty());
    assert_eq!(state.current_match_index, None);
    assert_eq!(state.status_message, "搜索完成: 0 条匹配");
}

#[test]
fn search_current_with_an_empty_pattern_clears_everything() {
    let mut state = AppState::new();
    state.add_source(source_with("a", b"abc\n"));
    state.search_query = query("abc");
    state.search_current();
    assert_eq!(state.search_results.len(), 1);
    state.search_query = query("");
    state.search_current();
    assert!(state.search_results.is_empty());
    assert_eq!(state.status_message, "");
    assert_eq!(state.scroll_to_line, None);
}

#[test]
fn search_current_reports_an_invalid_regex() {
    let mut state = AppState::new();
    state.add_source(source_with("a", b"abc\n"));
    state.search_query = query("[bad");
    state.search_query.is_regex = true;
    state.search_current();
    assert!(state.status_message.starts_with("搜索错误: "));
    assert!(state.search_results.is_empty());
}

#[test]
fn navigation_wraps_around_and_reports_the_position() {
    let mut state = AppState::new();
    state.add_source(source_with("a", b"x1\ny\nx2\nx3\n"));
    state.search_query = query("x");
    state.search_current();
    assert_eq!(state.search_results.len(), 3);
    state.navigate_next();
    assert_eq!(state.current_match_index, Some(1));
    assert_eq!(state.scroll_to_line, Some(2));
    assert_eq!(state.status_message, "匹配 2/3");
    state.navigate_next();
    state.navigate_next();
    assert_eq!(state.current_match_index, Some(0));
    state.navigate_previous();
    assert_eq!(state.current_match_index, Some(2));
    assert_eq!(state.status_message, "匹配 3/3");
    state.navigate_next();
    assert_eq!(state.current_match_index, Some(0));
    assert_eq!(state.match_counter(), "1/3");
}

#[test]
fn navigation_without_matches_does_nothing() {
    let mut state = AppState::new();
    state.navigate_next();
    state.navigate_previous();
    assert_eq!(state.current_match_index, None);
    assert_eq!(state.match_counter(), "0/0");
}

#[test]
fn workspace_search_sorts_by_source_then_record() {
    let mut state = AppState::new();
    state.add_source(source_with("b", b"hit\nmiss\nhit\n"));
    state.add_source(source_with("a", b"miss\nhit\n"));
    state.search_query = query("hit");
    state.search_workspace();
    let keys: Vec<(String, u64)> = state
        .search_results
        .iter()
        .map(|h| (h.source_id.0.clone(), h.record_index))
        .collect();
    assert_eq!(
        keys,
        vec![("a".to_string(), 1), ("b".to_string(), 0), ("b".to_string(), 2)]
    );
    assert_eq!(state.status_message, "搜索工作区: 3 条匹配 (1/3)");
    assert_eq!(state.active_source, Some(1));
    assert_eq!(state.scroll_to_line, Some(1));
}

#[test]
fn workspace_search_only_covers_the_workspace_files() {
    let mut state = AppState::new();
    state.add_source(source_with("a", b"hit\n"));
    state.add_source(source_with("b", b"hit\n"));
    let mut ws = Workspace::new("w".to_string());
    ws.add_file("/tmp/b".to_string());
    state.current_workspace = Some(ws);
    state.search_query = query("hit");
    state.search_all();
    assert_eq!(state.search_results.len(), 1);
    assert_eq!(state.search_results[0].source_id.0, "b");
    state.search_query = query("nothing");
    state.search_workspace();
    assert_eq!(state.status_message, "搜索工作区: 0 条匹配");
}

#[test]
fn filter_keeps_matching_lines_case_insensitively() {
    let mut state = AppState::new();
    state.add_source(source_with("a", b"Alpha\nbeta\nALPHABET\n"));
    state.filter_pattern = "alpha".to_string();
    state.filter_enabled = true;
    state.scroll_to_line = Some(1);
    state.apply_filter();
    assert_eq!(state.scroll_to_line, Some(1));
    assert_eq!(state.filtered_lines, vec![0, 2]);
    assert_eq!(state.status_message, "过滤: 显示 2/3 行");
    assert!(state.is_line_visible(2));
    assert!(!state.is_line_visible(1));
    assert_eq!(state.visible_line_count(), 2);
}

#[test]
fn regex_filter_and_its_errors() {
    let mut state = AppState::new();
    state.add_source(source_with("a", b"a1\nb2\na3\n"));
    state.filter_pattern = "^a[0-9]$".to_string();
    state.filter_enabled = true;
    state.filter_is_regex = true;
    state.apply_filter();
    assert_eq!(state.filtered_lines, vec![0, 2]);
    state.filter_pattern = "(".to_string();
    state.apply_filter();
    assert!(state.filtered_lines.is_empty());
    assert!(state.status_message.starts_with("正则表达式错误: "));
}

#[test]
fn disabled_filter_shows_every_line() {
    let mut state = AppState::new();
    state.add_source(source_with("a", b"a\nb\nc\n"));
    state.filter_pattern = "a".to_string();
    state.apply_filter();
    assert!(state.filtered_lines.is_empty());
    assert!(state.is_line_visible(1));
    assert_eq!(state.visible_line_count(), 3);
}

#[test]
fn search_reapplies_the_filter() {
    let mut state = AppState::new();
    state.add_source(source_with("a", b"x a\ny\nx b\n"));
    state.filter_pattern = "b".to_string();
    state.filter_enabled = true;
    state.search_query = query("x");
    state.search_current();
    assert_eq!(state.filtered_lines, vec![2]);
    assert_eq!(state.status_message, "搜索完成: 2 条匹配 (1/2)");
}

#[test]
fn total_records_over_sources() {
    let mut state = AppState::new();
    state.add_source(source_with("a", b"1\n2\n"));
    state.add_source(source_with("b", b"1\n2\n3\n"));
    assert_eq!(state.total_records(), 5);
    state.set_active(1);
    assert_eq!(state.active_source, Some(1));
    state.set_active(7);
    assert_eq!(state.active_source, Some(1));
    assert_eq!(state.active_source_id().unwrap().0, "b");
    assert!(!state.is_structured_format());
}

#[test]
fn clear_log_confirmation() {
    let mut state = AppState::new();
    state.request_clear_log();
    assert_eq!(state.status_message, "没有打开的日志文件");
    assert!(!state.show_clear_confirm_dialog);
    state.add_source(make_source("a"));
    state.request_clear_log();
    assert!(state.show_clear_confirm_dialog);
    state.cancel_clear_log();
    assert!(!state.show_clear_confirm_dialog);
}

#[test]
fn clearing_a_log_reopens_it() {
    let mut state = AppState::new();
    state.add_source(make_source("a"));
    state.add_source(make_source("b"));
    state.set_active(1);
    state.show_clear_confirm_dialog = true;
    let (path, format, id, name) = state.begin_clear_log().unwrap();
    assert_eq!(path, "/tmp/b");
    assert_eq!(format, LogFormat::Text);
    assert_eq!(id.0, "b");
    assert_eq!(name, "b");
    assert!(!state.show_clear_confirm_dialog);
    assert_eq!(state.sources.len(), 1);
    assert_eq!(state.active_source, Some(0));
    state.finish_clear_log(path.clone(), format, name.clone(), ClearOutcome::Reopened(backend("b", b"")));
    assert_eq!(state.sources.len(), 2);
    let re = &state.sources[1];
    assert_eq!((re.id.0.as_str(), re.path.as_str(), re.name.as_str()), ("/tmp/b", "/tmp/b", "b"));
    assert_eq!(re.format, LogFormat::Text);
    assert_eq!(re.backend.record_count(), 1);
    assert_eq!(state.status_message, "已清空: b");
    state.finish_clear_log(path.clone(), format, name.clone(), ClearOutcome::ReopenFailed("gone".to_string()));
    assert_eq!(state.status_message, "重新加载失败: gone");
    state.finish_clear_log(path.clone(), format, name.clone(), ClearOutcome::TruncateFailed("denied".to_string(), None));
    assert_eq!(state.status_message, "清空失败: denied");
    assert_eq!(state.sources.len(), 2);
}

#[test]
fn copying_the_shown_lines() {
    let mut state = AppState::new();
    assert!(state.visible_content().is_none());
    assert!(state.prepare_copy_all().is_none());
    assert_eq!(state.status_message, "没有打开的日志文件");
    state.add_source(source_with("a", b"one\ntwo\nthree\n"));
    state.status_message = "before".to_string();
    let (text, n) = state.prepare_copy_all().unwrap();
    assert_eq!((text.as_str(), n), ("one\ntwo\nthree\n", 3));
    assert_eq!(state.status_message, "before");
    let (text, n) = state.visible_content().unwrap();
    assert_eq!(text, "one\ntwo\nthree\n");
    assert_eq!(n, 3);
    state.filter_pattern = "t".to_string();
    state.filter_enabled = true;
    state.apply_filter();
    let (text, n) = state.visible_content().unwrap();
    assert_eq!(text, "two\nthree\n");
    assert_eq!(n, 2);
    assert_eq!(state.line_text(0).unwrap(), "one");
    assert!(state.line_text(9).is_none());
    state.report_copy_all(n, Ok(()));
    assert_eq!(state.status_message, "已复制 2 行到剪贴板");
    state.report_copy_line(0, Ok(()));
    assert_eq!(state.status_message, "已复制第 1 行");
    state.report_copy_line(0, Err("busy".to_string()));
    assert_eq!(state.status_message, "复制失败: busy");
}

#[test]
fn refreshing_reports_new_records() {
    let mut state = AppState::new();
    state.refresh_current(None);
    assert_eq!(state.status_message, "没有打开的日志文件");
    state.add_source(source_with("a", b"x\n"));
    state.search_query = query("x");
    state.scroll_to_line = Some(0);
    state.refresh_current(Some(Ok(backend("a", b"x\nx\nx\n"))));
    assert_eq!(state.scroll_to_line, Some(0));
    assert_eq!(state.status_message, "刷新完成: 新增 2 条记录");
    assert_eq!(state.sources[0].backend.record_count(), 3);
    assert_eq!(state.search_results.len(), 3);
    assert_eq!(state.current_match_index, Some(0));
    state.refresh_current(Some(Ok(backend("a", b"x\n"))));
    assert_eq!(state.status_message, "刷新完成: 无新增");
    state.refresh_current(Some(Err("missing".to_string())));
    assert_eq!(state.status_message, "刷新失败: missing");
}

#[test]
fn growing_files_open_the_update_dialog() {
    let mut state = AppState::new();
    state.add_source(source_with("a", b"x\n"));
    state.add_source(source_with("b", b"y\n"));
    assert!(!state.check_file_changes_for_dialog(3, &vec![Some(10), Some(10)]));
    assert!(state.check_file_changes_for_dialog(5, &vec![Some(10), Some(10)]));
    assert!(!state.show_update_dialog);
    assert!(state.check_file_changes_for_dialog(6, &vec![Some(10), Some(12)]));
    assert!(state.show_update_dialog);
    assert_eq!(state.status_message, "文件 'b' 存在更新");
    state.decline_file_reload(&vec![Some(10), Some(12)]);
    assert!(!state.show_update_dialog);
    assert!(state.check_file_changes_for_dialog(6, &vec![Some(10), Some(12)]));
    assert!(!state.show_update_dialog);
    state.auto_refresh = true;
    assert!(!state.check_file_changes_for_dialog(60, &vec![Some(99), Some(99)]));
}

fn fp(size: u64, time: u64) -> FileFingerprint {
    FileFingerprint { file_size: size, modified_time: time }
}

#[test]
fn change_check_compares_fingerprints() {
    let mut state = AppState::new();
    state.add_source(source_with("a", b"x\n"));
    let loaded = state.sources[0].backend.fingerprint();
    assert_eq!(loaded, fp(2, 0));
    assert!(!state.check_file_changes(5, &vec![Some(fp(2, 0))]));
    assert!(!state.check_file_changes(0, &vec![Some(fp(200, 0))]));
    assert!(state.check_file_changes(1, &vec![Some(fp(200, 0))]));
    assert!(state.check_file_changes(1, &vec![Some(fp(2, 7))]));
    assert!(!state.check_file_changes(1, &vec![None]));
}

#[test]
fn auto_refresh_reloads_only_changed_sources() {
    let mut state = AppState::new();
    state.add_source(source_with("a", b"x\n"));
    state.add_source(source_with("b", b"x\n"));
    let now = vec![Some(fp(2, 0)), Some(fp(6, 3))];
    assert!(state.sources_to_refresh(5, &now).is_empty());
    state.auto_refresh = true;
    assert!(state.sources_to_refresh(0, &now).is_empty());
    assert_eq!(state.sources_to_refresh(1, &now), vec![1]);
    state.search_query = query("x");
    state.refresh_sources(vec![None, Some(Ok(backend("b", b"x\nx\nx\n")))]);
    assert_eq!(state.sources[0].backend.record_count(), 1);
    assert_eq!(state.sources[1].backend.record_count(), 3);
    assert_eq!(state.sources[1].name, "b");
    assert_eq!(state.status_message, "刷新完成: 新增 2 条记录");
    assert!(state.search_results.is_empty());
    state.set_active(1);
    state.refresh_sources(vec![Some(Err("gone".to_string())), Some(Ok(backend("b", b"x\nx\n")))]);
    assert_eq!(state.status_message, "刷新完成: 无新增");
    assert_eq!(state.search_results.len(), 2);
    state.refresh_sources(vec![Some(Err("gone".to_string())), None]);
    assert_eq!(state.status_message, "刷新失败: gone");
    assert_eq!(state.sources[0].backend.record_count(), 1);
}

#[test]
fn accepting_a_reload_closes_the_dialog() {
    let mut state = AppState::new();
    state.add_source(source_with("a", b"x\n"));
    state.show_update_dialog = true;
    state.accept_file_reload(Some(Ok(backend("a", b"x\ny\n"))));
    assert!(!state.show_update_dialog);
    assert_eq!(state.status_message, "刷新完成: 新增 1 条记录");
}

#[test]
fn workspace_lifecycle() {
    let mut state = AppState::new();
    assert!(state.ensure_workspace());
    assert_eq!(state.current_workspace.as_ref().unwrap().name, DEFAULT_WORKSPACE_NAME);
    assert_eq!(state.available_workspaces, vec![DEFAULT_WORKSPACE_NAME.to_string()]);
    assert!(!state.ensure_workspace());
    state.add_file_to_workspace("/tmp/a".to_string());
    state.add_file_to_workspace("/tmp/a".to_string());
    state.add_dir_to_workspace("/tmp".to_string());
    let ws = state.current_workspace.as_ref().unwrap();
    assert_eq!(ws.log_files, vec!["/tmp/a".to_string()]);
    assert_eq!(ws.log_dirs, vec!["/tmp".to_string()]);
    state.finish_open_file("/tmp/a", Ok((make_source("a"), Some(12))));
    assert_eq!(state.status_message, "已打开: /tmp/a");
    assert_eq!(state.file_sizes, vec![("/tmp/a".to_string(), 12)]);
    assert!(state.activate_source_with_path(&"/tmp/a".to_string()));
    assert!(!state.activate_source_with_path(&"/tmp/zzz".to_string()));
    state.finish_open_file("/tmp/q", Err("denied".to_string()));
    assert_eq!(state.status_message, "打开文件失败: denied");
    assert!(state.clear_workspace_logs());
    assert!(state.sources.is_empty());
    assert!(state.current_workspace.as_ref().unwrap().log_files.is_empty());
    assert_eq!(state.status_message, format!("已清空工作区 '{}' 的所有日志", DEFAULT_WORKSPACE_NAME));
    state.close_workspace();
    assert!(state.current_workspace.is_none());
    assert_eq!(state.status_message, "已关闭工作区");
    assert!(!state.clear_workspace_logs());
}

#[test]
fn creating_loading_and_deleting_workspaces() {
    let mut state = AppState::new();
    assert!(!state.create_workspace());
    state.new_workspace_name = "proj".to_string();
    state.show_new_workspace_dialog = true;
    assert!(state.create_workspace());
    assert!(!state.show_new_workspace_dialog);
    assert!(state.new_workspace_name.is_empty());
    assert_eq!(state.available_workspaces, vec!["proj".to_string()]);
    let mut ws = Workspace::new("other".to_string());
    ws.add_file("/x".to_string());
    ws.add_file("/y".to_string());
    state.add_source(make_source("a"));
    state.load_workspace("other", Ok(ws));
    assert!(state.sources.is_empty());
    assert_eq!(state.status_message, "已加载工作区: other (2 个文件，点击文件名打开)");
    state.load_workspace("bad", Err("broken".to_string()));
    assert_eq!(state.status_message, "加载工作区失败: bad - broken");
    state.delete_workspace(&"other".to_string());
    assert!(state.current_workspace.is_none());
    assert_eq!(state.status_message, "已删除工作区: other");
    state.delete_workspace(&"proj".to_string());
    assert!(state.available_workspaces.is_empty());
    state.new_workspace_name = "zzz".to_string();
    state.cancel_new_workspace();
    assert!(state.new_workspace_name.is_empty());
}

#[test]
fn removing_a_file_from_the_workspace() {
    let mut state = AppState::new();
    state.ensure_workspace();
    state.add_file_to_workspace("/a".to_string());
    state.add_file_to_workspace("/b".to_string());
    state.remove_file_from_workspace(0);
    assert_eq!(state.current_workspace.as_ref().unwrap().log_files, vec!["/b".to_string()]);
    state.remove_file_from_workspace(9);
    assert_eq!(state.current_workspace.as_ref().unwrap().log_files.len(), 1);
}

#[test]
fn clearing_all_conditions() {
    let mut state = AppState::new();
    state.add_source(source_with("a", b"x\n"));
    state.search_query = query("x");
    state.search_query.whole_word = true;
    state.search_current();
    state.filter_enabled = true;
    state.filter_pattern = "x".to_string();
    state.clear_all_conditions();
    assert!(state.search_query.pattern.is_empty());
    assert!(state.search_results.is_empty());
    assert!(!state.filter_enabled);
    assert!(!state.search_query.whole_word);
    assert!(state.search_query.case_insensitive);
    assert_eq!(state.status_message, "已清除所有条件");
}

#[test]
fn workspace_names_are_the_sorted_json_stems() {
    let names = vec![
        "zeta.json".to_string(),
        ".json".to_string(),
        "notes.txt".to_string(),
        "alpha.json".to_string(),
        "b.c.json".to_string(),
    ];
    assert_eq!(
        workspace_names(&names),
        vec!["alpha".to_string(), "b.c".to_string(), "zeta".to_string()]
    );
}

#[test]
fn log_extensions() {
    assert!(is_log_extension("LOG"));
    assert!(is_log_extension("ndjson"));
    assert!(!is_log_extension("exe"));
}

#[test]
fn result_items_locate_the_match() {
    let mut state = AppState::new();
    state.add_source(source_with("a", b"no\nFind ME here\n"));
    state.search_query = query("me");
    state.search_current();
    let items = state.build_result_items();
    assert_eq!(items.len(), 1);
    assert_eq!(items[0].source_name, "a");
    assert_eq!(items[0].line_number, 1);
    assert_eq!(items[0].content, "Find ME here");
    assert_eq!((items[0].match_start, items[0].match_end), (5, 7));
}

#[test]
fn match_spans() {
    assert_eq!(find_match_span("abc", "", false), (0, 0));
    assert_eq!(find_match_span("xxAbC", "abc", false), (2, 5));
    assert_eq!(find_match_span("héllo wörld", "WÖR", false), (7, 11));
    assert_eq!(find_match_span("a1b22", "[0-9]+", true), (1, 2));
    assert_eq!(find_match_span("abc", "(", true), (0, 0));
    assert_eq!(find_match_span("abc", "z", false), (0, 0));
}

#[test]
fn plain_match_span_counts_bytes_of_the_line() {
    assert_eq!(find_match_span("ẞx", "x", false), (3, 4));
    assert_eq!(find_match_span("ẞx", "ß", false), (0, 3));
    assert_eq!(highlight_match("ẞx", 3, 4), vec![(0, 3, false), (3, 4, true)]);
}

#[test]
fn highlight_pieces_around_a_span() {
    assert_eq!(highlight_match("abcdef", 2, 4), vec![(0, 2, false), (2, 4, true), (4, 6, false)]);
    assert_eq!(highlight_match("abcdef", 0, 6), vec![(0, 6, true)]);
    assert_eq!(highlight_match("abc", 2, 9), vec![(0, 3, false)]);
    assert_eq!(highlight_match("abc", 1, 1), vec![(0, 3, false)]);
    assert_eq!(highlight_match("ẞx", 2, 3), vec![(0, 4, false)]);
    assert_eq!(highlight_match("ẞx", 3, 4), vec![(0, 3, false), (3, 4, true)]);
}

#[test]
fn highlight_pieces_of_a_line() {
    let mut q = query("ab");
    assert_eq!(
        highlight_text("xAByab", &q),
        vec![(0, 1, false), (1, 3, true), (3, 4, false), (4, 6, true)]
    );
    q.case_insensitive = false;
    assert_eq!(highlight_text("xAByab", &q), vec![(0, 4, false), (4, 6, true)]);
    q.pattern = "zz".to_string();
    assert_eq!(highlight_text("xAByab", &q), vec![(0, 6, false)]);
    q.pattern = String::new();
    assert_eq!(highlight_text("abc", &q), vec![(0, 3, false)]);
    q.pattern = "a.".to_string();
    q.is_regex = true;
    assert_eq!(highlight_text("abac", &q), vec![(0, 2, true), (2, 4, true)]);
    q.pattern = "cat".to_string();
    q.is_regex = false;
    q.whole_word = true;
    assert_eq!(highlight_text("cat concat", &q), vec![(0, 3, true), (3, 10, false)]);
}

#[test]
fn jumping_to_a_result() {
    let mut state = AppState::new();
    state.add_source(source_with("a", b"x\n"));
    state.add_source(source_with("b", b"y\nx\n"));
    state.search_query = query("x");
    state.search_workspace();
    let items = state.build_result_items();
    state.set_active(0);
    state.jump_to_result(&items[1]);
    assert_eq!(state.active_source, Some(1));
    assert_eq!(state.scroll_to_line, Some(1));
    assert_eq!(state.status_message, "跳转到 b 第 2 行");
}

#[test]
fn new_workspaces_are_stamped_now() {
    let ws = Workspace::new("w".to_string());
    assert_eq!(ws.created_at, ws.modified_at);
    assert!(ws.created_at.contains('T'));
    assert!(ws.created_at.len() >= 20);
    assert!(ws.log_files.is_empty() && ws.log_dirs.is_empty());
}

#[test]
fn listed_workspaces_put_the_default_first() {
    let mut state = AppState::new();
    state.available_workspaces = vec!["zeta".to_string(), DEFAULT_WORKSPACE_NAME.to_string(), "alpha".to_string()];
    assert_eq!(
        state.listed_workspaces(),
        vec![DEFAULT_WORKSPACE_NAME.to_string(), "alpha".to_string(), "zeta".to_string()]
    );
}

#[test]
fn closing_all_tabs() {
    let mut state = AppState::new();
    state.add_source(source_with("a", b"x\n"));
    state.search_query = query("x");
    state.search_current();
    state.close_all_tabs();
    assert!(state.sources.is_empty());
    assert!(state.search_results.is_empty());
    assert_eq!(state.active_source, None);
    assert_eq!(state.current_match_index, None);
}

#[test]
fn what_the_log_view_lists() {
    let mut state = AppState::new();
    assert!(state.visible_lines().is_empty());
    state.add_source(source_with("a", b"x\ny\nx\n"));
    assert_eq!(state.visible_lines(), vec![0, 1, 2]);
    state.search_query = query("x");
    state.search_current();
    assert_eq!(state.current_match_line(), Some(0));
    assert!(state.is_hit(2));
    assert!(!state.is_hit(1));
    state.filter_pattern = "y".to_string();
    state.filter_enabled = true;
    state.apply_filter();
    assert_eq!(state.visible_lines(), vec![1]);
    assert_eq!(state.file_tab_state(&"/tmp/a".to_string()), (true, true));
    state.add_source(source_with("b", b"z\n"));
    assert_eq!(state.file_tab_state(&"/tmp/b".to_string()), (true, false));
    assert_eq!(state.file_tab_state(&"/tmp/c".to_string()), (false, false));
}

#[test]
fn workspace_paths_compare_by_component() {
    let mut ws = Workspace::new("w".to_string());
    ws.add_file("logs/a.log".to_string());
    ws.add_file("logs//a.log".to_string());
    assert_eq!(ws.log_files, vec!["logs/a.log".to_string()]);
    ws.add_dir("logs".to_string());
    ws.add_dir("logs/".to_string());
    assert_eq!(ws.log_dirs.len(), 1);
    ws.remove_file(&"logs//a.log".to_string());
    assert!(ws.log_files.is_empty());

    let mut state = AppState::new();
    state.add_source(source_with("a", b"hit\n"));
    state.add_source(source_with("b", b"hit\n"));
    let mut ws = Workspace::new("w".to_string());
    ws.add_file("/tmp//b".to_string());
    state.current_workspace = Some(ws);
    state.search_query = query("hit");
    state.search_all();
    assert_eq!(state.search_results.len(), 1);
    assert_eq!(state.search_results[0].source_id.0, "b");
    assert!(state.file_tab_state(&"/tmp//b".to_string()).0);
    assert!(!state.file_tab_state(&"/tmp/c".to_string()).0);
    assert!(state.activate_source_with_path(&"/tmp//b".to_string()));
    assert_eq!(state.active_source, Some(1));
    assert_eq!(state.file_tab_state(&"/tmp//b".to_string()), (true, true));
}

#[test]
fn adding_a_workspace_file_twice_adds_it_once() {
    let mut ws = Workspace::new("w".to_string());
    ws.add_file("a.log".to_string());
    let once = (ws.log_files.clone(), ws.modified_at.clone(), ws.created_at.clone());
    ws.add_file("a.log".to_string());
    assert_eq!((ws.log_files.clone(), ws.modified_at.clone(), ws.created_at.clone()), once);
    ws.add_dir("logs".to_string());
    ws.add_dir("logs".to_string());
    assert_eq!(ws.log_dirs, vec!["logs".to_string()]);
}
