use kronical::log_cli::{
    human_size, normalize_index, parse_selection, split_range, trim_wrapping_parens,
};
use kronical::log_files::{
    after_pager, after_search, check_pattern, file_heading, filter_lines, header_line, list_lines,
    needs_newline, no_recent_line, order_entries, pager_args, plan_show, recent_entries,
    search_end, span_secs, AfterPager, AfterSearch, Launch, LogEntry, SearchTool, ShowPlan,
};
use kronical::path_order::comes_before;
use std::path::Path;

fn entry(path: &str, modified: i128, size: u64) -> LogEntry {
    LogEntry {
        index: 0,
        path: path.to_string(),
        modified,
        modified_text: "2024-01-01 12:00:00".to_string(),
        size,
    }
}

fn paths(names: &[&str]) -> Vec<String> {
    names.iter().map(|n| n.to_string()).collect()
}

#[test]
fn trim_parens_strips_outer_pairs() {
    assert_eq!(trim_wrapping_parens("(1)"), "1");
    assert_eq!(trim_wrapping_parens("((1))"), "1");
    assert_eq!(trim_wrapping_parens("( 1 )"), "1");
    assert_eq!(trim_wrapping_parens("1"), "1");
}

#[test]
fn split_range_identifies_delimiter() {
    assert_eq!(split_range("0-5"), Some(("0", "5")));
    assert_eq!(split_range("1-(-1)"), Some(("1", "(-1)")));
    assert_eq!(split_range("-1"), None);
}

#[test]
fn normalize_positive_and_negative() {
    assert_eq!(normalize_index(0, 5).unwrap(), 0);
    assert_eq!(normalize_index(-1, 5).unwrap(), 4);
    assert!(normalize_index(5, 5).is_err());
    assert!(normalize_index(-6, 5).is_err());
}

#[test]
fn parse_selection_handles_ranges_and_lists() {
    let vec = parse_selection("0,2,3", 5).unwrap();
    assert_eq!(vec, vec![0, 2, 3]);

    let vec = parse_selection("1-3", 5).unwrap();
    assert_eq!(vec, vec![1, 2, 3]);

    let vec = parse_selection("1-(-1)", 5).unwrap();
    assert_eq!(vec, vec![1, 2, 3, 4]);

    let vec = parse_selection("0-(-4)", 6).unwrap();
    assert_eq!(vec, vec![0, 1, 2]);
}

#[test]
fn parse_selection_handles_descending_and_duplicates() {
    let vec = parse_selection("3-1", 5).unwrap();
    assert_eq!(vec, vec![3, 2, 1]);

    let vec = parse_selection("0,1,1,-1", 4).unwrap();
    assert_eq!(vec, vec![0, 1, 3]);
}

#[test]
fn parse_selection_errors_when_out_of_bounds() {
    assert!(parse_selection("5", 3).is_err());
    assert!(parse_selection("-7", 3).is_err());
    assert!(parse_selection("2-7", 4).is_err());
}

#[test]
fn human_size_formats_units() {
    assert_eq!(human_size(0), "0B");
    assert_eq!(human_size(512), "512B");
    assert_eq!(human_size(2048), "2.0K");
    assert_eq!(human_size(5 * 1024 * 1024), "5.0M");
    assert_eq!(human_size(3 * 1024 * 1024 * 1024), "3.0G");
}

#[test]
fn sizes_round_as_floating_point_does() {
    let shown = |size: u64| {
        let s = size as f64;
        let (kb, mb, gb) = (1024.0, 1024.0 * 1024.0, 1024.0 * 1024.0 * 1024.0);
        if size < 1024 {
            format!("{}B", size)
        } else if s < mb {
            format!("{:.1}K", s / kb)
        } else if s < gb {
            format!("{:.1}M", s / mb)
        } else {
            format!("{:.1}G", s / gb)
        }
    };
    let mut size: u64 = 1;
    while size < u64::MAX / 3 {
        for s in [size, size + 1, size * 2 - 1, size + size / 20] {
            assert_eq!(human_size(s), shown(s), "size {s}");
        }
        size = size * 3 + 7;
    }
    for s in [1_075, 1_076, 1_126, 1_177, 1_048_575, 1_073_741_823, u64::MAX, 1 << 53, (1 << 53) + 1]
    {
        assert_eq!(human_size(s), shown(s), "size {s}");
    }
}

#[test]
fn selections_say_what_is_wrong() {
    assert_eq!(
        parse_selection("5", 3).unwrap_err().message(),
        "index 5 out of range (0..2)"
    );
    assert_eq!(
        parse_selection("-7", 3).unwrap_err().message(),
        "index -7 out of range (available 3)"
    );
    assert!(parse_selection("x", 3).is_err());
    assert_eq!(parse_selection("x", 0).unwrap(), Vec::<usize>::new());
    assert_eq!(parse_selection(" , ", 3).unwrap(), Vec::<usize>::new());
}

#[test]
fn entries_are_ordered_by_change_and_numbered() {
    let sorted = order_entries(vec![
        entry("b", 30, 1),
        entry("a", 10, 2),
        entry("d", 30, 3),
        entry("c", 20, 4),
    ]);
    let seen: Vec<(usize, &str)> = sorted.iter().map(|e| (e.index, e.path.as_str())).collect();
    assert_eq!(seen, vec![(0, "a"), (1, "c"), (2, "b"), (3, "d")]);
}

#[test]
fn files_changed_together_are_ordered_by_path() {
    let ordered = order_entries(vec![
        entry("/w/logs/b", 5, 1),
        entry("/w/logs-old/a", 5, 2),
        entry("/w/logs/a", 5, 3),
        entry("/w/logs/c", 4, 4),
    ]);
    let seen: Vec<&str> = ordered.iter().map(|e| e.path.as_str()).collect();
    assert_eq!(seen, vec!["/w/logs/c", "/w/logs/a", "/w/logs/b", "/w/logs-old/a"]);
}

#[test]
fn paths_are_ordered_as_the_platform_orders_them() {
    let all = [
        "", ".", "..", "/", "//", "/a", "/a/", "/a//b", "/a/./b", "/a/b", "/a-b", "/a/b/c", "/ab",
        "/a\u{e9}", "/a\u{10000}", "/a\u{ffff}", "a", "./a", "a/..", "../a", "a/b", "a/.", "/.", "/..",
        "a.", ".a", "...", "Z", "a b",
    ];
    for a in all {
        for b in all {
            assert_eq!(comes_before(a, b), Path::new(a) < Path::new(b), "{a:?} {b:?}");
        }
    }
}

#[test]
fn a_negative_number_stands_for_no_file_where_there_are_none() {
    assert_eq!(
        normalize_index(-1, 0).unwrap_err().message(),
        "index -1 out of range (available 0)"
    );
}

#[test]
fn execute_routes_to_list_logs() {
    let entries = order_entries(vec![entry("/w/logs/kronid-001.log", 1, 6)]);
    assert_eq!(
        list_lines(&entries, false, "/w/logs"),
        vec!["   0  2024-01-01 12:00:00       6B  /w/logs/kronid-001.log".to_string()]
    );
}

#[test]
fn list_logs_prints_entries_and_reverse() {
    let entries = order_entries(vec![
        entry("/w/logs/kronid-001.log", 1, 6),
        entry("/w/logs/kronid-002.log", 2, 7),
    ]);
    let out = list_lines(&entries, false, "/w/logs").join("\n");
    assert!(out.contains("   0"));
    assert!(out.contains("   1"));

    let out_rev = list_lines(&entries, true, "/w/logs").join("\n");
    assert!(out_rev.contains(" -1"));
    assert!(out_rev.contains("(latest log: index 1 or -1)"));
    assert!(out_rev.starts_with("  -1  2024-01-01 12:00:00       7B  /w/logs/kronid-002.log\n"));

    let none = list_lines(&Vec::new(), true, "/w/logs");
    assert_eq!(none, vec!["No log files under /w/logs".to_string()]);
}

#[test]
fn show_logs_without_pager_prints_selection() {
    let plan = plan_show("0", true, 1, false).expect("show logs");
    assert!(matches!(plan, ShowPlan::Print(places) if places == vec![0]));
    let heading = file_heading(0, 0, 1, "/w/logs/kronid-001.log");
    assert!(heading.contains("===== [0|-1]"));
    assert_eq!(heading, "===== [0|-1] /w/logs/kronid-001.log =====\n");
    assert_eq!(
        file_heading(1, 2, 5, "x"),
        "\n===== [2|-3] x =====\n".to_string()
    );
    assert_eq!(header_line(2, 5, "x"), "===== [2|-3] x =====");
    assert!(!needs_newline(Some(b'\n')));
    assert!(needs_newline(Some(b'd')));
    assert!(!needs_newline(None));
}

#[test]
fn show_logs_uses_less_when_terminal() {
    let plan = plan_show("0", false, 1, true).expect("pager");
    assert!(matches!(plan, ShowPlan::Page(places) if places == vec![0]));
    let args = pager_args(&paths(&["/w/logs/kronid-001.log"]));
    assert_eq!(args.len(), 3);
    assert_eq!(args[0], "-R");
    assert_eq!(args[1], "--");
    assert_eq!(args[2], "/w/logs/kronid-001.log");
    assert!(matches!(
        after_pager(&Launch::Exited(Some(0))),
        AfterPager::Done
    ));
    assert!(matches!(
        after_pager(&Launch::Exited(Some(3))),
        AfterPager::Done
    ));
}

#[test]
fn show_logs_falls_back_when_less_missing() {
    assert!(matches!(
        after_pager(&Launch::NotFound),
        AfterPager::PrintInstead
    ));
}

#[test]
fn show_logs_propagates_pager_errors() {
    match after_pager(&Launch::Failed("boom".to_string())) {
        AfterPager::GiveUp(message) => assert_eq!(message, "failed to launch pager: boom"),
        other => panic!("unexpected step: {:?}", other),
    }
}

#[test]
fn show_logs_tells_what_there_is_nothing_of() {
    assert!(matches!(
        plan_show("0", false, 0, true),
        Ok(ShowPlan::NoFiles)
    ));
    assert!(matches!(
        plan_show(",", false, 2, true),
        Ok(ShowPlan::NothingSelected)
    ));
    assert!(plan_show("9", false, 2, true).is_err());
}

#[test]
fn filter_logs_prefers_rg() {
    let tool = SearchTool::Ripgrep;
    assert_eq!(tool.program(), "rg");
    assert_eq!(
        tool.args("match", &paths(&["/w/logs/kronid-001.log"])),
        paths(&["--color=never", "match", "--", "/w/logs/kronid-001.log"])
    );
    for code in [0, 1] {
        assert!(matches!(
            after_search(tool, &Launch::Exited(Some(code))),
            AfterSearch::Done
        ));
    }
}

#[test]
fn filter_logs_uses_grep_when_rg_missing() {
    assert!(matches!(
        after_search(SearchTool::Ripgrep, &Launch::NotFound),
        AfterSearch::TryNext
    ));
    let tool = SearchTool::Ripgrep.next().expect("another program");
    assert_eq!(tool.program(), "grep");
    assert_eq!(
        tool.args("another", &paths(&["a", "b"])),
        paths(&["-E", "another", "--", "a", "b"])
    );
    assert!(matches!(
        after_search(tool, &Launch::Exited(Some(0))),
        AfterSearch::Done
    ));
}

#[test]
fn filter_logs_uses_regex_when_tools_missing() {
    assert!(matches!(
        after_search(SearchTool::Grep, &Launch::NotFound),
        AfterSearch::TryNext
    ));
    assert_eq!(SearchTool::Grep.next(), None);
    let found = filter_lines("alpha", "log", &paths(&["alpha"])).expect("regex fallback");
    assert_eq!(found, vec!["log:alpha".to_string()]);
    assert_eq!(search_end(!found.is_empty()), None);
}

#[test]
fn filter_logs_reports_when_no_matches() {
    let found = filter_lines("gamma", "log", &paths(&["beta"])).expect("regex fallback");
    assert!(found.is_empty());
    assert_eq!(search_end(!found.is_empty()), Some("No matches found"));
}

#[test]
fn filters_by_regular_expression() {
    let lines = paths(&["error 12", "warning", "an error", "error x"]);
    assert_eq!(
        filter_lines(r"^error \d+$", "log", &lines).unwrap(),
        vec!["log:error 12".to_string()]
    );
    assert!(filter_lines("(", "log", &lines).is_err());
    assert!(check_pattern("(").is_err());
    assert!(check_pattern("a+").is_ok());
    for pattern in ["(", "[z-a]", "a{2,1}", "*"] {
        let words = regex::Regex::new(pattern).unwrap_err().to_string();
        assert_eq!(check_pattern(pattern).unwrap_err(), words);
        assert_eq!(filter_lines(pattern, "log", &lines).unwrap_err(), words);
        assert_eq!(filter_lines(pattern, "log", &vec![]).unwrap_err(), words);
    }
}

#[test]
fn search_failures_are_reported() {
    match after_search(SearchTool::Ripgrep, &Launch::Exited(Some(2))) {
        AfterSearch::GiveUp(message) => assert_eq!(message, "rg exited with status Some(2)"),
        other => panic!("unexpected step: {:?}", other),
    }
    match after_search(SearchTool::Grep, &Launch::Exited(None)) {
        AfterSearch::GiveUp(message) => assert_eq!(message, "grep exited with status None"),
        other => panic!("unexpected step: {:?}", other),
    }
    match after_search(SearchTool::Grep, &Launch::Failed("denied".to_string())) {
        AfterSearch::GiveUp(message) => assert_eq!(message, "denied"),
        other => panic!("unexpected step: {:?}", other),
    }
}

#[test]
fn old_files_are_not_searched() {
    let entries = vec![entry("a", 10, 1), entry("b", 20, 1), entry("c", 30, 1)];
    let recent = recent_entries(&entries, 20);
    let names: Vec<&str> = recent.iter().map(|e| e.path.as_str()).collect();
    assert_eq!(names, vec!["b", "c"]);
    assert_eq!(no_recent_line(24), "No log files from the last 24 hours");
    assert_eq!(span_secs(24), 86_400);
    assert_eq!(span_secs(u64::MAX), u64::MAX);
}
