use cvd::failure::Failure;
use cvd::inventory::{
    parse_output, parse_text, search_candidates, selector_argument, QueryMode, QueryOutcome,
    LIST_TOTAL, LIST_USED, PLAIN_LINES, TOOL,
};
use cvd::text::{is_blank, join, split, trim_end};

fn ids(names: &[&str]) -> Vec<String> {
    names.iter().map(|s| s.to_string()).collect()
}

fn completed(text: &str) -> QueryOutcome {
    QueryOutcome::Completed(text.as_bytes().to_vec())
}

#[test]
fn tool_and_arguments() {
    assert_eq!(TOOL, "nvidia-smi");
    assert_eq!(selector_argument(QueryMode::Total), "--query-gpu=uuid");
    assert_eq!(selector_argument(QueryMode::Used), "--query-compute-apps=gpu_uuid");
    assert_eq!(LIST_TOTAL, "--query-gpu=uuid");
    assert_eq!(LIST_USED, "--query-compute-apps=gpu_uuid");
    assert_eq!(PLAIN_LINES, "--format=csv,noheader");
}

#[test]
fn one_identifier_per_line() {
    let s = parse_text("GPU-b\nGPU-a\nGPU-c\n");
    assert_eq!(s.sorted(), ids(&["GPU-a", "GPU-b", "GPU-c"]));
}

#[test]
fn last_line_needs_no_line_end() {
    let s = parse_text("GPU-b\nGPU-a");
    assert_eq!(s.sorted(), ids(&["GPU-a", "GPU-b"]));
}

#[test]
fn repeated_identifiers_collapse() {
    let s = parse_text("GPU-a\nGPU-b\nGPU-a\nGPU-a\n");
    assert_eq!(s.len(), 2);
    assert_eq!(s.sorted(), ids(&["GPU-a", "GPU-b"]));
}

#[test]
fn empty_lines_are_no_identifiers() {
    assert_eq!(parse_text("").len(), 0);
    assert_eq!(parse_text("\n").len(), 0);
    assert_eq!(parse_text("\n\n\n").len(), 0);
    assert_eq!(parse_text(" \n\t\r\n").len(), 0);
    assert_eq!(parse_text("\nGPU-a\n\nGPU-b\n\n").sorted(), ids(&["GPU-a", "GPU-b"]));
}

#[test]
fn carriage_returns_and_blanks_at_line_ends_are_dropped() {
    assert_eq!(parse_text("GPU-a\r\nGPU-b\r\n").sorted(), ids(&["GPU-a", "GPU-b"]));
    assert_eq!(parse_text("GPU-a  \nGPU-b\t\r").sorted(), ids(&["GPU-a", "GPU-b"]));
}

#[test]
fn identifiers_are_otherwise_kept_as_they_are() {
    assert_eq!(parse_text("  GPU a\n").sorted(), ids(&["  GPU a"]));
    assert_eq!(parse_text("a,b\n").sorted(), ids(&["a,b"]));
    assert_eq!(parse_text("gpu-é\n").sorted(), ids(&["gpu-é"]));
}

#[test]
fn output_of_a_completed_run() {
    let r = parse_output(&completed("b\na\nc\n")).unwrap();
    assert_eq!(r.sorted(), ids(&["a", "b", "c"]));
    let r = parse_output(&completed("")).unwrap();
    assert!(r.is_empty());
}

#[test]
fn output_of_a_failed_run() {
    assert_eq!(parse_output(&QueryOutcome::Failed).err(), Some(Failure::QueryExecutionError));
}

#[test]
fn output_that_is_not_text() {
    let bad = QueryOutcome::Completed(vec![b'a', b'\n', 0xff, b'\n']);
    assert_eq!(parse_output(&bad).err(), Some(Failure::QueryOutputDecodeError));
    let cut = QueryOutcome::Completed(vec![0xe6, 0x97]);
    assert_eq!(parse_output(&cut).err(), Some(Failure::QueryOutputDecodeError));
    let surrogate = QueryOutcome::Completed(vec![0xed, 0xa0, 0x80]);
    assert_eq!(parse_output(&surrogate).err(), Some(Failure::QueryOutputDecodeError));
}

#[test]
fn output_with_text_beyond_ascii() {
    let r = parse_output(&completed("日本\né\n")).unwrap();
    assert_eq!(r.sorted(), ids(&["é", "日本"]));
}

#[test]
fn candidates_follow_the_search_path() {
    assert_eq!(
        search_candidates("/usr/local/bin:/usr/bin:/bin", "nvidia-smi"),
        ids(&["/usr/local/bin/nvidia-smi", "/usr/bin/nvidia-smi", "/bin/nvidia-smi"])
    );
}

#[test]
fn candidates_of_empty_entries() {
    assert_eq!(search_candidates("", "t"), ids(&["/t"]));
    assert_eq!(search_candidates(":", "t"), ids(&["/t", "/t"]));
    assert_eq!(search_candidates("a::b:", "t"), ids(&["a/t", "/t", "b/t", "/t"]));
    assert_eq!(search_candidates("/opt/x/", "t"), ids(&["/opt/x//t"]));
}

#[test]
fn split_at_separator() {
    assert_eq!(split("a:b:c", ':'), ids(&["a", "b", "c"]));
    assert_eq!(split("", ':'), ids(&[""]));
    assert_eq!(split("abc", ':'), ids(&["abc"]));
    assert_eq!(split(":a:", ':'), ids(&["", "a", ""]));
    assert_eq!(split("a\n\nb\n", '\n'), ids(&["a", "", "b", ""]));
}

#[test]
fn split_is_that_of_str() {
    for text in ["", ":", "a", "a:b", "::", "a::b:", ":é:日本", "x:y:z:"] {
        let expected: Vec<String> = text.split(':').map(String::from).collect();
        assert_eq!(split(text, ':'), expected);
    }
}

#[test]
fn join_with_separator() {
    assert_eq!(join(&ids(&["a", "b", "c"]), ','), "a,b,c");
    assert_eq!(join(&ids(&[]), ','), "");
    assert_eq!(join(&ids(&["a"]), ','), "a");
    assert_eq!(join(&ids(&["", "a", ""]), ':'), ":a:");
}

#[test]
fn join_undoes_split() {
    for text in ["", ":", "a", "a:b", "::", "a::b:", ":é:日本"] {
        assert_eq!(join(&split(text, ':'), ':'), text);
    }
}

#[test]
fn trim_end_drops_trailing_blanks_only() {
    assert_eq!(trim_end("abc"), "abc");
    assert_eq!(trim_end("abc \t\r\n\x0c"), "abc");
    assert_eq!(trim_end("  a b  "), "  a b");
    assert_eq!(trim_end(" \t "), "");
    assert_eq!(trim_end(""), "");
    assert_eq!(trim_end("a\u{a0}"), "a\u{a0}");
}

#[test]
fn blank_characters() {
    for c in [' ', '\t', '\n', '\r', '\x0c'] {
        assert!(is_blank(c));
    }
    for c in ['a', '0', '-', '\x0b', '\u{a0}', '\0'] {
        assert!(!is_blank(c));
    }
}
