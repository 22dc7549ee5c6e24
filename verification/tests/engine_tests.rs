use hq::engine::process_source;
use hq::pipeline::{StageSpec, build_pipeline};
use hq::recorder::Opts;
use hq::stage::Stage;

fn bv(s: &str) -> Vec<u8> {
    s.as_bytes().to_vec()
}

fn spec(selectors: &[&str], substrings: &[&str], regexes: &[&str]) -> StageSpec {
    StageSpec {
        bang: false,
        parent: false,
        selectors: selectors.iter().map(|s| bv(s)).collect(),
        substrings: substrings.iter().map(|s| bv(s)).collect(),
        regexes: regexes.iter().map(|s| bv(s)).collect(),
    }
}

fn default_opts() -> Opts {
    Opts::build(
        Vec::new(),
        false,
        false,
        false,
        false,
        false,
        false,
        false,
        false,
        false,
        1,
    )
}

fn stages(specs: Vec<StageSpec>) -> Vec<Stage> {
    match build_pipeline(specs) {
        Ok(s) => s,
        Err(_) => panic!("pipeline should build"),
    }
}

fn run(source: &str, pipeline: &Vec<Stage>, opts: &Opts, path: &str) -> (String, bool) {
    let (out, stop) = process_source(&bv(source), pipeline, opts, &bv(path));
    (String::from_utf8(out).unwrap(), stop)
}

#[test]
fn serialize_two_matches_in_document_order() {
    let p = stages(vec![spec(&["li"], &[], &[])]);
    let (out, stop) = run("<ul><li>a</li><li>b</li></ul>", &p, &default_opts(), "-");
    assert_eq!(out, "<li>a</li>\n<li>b</li>\n");
    assert!(!stop);
}

#[test]
fn text_mode_two_matches() {
    let opts = Opts::build(
        Vec::new(),
        false,
        false,
        true,
        false,
        false,
        false,
        false,
        false,
        false,
        1,
    );
    let p = stages(vec![spec(&["li"], &[], &[])]);
    let (out, _) = run("<ul><li>a</li><li>b</li></ul>", &p, &opts, "-");
    assert_eq!(out, "a\nb\n");
}

#[test]
fn count_mode_single_record() {
    let opts = Opts::build(
        Vec::new(),
        false,
        false,
        false,
        false,
        false,
        false,
        true,
        false,
        false,
        1,
    );
    let p = stages(vec![spec(&["li"], &[], &[])]);
    let (out, stop) = run("<ul><li>a</li><li>b</li></ul>", &p, &opts, "-");
    assert_eq!(out, "2\n");
    assert!(!stop);
}

#[test]
fn count_mode_no_match_prints_nothing() {
    let opts = Opts::build(
        Vec::new(),
        false,
        false,
        false,
        false,
        false,
        false,
        true,
        false,
        false,
        1,
    );
    let p = stages(vec![spec(&["p"], &[], &[])]);
    let (out, _) = run("<ul><li>a</li></ul>", &p, &opts, "-");
    assert_eq!(out, "");
}

#[test]
fn prefix_auto_enabled_for_multiple_sources() {
    let opts = Opts::build(
        Vec::new(),
        false,
        false,
        false,
        false,
        false,
        false,
        false,
        false,
        false,
        2,
    );
    let p = stages(vec![spec(&["li"], &[], &[])]);
    let (out1, _) = run("<ul><li>a</li></ul>", &p, &opts, "s1");
    let (out2, _) = run("<ul><li>b</li></ul>", &p, &opts, "s2");
    assert_eq!(out1, "s1:<li>a</li>\n");
    assert_eq!(out2, "s2:<li>b</li>\n");
}

#[test]
fn no_prefix_flag_overrides_auto_prefix() {
    let opts = Opts::build(
        Vec::new(),
        false,
        false,
        false,
        true,
        true,
        false,
        false,
        false,
        false,
        2,
    );
    let p = stages(vec![spec(&["li"], &[], &[])]);
    let (out, _) = run("<ul><li>a</li></ul>", &p, &opts, "s1");
    assert_eq!(out, "<li>a</li>\n");
}

#[test]
fn colorized_prefix_bytes() {
    let opts = Opts::build(
        Vec::new(),
        false,
        false,
        false,
        true,
        false,
        false,
        false,
        false,
        true,
        1,
    );
    let p = stages(vec![spec(&["li"], &[], &[])]);
    let (out, _) = process_source(
        &bv("<ul><li>a</li></ul>"),
        &p,
        &opts,
        &bv("s"),
    );
    assert_eq!(out, b"\x1b[35ms:\x1b[0m<li>a</li>\n".to_vec());
}

#[test]
fn quiet_mode_emits_nothing_and_stops_on_match() {
    let opts = Opts::build(
        Vec::new(),
        false,
        true,
        false,
        false,
        false,
        false,
        false,
        false,
        false,
        2,
    );
    let p = stages(vec![spec(&["li"], &[], &[])]);
    let (out, stop) = run("<ul><li>a</li></ul>", &p, &opts, "s1");
    assert_eq!(out, "");
    assert!(stop);
    let (out2, stop2) = run("<ul><p>a</p></ul>", &p, &opts, "s2");
    assert_eq!(out2, "");
    assert!(!stop2);
}

#[test]
fn count_suppresses_quiet_stop() {
    let opts = Opts::build(
        Vec::new(),
        false,
        true,
        false,
        false,
        false,
        false,
        true,
        false,
        false,
        1,
    );
    let p = stages(vec![spec(&["li"], &[], &[])]);
    let (out, stop) = run("<ul><li>a</li><li>b</li></ul>", &p, &opts, "-");
    assert_eq!(out, "2\n");
    assert!(!stop);
}

#[test]
fn list_mode_prints_path_once_per_source() {
    let opts = Opts::build(
        Vec::new(),
        true,
        false,
        false,
        false,
        false,
        false,
        false,
        false,
        false,
        1,
    );
    let p = stages(vec![spec(&["li"], &[], &[])]);
    let (out, _) = run("<ul><li>a</li><li>b</li></ul>", &p, &opts, "page.html");
    assert_eq!(out, "page.html\n");
}

#[test]
fn attribute_extraction_missing_attribute_is_empty() {
    let opts = Opts::build(
        vec![bv("href")],
        false,
        false,
        false,
        false,
        false,
        false,
        false,
        false,
        false,
        1,
    );
    let p = stages(vec![spec(&["a"], &[], &[])]);
    let (out, _) = run("<p><a href=\"x\">t</a><a>u</a></p>", &p, &opts, "-");
    assert_eq!(out, "x\n\n");
}

#[test]
fn attribute_extraction_in_request_order() {
    let opts = Opts::build(
        vec![bv("id"), bv("class")],
        false,
        false,
        false,
        false,
        false,
        false,
        false,
        false,
        false,
        1,
    );
    let p = stages(vec![spec(&["a"], &[], &[])]);
    let (out, _) = run("<a id=\"i\" class=\"c\">t</a>", &p, &opts, "-");
    assert_eq!(out, "i\nc\n");
}

#[test]
fn trim_strips_whitespace_from_text() {
    let opts = Opts::build(
        Vec::new(),
        false,
        false,
        true,
        false,
        false,
        true,
        false,
        false,
        false,
        1,
    );
    let p = stages(vec![spec(&["li"], &[], &[])]);
    let (out, _) = run("<ul><li>  a  </li></ul>", &p, &opts, "-");
    assert_eq!(out, "a\n");
}

#[test]
fn print0_terminates_records_with_nul() {
    let opts = Opts::build(
        Vec::new(),
        false,
        false,
        false,
        false,
        false,
        false,
        true,
        true,
        false,
        1,
    );
    let p = stages(vec![spec(&["li"], &[], &[])]);
    let (out, _) = process_source(
        &bv("<ul><li>a</li><li>b</li></ul>"),
        &p,
        &opts,
        &bv("-"),
    );
    assert_eq!(out, b"2\0".to_vec());
}

#[test]
fn multiple_patterns_union_in_declaration_order() {
    let p = stages(vec![spec(&["li", "p"], &[], &[])]);
    let (out, _) = run(
        "<div><li>a</li><p>b</p><li>c</li></div>",
        &p,
        &default_opts(),
        "-",
    );
    assert_eq!(out, "<li>a</li>\n<li>c</li>\n<p>b</p>\n");
}

#[test]
fn element_matched_by_two_patterns_is_not_deduplicated() {
    let p = stages(vec![spec(&["li", ".x"], &[], &[])]);
    let (out, _) = run("<ul><li class=\"x\">a</li></ul>", &p, &default_opts(), "-");
    assert_eq!(out, "<li class=\"x\">a</li>\n<li class=\"x\">a</li>\n");
}

#[test]
fn substring_filter_passes_matching_text() {
    let p = stages(vec![spec(&["li"], &[], &[]), spec(&[], &["needle"], &[])]);
    let (out, _) = run(
        "<ul><li>a needle b</li><li>nothing</li></ul>",
        &p,
        &default_opts(),
        "-",
    );
    assert_eq!(out, "<li>a needle b</li>\n");
}

#[test]
fn substring_filter_on_root_passes_through() {
    let opts = Opts::build(
        Vec::new(),
        false,
        false,
        true,
        false,
        false,
        false,
        false,
        false,
        false,
        1,
    );
    let p = stages(vec![spec(&[], &["needle"], &[])]);
    let (out, _) = run("<p>has needle here</p>", &p, &opts, "-");
    assert_eq!(out, "has needle here\n");
    let (out2, _) = run("<p>nothing</p>", &p, &opts, "-");
    assert_eq!(out2, "");
}

#[test]
fn regex_filter_selects_matching_text() {
    let p = stages(vec![spec(&["li"], &[], &[]), spec(&[], &[], &["^a+$"])]);
    let (out, _) = run(
        "<ul><li>aaa</li><li>bbb</li></ul>",
        &p,
        &default_opts(),
        "-",
    );
    assert_eq!(out, "<li>aaa</li>\n");
}

#[test]
fn substring_or_regex_either_suffices() {
    let p = stages(vec![
        spec(&["li"], &[], &[]),
        spec(&[], &["bbb"], &["^a+$"]),
    ]);
    let (out, _) = run(
        "<ul><li>aaa</li><li>bbb</li><li>ccc</li></ul>",
        &p,
        &default_opts(),
        "-",
    );
    assert_eq!(out, "<li>aaa</li>\n<li>bbb</li>\n");
}

#[test]
fn empty_stage_passes_everything_through() {
    let opts = Opts::build(
        Vec::new(),
        false,
        false,
        true,
        false,
        false,
        false,
        false,
        false,
        false,
        1,
    );
    let p = stages(vec![spec(&[], &[], &[])]);
    let (out, _) = run("<p>x</p>", &p, &opts, "-");
    assert_eq!(out, "x\n");
}

#[test]
fn document_direction_is_existence_filter() {
    let mut second = spec(&["p"], &[], &[]);
    second.bang = true;
    let p = stages(vec![spec(&["div"], &[], &[]), second]);
    let (out, _) = run(
        "<body><div id=\"1\"><p>x</p><p>y</p></div><div id=\"2\"><p>z</p></div><div id=\"3\"><span>w</span></div></body>",
        &p,
        &default_opts(),
        "-",
    );
    assert_eq!(
        out,
        "<div id=\"1\"><p>x</p><p>y</p></div>\n<div id=\"1\"><p>x</p><p>y</p></div>\n<div id=\"2\"><p>z</p></div>\n"
    );
}

#[test]
fn parent_flag_keeps_current_element() {
    let mut only = spec(&["li"], &[], &[]);
    only.parent = true;
    let opts = Opts::build(
        Vec::new(),
        false,
        false,
        false,
        false,
        false,
        false,
        true,
        false,
        false,
        1,
    );
    let p = stages(vec![only]);
    let (out, _) = run("<ul><li>a</li><li>b</li></ul>", &p, &opts, "-");
    assert_eq!(out, "2\n");
}

#[test]
fn current_chain_equals_descendant_combinator() {
    let two = stages(vec![spec(&["ul"], &[], &[]), spec(&["li"], &[], &[])]);
    let one = stages(vec![spec(&["ul li"], &[], &[])]);
    let source = "<div><ul><li>a</li><li>b</li></ul><li>outside</li></div>";
    let (out_two, _) = run(source, &two, &default_opts(), "-");
    let (out_one, _) = run(source, &one, &default_opts(), "-");
    assert_eq!(out_two, "<li>a</li>\n<li>b</li>\n");
    assert_eq!(out_two, out_one);
}

#[test]
fn count_mode_multi_digit_number() {
    let opts = Opts::build(
        Vec::new(),
        false,
        false,
        false,
        false,
        false,
        false,
        true,
        false,
        false,
        1,
    );
    let p = stages(vec![spec(&["li"], &[], &[])]);
    let source = format!("<ul>{}</ul>", "<li>x</li>".repeat(12));
    let (out, _) = run(&source, &p, &opts, "-");
    assert_eq!(out, "12\n");
}

#[test]
fn count_equals_records_emitted_by_default_mode() {
    let p = stages(vec![spec(&["li"], &[], &[])]);
    let source = "<ul><li>x</li><li>y</li><li>z</li></ul>";
    let count_opts = Opts::build(
        Vec::new(),
        false,
        false,
        false,
        false,
        false,
        false,
        true,
        false,
        false,
        1,
    );
    let (count_out, _) = run(source, &p, &count_opts, "-");
    let (out, _) = run(source, &p, &default_opts(), "-");
    let records = out.lines().count();
    assert_eq!(count_out, format!("{}\n", records));
}
