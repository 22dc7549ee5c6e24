use hq::pipeline::{BuildError, StageSpec, build_pipeline};
use hq::split::split_stages;

fn bv(s: &str) -> Vec<u8> {
    s.as_bytes().to_vec()
}

fn tokens(args: &[&str]) -> Vec<Vec<u8>> {
    args.iter().map(|s| bv(s)).collect()
}

fn spec(selectors: &[&str], substrings: &[&str], regexes: &[&str]) -> StageSpec {
    StageSpec {
        bang: false,
        parent: false,
        selectors: selectors.iter().map(|s| bv(s)).collect(),
        substrings: substrings.iter().map(|s| bv(s)).collect(),
        regexes: regexes.iter().map(|s| bv(s)).collect(),
    }
}

#[test]
fn split_without_separator_is_one_segment() {
    let segs = split_stages(&tokens(&["hq", "-c", "li", "x.html"]));
    assert_eq!(segs.len(), 1);
    assert!(!segs[0].bang);
    assert_eq!(segs[0].tokens, tokens(&["hq", "-c", "li", "x.html"]));
}

#[test]
fn split_on_pipe_keeps_current_direction() {
    let segs = split_stages(&tokens(&["hq", "-c", "ul", "|", "-c", "li"]));
    assert_eq!(segs.len(), 2);
    assert!(!segs[0].bang);
    assert!(!segs[1].bang);
    assert_eq!(segs[0].tokens, tokens(&["hq", "-c", "ul"]));
    assert_eq!(segs[1].tokens, tokens(&["-c", "li"]));
}

#[test]
fn split_on_bang_marks_following_segment() {
    let segs = split_stages(&tokens(&["hq", "-c", "div", "!", "-c", "p"]));
    assert_eq!(segs.len(), 2);
    assert!(!segs[0].bang);
    assert!(segs[1].bang);
    assert_eq!(segs[1].tokens, tokens(&["-c", "p"]));
}

#[test]
fn split_trailing_separator_yields_empty_segment() {
    let segs = split_stages(&tokens(&["hq", "-c", "div", "|"]));
    assert_eq!(segs.len(), 2);
    assert_eq!(segs[1].tokens.len(), 0);
}

#[test]
fn split_adjacent_separators_yield_empty_segment() {
    let segs = split_stages(&tokens(&["hq", "!", "|", "-c", "p"]));
    assert_eq!(segs.len(), 3);
    assert!(!segs[0].bang);
    assert!(segs[1].bang);
    assert_eq!(segs[1].tokens.len(), 0);
    assert!(!segs[2].bang);
}

#[test]
fn separator_lookalike_tokens_are_not_separators() {
    let segs = split_stages(&tokens(&["hq", "-s", "!!", "||"]));
    assert_eq!(segs.len(), 1);
    assert_eq!(segs[0].tokens, tokens(&["hq", "-s", "!!", "||"]));
}

#[test]
fn empty_pipeline_is_rejected() {
    match build_pipeline(Vec::new()) {
        Err(BuildError::NoStages) => {},
        _ => panic!("an empty pipeline must be rejected"),
    }
}

#[test]
fn invalid_selector_is_reported_with_its_text() {
    match build_pipeline(vec![spec(&["li", "["], &[], &[])]) {
        Err(BuildError::InvalidSelector(s)) => assert_eq!(s, bv("[")),
        _ => panic!("an unparsable selector must be rejected"),
    }
}

#[test]
fn invalid_regex_is_reported_with_its_text() {
    match build_pipeline(vec![spec(&["li"], &[], &["("])]) {
        Err(BuildError::InvalidRegex(s)) => assert_eq!(s, bv("(")),
        _ => panic!("an unparsable regex must be rejected"),
    }
}

#[test]
fn selector_errors_take_precedence_over_regex_errors() {
    match build_pipeline(vec![spec(&["["], &[], &["("])]) {
        Err(BuildError::InvalidSelector(s)) => assert_eq!(s, bv("[")),
        _ => panic!("the selector error comes first within a segment"),
    }
}

#[test]
fn first_failing_stage_is_reported() {
    match build_pipeline(vec![spec(&["li"], &[], &["("]), spec(&["["], &[], &[])]) {
        Err(BuildError::InvalidRegex(s)) => assert_eq!(s, bv("(")),
        _ => panic!("the first failing stage comes first"),
    }
}

#[test]
fn valid_pipeline_builds_all_stages() {
    let built = build_pipeline(vec![
        spec(&["div"], &["x"], &[]),
        spec(&["p", "span"], &[], &["^a"]),
    ]);
    match built {
        Ok(stages) => assert_eq!(stages.len(), 2),
        Err(_) => panic!("a valid pipeline must build"),
    }
}
