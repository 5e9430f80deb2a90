use nix_value_selector::engine::ValueWithContext;
use nix_value_selector::error::SelectError;
use nix_value_selector::parse::parse_document;
use nix_value_selector::path::AttributePath;
use nix_value_selector::pattern::ValueShape;
use nix_value_selector::scope::FrameKind;
use nix_value_selector::scope::ScopeFrame;
use nix_value_selector::select::NixFile;
use nix_value_selector::select::ValueQuery;

fn parsed(src: &str) -> NixFile {
    parse_document(src.as_bytes().to_vec()).expect("document should parse")
}

fn path(spelling: &str) -> AttributePath {
    AttributePath::from_dotted(&spelling.as_bytes().to_vec()).expect("path should be valid")
}

fn dynamic(depth: usize) -> ScopeFrame {
    ScopeFrame { kind: FrameKind::DynamicEnvironment, depth }
}

fn lexical(depth: usize) -> ScopeFrame {
    ScopeFrame { kind: FrameKind::LexicalBindings, depth }
}

fn drain(q: &mut ValueQuery) -> Vec<ValueWithContext> {
    let mut out = Vec::new();
    while let Some(v) = q.next() {
        out.push(v);
    }
    out
}

fn texts(file: &NixFile, records: &[ValueWithContext]) -> Vec<String> {
    records
        .iter()
        .map(|r| String::from_utf8(file.value_text(r)).unwrap())
        .collect()
}

#[test]
fn one_dynamic_frame_three_elements() {
    let file = parsed("{ x = with pkgs; [ a b c ]; }");
    let frames = vec![dynamic(0)];
    let mut q = file
        .select_value(&path("x"), ValueShape::ListElements, &frames)
        .unwrap();
    assert_eq!(q.match_count(), 1);
    assert_eq!(q.record_count(), 3);
    let records = drain(&mut q);
    assert_eq!(texts(&file, &records), vec!["a", "b", "c"]);
    for r in &records {
        let ctx = file.context_text(r).expect("a scope should be reported");
        assert_eq!(String::from_utf8(ctx).unwrap(), "pkgs");
    }
    assert!(q.next().is_none());
}

#[test]
fn absent_path_yields_empty_sequence() {
    let file = parsed("{ x = with pkgs; [ a b c ]; }");
    let frames = vec![dynamic(0)];
    let mut q = file
        .select_value(&path("absent"), ValueShape::ListElements, &frames)
        .unwrap();
    assert_eq!(q.match_count(), 0);
    assert_eq!(q.record_count(), 0);
    assert!(q.next().is_none());
}

#[test]
fn literal_dot_matches_only_the_literal_name() {
    let file = parsed("{ azb = [ one ]; \"a.b\" = [ two ]; }");
    let adversarial =
        AttributePath::from_segments(vec![b"a.b".to_vec()]).expect("literal dot is a valid name");
    let mut q = file
        .select_value(&adversarial, ValueShape::ListElements, &Vec::new())
        .unwrap();
    let records = drain(&mut q);
    assert_eq!(q.match_count(), 1);
    assert_eq!(texts(&file, &records), vec!["two"]);
}

#[test]
fn plain_name_does_not_reach_quoted_lookalike() {
    let file = parsed("{ azb = [ one ]; \"a.b\" = [ two ]; }");
    let mut q = file
        .select_value(&path("azb"), ValueShape::ListElements, &Vec::new())
        .unwrap();
    let records = drain(&mut q);
    assert_eq!(texts(&file, &records), vec!["one"]);
}

#[test]
fn reversed_elements_reverse_the_output() {
    let forward = parsed("{ x = with pkgs; [ a b c ]; }");
    let backward = parsed("{ x = with pkgs; [ c b a ]; }");
    let frames = vec![dynamic(0)];
    let mut qf = forward
        .select_value(&path("x"), ValueShape::ListElements, &frames)
        .unwrap();
    let mut qb = backward
        .select_value(&path("x"), ValueShape::ListElements, &frames)
        .unwrap();
    let ft = texts(&forward, &drain(&mut qf));
    let mut bt = texts(&backward, &drain(&mut qb));
    bt.reverse();
    assert_eq!(ft, bt);
}

#[test]
fn empty_list_matches_with_zero_records() {
    let file = parsed("{ y = with pkgs; [ ]; }");
    let frames = vec![dynamic(0)];
    let mut q = file
        .select_value(&path("y"), ValueShape::ListElements, &frames)
        .unwrap();
    assert_eq!(q.match_count(), 1);
    assert_eq!(q.record_count(), 0);
    assert!(q.next().is_none());
}

#[test]
fn attrset_entry_shape_is_reported_unsupported() {
    let file = parsed("{ x = with pkgs; [ a ]; }");
    let frames = vec![dynamic(0)];
    let first = file.select_value(&path("x"), ValueShape::AttrsetEntry, &frames);
    let second = file.select_value(&path("x"), ValueShape::AttrsetEntry, &frames);
    assert!(matches!(first, Err(SelectError::UnsupportedValueShape)));
    assert!(matches!(second, Err(SelectError::UnsupportedValueShape)));
}

#[test]
fn rerunning_a_request_is_deterministic() {
    let file = parsed("{ x = with pkgs; [ a b ]; y = { x = with qs; [ d ]; }; }");
    let frames = vec![dynamic(0)];
    let mut q1 = file
        .select_value(&path("x"), ValueShape::ListElements, &frames)
        .unwrap();
    let mut q2 = file
        .select_value(&path("x"), ValueShape::ListElements, &frames)
        .unwrap();
    let r1 = drain(&mut q1);
    let r2 = drain(&mut q2);
    assert_eq!(r1, r2);
    q1.reset();
    let r3 = drain(&mut q1);
    assert_eq!(r1, r3);
}

#[test]
fn matches_come_in_document_order() {
    let file = parsed("{ x = with ps; [ a b ]; y = { x = with qs; [ d ]; }; }");
    let frames = vec![dynamic(0)];
    let mut q = file
        .select_value(&path("x"), ValueShape::ListElements, &frames)
        .unwrap();
    assert_eq!(q.match_count(), 2);
    let records = drain(&mut q);
    assert_eq!(texts(&file, &records), vec!["a", "b", "d"]);
    let c0 = String::from_utf8(file.context_text(&records[0]).unwrap()).unwrap();
    let c2 = String::from_utf8(file.context_text(&records[2]).unwrap()).unwrap();
    assert_eq!(c0, "ps");
    assert_eq!(c2, "qs");
}

#[test]
fn nested_matches_interleave_in_document_order() {
    let file = parsed("{ x = [ { x = [ a ]; } b ]; }");
    let mut q = file
        .select_value(&path("x"), ValueShape::ListElements, &Vec::new())
        .unwrap();
    assert_eq!(q.match_count(), 2);
    let records = drain(&mut q);
    assert_eq!(texts(&file, &records), vec!["{ x = [ a ]; }", "a", "b"]);
    for pair in records.windows(2) {
        assert!(pair[0].value.start <= pair[1].value.start);
    }
}

#[test]
fn lexical_frame_reports_its_binding_group() {
    let file = parsed("{ x = let q = 1; in [ a b ]; }");
    let frames = vec![lexical(0)];
    let mut q = file
        .select_value(&path("x"), ValueShape::ListElements, &frames)
        .unwrap();
    let records = drain(&mut q);
    assert_eq!(texts(&file, &records), vec!["a", "b"]);
    let ctx = String::from_utf8(file.context_text(&records[0]).unwrap()).unwrap();
    assert_eq!(ctx, "q = 1;");
}

#[test]
fn two_frames_report_the_innermost_scope() {
    let file = parsed("{ x = with pkgs; let q = 1; in [ a ]; }");
    let frames = vec![dynamic(0), lexical(1)];
    let mut q = file
        .select_value(&path("x"), ValueShape::ListElements, &frames)
        .unwrap();
    let records = drain(&mut q);
    assert_eq!(texts(&file, &records), vec!["a"]);
    let ctx = String::from_utf8(file.context_text(&records[0]).unwrap()).unwrap();
    assert_eq!(ctx, "q = 1;");
}

#[test]
fn no_frame_requested_reports_no_scope() {
    let file = parsed("{ x = [ a ]; }");
    let mut q = file
        .select_value(&path("x"), ValueShape::ListElements, &Vec::new())
        .unwrap();
    let records = drain(&mut q);
    assert_eq!(records.len(), 1);
    assert!(records[0].context.is_none());
    assert!(file.context_text(&records[0]).is_none());
}

#[test]
fn dotted_path_addresses_nested_attribute() {
    let file = parsed("{ a.b = with p; [ v ]; }");
    let frames = vec![dynamic(0)];
    let mut q = file
        .select_value(&path("a.b"), ValueShape::ListElements, &frames)
        .unwrap();
    let records = drain(&mut q);
    assert_eq!(texts(&file, &records), vec!["v"]);
}

#[test]
fn misordered_frames_are_rejected() {
    let file = parsed("{ x = with pkgs; [ a ]; }");
    let frames = vec![dynamic(1), lexical(0)];
    let r = file.select_value(&path("x"), ValueShape::ListElements, &frames);
    assert!(matches!(r, Err(SelectError::InvalidScopeOrdering)));
    let equal = vec![dynamic(1), lexical(1)];
    let r2 = file.select_value(&path("x"), ValueShape::ListElements, &equal);
    assert!(matches!(r2, Err(SelectError::InvalidScopeOrdering)));
}

#[test]
fn invalid_paths_are_rejected() {
    assert!(matches!(
        AttributePath::from_segments(Vec::new()),
        Err(SelectError::InvalidAttributePath)
    ));
    assert!(matches!(
        AttributePath::from_dotted(&b"".to_vec()),
        Err(SelectError::InvalidAttributePath)
    ));
    assert!(matches!(
        AttributePath::from_dotted(&b"a..b".to_vec()),
        Err(SelectError::InvalidAttributePath)
    ));
    assert!(matches!(
        AttributePath::from_dotted(&b"a.".to_vec()),
        Err(SelectError::InvalidAttributePath)
    ));
    assert!(matches!(
        AttributePath::from_segments(vec![b"a\"b".to_vec()]),
        Err(SelectError::InvalidAttributePath)
    ));
    assert!(matches!(
        AttributePath::from_segments(vec![b"a${b".to_vec()]),
        Err(SelectError::InvalidAttributePath)
    ));
    assert!(AttributePath::from_segments(vec![b"a$b".to_vec()]).is_ok());
}

#[test]
fn malformed_document_is_a_parse_error() {
    let r = parse_document(b"{ x = ".to_vec());
    assert!(matches!(r, Err(SelectError::ParseError)));
}

#[test]
fn comments_between_elements_are_skipped() {
    let file = parsed("{ x = with pkgs; [ a /* note */ b ]; }");
    let frames = vec![dynamic(0)];
    let mut q = file
        .select_value(&path("x"), ValueShape::ListElements, &frames)
        .unwrap();
    let records = drain(&mut q);
    assert_eq!(texts(&file, &records), vec!["a", "b"]);
}
