use rn::collision::{find_collision, plan_renames, target_names_different, RenameError};
use rn::engine::Expression;
use rn::grammar::{CaptureKind, CompileError};
use rn::projector::ProjectionError;

fn compile(txt: &str) -> Expression {
    Expression::from_str(txt).expect("pattern should compile")
}

fn compile_err(txt: &str) -> CompileError {
    match Expression::from_str(txt) {
        Ok(e) => panic!("pattern {} compiled to {}", txt, e.to_string()),
        Err(err) => err,
    }
}

fn names(v: &[&str]) -> Vec<String> {
    v.iter().map(|s| s.to_string()).collect()
}

#[test]
fn engine_test_from_str() {
    let txt1 = ".*0\\[remove].*1";
    let txt2 = "[remove]0.0";
    let txt3 = "\\[*0.1.*2[cenas]2.0";

    // A `.` takes a digit id or a character set; `.*` is neither.
    assert_eq!(CompileError::MissingId, compile_err(txt1));
    let expr2 = Expression::from_str(txt2).expect("Panicked at txt2");
    assert_eq!(CompileError::MissingId, compile_err(txt3));

    assert_eq!("[remove]0.0", expr2.to_string());

    let expr1 = Expression::from_str("*0\\[remove]*1").expect("Panicked at txt1");
    let expr3 = Expression::from_str("\\[*0.1*2[cenas]2.0").expect("Panicked at txt3");
    assert_eq!("*0\\[remove\\]*1", expr1.to_string());
    assert_eq!("\\[*0.1*2[cenas]2.0", expr3.to_string());
}

#[test]
fn literal_only_pattern_matches_exactly() {
    let p = compile("report\\.txt");
    assert!(p.match_name("report.txt").is_some());
    assert!(p.match_name("report.txt2").is_none());
    assert!(p.match_name("my_report.txt").is_none());
    assert!(p.match_name("").is_none());
    let empty = compile("");
    assert_eq!(0, empty.len());
    assert!(empty.match_name("").is_some());
    assert!(empty.match_name("a").is_none());
}

#[test]
fn duplicate_id_same_kind_is_rejected() {
    assert_eq!(CompileError::DuplicateId, compile_err("*0*0"));
    assert_eq!(CompileError::DuplicateId, compile_err("*0x*0"));
    assert_eq!(CompileError::DuplicateId, compile_err(".3a[bc]1.3"));
    assert_eq!(CompileError::DuplicateId, compile_err("[ab]2x[cd]2"));
    // Same id, different kinds.
    let p = compile("*3_.3[ab]3");
    assert_eq!(4, p.len());
}

#[test]
fn misplaced_anchors_are_rejected() {
    assert_eq!(CompileError::MisplacedAnchor, compile_err("a^b"));
    assert_eq!(CompileError::MisplacedAnchor, compile_err("*0^"));
    assert_eq!(CompileError::MisplacedAnchor, compile_err("a$b"));
    assert_eq!(CompileError::MisplacedAnchor, compile_err("$a"));
    assert_eq!(CompileError::MisplacedAnchor, compile_err("^^"));
    let p = compile("^*0_old$");
    assert_eq!(4, p.len());
    assert_eq!("^*0_old$", p.to_string());
    // Escaped anchors are literal text.
    let q = compile("a\\^b\\$");
    assert!(q.match_name("a^b$").is_some());
}

#[test]
fn other_compile_errors() {
    assert_eq!(CompileError::MissingId, compile_err("*"));
    assert_eq!(CompileError::MissingId, compile_err("*x"));
    assert_eq!(CompileError::MissingId, compile_err("[ab]"));
    assert_eq!(CompileError::MissingId, compile_err("[ab]x"));
    assert_eq!(CompileError::UnterminatedCharSet, compile_err("[ab"));
    assert_eq!(CompileError::UnterminatedCharSet, compile_err("[ab\\]0"));
    assert_eq!(CompileError::DanglingEscape, compile_err("ab\\"));
    assert_eq!(CompileError::DanglingEscape, compile_err("a\\bc"));
    assert_eq!(CompileError::AmbiguousCapture, compile_err("*0*1"));
    // The first error from the left wins.
    assert_eq!(CompileError::DuplicateId, compile_err("*0*0\\"));
}

#[test]
fn round_trip_through_canonical_text() {
    for txt in [
        "*0_old",
        "^a\\*b[x\\]y]3.4$",
        ".[abc]1tail",
        "a+b?c{d}e]f",
        "\\\\*0\\.",
        "",
    ] {
        let p = compile(txt);
        let text = p.to_string();
        let q = compile(&text);
        assert_eq!(text, q.to_string());
        assert_eq!(p.len(), q.len());
    }
    assert_eq!("a\\+b\\?c\\{d\\}e\\]f", compile("a+b?c{d}e]f").to_string());
}

#[test]
fn scenario_suffix_capture_and_projection() {
    let source = compile("*0_old");
    let target = compile("*0_new");
    let caps = source.match_name("file_old").expect("should match");
    assert_eq!(Some("file"), caps.get(CaptureKind::Any, 0));
    assert_eq!("file_new", target.gen_name(&caps).unwrap());
}

#[test]
fn scenario_single_characters() {
    let source = compile(".0.1");
    let caps = source.match_name("ab").expect("should match");
    assert_eq!(Some("a"), caps.get(CaptureKind::Char, 0));
    assert_eq!(Some("b"), caps.get(CaptureKind::Char, 1));
    assert!(source.match_name("abc").is_none());
    assert!(source.match_name("a").is_none());
}

#[test]
fn scenario_character_set() {
    let source = compile("[abc]0rest");
    let caps = source.match_name("arest").expect("should match");
    assert_eq!(Some("a"), caps.get(CaptureKind::Class, 0));
    assert!(source.match_name("drest").is_none());
    let dotted = compile(".[abc]0rest");
    assert!(dotted.match_name("crest").is_some());
}

#[test]
fn set_searches_past_a_pending_run() {
    let source = compile("*0[0123456789]1\\.txt");
    let caps = source.match_name("track7.txt").expect("should match");
    assert_eq!(Some("track"), caps.get(CaptureKind::Any, 0));
    assert_eq!(Some("7"), caps.get(CaptureKind::Class, 1));
}

#[test]
fn trailing_run_and_end_anchor() {
    let source = compile("img_*0");
    let caps = source.match_name("img_2020").unwrap();
    assert_eq!(Some("2020"), caps.get(CaptureKind::Any, 0));
    // `$` is zero-width and needs the rest of the name to be empty, so a
    // pending `*` before it takes nothing.
    let anchored = compile("img_*0$");
    assert!(anchored.match_name("img_x").is_none());
    let caps = anchored.match_name("img_").unwrap();
    assert_eq!(Some(""), caps.get(CaptureKind::Any, 0));
    assert!(compile("img$").match_name("img").is_some());
    assert!(compile("img$").match_name("img2").is_none());
    assert!(compile("^img").match_name("img").is_some());
}

#[test]
fn scenario_batch_without_collision() {
    let source = compile("*0_old");
    let target = compile("*0_new");
    let input = names(&["x_old", "y_old", "z_other"]);
    let pairs = source.match_new_names(&input, &target).unwrap();
    let new_names: Vec<&str> = pairs.iter().map(|p| p.1.as_str()).collect();
    assert_eq!(vec!["x_new", "y_new"], new_names);
    assert!(target_names_different(&pairs));
    let plan = plan_renames(&source, &target, &input).unwrap();
    assert_eq!(
        vec![
            ("x_old".to_string(), "x_new".to_string()),
            ("y_old".to_string(), "y_new".to_string())
        ],
        plan
    );
    assert_eq!(vec!["x_old", "y_old"], source.match_names(&input));
}

#[test]
fn scenario_unknown_capture_aborts_batch() {
    let source = compile("*0_old");
    let target = compile("*5_new");
    let input = names(&["x_old", "y_old"]);
    assert_eq!(Err(ProjectionError::UnknownCapture), source.match_new_names(&input, &target));
    assert!(matches!(plan_renames(&source, &target, &input), Err(RenameError::UnknownCapture)));
    let caps = source.match_name("x_old").unwrap();
    assert_eq!(Err(ProjectionError::UnknownCapture), compile(".0").gen_name(&caps));
    // No match at all: nothing to project, nothing fails.
    assert_eq!(Ok(vec![]), source.match_new_names(&names(&["abc"]), &target));
}

#[test]
fn scenario_collision_aborts_batch() {
    let source = compile("*0_.1");
    let target = compile("*0");
    let input = names(&["a_1", "b_1", "a_2"]);
    match plan_renames(&source, &target, &input) {
        Err(RenameError::Collision(first, second)) => {
            assert_eq!("a_1", first);
            assert_eq!("a_2", second);
        }
        other => panic!("expected a collision, got {:?}", other),
    }
    let pairs = source.match_new_names(&input, &target).unwrap();
    assert!(!target_names_different(&pairs));
    assert_eq!(Some((0, 2)), find_collision(&pairs));
}

#[test]
fn projection_uses_literals_and_anchors() {
    let source = compile("^*0-.1$");
    let caps = source.match_name("abc-d").unwrap();
    let target = compile("^.1_*0\\.bak$");
    assert_eq!("d_abc.bak", target.gen_name(&caps).unwrap());
}
