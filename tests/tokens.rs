use rn::capture::{RegexAst, RegexDot};
use rn::grammar::CompileError;
use rn::set::RegexSet;
use rn::txt::RegexTxt;

#[test]
fn ast_test_from_str() {
    // The text handed over is what follows a `*`, which must be a digit id.
    let txt1 = ".*0foo";
    let txt2 = "B*10foo";
    let txt3 = "C*9foo";

    assert_eq!(Err(CompileError::MissingId), RegexAst::from_str(txt1).map(|(_, n)| n));
    assert_eq!(Err(CompileError::MissingId), RegexAst::from_str(txt2).map(|(_, n)| n));
    assert_eq!(Err(CompileError::MissingId), RegexAst::from_str(txt3).map(|(_, n)| n));
    assert!(RegexAst::from_str("*foo").is_err());
    assert!(RegexAst::from_str("").is_err());

    let (res1, off1) = RegexAst::from_str("0foo").unwrap();
    let (res2, off2) = RegexAst::from_str("10foo").unwrap();
    let (res3, off3) = RegexAst::from_str("9foo").unwrap();

    assert_eq!("*0", res1.to_string());
    assert_eq!(2, off1);

    assert_eq!("*1", res2.to_string());
    assert_eq!(2, off2);

    assert_eq!("*9", res3.to_string());
    assert_eq!(2, off3);
}

#[test]
fn dot_test_from_str() {
    let txt1 = "0foo";
    let txt2 = "10foo";
    let txt3 = "9foo";

    let (res1, off1) = RegexDot::from_str(txt1).unwrap();
    let (res2, off2) = RegexDot::from_str(txt2).unwrap();
    let (res3, off3) = RegexDot::from_str(txt3).unwrap();
    let res4 = RegexDot::from_str("a.foo");
    let res5 = RegexDot::from_str("B.");

    assert_eq!(".", res1.get_expr());
    assert_eq!(0, res1.get_id());
    assert_eq!(2, off1);

    assert_eq!(".", res2.get_expr());
    assert_eq!(1, res2.get_id());
    assert_eq!(2, off2);

    assert_eq!(".", res3.get_expr());
    assert_eq!(9, res3.get_id());
    assert_eq!(2, off3);

    assert!(res4.is_err());
    assert!(res5.is_err());
}

#[test]
fn from_str_no_panic() {
    let txt1 = "foo*bar";
    let txt2 = "foo*";
    let txt3 = "foo\\?";

    let (res1, off1) = RegexTxt::from_str(txt1).unwrap();
    let (res2, off2) = RegexTxt::from_str(txt2).unwrap();
    let (res3, off3) = RegexTxt::from_str(txt3).unwrap();

    assert_eq!("foo", res1.get_expr());
    assert_eq!(3, off1);

    assert_eq!("foo", res2.get_expr());
    assert_eq!(3, off2);

    assert_eq!("foo?", res3.get_expr());
    assert_eq!(5, off3);
}

#[test]
#[should_panic]
fn from_str_panic1() {
    RegexTxt::from_str("foo\\").unwrap();
}

#[test]
#[should_panic]
fn from_str_panic2() {
    RegexTxt::from_str("foo\\a").unwrap();
}

#[test]
fn set_test_from_str() {
    let txt1 = "foo]02";
    let txt2 = "foo\\*bar]22";
    let txt3 = "[foo]9";
    let txt4 = "foo";
    let txt5 = "foo\\]";

    let (token1, _) = RegexSet::from_str(txt1).expect("Panicked at txt1!");
    let (token2, _) = RegexSet::from_str(txt2).expect("Panicked at txt2!");
    let (token3, _) = RegexSet::from_str(txt3).expect("Panicked at txt3!");

    assert_eq!("[foo]", token1.get_expr());
    assert_eq!(0, token1.get_id());

    assert_eq!("[foo\\*bar]", token2.get_expr());
    assert_eq!(2, token2.get_id());

    assert_eq!("[[foo]", token3.get_expr());
    assert_eq!(9, token3.get_id());

    let res4 = RegexSet::from_str(txt4);
    let res5 = RegexSet::from_str(txt5);

    assert!(res4.is_err());
    assert!(res5.is_err());
}

#[test]
fn txt_test_from_str() {
    let txt1 = "foo*bar";
    let txt2 = "foo.";
    let txt3 = "foo[";
    let txt4 = "foo\\*";
    let txt5 = "foo\\[";
    let txt6 = "foo\\.";

    let (token1, off1) = RegexTxt::from_str(txt1).expect("Panicked at txt1");
    let (token2, off2) = RegexTxt::from_str(txt2).expect("Panicked at txt2");
    let (token3, off3) = RegexTxt::from_str(txt3).expect("Panicked at txt3");
    let (token4, off4) = RegexTxt::from_str(txt4).expect("Panicked at txt4");
    let (token5, off5) = RegexTxt::from_str(txt5).expect("Panicked at txt5");
    let (token6, off6) = RegexTxt::from_str(txt6).expect("Panicked at txt6");
    let result1 = RegexTxt::from_str("foo\\");
    let result2 = RegexTxt::from_str("foo\\a");

    // Literal text runs up to the `*`, which starts the next symbol.
    assert_eq!("foo", token1.get_text(), "token1.get_text() failed!");
    assert_eq!(3, off1);

    assert_eq!("foo", token2.get_text(), "token2.get_text() failed!");
    assert_eq!(3, off2);

    assert_eq!("foo", token3.get_text(), "token3.get_text() failed!");
    assert_eq!(3, off3);

    assert_eq!("foo*", token4.get_text(), "token4.get_text() failed!");
    assert_eq!(5, off4);

    assert_eq!("foo[", token5.get_text(), "token5.get_text() failed!");
    assert_eq!(5, off5);

    assert_eq!("foo.", token6.get_text(), "token6.get_text() failed!");
    assert_eq!(5, off6);

    assert_eq!(Err(CompileError::DanglingEscape), result1.map(|(_, n)| n));
    assert_eq!(Err(CompileError::DanglingEscape), result2.map(|(_, n)| n));
}
