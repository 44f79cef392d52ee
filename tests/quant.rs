use rn::quant::{RegexPls, RegexQst, RegexRpt, RepeatRange};

#[test]
fn pls_test_from_str() {
    let txt0 = ".+99foo";
    let txt1 = "A+0foo";
    let txt2 = "C+5foo";
    let txt3 = "C+foo";

    let (token0, off0) = RegexPls::from_str(txt0).expect("Panicked at txt0");
    let (token1, off1) = RegexPls::from_str(txt1).expect("Panicked at txt1");
    let (token2, off2) = RegexPls::from_str(txt2).expect("Panicked at txt2");
    let result1 = RegexPls::from_str(txt3);

    assert!(result1.is_none());

    assert_eq!(".+9", token0.to_string());
    assert_eq!(3, off0);

    assert_eq!("A+0", token1.to_string());
    assert_eq!(3, off1);

    assert_eq!("C+5", token2.to_string());
    assert_eq!(3, off2);
}

#[test]
fn qst_test_from_str() {
    let txt0 = ".?99foo";
    let txt1 = "A?0foo";
    let txt2 = "C?5foo";
    let txt3 = "C?foo";

    let (token0, _off0) = RegexQst::from_str(txt0).expect("Panicked at txt0");
    let (token1, _off1) = RegexQst::from_str(txt1).expect("Panicked at txt1");
    let (token2, _off2) = RegexQst::from_str(txt2).expect("Panicked at txt2");
    let result1 = RegexQst::from_str(txt3);

    assert!(result1.is_none());

    assert_eq!(".?9", token0.to_string());
    assert_eq!("A?0", token1.to_string());
    assert_eq!("C?5", token2.to_string());
}

#[test]
fn rpt_test_from_str() {
    let txt0 = ".{1,2}0foo";
    let txt1 = "B{1, 2}9foo";
    let txt2 = "C{ 1 ,   3}2foo";
    let txt3 = ".{1}0foo";
    let txt4 = "B{212}9foo";
    let txt5 = "C{ 212  }59";
    let txt6 = ".{1,}0foo";
    let txt7 = "B{ 11,    }9foo";
    let txt8 = "C{ 2221, }59foo";
    let txt9 = ".{ 2 2 , 999 9}8bar";
    let txt10 = ".{abc";
    let txt11 = ".{1}Foo";

    let (token0, off0) = RegexRpt::from_str(txt0).expect("Panic at txt0");
    let (token1, off1) = RegexRpt::from_str(txt1).expect("Panic at txt1");
    let (token2, off2) = RegexRpt::from_str(txt2).expect("Panic at txt2");
    let (token3, off3) = RegexRpt::from_str(txt3).expect("Panic at txt3");
    let (token4, off4) = RegexRpt::from_str(txt4).expect("Panic at txt4");
    let (token5, off5) = RegexRpt::from_str(txt5).expect("Panic at txt5");
    let (token6, off6) = RegexRpt::from_str(txt6).expect("Panic at txt6");
    let (token7, off7) = RegexRpt::from_str(txt7).expect("Panic at txt7");
    let (token8, off8) = RegexRpt::from_str(txt8).expect("Panic at txt8");
    let result1 = RegexRpt::from_str(txt9);
    let result2 = RegexRpt::from_str(txt10);
    let result3 = RegexRpt::from_str(txt11);

    assert!(result1.is_none());
    assert!(result2.is_none());
    assert!(result3.is_none());

    assert_eq!(7, off0);
    assert_eq!(token0.get_id(), 0);
    assert_eq!(token0.get_expr(), "{}");
    assert_eq!(".{1, 2}0", token0.to_string());

    assert_eq!(8, off1);
    assert_eq!(token1.get_id(), 9);
    assert_eq!(token1.get_expr(), "{}");
    assert_eq!("B{1, 2}9", token1.to_string());

    assert_eq!(12, off2);
    assert_eq!(token2.get_id(), 2);
    assert_eq!(token2.get_expr(), "{}");
    assert_eq!("C{1, 3}2", token2.to_string());

    assert_eq!(5, off3);
    assert_eq!(token3.get_id(), 0);
    assert_eq!(token3.get_expr(), "{}");
    assert_eq!(".{1}0", token3.to_string());

    assert_eq!(7, off4);
    assert_eq!(token4.get_id(), 9);
    assert_eq!(token4.get_expr(), "{}");
    assert_eq!("B{212}9", token4.to_string());

    assert_eq!(10, off5);
    assert_eq!(token5.get_id(), 5);
    assert_eq!(token5.get_expr(), "{}");
    assert_eq!("C{212}5", token5.to_string());

    assert_eq!(6, off6);
    assert_eq!(token6.get_id(), 0);
    assert_eq!(token6.get_expr(), "{}");
    assert_eq!(".{1,}0", token6.to_string());

    assert_eq!(12, off7);
    assert_eq!(token7.get_id(), 9);
    assert_eq!(token7.get_expr(), "{}");
    assert_eq!("B{11,}9", token7.to_string());

    assert_eq!(11, off8);
    assert_eq!(token8.get_id(), 5);
    assert_eq!(token8.get_expr(), "{}");
    assert_eq!("C{2221,}5", token8.to_string());
}

#[test]
fn quantifiers_with_explicit_classes() {
    let (pls, n) = RegexPls::from_char_set("[xy]+3", vec!['x', 'y'], 4).unwrap();
    assert_eq!(6, n);
    assert_eq!("[xy]+3", pls.to_string());
    assert!(RegexQst::from_char_set("[xy]?", vec!['x', 'y'], 4).is_none());
    let (rpt, n) = RegexRpt::from_char_set("[ab]{2,5}1", vec!['a', 'b'], 4).unwrap();
    assert_eq!(10, n);
    assert_eq!(RepeatRange::Between(2, 5), rpt.get_range());
    assert_eq!("[ab]{2, 5}1", rpt.to_string());
    assert!(RegexRpt::from_str(".{1,2,3}0").is_none());
    assert!(RegexRpt::from_str(".{99999999999999999999999}0").is_none());
    assert_eq!(RepeatRange::Exactly(7), RegexRpt::from_str("x{\u{3000}7\t}0").unwrap().0.get_range());
}
