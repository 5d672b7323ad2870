//! The semantic types and their textual notation.

use isu::errors::IsuError;
use isu::prop::{Ans, Prop, ShortAns, YesNo};
use isu::question::{Question, WhQ, YNQ};
use isu::semantics::{Atomic, Ind, Pred0, Pred1, Sort};

#[test]
fn test_atomic_creation() {
    assert!(Atomic::new("hello").is_ok());
    assert!(Atomic::new("test_atom").is_ok());
    assert!(Atomic::new("atom-with-dash").is_ok());
    assert!(Atomic::new("atom+with+plus").is_ok());
    assert!(Atomic::new("atom:with:colon").is_ok());

    assert!(Atomic::new("").is_err());
    assert!(Atomic::new("yes").is_err());
    assert!(Atomic::new("no").is_err());
    assert!(Atomic::new("123invalid").is_err());
    assert!(Atomic::new("invalid@char").is_err());
}

#[test]
fn test_atomic_rejection_is_a_parse_error() {
    assert_eq!(Atomic::new("123invalid").err(), Some(IsuError::ParseError));
    assert_eq!(Ind::new("").err(), Some(IsuError::ParseError));
    assert_eq!(YesNo::new("maybe").err(), Some(IsuError::ParseError));
    assert_eq!(Question::new("invalid").err(), Some(IsuError::ParseError));
    assert_eq!(Ans::new("invalid(syntax").err(), Some(IsuError::ParseError));
}

#[test]
fn test_ind_creation_and_display() {
    let ind = Ind::new("paris").unwrap();
    assert_eq!(ind.text(), "paris");

    assert!(Ind::new("").is_err());
    assert!(Ind::new("invalid@").is_err());
}

#[test]
fn test_pred0_creation_and_display() {
    let pred = Pred0::new("expensive").unwrap();
    assert_eq!(pred.text(), "expensive");

    assert!(Pred0::new("").is_err());
    assert!(Pred0::new("yes").is_err());
}

#[test]
fn test_pred1_creation_and_apply() {
    let pred1 = Pred1::new("city").unwrap();
    let ind = Ind::new("paris").unwrap();

    let prop = pred1.apply(&ind);
    assert_eq!(prop.text(), "city(paris)");
    assert!(prop.yes);

    assert!(Pred1::new("").is_err());
}

#[test]
fn test_sort_creation() {
    let sort = Sort::new("city").unwrap();
    assert_eq!(sort.text(), "city");

    assert!(Sort::new("").is_err());
}

#[test]
fn test_prop_creation_and_parsing() {
    let prop = Prop::new("expensive").unwrap();
    assert_eq!(prop.text(), "expensive()");
    assert!(prop.yes);

    let prop = Prop::new("-expensive").unwrap();
    assert_eq!(prop.text(), "-expensive()");
    assert!(!prop.yes);

    let prop = Prop::new("city(paris)").unwrap();
    assert_eq!(prop.text(), "city(paris)");
    assert!(prop.yes);
    assert_eq!(prop.ind.as_ref().unwrap().text(), "paris");
}

#[test]
fn test_shortans_creation_and_parsing() {
    let ans = ShortAns::new("paris").unwrap();
    assert_eq!(ans.text(), "paris");
    assert!(ans.yes);

    let ans = ShortAns::new("-paris").unwrap();
    assert_eq!(ans.text(), "-paris");
    assert!(!ans.yes);

    assert!(ShortAns::new("").is_err());
}

#[test]
fn test_yesno_creation() {
    let yes_ans = YesNo::new("yes").unwrap();
    assert_eq!(yes_ans.text(), "yes");
    assert!(yes_ans.yes);

    let no_ans = YesNo::new("no").unwrap();
    assert_eq!(no_ans.text(), "no");
    assert!(!no_ans.yes);

    assert!(YesNo::new("maybe").is_err());
}

#[test]
fn test_ans_enum_parsing() {
    let ans = Ans::new("yes").unwrap();
    match ans {
        Ans::YesNo(yesno) => assert!(yesno.yes),
        _ => panic!("Expected YesNo variant"),
    }

    let ans = Ans::new("paris").unwrap();
    match ans {
        Ans::ShortAns(short) => {
            assert_eq!(short.text(), "paris");
            assert!(short.yes);
        },
        _ => panic!("Expected ShortAns variant"),
    }

    let ans = Ans::new("city(paris)").unwrap();
    match ans {
        Ans::Prop(prop) => {
            assert_eq!(prop.text(), "city(paris)");
            assert!(prop.yes);
        },
        _ => panic!("Expected Prop variant"),
    }

    assert!(Ans::new("invalid(syntax").is_err());
}

#[test]
fn test_whq_creation_and_parsing() {
    let whq = WhQ::new("?x.city(x)").unwrap();
    assert_eq!(whq.pred.text(), "city");

    let whq = WhQ::new("city").unwrap();
    assert_eq!(whq.pred.text(), "city");

    assert!(WhQ::new("").is_err());
}

#[test]
fn test_ynq_creation_and_parsing() {
    let ynq = YNQ::new("?expensive").unwrap();
    assert_eq!(ynq.prop.text(), "expensive()");

    let ynq = YNQ::new("expensive").unwrap();
    assert_eq!(ynq.prop.text(), "expensive()");

    assert!(YNQ::new("").is_err());
}

#[test]
fn test_question_enum_parsing() {
    let q = Question::new("?x.city(x)").unwrap();
    match q {
        Question::WhQ(whq) => assert_eq!(whq.pred.text(), "city"),
        _ => panic!("Expected WhQ variant"),
    }

    let q = Question::new("?expensive").unwrap();
    match q {
        Question::YNQ(ynq) => assert_eq!(ynq.prop.pred.text(), "expensive"),
        _ => panic!("Expected YNQ variant"),
    }

    assert!(Question::new("invalid").is_err());
}

#[test]
fn test_round_trip_of_canonical_forms() {
    // parsing a canonical textual form and displaying it gives the form back
    let cases = [
        "?x.price(x)",
        "?x.dest_city(x)",
        "?return()",
        "?-return()",
        "?dest_city(paris)",
    ];
    for s in cases {
        assert_eq!(Question::new(s).unwrap().text(), s);
    }
    let prop_cases = ["return()", "-return()", "dest_city(paris)", "-dest_city(paris)"];
    for s in prop_cases {
        assert_eq!(Prop::new(s).unwrap().text(), s);
    }
    let ans_cases = ["yes", "no", "paris", "-paris", "city(paris)", "-city(paris)"];
    for s in ans_cases {
        assert_eq!(Ans::new(s).unwrap().text(), s);
    }
}

#[test]
fn test_display_then_parse_recovers_the_value() {
    // a bare proposition displays with parentheses, and the display
    // parses back to the same value
    let p = Prop::new("expensive").unwrap();
    let reparsed = Prop::new(&p.text()).unwrap();
    assert_eq!(reparsed.text(), p.text());
    assert!(p.ind.is_none() && reparsed.ind.is_none());
    assert_eq!(p.yes, reparsed.yes);

    let a = Ans::new("-berlin").unwrap();
    let reparsed = Ans::new(&a.text()).unwrap();
    assert_eq!(reparsed.text(), a.text());
    assert!(matches!(reparsed, Ans::ShortAns(_)));
}
