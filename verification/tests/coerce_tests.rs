use zetch::coerce::{coerce, Coerce};
use zetch::error::Zerr;
use zetch::values::JVal;

fn ok(v: JVal, k: Option<Coerce>) -> JVal {
    coerce(&v, &k).expect("coercion should succeed")
}

fn err_kind(v: JVal, k: Option<Coerce>) -> Zerr {
    coerce(&v, &k).err().expect("coercion should fail").kind
}

#[test]
fn passthrough_trims_strings() {
    match ok(JVal::Str("  hi  ".to_string()), None) {
        JVal::Str(s) => assert_eq!(s, "hi"),
        _ => panic!("expected a string"),
    }
}

#[test]
fn bool_round_trip() {
    assert!(matches!(ok(JVal::Str("true".to_string()), Some(Coerce::Bool)), JVal::Bool(true)));
    assert!(matches!(ok(JVal::Str("false".to_string()), Some(Coerce::Bool)), JVal::Bool(false)));
    assert!(matches!(ok(JVal::Str("Y".to_string()), Some(Coerce::Bool)), JVal::Bool(true)));
    assert!(matches!(ok(JVal::Str("N".to_string()), Some(Coerce::Bool)), JVal::Bool(false)));
    assert!(matches!(ok(JVal::Str("1".to_string()), Some(Coerce::Bool)), JVal::Bool(true)));
    assert!(matches!(ok(JVal::Str("0".to_string()), Some(Coerce::Bool)), JVal::Bool(false)));
    assert!(matches!(ok(JVal::Str("TRUE".to_string()), Some(Coerce::Bool)), JVal::Bool(true)));
    assert!(matches!(ok(JVal::Bool(true), Some(Coerce::Bool)), JVal::Bool(true)));
    assert!(matches!(ok(JVal::Int(1), Some(Coerce::Bool)), JVal::Bool(true)));
    assert!(matches!(ok(JVal::Int(0), Some(Coerce::Bool)), JVal::Bool(false)));
}

#[test]
fn bool_rejects_other_values() {
    assert_eq!(err_kind(JVal::Int(2), Some(Coerce::Bool)), Zerr::CoercionError);
    assert_eq!(err_kind(JVal::Str("maybe".to_string()), Some(Coerce::Bool)), Zerr::CoercionError);
    assert_eq!(err_kind(JVal::Null, Some(Coerce::Bool)), Zerr::CoercionError);
}

#[test]
fn int_rounds_to_nearest() {
    assert!(matches!(ok(JVal::Num("1.6".to_string()), Some(Coerce::Int)), JVal::Int(2)));
    assert!(matches!(ok(JVal::Str("1.6".to_string()), Some(Coerce::Int)), JVal::Int(2)));
    assert!(matches!(ok(JVal::Str("1.4".to_string()), Some(Coerce::Int)), JVal::Int(1)));
    assert!(matches!(ok(JVal::Str("-1.5".to_string()), Some(Coerce::Int)), JVal::Int(-2)));
    assert!(matches!(ok(JVal::Str(".5".to_string()), Some(Coerce::Int)), JVal::Int(1)));
    assert!(matches!(ok(JVal::Str("0.4999".to_string()), Some(Coerce::Int)), JVal::Int(0)));
    assert!(matches!(ok(JVal::Str("1.".to_string()), Some(Coerce::Int)), JVal::Int(1)));
    assert!(matches!(ok(JVal::Str(" 7 ".to_string()), Some(Coerce::Int)), JVal::Int(7)));
    assert!(matches!(ok(JVal::Str("-42".to_string()), Some(Coerce::Int)), JVal::Int(-42)));
    assert!(matches!(ok(JVal::Int(5), Some(Coerce::Int)), JVal::Int(5)));
}

#[test]
fn int_text_round_trip() {
    for i in [0i64, 1, -1, 9, 10, -10, 1234567, -987654321, i64::MAX, i64::MIN] {
        let text = zetch::strutil::i64_to_string(i);
        match ok(JVal::Str(text), Some(Coerce::Int)) {
            JVal::Int(back) => assert_eq!(back, i),
            _ => panic!("expected an integer"),
        }
    }
}

#[test]
fn int_reads_exponent_notation_exactly() {
    assert!(matches!(ok(JVal::Str("1e5".to_string()), Some(Coerce::Int)), JVal::Int(100000)));
    assert!(matches!(ok(JVal::Str("1.5e2".to_string()), Some(Coerce::Int)), JVal::Int(150)));
    assert!(matches!(ok(JVal::Str("2E3".to_string()), Some(Coerce::Int)), JVal::Int(2000)));
    assert!(matches!(ok(JVal::Str("5e-1".to_string()), Some(Coerce::Int)), JVal::Int(1)));
    assert!(matches!(ok(JVal::Str("2e-3".to_string()), Some(Coerce::Int)), JVal::Int(0)));
    assert!(matches!(ok(JVal::Str("-2.5e1".to_string()), Some(Coerce::Int)), JVal::Int(-25)));
    assert!(matches!(ok(JVal::Str("1e+2".to_string()), Some(Coerce::Int)), JVal::Int(100)));
    assert!(matches!(ok(JVal::Str("0e99999".to_string()), Some(Coerce::Int)), JVal::Int(0)));
    // An exponent past any machine limit still lands in the right extreme.
    assert!(matches!(
        ok(
            JVal::Str("1e99999999999999999999999999999999999999".to_string()),
            Some(Coerce::Int)
        ),
        JVal::Int(i64::MAX)
    ));
    assert!(matches!(
        ok(
            JVal::Str("-1e99999999999999999999999999999999999999".to_string()),
            Some(Coerce::Int)
        ),
        JVal::Int(i64::MIN)
    ));
    assert!(matches!(
        ok(
            JVal::Str("7e-99999999999999999999999999999999999999".to_string()),
            Some(Coerce::Int)
        ),
        JVal::Int(0)
    ));
    // Malformed exponents are not numeric.
    assert_eq!(err_kind(JVal::Str("1e".to_string()), Some(Coerce::Int)), Zerr::CoercionError);
    assert_eq!(err_kind(JVal::Str("1e+".to_string()), Some(Coerce::Int)), Zerr::CoercionError);
    assert_eq!(err_kind(JVal::Str("e5".to_string()), Some(Coerce::Int)), Zerr::CoercionError);
    assert_eq!(err_kind(JVal::Str("1e5x".to_string()), Some(Coerce::Int)), Zerr::CoercionError);
}

#[test]
fn float_keeps_exponent_text() {
    match ok(JVal::Str("1e5".to_string()), Some(Coerce::Float)) {
        JVal::Num(s) => assert_eq!(s, "1e5"),
        _ => panic!("expected numeric text"),
    }
}

#[test]
fn int_clamps_to_the_i64_range() {
    assert!(matches!(
        ok(JVal::Str("99999999999999999999999".to_string()), Some(Coerce::Int)),
        JVal::Int(i64::MAX)
    ));
    assert!(matches!(
        ok(JVal::Str("-99999999999999999999999".to_string()), Some(Coerce::Int)),
        JVal::Int(i64::MIN)
    ));
}

#[test]
fn int_rejects_non_numeric_text() {
    assert_eq!(err_kind(JVal::Str("abc".to_string()), Some(Coerce::Int)), Zerr::CoercionError);
    assert_eq!(err_kind(JVal::Str("".to_string()), Some(Coerce::Int)), Zerr::CoercionError);
    assert_eq!(err_kind(JVal::Null, Some(Coerce::Int)), Zerr::CoercionError);
}

#[test]
fn float_keeps_numeric_text() {
    match ok(JVal::Str("2.5".to_string()), Some(Coerce::Float)) {
        JVal::Num(s) => assert_eq!(s, "2.5"),
        _ => panic!("expected numeric text"),
    }
    assert!(matches!(ok(JVal::Int(3), Some(Coerce::Float)), JVal::Int(3)));
    assert_eq!(err_kind(JVal::Str("x".to_string()), Some(Coerce::Float)), Zerr::CoercionError);
}

#[test]
fn json_parses_strings_only() {
    assert!(matches!(ok(JVal::Str("123".to_string()), Some(Coerce::Json)), JVal::Int(123)));
    assert!(matches!(ok(JVal::Str("true".to_string()), Some(Coerce::Json)), JVal::Bool(true)));
    let parsed = ok(JVal::Str("{\"a\": 1}".to_string()), Some(Coerce::Json));
    match parsed.obj_get("a") {
        Some(JVal::Int(1)) => {}
        _ => panic!("expected the parsed object to hold a = 1"),
    }
    assert_eq!(err_kind(JVal::Str("not json".to_string()), Some(Coerce::Json)), Zerr::CoercionError);
    assert_eq!(err_kind(JVal::Int(1), Some(Coerce::Json)), Zerr::CoercionError);
}

#[test]
fn coercion_errors_name_the_requested_kind() {
    let e = coerce(&JVal::Str("maybe".to_string()), &Some(Coerce::Bool)).err().unwrap();
    assert_eq!(e.notes.len(), 1);
    assert!(e.notes[0].contains("'bool'"));
    assert!(e.notes[0].contains("Input: "));
    assert!(e.notes[0].contains("maybe"));
    let long = "x".repeat(400);
    let e2 = coerce(&JVal::Str(long, ), &Some(Coerce::Int)).err().unwrap();
    assert!(e2.notes[0].contains("..."), "a long input is cut for display");
    assert!(e2.notes[0].contains("'int'"));
}

#[test]
fn str_coercion_is_idempotent() {
    let once = ok(JVal::Int(12), Some(Coerce::Str));
    let twice = ok(once, Some(Coerce::Str));
    match twice {
        JVal::Str(s) => assert_eq!(s, "12"),
        _ => panic!("expected a string"),
    }
    let trimmed = ok(JVal::Str("  keep  ".to_string()), Some(Coerce::Str));
    let again = ok(trimmed, Some(Coerce::Str));
    match again {
        JVal::Str(s) => assert_eq!(s, "keep"),
        _ => panic!("expected a string"),
    }
}

#[test]
fn str_stringifies_non_strings() {
    match ok(JVal::Int(12), Some(Coerce::Str)) {
        JVal::Str(s) => assert_eq!(s, "12"),
        _ => panic!("expected a string"),
    }
    let arr = JVal::Arr(vec![JVal::Int(1), JVal::Int(2)]);
    match ok(arr, Some(Coerce::Str)) {
        JVal::Str(s) => assert_eq!(s, "[1,2]"),
        _ => panic!("expected a string"),
    }
    match ok(JVal::Str("keep".to_string()), Some(Coerce::Str)) {
        JVal::Str(s) => assert_eq!(s, "keep"),
        _ => panic!("expected a string"),
    }
}
