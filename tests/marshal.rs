use pypes::marshal::{from_json, to_json, MarshalError};
use pypes::value::{Json, Val, ValType};

fn s(x: &str) -> String {
    x.to_string()
}

fn slot_type() -> ValType {
    ValType::Record(vec![(s("start"), ValType::Str), (s("end"), ValType::Str), (s("is-free"), ValType::Bool)])
}

fn slot(a: &str, b: &str) -> Val {
    Val::Record(vec![(s("start"), Val::Str(s(a))), (s("end"), Val::Str(s(b))), (s("is-free"), Val::Bool(true))])
}

#[test]
fn record_list_round_trip() {
    let t = ValType::List(Box::new(slot_type()));
    let v = Val::List(vec![slot("10:00", "11:00"), slot("14:00", "15:00")]);
    let j = to_json(&v);
    match &j {
        Json::Array(items) => {
            assert_eq!(items.len(), 2);
            match &items[0] {
                Json::Object(e) => {
                    assert_eq!(e[0].0, "start");
                    assert!(matches!(&e[0].1, Json::Str(x) if x == "10:00"));
                    assert!(matches!(&e[2].1, Json::Bool(true)));
                }
                other => panic!("{:?}", other),
            }
        }
        other => panic!("{:?}", other),
    }
    let back = from_json(&j, &t).unwrap();
    assert_eq!(format!("{:?}", back), format!("{:?}", v));
}

#[test]
fn variant_option_result_round_trip() {
    let t = ValType::Tuple(vec![
        ValType::Variant(vec![(s("none"), None), (s("some"), Some(Box::new(ValType::U32)))]),
        ValType::Option(Box::new(ValType::Char)),
        ValType::Result(Some(Box::new(ValType::S8)), None),
        ValType::Result(None, Some(Box::new(ValType::Str))),
        ValType::Enum(vec![s("red"), s("green")]),
        ValType::Flags(vec![s("read"), s("write")]),
    ]);
    let v = Val::Tuple(vec![
        Val::Variant(s("some"), Some(Box::new(Val::U32(7)))),
        Val::Option(Some(Box::new(Val::Char('x')))),
        Val::ResultOk(Some(Box::new(Val::S8(-3)))),
        Val::ResultErr(Some(Box::new(Val::Str(s("bad"))))),
        Val::Enum(s("green")),
        Val::Flags(vec![s("write")]),
    ]);
    let j = to_json(&v);
    let back = from_json(&j, &t).unwrap();
    assert_eq!(format!("{:?}", back), format!("{:?}", v));
}

#[test]
fn option_none_is_null() {
    let j = to_json(&Val::Option(None));
    assert!(matches!(j, Json::Null));
    let back = from_json(&Json::Null, &ValType::Option(Box::new(ValType::U8))).unwrap();
    assert!(matches!(back, Val::Option(None)));
}

#[test]
fn numbers_out_of_range_are_rejected() {
    assert!(matches!(from_json(&Json::Number(255), &ValType::U8), Ok(Val::U8(255))));
    assert_eq!(from_json(&Json::Number(256), &ValType::U8).unwrap_err(), MarshalError::TypeMismatch);
    assert_eq!(from_json(&Json::Number(-1), &ValType::U64).unwrap_err(), MarshalError::TypeMismatch);
    assert!(matches!(from_json(&Json::Number(-128), &ValType::S8), Ok(Val::S8(-128))));
}

#[test]
fn shape_mismatches_are_rejected() {
    assert!(from_json(&Json::Str(s("x")), &ValType::Bool).is_err());
    assert!(from_json(&Json::Str(s("xy")), &ValType::Char).is_err());
    assert!(from_json(&Json::Object(vec![]), &slot_type()).is_err());
    assert!(from_json(&Json::Str(s("blue")), &ValType::Enum(vec![s("red")])).is_err());
    assert!(from_json(&Json::Array(vec![Json::Bool(true)]), &ValType::Tuple(vec![])).is_err());
}
