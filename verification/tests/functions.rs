use mysql_json::path_expr::{
    PathExpression, PathExpressionFlag, PathLeg, PATH_EXPRESSION_CONTAINS_ASTERISK,
    PATH_EXPRESSION_CONTAINS_DOUBLE_ASTERISK, PATH_EXPR_ARRAY_INDEX_ASTERISK, PATH_EXPR_ASTERISK,
};
use mysql_json::unquote::decode_escaped_unicode;
use mysql_json::value::Json;
use std::string::String;

fn sample_object() -> Json {
    Json::Object(vec![
        (String::from("a"), Json::Str(String::from("a1"))),
        (String::from("b"), Json::Double(String::from("20.08"))),
        (String::from("c"), Json::Boolean(false)),
    ])
}

#[test]
fn test_json_extract() {
    let mut test_cases: Vec<(Json, Vec<PathExpression>, Option<Json>)> = vec![
        // no path expression
        (Json::Null, vec![], None),
        // Index
        (
            Json::Array(vec![Json::Boolean(true), Json::I64(2017)]),
            vec![PathExpression {
                legs: vec![PathLeg::Index(0)],
                flags: PathExpressionFlag::default(),
            }],
            Some(Json::Boolean(true)),
        ),
        (
            Json::Array(vec![Json::Boolean(true), Json::I64(2017)]),
            vec![PathExpression {
                legs: vec![PathLeg::Index(PATH_EXPR_ARRAY_INDEX_ASTERISK)],
                flags: PATH_EXPRESSION_CONTAINS_ASTERISK,
            }],
            Some(Json::Array(vec![Json::Boolean(true), Json::I64(2017)])),
        ),
        (
            Json::Array(vec![Json::Boolean(true), Json::I64(2107)]),
            vec![PathExpression {
                legs: vec![PathLeg::Index(2)],
                flags: PathExpressionFlag::default(),
            }],
            None,
        ),
        (
            Json::Double(String::from("6.18")),
            vec![PathExpression {
                legs: vec![PathLeg::Index(0)],
                flags: PathExpressionFlag::default(),
            }],
            Some(Json::Double(String::from("6.18"))),
        ),
        // Key
        (
            sample_object(),
            vec![PathExpression {
                legs: vec![PathLeg::Key(String::from("c"))],
                flags: PathExpressionFlag::default(),
            }],
            Some(Json::Boolean(false)),
        ),
        (
            sample_object(),
            vec![PathExpression {
                legs: vec![PathLeg::Key(String::from(PATH_EXPR_ASTERISK))],
                flags: PATH_EXPRESSION_CONTAINS_ASTERISK,
            }],
            Some(Json::Array(vec![
                Json::Str(String::from("a1")),
                Json::Double(String::from("20.08")),
                Json::Boolean(false),
            ])),
        ),
        (
            sample_object(),
            vec![PathExpression {
                legs: vec![PathLeg::Key(String::from("d"))],
                flags: PathExpressionFlag::default(),
            }],
            None,
        ),
        // Double asterisks
        (
            Json::I64(21),
            vec![PathExpression {
                legs: vec![PathLeg::DoubleAsterisk, PathLeg::Key(String::from("c"))],
                flags: PATH_EXPRESSION_CONTAINS_DOUBLE_ASTERISK,
            }],
            None,
        ),
        (
            Json::Object(vec![(String::from("g"), sample_object())]),
            vec![PathExpression {
                legs: vec![PathLeg::DoubleAsterisk, PathLeg::Key(String::from("c"))],
                flags: PATH_EXPRESSION_CONTAINS_DOUBLE_ASTERISK,
            }],
            Some(Json::Boolean(false)),
        ),
        (
            Json::Array(vec![
                Json::Object(vec![
                    (String::from("a"), Json::Str(String::from("a1"))),
                    (String::from("b"), Json::Double(String::from("20.08"))),
                    (String::from("c"), Json::Boolean(false)),
                ]),
                Json::Boolean(true),
            ]),
            vec![PathExpression {
                legs: vec![PathLeg::DoubleAsterisk, PathLeg::Key(String::from("c"))],
                flags: PATH_EXPRESSION_CONTAINS_DOUBLE_ASTERISK,
            }],
            Some(Json::Boolean(false)),
        ),
    ];
    for (i, (j, exprs, expected)) in test_cases.drain(..).enumerate() {
        let got = j.extract(&exprs[..]);
        assert_eq!(got, expected, "#{} expect {:?}, but got {:?}", i, expected, got);
    }
}

#[test]
fn test_decode_escaped_unicode() {
    let mut test_cases = vec![
        ("5e8a", '床'),
        ("524d", '前'),
        ("660e", '明'),
        ("6708", '月'),
        ("5149", '光'),
    ];
    for (i, (escaped, expected)) in test_cases.drain(..).enumerate() {
        let d = decode_escaped_unicode(escaped);
        assert!(d.is_ok(), "#{} expect ok but got err {:?}", i, d);
        let got = d.unwrap();
        assert_eq!(got, expected, "#{} expect {:?} but got {:?}", i, expected, got);
    }
}

#[test]
fn test_json_unquote() {
    // test unquote json string
    let mut test_cases = vec![
        ("\\b", true, Some("\x08")),
        ("\\f", true, Some("\x0C")),
        ("\\n", true, Some("\x0A")),
        ("\\r", true, Some("\x0D")),
        ("\\t", true, Some("\x09")),
        ("\\\\", true, Some("\x5c")),
        ("\\u597d", true, Some("好")),
        ("0\\u597d0", true, Some("0好0")),
        ("\\a", true, Some("a")),
        ("[", true, Some("[")),
        // invalid input
        ("\\", false, None),
        ("\\u59", false, None),
    ];
    for (i, (input, no_error, expected)) in test_cases.drain(..).enumerate() {
        let j = Json::Str(String::from(input));
        let r = j.unquote();
        if no_error {
            assert!(r.is_ok(), "#{} expect unquote ok but got err {:?}", i, r);
            let got = r.unwrap();
            let expected = String::from(expected.unwrap());
            assert_eq!(got, expected, "#{} expect {:?} but got {:?}", i, expected, got);
        } else {
            assert!(r.is_err(), "#{} expected error but got {:?}", i, r);
        }
    }

    // test unquote other json types
    let mut test_cases = vec![
        Json::Object(vec![]),
        Json::Array(vec![]),
        Json::I64(2017),
        Json::Double(String::from("19.28")),
        Json::Boolean(true),
        Json::Null,
    ];
    for (i, j) in test_cases.drain(..).enumerate() {
        let expected = j.to_string();
        let r = j.unquote();
        assert!(r.is_ok(), "#{} expect unquote ok but got err {:?}", i, r);
        let got = r.unwrap();
        assert_eq!(got, expected, "#{} expect {:?} but got {:?}", i, expected, got);
    }
}
