use mysql_json::extract::extract_json;
use mysql_json::path_expr::{
    PathExpression, PathExpressionFlag, PathLeg, PATH_EXPRESSION_CONTAINS_ASTERISK,
    PATH_EXPR_ARRAY_INDEX_ASTERISK,
};
use mysql_json::unquote::{decode_escaped_unicode, unquote_string, JsonError};
use mysql_json::value::Json;
use std::string::String;

fn sample_array() -> Json {
    Json::Array(vec![
        Json::Boolean(true),
        Json::I64(2017),
        Json::Str(String::from("x")),
    ])
}

#[test]
fn empty_legs_match_the_node_itself() {
    let nodes = vec![
        Json::Null,
        Json::I64(-5),
        sample_array(),
        Json::Object(vec![(String::from("k"), Json::Boolean(false))]),
    ];
    for node in nodes {
        let got = extract_json(&node, &[]);
        assert_eq!(got.len(), 1);
        assert_eq!(got[0], node);
    }
}

#[test]
fn index_leg_equals_extraction_from_the_element() {
    let arr = sample_array();
    let legs = vec![PathLeg::Index(1)];
    let direct = extract_json(&arr, &legs[..]);
    let from_element = extract_json(&Json::I64(2017), &[]);
    assert_eq!(direct, from_element);
}

#[test]
fn wildcard_index_concatenates_all_elements() {
    let arr = sample_array();
    let legs = vec![PathLeg::Index(PATH_EXPR_ARRAY_INDEX_ASTERISK)];
    let got = extract_json(&arr, &legs[..]);
    assert_eq!(
        got,
        vec![Json::Boolean(true), Json::I64(2017), Json::Str(String::from("x"))]
    );
}

#[test]
fn scalar_autowraps_for_index_zero_and_wildcard() {
    let scalar = Json::I64(7);
    for leg in [PathLeg::Index(0), PathLeg::Index(PATH_EXPR_ARRAY_INDEX_ASTERISK)] {
        let got = extract_json(&scalar, &[leg]);
        assert_eq!(got, vec![Json::I64(7)]);
    }
    // a negative index other than the wildcard sentinel matches nothing
    let got = extract_json(&scalar, &[PathLeg::Index(3)]);
    assert!(got.is_empty());
}

#[test]
fn wildcard_key_yields_one_result_per_entry_in_key_order() {
    let obj = Json::Object(vec![
        (String::from("p"), Json::I64(1)),
        (String::from("q"), Json::I64(2)),
        (String::from("r"), Json::I64(3)),
    ]);
    let legs = vec![PathLeg::Key(String::from("*"))];
    let got = extract_json(&obj, &legs[..]);
    assert_eq!(got, vec![Json::I64(1), Json::I64(2), Json::I64(3)]);
}

#[test]
fn double_wildcard_result_starts_with_the_root_matches() {
    let doc = Json::Array(vec![
        Json::Object(vec![(String::from("c"), Json::I64(1))]),
        Json::Object(vec![(
            String::from("g"),
            Json::Object(vec![(String::from("c"), Json::I64(2))]),
        )]),
    ]);
    let with_dw = vec![PathLeg::DoubleAsterisk, PathLeg::Key(String::from("c"))];
    let without_dw = vec![PathLeg::Key(String::from("c"))];
    let full = extract_json(&doc, &with_dw[..]);
    let root_only = extract_json(&doc, &without_dw[..]);
    assert!(root_only.len() <= full.len());
    assert_eq!(&full[..root_only.len()], &root_only[..]);
    // both descendant matches are found, in pre-order
    assert_eq!(full, vec![Json::I64(1), Json::I64(2)]);
}

#[test]
fn autowrap_only_for_one_expression_with_one_match() {
    let arr = Json::Array(vec![Json::I64(1), Json::I64(2)]);
    // one expression, one match: bare value
    assert_eq!(arr.extract(&[index_zero_expr()]), Some(Json::I64(1)));
    // one expression, several matches: wrapped
    let wild = PathExpression {
        legs: vec![PathLeg::Index(PATH_EXPR_ARRAY_INDEX_ASTERISK)],
        flags: PATH_EXPRESSION_CONTAINS_ASTERISK,
    };
    assert_eq!(
        arr.extract(&[wild]),
        Some(Json::Array(vec![Json::I64(1), Json::I64(2)]))
    );
    // two expressions, one match each: wrapped
    assert_eq!(
        arr.extract(&[index_zero_expr(), index_zero_expr()]),
        Some(Json::Array(vec![Json::I64(1), Json::I64(1)]))
    );
    // no match at all: the no-match indicator
    let miss = PathExpression {
        legs: vec![PathLeg::Index(9)],
        flags: PathExpressionFlag::default(),
    };
    assert_eq!(arr.extract(&[miss]), None);
}

fn index_zero_expr() -> PathExpression {
    PathExpression {
        legs: vec![PathLeg::Index(0)],
        flags: PathExpressionFlag::default(),
    }
}

#[test]
fn unquote_error_variants_are_exact() {
    assert_eq!(
        unquote_string("abc\\"),
        Err(JsonError::IncompleteEscape)
    );
    assert_eq!(unquote_string("\\u12"), Err(JsonError::InvalidUnicode));
    assert_eq!(unquote_string("\\uzzzz"), Err(JsonError::InvalidUnicode));
    // a surrogate code point is not a Unicode scalar value
    assert_eq!(unquote_string("\\ud800"), Err(JsonError::InvalidUnicode));
    assert_eq!(decode_escaped_unicode("zzzz"), Err(JsonError::InvalidUnicode));
    assert_eq!(decode_escaped_unicode("d801"), Err(JsonError::InvalidUnicode));
    // decoding is exact, not just non-failing
    assert_eq!(decode_escaped_unicode("0041"), Ok('A'));
    assert_eq!(unquote_string("\\u0041"), Ok(String::from("A")));
}

#[test]
fn unquote_copies_verbatim_and_decodes_in_place() {
    assert_eq!(unquote_string(""), Ok(String::from("")));
    assert_eq!(
        unquote_string("say \\\"hi\\\" twice"),
        Ok(String::from("say \"hi\" twice"))
    );
    assert_eq!(unquote_string("好\\u597d好"), Ok(String::from("好好好")));
}

#[test]
fn rendering_is_exact() {
    assert_eq!(Json::Null.to_string(), "null");
    assert_eq!(Json::Boolean(true).to_string(), "true");
    assert_eq!(Json::Boolean(false).to_string(), "false");
    assert_eq!(Json::I64(0).to_string(), "0");
    assert_eq!(Json::I64(2017).to_string(), "2017");
    assert_eq!(Json::I64(-42).to_string(), "-42");
    assert_eq!(Json::I64(i64::MIN).to_string(), "-9223372036854775808");
    assert_eq!(Json::Double(String::from("20.08")).to_string(), "20.08");
    assert_eq!(
        Json::Str(String::from("a\"b\\c\n")).to_string(),
        "\"a\\\"b\\\\c\\n\""
    );
    assert_eq!(
        Json::Array(vec![Json::Boolean(true), Json::I64(2017)]).to_string(),
        "[true, 2017]"
    );
    assert_eq!(
        Json::Object(vec![
            (String::from("a"), Json::Str(String::from("a1"))),
            (String::from("b"), Json::I64(7)),
        ])
        .to_string(),
        "{\"a\": \"a1\", \"b\": 7}"
    );
    assert_eq!(Json::Array(vec![]).to_string(), "[]");
    assert_eq!(Json::Object(vec![]).to_string(), "{}");
}

#[test]
fn extraction_returns_independent_copies() {
    let doc = Json::Array(vec![Json::Object(vec![(
        String::from("k"),
        Json::I64(5),
    )])]);
    let legs = vec![PathLeg::Index(0)];
    let mut got = extract_json(&doc, &legs[..]);
    assert_eq!(got.len(), 1);
    // mutating the result must not touch the source document
    got[0] = Json::Null;
    assert_eq!(
        doc,
        Json::Array(vec![Json::Object(vec![(String::from("k"), Json::I64(5))])])
    );
}

#[test]
fn key_leg_ignores_non_objects_and_missing_keys() {
    let legs = vec![PathLeg::Key(String::from("a"))];
    assert!(extract_json(&sample_array(), &legs[..]).is_empty());
    assert!(extract_json(&Json::I64(3), &legs[..]).is_empty());
    let obj = Json::Object(vec![(String::from("b"), Json::I64(1))]);
    assert!(extract_json(&obj, &legs[..]).is_empty());
}
