use rpp::parser::buffer::decode;
use rpp::parser::element::{
    parse_attribute_at, parse_bin_data_at, parse_bin_data_body, parse_element_at,
    parse_element_body_at, parse_element_fragment_at,
};
use rpp::parser::identifier::parse_identifier;
use rpp::{parse_element, ParseError, ParseErrorKind, RElement, RFragment, RValue};

fn q(text: &str) -> RValue {
    RValue::QS(text.to_string())
}

fn s(text: &str) -> RValue {
    RValue::S(text.to_string())
}

fn n(text: &str) -> RValue {
    RValue::N(text.to_string())
}

fn attribute(name: &str, values: Vec<RValue>) -> RFragment {
    RFragment::Attribute(name.to_string(), values)
}

fn element(tag: &str, args: Vec<RValue>, content: Vec<RFragment>) -> RElement {
    RElement { tag: tag.to_string(), args, content }
}

fn contains_attribute(v: &Vec<RFragment>, name: &str) -> bool {
    v.iter().any(|f| matches!(f, RFragment::Attribute(n, _) if n == name))
}

fn failure(kind: ParseErrorKind, position: usize) -> ParseError {
    ParseError { kind, position }
}

#[test]
fn identifier() {
    assert!(matches!(parse_identifier(r#"IDENTIFIER"#), Ok((_, "IDENTIFIER"))));
}

#[test]
fn identifier_stops_at_other_characters() {
    assert_eq!(parse_identifier("NAME_2 rest"), Ok((" rest", "NAME_2")));
    assert_eq!(parse_identifier("a-b"), Ok(("-b", "a")));
    assert_eq!(
        parse_identifier(" NAME"),
        Err(failure(ParseErrorKind::EmptyIdentifier, 0))
    );
    assert_eq!(parse_identifier(""), Err(failure(ParseErrorKind::EmptyIdentifier, 0)));
}

#[test]
fn simple_tag() {
    assert!(matches!(
        parse_element("<RENDER_CFG\n>"),
        Ok(("", RElement { tag, .. })) if tag == "RENDER_CFG"
    ));
}

#[test]
fn test_basic_metronome() {
    let parsed = parse_element("<METRONOME 6 2\n>");
    assert!(matches!(
        &parsed,
        Ok(("", RElement { tag, args, .. }))
            if tag == "METRONOME" && args[..] == [n("6"), n("2")]
    ));
    let element = parsed.unwrap().1;
    assert_eq!(element.args[0].get_num().unwrap().parse::<f64>(), Ok(6.0));
    assert_eq!(element.args[1].get_num().unwrap().parse::<f64>(), Ok(2.0));
}

#[test]
fn test_full_metronome() {
    let input = r#"<METRONOME 6 2
    VOL 0.25 0.125
    FREQ 800 1600 1
    BEATLEN 4
    SAMPLES "" ""
    PATTERN 2863311530 2863311529
    MULT 1
  >"#;
    assert!(matches!(
        parse_element(input),
        Ok(("", RElement { tag, args, content }))
            if tag == "METRONOME"
                && args[..] == [n("6"), n("2")]
                && contains_attribute(&content, "VOL")
                && contains_attribute(&content, "MULT")
    ));
}

#[test]
fn full_metronome_tree() {
    let input = r#"<METRONOME 6 2
    VOL 0.25 0.125
    FREQ 800 1600 1
    BEATLEN 4
    SAMPLES "" ""
    PATTERN 2863311530 2863311529
    MULT 1
  >"#;
    let expected = element(
        "METRONOME",
        vec![n("6"), n("2")],
        vec![
            attribute("VOL", vec![n("0.25"), n("0.125")]),
            attribute("FREQ", vec![n("800"), n("1600"), n("1")]),
            attribute("BEATLEN", vec![n("4")]),
            attribute("SAMPLES", vec![q(""), q("")]),
            attribute("PATTERN", vec![n("2863311530"), n("2863311529")]),
            attribute("MULT", vec![n("1")]),
        ],
    );
    assert_eq!(parse_element(input), Ok(("", expected)));
}

#[test]
fn test_fx_no_bin() {
    let input = r#"<VST "VST: Streaming Plugin (Distopik)" StreamingPlugin.vst 0 "" 54811357<56535403445ADD73747265616D696E67> ""
        >
        "#;
    let parsed = parse_element(input).unwrap().1;
    assert_eq!(
        parsed,
        element(
            "VST",
            vec![
                q("VST: Streaming Plugin (Distopik)"),
                s("StreamingPlugin.vst"),
                n("0"),
                q(""),
                s("54811357<56535403445ADD73747265616D696E67>"),
                q(""),
            ],
            vec![],
        )
    );
}

const FX_LIST: &str = r#"<MASTERFXLIST
    SHOW 0
    LASTSEL 0
    DOCKED 0
    BYPASS 0 0 0
    <VST "VST: Streaming Plugin (Distopik)" StreamingPlugin.vst 0 "" 54811357<56535403445ADD73747265616D696E67> ""
      3VpEA+9e7f4CAAAAAQAAAAAAAAACAAAAAAAAAAIAAAABAAAAAAAAAAIAAAAAAAAACAAAAAAAAAAAABAA
      776t3g3wrd4=
      AFByb2dyYW0gMQAQAAAA
    >
    PRESETNAME "Program 1"
    FLOATPOS 1518 499 486 342
    FXID {8565B6E8-202B-9E42-AA07-4B0F7E6955E1}
    WAK 0 0
  >"#;

fn fx_list_tree() -> RElement {
    element(
        "MASTERFXLIST",
        vec![],
        vec![
            attribute("SHOW", vec![n("0")]),
            attribute("LASTSEL", vec![n("0")]),
            attribute("DOCKED", vec![n("0")]),
            attribute("BYPASS", vec![n("0"), n("0"), n("0")]),
            RFragment::Child(element(
                "VST",
                vec![
                    q("VST: Streaming Plugin (Distopik)"),
                    s("StreamingPlugin.vst"),
                    n("0"),
                    q(""),
                    s("54811357<56535403445ADD73747265616D696E67>"),
                    q(""),
                ],
                vec![
                    RFragment::BinData(
                        "3VpEA+9e7f4CAAAAAQAAAAAAAAACAAAAAAAAAAIAAAABAAAAAAAAAAIAAAAAAAAACAAAAAAAAAAAABAA"
                            .to_string(),
                    ),
                    RFragment::BinData("776t3g3wrd4=".to_string()),
                    RFragment::BinData("AFByb2dyYW0gMQAQAAAA".to_string()),
                ],
            )),
            attribute("PRESETNAME", vec![q("Program 1")]),
            attribute("FLOATPOS", vec![n("1518"), n("499"), n("486"), n("342")]),
            attribute("FXID", vec![s("{8565B6E8-202B-9E42-AA07-4B0F7E6955E1}")]),
            attribute("WAK", vec![n("0"), n("0")]),
        ],
    )
}

#[test]
fn test_full_fxlist() {
    let parsed = parse_element(FX_LIST).unwrap().1;
    assert_eq!(parsed, fx_list_tree());
}

#[test]
fn integ_test_print_debug() {
    let parsed = parse_element(FX_LIST).unwrap().1;
    println!("{parsed:?}");
    assert!(format!("{parsed:?}").contains("MASTERFXLIST"));
}

#[test]
fn integ_test_reprint() {
    let parsed = parse_element(FX_LIST).unwrap().1;
    let formatted = parsed.to_string();
    println!("{formatted}");
    let expected = r#"<MASTERFXLIST
 SHOW 0
 LASTSEL 0
 DOCKED 0
 BYPASS 0 0 0
 <VST "VST: Streaming Plugin (Distopik)" StreamingPlugin.vst 0 "" 54811357<56535403445ADD73747265616D696E67> ""
  3VpEA+9e7f4CAAAAAQAAAAAAAAACAAAAAAAAAAIAAAABAAAAAAAAAAIAAAAAAAAACAAAAAAAAAAAABAA
  776t3g3wrd4=
  AFByb2dyYW0gMQAQAAAA
 >
 PRESETNAME "Program 1"
 FLOATPOS 1518 499 486 342
 FXID {8565B6E8-202B-9E42-AA07-4B0F7E6955E1}
 WAK 0 0
>
"#;
    assert_eq!(formatted, expected);
}

#[test]
fn integ_test_reparse() {
    let parsed = parse_element(FX_LIST).unwrap().1;
    let formatted = parsed.to_string();
    let again = parse_element(&formatted).unwrap();
    assert_eq!(again.0, "\n");
    assert_eq!(again.1, parsed);
}

#[test]
fn empty_argument_list() {
    let parsed = parse_element("<FOO\n>").unwrap();
    assert_eq!(parsed.0, "");
    assert_eq!(parsed.1, element("FOO", vec![], vec![]));
    let written = parsed.1.to_string();
    assert_eq!(written, "<FOO\n>\n");
    let again = parse_element(&written).unwrap().1;
    assert_eq!(again.args.len(), 0);
    assert_eq!(again.content.len(), 0);
}

#[test]
fn fragments_keep_line_order() {
    let input = "<A\nX 1\nY 2\nX 3\n\nQUJD+/8=\n<B\n>\nX 4\n>";
    let parsed = parse_element(input).unwrap().1;
    assert_eq!(
        parsed.content,
        vec![
            attribute("X", vec![n("1")]),
            attribute("Y", vec![n("2")]),
            attribute("X", vec![n("3")]),
            RFragment::Empty,
            RFragment::BinData("QUJD+/8=".to_string()),
            RFragment::Child(element("B", vec![], vec![])),
            attribute("X", vec![n("4")]),
        ]
    );
}

#[test]
fn fragment_at_a_position() {
    let buf = decode("<A\n  NAME x  \r\n>");
    assert_eq!(
        parse_element_fragment_at(&buf, 3),
        Ok(Some((attribute("NAME", vec![s("x")]), 15)))
    );
    assert_eq!(parse_element_fragment_at(&buf, 15), Ok(None));
    assert_eq!(parse_attribute_at(&buf, 5), Ok(Some((attribute("NAME", vec![s("x")]), 11))));
    assert_eq!(parse_attribute_at(&buf, 3), Ok(None));
    assert_eq!(
        parse_element_body_at(&buf, 1),
        Ok((element("A", vec![], vec![attribute("NAME", vec![s("x")])]), 15))
    );
    assert_eq!(
        parse_element_at(&buf, 0),
        Ok((element("A", vec![], vec![attribute("NAME", vec![s("x")])]), 16))
    );
}

#[test]
fn name_without_blank_is_bin_data() {
    let parsed = parse_element("<A\nABC\nABC \nAB+C\n>").unwrap().1;
    assert_eq!(
        parsed.content,
        vec![
            RFragment::BinData("ABC".to_string()),
            attribute("ABC", vec![]),
            RFragment::BinData("AB+C".to_string()),
        ]
    );
}

#[test]
fn bin_data_pieces() {
    assert_eq!(parse_bin_data_body("AB+/=9 x"), Ok((" x", "AB+/=9")));
    assert_eq!(parse_bin_data_body("-AB"), Ok(("-AB", "")));
    let buf = decode("  QUJD x");
    assert_eq!(
        parse_bin_data_at(&buf, 2),
        Some((RFragment::BinData("QUJD".to_string()), 6))
    );
    assert_eq!(parse_bin_data_at(&buf, 0), None);
}

#[test]
fn line_that_does_not_end_stops_the_body() {
    // Behind the base64 run stands `!`, so the line holds no fragment, and
    // the body ends before it without the closing `>`.
    assert_eq!(
        parse_element("<A\nQUJD!\n>"),
        Err(failure(ParseErrorKind::UnterminatedElement, 3))
    );
}

#[test]
fn rest_behind_the_element() {
    assert_eq!(
        parse_element("<A 1\n>tail"),
        Ok(("tail", element("A", vec![n("1")], vec![])))
    );
}

#[test]
fn crlf_line_endings() {
    let parsed = parse_element("<A 1 \r\n B \"x\"\t\r\n\r\n>").unwrap().1;
    assert_eq!(
        parsed,
        element(
            "A",
            vec![n("1")],
            vec![attribute("B", vec![q("x")]), RFragment::Empty]
        )
    );
}

#[test]
fn nested_elements() {
    let input = "<A\n <B\n  <C 1\n  >\n >\n>";
    let parsed = parse_element(input).unwrap().1;
    let c = element("C", vec![n("1")], vec![]);
    let b = element("B", vec![], vec![RFragment::Child(c)]);
    assert_eq!(parsed, element("A", vec![], vec![RFragment::Child(b)]));
}

#[test]
fn error_missing_opening() {
    assert_eq!(
        parse_element("FOO\n>"),
        Err(failure(ParseErrorKind::UnexpectedCharacter, 0))
    );
    assert_eq!(parse_element(""), Err(failure(ParseErrorKind::UnexpectedCharacter, 0)));
}

#[test]
fn error_empty_tag() {
    assert_eq!(
        parse_element("< FOO\n>"),
        Err(failure(ParseErrorKind::EmptyIdentifier, 1))
    );
    assert_eq!(parse_element("<"), Err(failure(ParseErrorKind::EmptyIdentifier, 1)));
}

#[test]
fn error_argument_line_without_ending() {
    assert_eq!(
        parse_element("<FOO 1 2"),
        Err(failure(ParseErrorKind::UnexpectedCharacter, 8))
    );
    assert_eq!(
        parse_element("<FOO \"a\"b\n>"),
        Err(failure(ParseErrorKind::UnexpectedCharacter, 8))
    );
}

#[test]
fn error_missing_closing() {
    assert_eq!(
        parse_element("<FOO\nA 1\n"),
        Err(failure(ParseErrorKind::UnterminatedElement, 9))
    );
    assert_eq!(
        parse_element("<FOO\nA 1\n  \n\n"),
        Err(failure(ParseErrorKind::UnterminatedElement, 13))
    );
}

#[test]
fn error_unterminated_quoted_string() {
    assert_eq!(
        parse_element("<FOO\nA \"abc\n>"),
        Err(failure(ParseErrorKind::UnterminatedQuotedString, 7))
    );
    assert_eq!(
        parse_element("<FOO \"abc\\"),
        Err(failure(ParseErrorKind::UnterminatedQuotedString, 5))
    );
}

#[test]
fn error_unknown_escape() {
    assert_eq!(
        parse_element("<FOO \"a\\qb\"\n>"),
        Err(failure(ParseErrorKind::UnexpectedCharacter, 8))
    );
}

#[test]
fn error_in_a_child_is_the_error_of_the_whole() {
    assert_eq!(
        parse_element("<A\n <B\n  <\n >\n>"),
        Err(failure(ParseErrorKind::EmptyIdentifier, 10))
    );
}
