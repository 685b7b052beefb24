use rpp::serialize::{indentation, push_escaped};
use rpp::{parse_element, Item, Project, RElement, RFragment, RFragmentId, RValue, RValues, Track};

fn q(text: &str) -> RValue {
    RValue::QS(text.to_string())
}

fn s(text: &str) -> RValue {
    RValue::S(text.to_string())
}

fn n(text: &str) -> RValue {
    RValue::N(text.to_string())
}

fn attribute(name: &str, values: Vec<RValue>) -> RFragment {
    RFragment::Attribute(name.to_string(), values)
}

fn element(tag: &str, args: Vec<RValue>, content: Vec<RFragment>) -> RElement {
    RElement { tag: tag.to_string(), args, content }
}

#[test]
fn test_element_str() {
    let v = RValue::S("foo".to_string());
    assert_eq!(v.get_str(), Some("foo"));

    let v = RValue::N("5.0".to_string());
    assert_eq!(v.get_str(), None);
}

#[test]
fn test_arg_not_exists() {
    let v = RElement { tag: "PROJECT".to_string(), args: vec![], content: vec![] };

    assert_eq!(v.get_str_arg(0), None);
    assert_eq!(v.get_num_attr("FOO", 0), None);
}

#[test]
fn test_arg_wrong_type() {
    let v = RElement {
        tag: "PROJECT".to_string(),
        args: vec![RValue::N("0.5".to_string())],
        content: vec![RFragment::Attribute(
            "FOO".to_string(),
            vec![RValue::S("test".to_string())],
        )],
    };

    assert_eq!(v.get_str_arg(0), None);
    assert_eq!(v.get_num_attr("FOO", 0), None);
}

#[test]
fn value_kinds() {
    assert_eq!(q("a b").get_str(), Some("a b"));
    assert_eq!(q("a b").get_num(), None);
    assert_eq!(s("x").get_num(), None);
    assert_eq!(n("5.01").get_num(), Some("5.01"));
    assert_eq!(s("x").to_string(), "x");
    assert_eq!(n("5.01").to_string(), "5.01");
    assert_eq!(q("a b").to_string(), "\"a b\"");
}

#[test]
fn arguments_by_position() {
    let e = element("P", vec![n("0.1"), q("6.42/macOS-arm64"), s("x")], vec![]);
    assert_eq!(e.get_str_arg(0), None);
    assert_eq!(e.get_str_arg(1), Some("6.42/macOS-arm64"));
    assert_eq!(e.get_str_arg(2), Some("x"));
    assert_eq!(e.get_str_arg(3), None);
    assert_eq!(e.get_str_arg(usize::MAX), None);
}

#[test]
fn attributes_by_name_and_occurrence() {
    let e = element(
        "P",
        vec![],
        vec![
            attribute("A", vec![s("first"), s("more")]),
            attribute("B", vec![n("1")]),
            RFragment::Empty,
            attribute("A", vec![n("2")]),
            RFragment::BinData("A".to_string()),
            RFragment::Child(element("A", vec![s("child")], vec![])),
            attribute("A", vec![]),
            attribute("A", vec![q("last")]),
        ],
    );
    assert_eq!(e.get_str_attr("A", 0), Some("first"));
    assert_eq!(e.get_str_attr("A", 1), None);
    assert_eq!(e.get_num_attr("A", 1), Some("2"));
    assert_eq!(e.get_num_attr("A", 0), None);
    assert_eq!(e.get_str_attr("A", 2), None);
    assert_eq!(e.get_num_attr("A", 2), None);
    assert_eq!(e.get_attr("A", 2), None);
    assert_eq!(e.get_str_attr("A", 3), Some("last"));
    assert_eq!(e.get_attr("A", 3), Some(&q("last")));
    assert_eq!(e.get_str_attr("A", 4), None);
    assert_eq!(e.get_num_attr("B", 0), Some("1"));
    assert_eq!(e.get_num_attr("B", 1), None);
    assert_eq!(e.get_str_attr("C", 0), None);
    assert_eq!(e.get_str_attr("a", 0), None);
}

#[test]
fn children_by_tag() {
    let e = element(
        "P",
        vec![],
        vec![
            RFragment::Child(element("T", vec![n("1")], vec![])),
            attribute("T", vec![]),
            RFragment::Child(element("U", vec![], vec![])),
            RFragment::Child(element("T", vec![n("2")], vec![])),
        ],
    );
    let found = e.children_with_tag("T");
    assert_eq!(found.len(), 2);
    assert_eq!(found[0], &element("T", vec![n("1")], vec![]));
    assert_eq!(found[1], &element("T", vec![n("2")], vec![]));
    assert_eq!(e.children_with_tag("U").len(), 1);
    assert_eq!(e.children_with_tag("V").len(), 0);
    assert_eq!(e.children_with_tag("T").len(), 2);
}

#[test]
fn fragment_tests() {
    let name = "A".to_string();
    let attr = attribute("A", vec![n("1")]);
    let child = RFragment::Child(element("A", vec![], vec![]));
    assert_eq!(rpp::query::is_fragment_attribute(&attr, &name), Some(&vec![n("1")]));
    assert_eq!(rpp::query::is_fragment_attribute(&child, &name), None);
    assert_eq!(rpp::query::is_fragment_attribute(&attr, &"B".to_string()), None);
    assert_eq!(rpp::query::is_child_tag(&child, &name), Some(&element("A", vec![], vec![])));
    assert_eq!(rpp::query::is_child_tag(&attr, &name), None);
    assert_eq!(rpp::query::is_child_tag(&child, &"B".to_string()), None);
    assert_ne!(RFragmentId::Attribute(name), RFragmentId::Child(0));
    assert_eq!(RFragmentId::BinData(1), RFragmentId::BinData(1));
}

#[test]
fn appending() {
    let mut e = RElement::default();
    e.tag = "P".to_string();
    e.append_attribute("A".to_string(), vec![n("1")]);
    e.append_bin_data("QUJD".to_string());
    e.append_child(element("C", vec![], vec![]));
    e.append_attribute("A".to_string(), vec![n("2")]);
    assert_eq!(
        e,
        element(
            "P",
            vec![],
            vec![
                attribute("A", vec![n("1")]),
                RFragment::BinData("QUJD".to_string()),
                RFragment::Child(element("C", vec![], vec![])),
                attribute("A", vec![n("2")]),
            ]
        )
    );
    assert_eq!(e.to_string(), "<P\n A 1\n QUJD\n <C\n >\n A 2\n>\n");
}

#[test]
fn writing_with_indent() {
    let e = element(
        "A",
        vec![n("1"), q("x\ty"), s("z")],
        vec![
            attribute("N", vec![]),
            RFragment::Empty,
            RFragment::Child(element("B", vec![], vec![attribute("M", vec![s("v")])])),
        ],
    );
    assert_eq!(
        e.to_string_with_indent(2),
        "  <A 1 \"x\\ty\" z\n   N \n\n   <B\n    M v\n   >\n  >\n"
    );
    assert_eq!(e.to_string(), e.to_string_with_indent(0));
    assert_eq!(
        RElement::value_list_to_string(&vec![n("1"), q("x\ty"), s("z")]),
        "1 \"x\\ty\" z"
    );
    assert_eq!(RElement::value_list_to_string(&vec![]), "");
    assert_eq!(RElement::value_list_to_string(&vec![s("a")]), "a");
    assert_eq!(indentation(0), "");
    assert_eq!(indentation(3), "   ");
    let mut out = "x".to_string();
    push_escaped(&mut out, '"');
    push_escaped(&mut out, 'a');
    push_escaped(&mut out, '\n');
    push_escaped(&mut out, '\t');
    push_escaped(&mut out, '\\');
    assert_eq!(out, "x\\\"a\\n\\t\\\\");
}

#[test]
fn round_trip() {
    let input = "<ROOT 0.10 \"a \\\"b\\\" \\\\ c\" x\n\
                 \tNAME \"one\\ttwo\\nthree\"  \r\n\
                 \n\
                 NAME second 1e5 .5\n\
                 <CHILD \"\"\n\
                 QUJD+/8=\n\
                 ABC\n\
                 <DEEP\n>\n\
                 EMPTY \n\
                 >\n\
                 LAST -1\n\
                 \n  >trailing";
    let first = parse_element(input).unwrap();
    assert_eq!(first.0, "trailing");
    let written = first.1.to_string();
    assert_eq!(
        written,
        "<ROOT 0.10 \"a \\\"b\\\" \\\\ c\" x\n \
         NAME \"one\\ttwo\\nthree\"\n\
         \n \
         NAME second 1e5 .5\n \
         <CHILD \"\"\n  \
         QUJD+/8=\n  \
         ABC\n  \
         <DEEP\n  \
         >\n  \
         EMPTY \n \
         >\n \
         LAST -1\n\
         \n\
         >\n"
    );
    let second = parse_element(&written).unwrap();
    assert_eq!(second.0, "\n");
    assert_eq!(second.1, first.1);
    assert_eq!(second.1.to_string(), written);
    let indented = first.1.to_string_with_indent(3);
    assert_eq!(rpp::parser::element::parse_element_at(
        &rpp::parser::buffer::decode(&indented), 3).unwrap().0, first.1);
}

const PROJECT: &str = r#"<REAPER_PROJECT 0.1 "6.42/macOS-arm64" 1640001046
<TRACK
NAME "quando una stella"
<ITEM
LENGTH 5.01
>
>
>
"#;

#[test]
fn end_to_end() {
    let parsed = parse_element(PROJECT).unwrap();
    assert_eq!(parsed.0, "\n");
    let root = parsed.1;
    assert_eq!(root.get_str_arg(1), Some("6.42/macOS-arm64"));
    let tracks = root.children_with_tag("TRACK");
    assert_eq!(tracks.len(), 1);
    assert_eq!(tracks[0].get_str_attr("NAME", 0), Some("quando una stella"));
    let items = tracks[0].children_with_tag("ITEM");
    assert_eq!(items.len(), 1);
    let length = items[0].get_num_attr("LENGTH", 0).unwrap();
    assert_eq!(length.parse::<f64>(), Ok(5.01));
    assert_eq!(root.content.len(), 1);
    assert_eq!(root.args.len(), 3);
}

#[test]
fn simple_rpp_version_test() {
    let input = r#"<REAPER_PROJECT 0.1 "6.42/macOS-arm64" 1640001046
        >"#;
    let element = parse_element(input).unwrap().1;

    let project = Project(element);
    assert_eq!(project.reaper_version(), Some("6.42/macOS-arm64"))
}

#[test]
fn rpp_tracks_test() {
    let input = r#"<REAPER_PROJECT 0.1 "6.42/macOS-arm64" 1640001046
        <TRACK
            NAME "quando una stella"
        >
        <TRACK
            NAME "oltre a queste nubi"
        >
        >"#;
    let element = parse_element(input).unwrap().1;
    let project = Project(element);
    assert_eq!(project.tracks().len(), 2);
    assert_eq!(project.tracks()[0].name(), Some("quando una stella"));
    assert_eq!(project.tracks()[1].name(), Some("oltre a queste nubi"));
}

#[test]
fn rpp_items_test() {
    let input = r#"<REAPER_PROJECT 0.1 "6.42/macOS-arm64" 1640001046
        <TRACK
            NAME "quando una stella"
            <ITEM
                LENGTH 5.01
            >
        >
        >"#;
    let element = parse_element(input).unwrap().1;

    let project = Project(element);
    assert_eq!(project.tracks().len(), 1);
    assert_eq!(project.tracks()[0].items().len(), 1);
    let length: f64 = project.tracks()[0].items()[0].len().unwrap().parse().unwrap();
    assert!((length - 5.01).abs() <= 0.01 * 5.01);
}

#[test]
fn project_without_what_is_asked() {
    let project = Project(element("REAPER_PROJECT", vec![n("0.1")], vec![]));
    assert_eq!(project.reaper_version(), None);
    assert_eq!(project.tracks().len(), 0);
    let bare = element("TRACK", vec![], vec![attribute("NAME", vec![n("1")])]);
    let track = Track(&bare);
    assert_eq!(track.name(), None);
    assert_eq!(track.items().len(), 0);
    let item = Item(&bare);
    assert_eq!(item.len(), None);
}

#[test]
fn made_values() {
    assert_eq!(RValues::ints(&[0, 7, -12, 1640001046]), vec![n("0"), n("7"), n("-12"), n("1640001046")]);
    assert_eq!(
        RValues::ints(&[i64::MAX, i64::MIN]),
        vec![n("9223372036854775807"), n("-9223372036854775808")]
    );
    assert_eq!(RValues::ints(&[]), vec![]);
    assert_eq!(RValues::bools(&[true, false]), vec![n("1"), n("0")]);
    assert_eq!(RValues::strings(&["a", "b c"]), vec![s("a"), s("b c")]);
    assert_eq!(RValues::quoted_strings(&["a", "b c"]), vec![q("a"), q("b c")]);
    assert_eq!(RValues::integer(-5), vec![n("-5")]);
    assert_eq!(RValues::integer(10), vec![n("10")]);
    assert_eq!(RValues::bool(true), vec![n("1")]);
    assert_eq!(RValues::bool(false), vec![n("0")]);
    assert_eq!(RValues::string("x"), vec![s("x")]);
    assert_eq!(RValues::quoted_string("x y"), vec![q("x y")]);
    assert_eq!(rpp::builders::decimal_text(-100), "-100");
    assert_eq!(rpp::builders::digit(7), '7');
    let mut out = "n=".to_string();
    rpp::builders::push_digits(&mut out, 9050);
    assert_eq!(out, "n=9050");
}

#[test]
fn made_numbers_read_as_numbers() {
    let mut e = element("A", RValues::ints(&[-3, 40]), vec![]);
    e.append_attribute("B".to_string(), RValues::bool(true));
    let written = e.to_string();
    assert_eq!(written, "<A -3 40\n B 1\n>\n");
    assert_eq!(parse_element(&written).unwrap().1, e);
}

#[test]
fn well_formed_trees() {
    let parsed = parse_element(PROJECT).unwrap().1;
    assert!(parsed.is_well_formed());
    assert!(q("any \n text").is_well_formed());
    assert!(s("x").is_well_formed());
    assert!(n("1.5").is_well_formed());
    assert!(!s("1.5").is_well_formed());
    assert!(!n("x").is_well_formed());
    assert!(!s("a b").is_well_formed());
    assert!(!s("").is_well_formed());
    assert!(!s("\"a").is_well_formed());
    assert!(attribute("A_1", vec![]).is_well_formed());
    assert!(!attribute("A-1", vec![]).is_well_formed());
    assert!(!attribute("", vec![]).is_well_formed());
    assert!(!attribute("A", vec![s("a b")]).is_well_formed());
    assert!(RFragment::BinData("QUJD+/8=".to_string()).is_well_formed());
    assert!(!RFragment::BinData(String::new()).is_well_formed());
    assert!(!RFragment::BinData("a b".to_string()).is_well_formed());
    assert!(RFragment::Empty.is_well_formed());
    assert!(!element("", vec![], vec![]).is_well_formed());
    assert!(!element("A", vec![s("")], vec![]).is_well_formed());
    let bad_child = RFragment::Child(element("B", vec![], vec![attribute("?", vec![])]));
    assert!(!bad_child.is_well_formed());
    assert!(!element("A", vec![], vec![RFragment::Empty, bad_child]).is_well_formed());
    assert!(rpp::wellformed::values_well_formed(&vec![n("1"), q("")]));
    assert!(!rpp::wellformed::values_well_formed(&vec![n("1"), n("")]));
    assert!(rpp::wellformed::is_run("ab", rpp::charset::CharClass::Ident));
    assert!(!rpp::wellformed::is_run("", rpp::charset::CharClass::Ident));
    assert_eq!(rpp::wellformed::token_kind("12"), (true, true));
    assert_eq!(rpp::wellformed::token_kind("\"12"), (false, false));
}

#[test]
fn a_tree_that_is_not_well_formed_reads_as_another() {
    let e = element("A", vec![s("a b")], vec![RFragment::BinData(String::new())]);
    assert!(!e.is_well_formed());
    let again = parse_element(&e.to_string()).unwrap().1;
    assert_eq!(again, element("A", vec![s("a"), s("b")], vec![RFragment::Empty]));
}
