use modlet_xml::command::{Command, CsvInstruction, InstructionSet};
use modlet_xml::engine::{Failure, MergeFailure, PatchError};
use modlet_xml::event::{Attribute, XmlEvent};
use modlet_xml::path::PathExpr;
use modlet_xml::tree::Document;
use quick_xml::events::{BytesStart, Event};
use quick_xml::Reader;

fn attributes(tag: &BytesStart) -> Vec<Attribute> {
    tag.attributes()
        .map(|a| {
            let a = a.unwrap();
            Attribute {
                key: a.key.as_ref().to_vec(),
                value: a.unescape_value().unwrap().into_owned().into_bytes(),
            }
        })
        .collect()
}

fn events(xml: &str) -> Vec<XmlEvent> {
    let mut reader = Reader::from_str(xml);
    let mut out = Vec::new();
    loop {
        match reader.read_event().unwrap() {
            Event::Start(e) => out.push(XmlEvent::Start {
                name: e.name().as_ref().to_vec(),
                attributes: attributes(&e),
            }),
            Event::Empty(e) => out.push(XmlEvent::Empty {
                name: e.name().as_ref().to_vec(),
                attributes: attributes(&e),
            }),
            Event::End(e) => out.push(XmlEvent::End { name: e.name().as_ref().to_vec() }),
            Event::Text(t) => {
                out.push(XmlEvent::Text { data: t.unescape().unwrap().into_owned().into_bytes() })
            }
            Event::Comment(t) => out.push(XmlEvent::Comment { data: t.into_inner().into_owned() }),
            Event::Eof => break,
            _ => {}
        }
    }
    out
}

fn document(xml: &str) -> Document {
    Document::from_events(&events(xml)).unwrap()
}

fn text_of(document: &Document) -> String {
    String::from_utf8(document.serialize().unwrap()).unwrap()
}

fn operands(xpath: &str, content: &str) -> InstructionSet {
    InstructionSet {
        attribute: None,
        csv_op: None,
        values: events(content),
        xpath: xpath.as_bytes().to_vec(),
    }
}

fn on_attribute(xpath: &str, attribute: &str, content: &str) -> InstructionSet {
    InstructionSet { attribute: Some(attribute.as_bytes().to_vec()), ..operands(xpath, content) }
}

fn csv(xpath: &str, attribute: Option<&str>, op: CsvInstruction) -> Command {
    Command::Csv(InstructionSet {
        attribute: attribute.map(|a| a.as_bytes().to_vec()),
        csv_op: Some(op),
        values: vec![],
        xpath: xpath.as_bytes().to_vec(),
    })
}

fn apply(xml: &str, command: &Command) -> Result<String, PatchError> {
    let mut doc = document(xml);
    doc.apply(command)?;
    Ok(text_of(&doc))
}

#[test]
fn set_attribute_replaces_the_value() {
    let command = Command::SetAttribute(on_attribute("a/b", "x", "2"));
    assert_eq!(apply("<a><b x=\"1\"/></a>", &command).unwrap(), "<a><b x=\"2\"/></a>");
}

#[test]
fn append_adds_the_content_as_last_child() {
    let command = Command::Append(operands("a", "<b/>"));
    assert_eq!(apply("<a/>", &command).unwrap(), "<a><b/></a>");
}

#[test]
fn append_edits_every_match_in_document_order() {
    let command = Command::Append(operands("/r/i", "<n k=\"1\"/>tail"));
    assert_eq!(
        apply("<r><i/><j><i/></j><i>t<c/></i></r>", &command).unwrap(),
        "<r><i><n k=\"1\"/>tail</i><j><i/></j><i>t<c/><n k=\"1\"/>tail</i></r>"
    );
}

#[test]
fn append_on_no_match_succeeds_and_changes_nothing() {
    let command = Command::Append(operands("/a/missing", "<b/>"));
    assert_eq!(apply("<a><c/></a>", &command).unwrap(), "<a><c/></a>");
}

#[test]
fn insert_before_puts_the_content_before_every_match() {
    let command = Command::InsertBefore(operands("/r/i", "<x/>y"));
    assert_eq!(
        apply("<r><i n=\"1\"/><j/><i n=\"2\"/></r>", &command).unwrap(),
        "<r><x/>y<i n=\"1\"/><j/><x/>y<i n=\"2\"/></r>"
    );
}

#[test]
fn insert_after_puts_the_content_after_every_match() {
    let command = Command::InsertAfter(operands("/r/i", "<x/><y/>"));
    assert_eq!(
        apply("<r><i n=\"1\"/><j/><i n=\"2\"/></r>", &command).unwrap(),
        "<r><i n=\"1\"/><x/><y/><j/><i n=\"2\"/><x/><y/></r>"
    );
}

#[test]
fn insert_keeps_the_order_of_the_content() {
    let command = Command::InsertBefore(operands("/r/i", "<one/><two/><three/>"));
    assert_eq!(
        apply("<r><i/></r>", &command).unwrap(),
        "<r><one/><two/><three/><i/></r>"
    );
}

#[test]
fn remove_detaches_every_match_with_its_subtree() {
    let command = Command::Remove(operands("/r/i", ""));
    assert_eq!(
        apply("<r><i k=\"1\"/><j/><i k=\"2\"><c><d/></c></i>t</r>", &command).unwrap(),
        "<r><j/>t</r>"
    );
}

#[test]
fn remove_obeys_the_test_of_the_path() {
    let command = Command::Remove(operands("/r/i[@k='2']", ""));
    assert_eq!(
        apply("<r><i k=\"1\"/><i k=\"2\"/><i/><i k=\"2\" z=\"0\"/></r>", &command).unwrap(),
        "<r><i k=\"1\"/><i/></r>"
    );
}

#[test]
fn remove_of_the_root_leaves_the_rest_of_the_document() {
    let command = Command::Remove(operands("r", ""));
    assert_eq!(apply("<!--head--><r><i/></r>", &command).unwrap(), "<!--head-->");
}

#[test]
fn remove_attribute_deletes_the_attribute() {
    let command = Command::RemoveAttribute(on_attribute("/r/i", "a", ""));
    assert_eq!(
        apply("<r><i a=\"1\" b=\"2\"/><i b=\"3\" a=\"4\" c=\"5\"/></r>", &command).unwrap(),
        "<r><i b=\"2\"/><i b=\"3\" c=\"5\"/></r>"
    );
}

#[test]
fn remove_attribute_that_is_absent_is_no_error() {
    let command = Command::RemoveAttribute(on_attribute("/r/i", "a", ""));
    assert_eq!(apply("<r><i b=\"2\"/></r>", &command).unwrap(), "<r><i b=\"2\"/></r>");
}

#[test]
fn set_replaces_the_children_by_the_text() {
    let command = Command::SetValue(operands("/r/i", "new"));
    assert_eq!(
        apply("<r><i>old<c/>er</i><i/><j>kept</j></r>", &command).unwrap(),
        "<r><i>new</i><i>new</i><j>kept</j></r>"
    );
}

#[test]
fn set_with_empty_content_empties_the_element() {
    let command = Command::SetValue(operands("/r/i", ""));
    assert_eq!(apply("<r><i>old</i></r>", &command).unwrap(), "<r><i/></r>");
}

#[test]
fn set_joins_the_content_with_commas() {
    let command = Command::SetValue(operands("/r", "a<!--b-->c"));
    assert_eq!(apply("<r/>", &command).unwrap(), "<r>a,b,c</r>");
}

#[test]
fn set_attribute_creates_the_attribute_at_the_end() {
    let command = Command::SetAttribute(on_attribute("/r/i", "b", "9"));
    assert_eq!(
        apply("<r><i a=\"1\" b=\"2\" c=\"3\"/><i a=\"1\"/><i/></r>", &command).unwrap(),
        "<r><i a=\"1\" b=\"9\" c=\"3\"/><i a=\"1\" b=\"9\"/><i b=\"9\"/></r>"
    );
}

#[test]
fn set_attribute_without_content_sets_the_empty_value() {
    let command = Command::SetAttribute(on_attribute("/r", "a", ""));
    assert_eq!(apply("<r a=\"1\"/>", &command).unwrap(), "<r a=\"\"/>");
}

#[test]
fn values_are_escaped_when_written() {
    let command = Command::SetAttribute(on_attribute("/r", "a", "x &lt; &quot;y&quot;"));
    assert_eq!(apply("<r/>", &command).unwrap(), "<r a=\"x &lt; &quot;y&quot;\"/>");
    let text = Command::SetValue(operands("/r", "1 &amp; 2"));
    assert_eq!(apply("<r/>", &text).unwrap(), "<r>1 &amp; 2</r>");
}

#[test]
fn csv_adds_a_member_to_an_attribute() {
    let add = csv("/r/i", Some("tags"), CsvInstruction::Add('c'));
    assert_eq!(
        apply("<r><i tags=\"a,b\"/><i tags=\"\"/><i tags=\"c\"/><i/></r>", &add).unwrap(),
        "<r><i tags=\"a,b,c\"/><i tags=\"c\"/><i tags=\"c\"/><i tags=\"c\"/></r>"
    );
}

#[test]
fn csv_does_not_add_a_member_twice() {
    let add = csv("/r/i", Some("tags"), CsvInstruction::Add('b'));
    assert_eq!(
        apply("<r><i tags=\"a,b,c\"/><i tags=\"b\"/></r>", &add).unwrap(),
        "<r><i tags=\"a,b,c\"/><i tags=\"b\"/></r>"
    );
}

#[test]
fn csv_removes_a_member_from_an_attribute() {
    let remove = csv("/r/i", Some("tags"), CsvInstruction::Remove('b'));
    assert_eq!(
        apply(
            "<r><i tags=\"a,b,c\"/><i tags=\"b\"/><i tags=\"b,a,b\"/><i tags=\"a\"/><i/></r>",
            &remove
        )
        .unwrap(),
        "<r><i tags=\"a,c\"/><i tags=\"\"/><i tags=\"a\"/><i tags=\"a\"/><i/></r>"
    );
}

#[test]
fn csv_edits_the_text_where_no_attribute_is_named() {
    let add = csv("/r/i", None, CsvInstruction::Add('c'));
    assert_eq!(
        apply("<r><i>a,b</i><i/></r>", &add).unwrap(),
        "<r><i>a,b,c</i><i>c</i></r>"
    );
    let remove = csv("/r/i", None, CsvInstruction::Remove('a'));
    assert_eq!(
        apply("<r><i>a,b</i><i>a</i></r>", &remove).unwrap(),
        "<r><i>b</i><i/></r>"
    );
}

#[test]
fn csv_members_may_be_beyond_ascii() {
    let add = csv("/r", Some("t"), CsvInstruction::Add('\u{e9}'));
    assert_eq!(apply("<r t=\"a\"/>", &add).unwrap(), "<r t=\"a,\u{e9}\"/>");
    let remove = csv("/r", Some("t"), CsvInstruction::Remove('\u{20ac}'));
    assert_eq!(apply("<r t=\"\u{20ac},b,\u{20ac}\"/>", &remove).unwrap(), "<r t=\"b\"/>");
}

#[test]
fn csv_add_then_remove_restores_the_value() {
    for before in ["a,b", "", "a", "x,y,z,x"] {
        let xml = format!("<r t=\"{}\"/>", before);
        let mut doc = document(&xml);
        doc.apply(&csv("/r", Some("t"), CsvInstruction::Add('q'))).unwrap();
        assert_ne!(text_of(&doc), xml);
        doc.apply(&csv("/r", Some("t"), CsvInstruction::Remove('q'))).unwrap();
        assert_eq!(text_of(&doc), xml);
    }
}

#[test]
fn no_match_is_an_error_and_changes_nothing() {
    let xml = "<a><b x=\"1\"/></a>";
    let commands = vec![
        Command::Remove(operands("/a/c", "")),
        Command::RemoveAttribute(on_attribute("/a/c", "x", "")),
        Command::SetValue(operands("/a/c", "t")),
        Command::SetAttribute(on_attribute("/a/c", "x", "2")),
        csv("/a/c", Some("x"), CsvInstruction::Add('y')),
        Command::InsertAfter(operands("/a/c", "<n/>")),
        Command::InsertBefore(operands("/a/c", "<n/>")),
        Command::SetValue(operands("/a/b[@x='2']", "t")),
        Command::SetValue(operands("/b", "t")),
        Command::SetValue(operands("/a/b/c", "t")),
    ];
    for command in commands {
        let mut doc = document(xml);
        assert_eq!(doc.apply(&command), Err(PatchError::NoMatchFound));
        assert_eq!(text_of(&doc), xml);
    }
}

#[test]
fn unknown_is_reported_and_changes_nothing() {
    let xml = "<a><b x=\"1\"/></a>";
    let mut doc = document(xml);
    assert_eq!(doc.apply(&Command::Unknown), Err(PatchError::UnrecognizedInstruction));
    assert_eq!(text_of(&doc), xml);
    assert_eq!(doc, document(xml));
}

#[test]
fn comment_and_no_op_change_nothing() {
    let xml = "<a><b x=\"1\"/></a>";
    let mut doc = document(xml);
    assert_eq!(doc.apply(&Command::Comment(String::from("note"))), Ok(()));
    assert_eq!(doc.apply(&Command::NoOp), Ok(()));
    assert_eq!(text_of(&doc), xml);
}

#[test]
fn start_tag_checks_the_root_element() {
    let xml = "<!--head--><items><item/></items>";
    let mut doc = document(xml);
    assert_eq!(doc.apply(&Command::StartTag(Some(String::from("items")))), Ok(()));
    assert_eq!(doc.apply(&Command::StartTag(None)), Ok(()));
    assert_eq!(
        doc.apply(&Command::StartTag(Some(String::from("item")))),
        Err(PatchError::RootMismatch)
    );
    assert_eq!(
        doc.apply(&Command::StartTag(Some(String::new()))),
        Err(PatchError::RootMismatch)
    );
    assert_eq!(text_of(&doc), xml);
    let mut empty = Document { nodes: vec![] };
    assert_eq!(
        empty.apply(&Command::StartTag(Some(String::from("items")))),
        Err(PatchError::RootMismatch)
    );
    assert_eq!(empty.apply(&Command::StartTag(None)), Ok(()));
}

#[test]
fn malformed_instructions_are_refused() {
    let xml = "<a><b x=\"1\"/></a>";
    let unbalanced = |events: Vec<XmlEvent>| InstructionSet {
        attribute: None,
        csv_op: None,
        values: events,
        xpath: b"/a".to_vec(),
    };
    let open = XmlEvent::Start { name: b"n".to_vec(), attributes: vec![] };
    let close = XmlEvent::End { name: b"n".to_vec() };
    let other = XmlEvent::End { name: b"m".to_vec() };
    let commands = vec![
        Command::SetValue(operands("", "t")),
        Command::SetValue(operands("a//b", "t")),
        Command::SetValue(operands("/a/b[@x=1]", "t")),
        Command::Remove(operands("/a/b[", "")),
        Command::SetAttribute(operands("/a/b", "2")),
        Command::RemoveAttribute(operands("/a/b", "")),
        Command::Append(on_attribute("/a", "x", "<n/>")),
        Command::SetValue(on_attribute("/a/b", "x", "t")),
        Command::Remove(on_attribute("/a/b", "x", "")),
        Command::Csv(operands("/a/b", "")),
        Command::Csv(on_attribute("/a/b", "x", "")),
        Command::SetValue(InstructionSet {
            csv_op: Some(CsvInstruction::Add('c')),
            ..operands("/a/b", "t")
        }),
        Command::Append(unbalanced(vec![open.clone()])),
        Command::Append(unbalanced(vec![close.clone()])),
        Command::InsertAfter(unbalanced(vec![open.clone(), other.clone()])),
        Command::InsertBefore(unbalanced(vec![open.clone(), close.clone(), close.clone()])),
    ];
    for command in commands {
        let mut doc = document(xml);
        assert_eq!(doc.apply(&command), Err(PatchError::MalformedInstruction), "{:?}", command);
        assert_eq!(text_of(&doc), xml);
    }
}

#[test]
fn a_second_removal_finds_nothing() {
    let mut doc = document("<r><i/><j/><i/></r>");
    let command = Command::Remove(operands("/r/i", ""));
    assert_eq!(doc.apply(&command), Ok(()));
    assert_eq!(text_of(&doc), "<r><j/></r>");
    assert_eq!(doc.apply(&command), Err(PatchError::NoMatchFound));
    assert_eq!(text_of(&doc), "<r><j/></r>");
}

#[test]
fn setting_twice_is_setting_once() {
    let mut doc = document("<r><i a=\"1\">x</i><i/></r>");
    let commands = vec![
        Command::SetValue(operands("/r/i", "text")),
        Command::SetAttribute(on_attribute("/r/i", "a", "2")),
        Command::SetAttribute(on_attribute("/r/i[@a='2']", "b", "3")),
    ];
    assert_eq!(doc.apply_all(&commands), Ok(()));
    let once = text_of(&doc);
    assert_eq!(once, "<r><i a=\"2\" b=\"3\">text</i><i a=\"2\" b=\"3\">text</i></r>");
    assert_eq!(doc.apply_all(&commands), Ok(()));
    assert_eq!(text_of(&doc), once);
}

#[test]
fn a_path_that_tests_what_is_set_does_not_match_again() {
    let mut doc = document("<r><i a=\"1\"/></r>");
    let command = Command::SetAttribute(on_attribute("/r/i[@a='1']", "a", "2"));
    assert_eq!(doc.apply(&command), Ok(()));
    assert_eq!(text_of(&doc), "<r><i a=\"2\"/></r>");
    assert_eq!(doc.apply(&command), Err(PatchError::NoMatchFound));
}

#[test]
fn the_later_of_two_overlays_wins() {
    let base = document("<items><item name=\"a\" value=\"0\"/></items>");
    let first = vec![Command::SetAttribute(on_attribute("/items/item", "value", "1"))];
    let second = vec![Command::SetAttribute(on_attribute("/items/item", "value", "2"))];
    let one_two = base.merge(&vec![first.clone(), second.clone()]).unwrap();
    assert_eq!(text_of(&one_two), "<items><item name=\"a\" value=\"2\"/></items>");
    let two_one = base.merge(&vec![second.clone(), first.clone()]).unwrap();
    assert_eq!(text_of(&two_one), "<items><item name=\"a\" value=\"1\"/></items>");
    assert_eq!(one_two, base.merge(&vec![second]).unwrap());
    assert_eq!(text_of(&base), "<items><item name=\"a\" value=\"0\"/></items>");
}

#[test]
fn later_instructions_see_what_earlier_ones_did() {
    let mut doc = document("<r/>");
    let commands = vec![
        Command::Append(operands("/r", "<i/>")),
        Command::SetAttribute(on_attribute("/r/i", "k", "v")),
        Command::Append(operands("/r/i[@k='v']", "<c/>")),
        Command::InsertAfter(operands("/r/i/c", "text")),
    ];
    assert_eq!(doc.apply_all(&commands), Ok(()));
    assert_eq!(text_of(&doc), "<r><i k=\"v\"><c/>text</i></r>");
}

#[test]
fn apply_all_stops_at_the_first_failure_and_keeps_what_was_done() {
    let mut doc = document("<r><i/></r>");
    let commands = vec![
        Command::SetAttribute(on_attribute("/r/i", "a", "1")),
        Command::Remove(operands("/r/missing", "")),
        Command::SetAttribute(on_attribute("/r/i", "a", "2")),
    ];
    assert_eq!(
        doc.apply_all(&commands),
        Err(Failure { index: 1, error: PatchError::NoMatchFound })
    );
    assert_eq!(text_of(&doc), "<r><i a=\"1\"/></r>");
    let mut other = document("<r/>");
    assert_eq!(other.apply_all(&vec![]), Ok(()));
    assert_eq!(
        other.apply_all(&vec![Command::Unknown]),
        Err(Failure { index: 0, error: PatchError::UnrecognizedInstruction })
    );
}

#[test]
fn a_failed_merge_gives_no_document() {
    let base = document("<r><i/></r>");
    let overlays = vec![
        vec![Command::SetAttribute(on_attribute("/r/i", "a", "1")), Command::NoOp],
        vec![
            Command::Comment(String::from("c")),
            Command::NoOp,
            Command::SetValue(operands("/r/gone", "x")),
        ],
        vec![Command::Remove(operands("/r/i", ""))],
    ];
    assert_eq!(
        base.merge(&overlays),
        Err(MergeFailure {
            overlay: 1,
            failure: Failure { index: 2, error: PatchError::NoMatchFound }
        })
    );
    assert_eq!(text_of(&base), "<r><i/></r>");
}

#[test]
fn a_merge_applies_the_overlays_in_order() {
    let base = document("<r/>");
    let overlays = vec![
        vec![Command::Append(operands("/r", "<i/>"))],
        vec![],
        vec![
            Command::Append(operands("/r", "<j/>")),
            Command::SetAttribute(on_attribute("/r/i", "n", "1")),
        ],
    ];
    let merged = base.merge(&overlays).unwrap();
    assert_eq!(text_of(&merged), "<r><i n=\"1\"/><j/></r>");
    let mut by_hand = document("<r/>");
    for overlay in &overlays {
        by_hand.apply_all(overlay).unwrap();
    }
    assert_eq!(merged, by_hand);
    assert_eq!(base.merge(&vec![]).unwrap(), base);
}

#[test]
fn find_gives_the_places_in_document_order() {
    let doc = document("<!--c--><r><i/>t<j><i/></j><i k=\"1\"/><i k=\"2\"><i/></i></r><r><i/></r>");
    let all = PathExpr::parse(b"/r/i").unwrap();
    assert_eq!(
        doc.find(&all),
        vec![vec![1, 0], vec![1, 3], vec![1, 4], vec![2, 0]]
    );
    let tested = PathExpr::parse(b"/r/i[@k='2']").unwrap();
    assert_eq!(doc.find(&tested), vec![vec![1, 4]]);
    let deep = PathExpr::parse(b"r/i/i").unwrap();
    assert_eq!(doc.find(&deep), vec![vec![1, 4, 0]]);
    let roots = PathExpr::parse(b"r").unwrap();
    assert_eq!(doc.find(&roots), vec![vec![1], vec![2]]);
    let none = PathExpr::parse(b"/i").unwrap();
    assert_eq!(doc.find(&none), Vec::<Vec<usize>>::new());
    let no_names = PathExpr { segments: vec![], predicate: None };
    assert_eq!(doc.find(&no_names), Vec::<Vec<usize>>::new());
}

#[test]
fn the_test_looks_at_the_first_attribute_with_the_key() {
    let doc = Document::from_events(&vec![XmlEvent::Empty {
        name: b"r".to_vec(),
        attributes: vec![
            Attribute { key: b"k".to_vec(), value: b"1".to_vec() },
            Attribute { key: b"k".to_vec(), value: b"2".to_vec() },
        ],
    }])
    .unwrap();
    assert_eq!(doc.find(&PathExpr::parse(b"r[@k='1']").unwrap()), vec![vec![0]]);
    assert_eq!(doc.find(&PathExpr::parse(b"r[@k='2']").unwrap()), Vec::<Vec<usize>>::new());
}

#[test]
fn matching_leaves_the_document_as_it_is() {
    let xml = "<r><i k=\"1\"/><i/></r>";
    let doc = document(xml);
    let _ = doc.find(&PathExpr::parse(b"/r/i[@k='1']").unwrap());
    assert_eq!(doc, document(xml));
}
