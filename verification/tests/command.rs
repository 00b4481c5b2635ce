use modlet_xml::command::{Command, CsvInstruction, InstructionSet, WriteError};
use modlet_xml::event::{Attribute, XmlEvent};

fn text(data: &str) -> XmlEvent {
    XmlEvent::Text { data: data.as_bytes().to_vec() }
}

fn operands(xpath: &str, values: Vec<XmlEvent>) -> InstructionSet {
    InstructionSet { attribute: None, csv_op: None, values, xpath: xpath.as_bytes().to_vec() }
}

fn written(command: &Command) -> String {
    let mut out = Vec::new();
    command.write(&mut out).unwrap();
    String::from_utf8(out).unwrap()
}

#[test]
fn new_operands_are_empty() {
    let set = InstructionSet::new();
    assert_eq!(set.attribute, None);
    assert_eq!(set.csv_op, None);
    assert!(set.values.is_empty());
    assert!(set.xpath.is_empty());
    assert_eq!(set, InstructionSet::default());
}

#[test]
fn every_tag_name_selects_its_kind() {
    assert_eq!(Command::from_str("append"), Command::Append(InstructionSet::new()));
    assert_eq!(Command::from_str("comment"), Command::Comment(String::new()));
    assert_eq!(Command::from_str("csv"), Command::Csv(InstructionSet::new()));
    assert_eq!(Command::from_str("insert_after"), Command::InsertAfter(InstructionSet::new()));
    assert_eq!(Command::from_str("insert_before"), Command::InsertBefore(InstructionSet::new()));
    assert_eq!(Command::from_str("no_op"), Command::NoOp);
    assert_eq!(Command::from_str("remove"), Command::Remove(InstructionSet::new()));
    assert_eq!(
        Command::from_str("remove_attribute"),
        Command::RemoveAttribute(InstructionSet::new())
    );
    assert_eq!(Command::from_str("set"), Command::SetValue(InstructionSet::new()));
    assert_eq!(Command::from_str("set_attribute"), Command::SetAttribute(InstructionSet::new()));
    assert_eq!(Command::from_str("start_tag"), Command::StartTag(None));
}

#[test]
fn other_tag_names_select_unknown() {
    assert_eq!(Command::from_str("unknown"), Command::Unknown);
    assert_eq!(Command::from_str(""), Command::Unknown);
    assert_eq!(Command::from_str("Append"), Command::Unknown);
    assert_eq!(Command::from_str("set "), Command::Unknown);
    assert_eq!(Command::from_str("setattribute"), Command::Unknown);
}

#[test]
fn every_kind_names_its_tag() {
    let set = InstructionSet::new;
    let all = vec![
        (Command::Append(set()), "append"),
        (Command::Comment(String::from("x")), "comment"),
        (Command::Csv(set()), "csv"),
        (Command::InsertAfter(set()), "insert_after"),
        (Command::InsertBefore(set()), "insert_before"),
        (Command::NoOp, "no_op"),
        (Command::Remove(set()), "remove"),
        (Command::RemoveAttribute(set()), "remove_attribute"),
        (Command::SetValue(set()), "set"),
        (Command::SetAttribute(set()), "set_attribute"),
        (Command::StartTag(Some(String::from("items"))), "start_tag"),
        (Command::Unknown, "unknown"),
    ];
    for (command, tag) in all {
        assert_eq!(command.as_ref(), tag);
        assert_eq!(command.to_string(), tag);
    }
}

#[test]
fn tag_names_lead_back_to_the_kind() {
    for tag in [
        "append",
        "comment",
        "csv",
        "insert_after",
        "insert_before",
        "no_op",
        "remove",
        "remove_attribute",
        "set",
        "set_attribute",
        "start_tag",
        "unknown",
    ] {
        assert_eq!(Command::from_str(tag).as_ref(), tag);
    }
}

#[test]
fn set_attaches_the_operands() {
    let set = InstructionSet {
        attribute: Some(b"value".to_vec()),
        csv_op: Some(CsvInstruction::Add('x')),
        values: vec![text("1")],
        xpath: b"/a/b".to_vec(),
    };
    assert_eq!(Command::from_str("append").set(set.clone()), Command::Append(set.clone()));
    assert_eq!(Command::from_str("csv").set(set.clone()), Command::Csv(set.clone()));
    assert_eq!(
        Command::from_str("insert_after").set(set.clone()),
        Command::InsertAfter(set.clone())
    );
    assert_eq!(
        Command::from_str("insert_before").set(set.clone()),
        Command::InsertBefore(set.clone())
    );
    assert_eq!(Command::from_str("remove").set(set.clone()), Command::Remove(set.clone()));
    assert_eq!(
        Command::from_str("remove_attribute").set(set.clone()),
        Command::RemoveAttribute(set.clone())
    );
    assert_eq!(Command::from_str("set").set(set.clone()), Command::SetValue(set.clone()));
    assert_eq!(
        Command::from_str("set_attribute").set(set.clone()),
        Command::SetAttribute(set.clone())
    );
}

#[test]
fn set_leaves_kinds_without_operands_alone() {
    let set = operands("/a", vec![text("1")]);
    assert_eq!(Command::NoOp.set(set.clone()), Command::NoOp);
    assert_eq!(Command::Unknown.set(set.clone()), Command::Unknown);
    assert_eq!(
        Command::StartTag(Some(String::from("items"))).set(set.clone()),
        Command::StartTag(None)
    );
}

#[test]
fn set_on_a_comment_joins_the_content_with_commas() {
    let set = operands("", vec![text("one"), text("two"), text("three")]);
    assert_eq!(
        Command::from_str("comment").set(set),
        Command::Comment(String::from("one,two,three"))
    );
    let single = operands("", vec![text(" just this ")]);
    assert_eq!(
        Command::from_str("comment").set(single),
        Command::Comment(String::from(" just this "))
    );
    let none = operands("", vec![]);
    assert_eq!(Command::from_str("comment").set(none), Command::Comment(String::new()));
}

#[test]
fn content_reads_as_the_text_of_each_event() {
    let set = operands(
        "",
        vec![
            XmlEvent::Start {
                name: b"item".to_vec(),
                attributes: vec![
                    Attribute { key: b"name".to_vec(), value: b"axe".to_vec() },
                    Attribute { key: b"count".to_vec(), value: b"2".to_vec() },
                ],
            },
            text("body"),
            XmlEvent::Comment { data: b" note ".to_vec() },
            XmlEvent::End { name: b"item".to_vec() },
            XmlEvent::Empty { name: b"leaf".to_vec(), attributes: vec![] },
        ],
    );
    assert_eq!(
        set.values_to_string(),
        "item name=\"axe\" count=\"2\",body, note ,item,leaf"
    );
}

#[test]
fn content_that_is_not_utf8_reads_as_empty() {
    let set = operands(
        "",
        vec![text("a"), XmlEvent::Text { data: vec![0xff, 0xfe] }, text("b")],
    );
    assert_eq!(set.values_to_string(), "a,,b");
    let only = operands("", vec![XmlEvent::Text { data: vec![0xc3] }]);
    assert_eq!(only.values_to_string(), "");
}

#[test]
fn content_keeps_characters_beyond_ascii() {
    let set = operands("", vec![text("caf\u{e9}"), text("\u{1f600}")]);
    assert_eq!(set.values_to_string(), "caf\u{e9},\u{1f600}");
}

#[test]
fn write_set_escapes_the_text_and_keeps_the_path() {
    let command = Command::SetValue(operands("/a/b[@x='1']", vec![text("1 < 2 & \"3\" > '0'")]));
    assert_eq!(
        written(&command),
        "<set xpath=\"/a/b[@x='1']\">1 &lt; 2 &amp; &quot;3&quot; &gt; &apos;0&apos;</set>"
    );
}

#[test]
fn write_set_joins_the_content() {
    let command = Command::SetValue(operands("/a", vec![text("x"), text("y")]));
    assert_eq!(written(&command), "<set xpath=\"/a\">x,y</set>");
    let empty = Command::SetValue(operands("/a", vec![]));
    assert_eq!(written(&empty), "<set xpath=\"/a\"></set>");
}

#[test]
fn write_append_holds_the_content() {
    let command = Command::Append(operands(
        "/items",
        vec![
            XmlEvent::Start {
                name: b"item".to_vec(),
                attributes: vec![Attribute { key: b"name".to_vec(), value: b"a\"b".to_vec() }],
            },
            text("x<y"),
            XmlEvent::Empty {
                name: b"property".to_vec(),
                attributes: vec![
                    Attribute { key: b"name".to_vec(), value: b"Tags".to_vec() },
                    Attribute { key: b"value".to_vec(), value: b"a,b".to_vec() },
                ],
            },
            XmlEvent::Comment { data: b" kept <as> is ".to_vec() },
            XmlEvent::End { name: b"item".to_vec() },
        ],
    ));
    assert_eq!(
        written(&command),
        "<append xpath=\"/items\"><item name=\"a&quot;b\">x&lt;y\
         <property name=\"Tags\" value=\"a,b\"/><!-- kept <as> is --></item></append>"
    );
}

#[test]
fn write_append_without_content() {
    let command = Command::Append(operands("/items", vec![]));
    assert_eq!(written(&command), "<append xpath=\"/items\"></append>");
}

#[test]
fn write_comment_is_an_xml_comment() {
    assert_eq!(written(&Command::Comment(String::from(" hello & bye "))), "<!-- hello & bye -->");
    assert_eq!(written(&Command::Comment(String::new())), "<!---->");
}

#[test]
fn write_adds_to_what_is_there() {
    let mut out = b"<!--before-->".to_vec();
    Command::Comment(String::from("after")).write(&mut out).unwrap();
    assert_eq!(out, b"<!--before--><!--after-->".to_vec());
}

#[test]
fn write_of_the_other_kinds_is_empty() {
    let set = || operands("/a", vec![text("1")]);
    for command in [
        Command::Csv(set()),
        Command::InsertAfter(set()),
        Command::InsertBefore(set()),
        Command::NoOp,
        Command::Remove(set()),
        Command::RemoveAttribute(set()),
        Command::SetAttribute(set()),
        Command::StartTag(None),
        Command::Unknown,
    ] {
        let mut out = b"kept".to_vec();
        assert_eq!(command.write(&mut out), Ok(()));
        assert_eq!(out, b"kept".to_vec());
    }
}

#[test]
fn write_fails_on_content_that_is_not_utf8() {
    let command =
        Command::Append(operands("/a", vec![text("fine"), XmlEvent::Text { data: vec![0xff] }]));
    let mut out = b"kept".to_vec();
    assert_eq!(command.write(&mut out), Err(WriteError::NotUtf8));
    assert_eq!(out, b"kept".to_vec());
}

#[test]
fn write_agrees_with_the_element_writer() {
    let xpath = b"/items/item[@name='axe']".to_vec();
    let body = "5 > 3 & 'so' on";
    let mut writer = quick_xml::Writer::new(Vec::new());
    writer
        .create_element("set")
        .with_attribute((b"xpath".as_ref(), xpath.as_slice()))
        .write_text_content(quick_xml::events::BytesText::new(body))
        .unwrap();
    let expected = writer.into_inner();
    let command = Command::SetValue(InstructionSet {
        attribute: None,
        csv_op: None,
        values: vec![text(body)],
        xpath,
    });
    let mut out = Vec::new();
    command.write(&mut out).unwrap();
    assert_eq!(out, expected);
}

#[test]
fn well_formed_operands_fit_the_kind() {
    let plain = operands("/a", vec![]);
    let with_attribute = InstructionSet { attribute: Some(b"x".to_vec()), ..plain.clone() };
    let with_edit = InstructionSet { csv_op: Some(CsvInstruction::Add('a')), ..plain.clone() };
    let with_both =
        InstructionSet { csv_op: Some(CsvInstruction::Remove('a')), ..with_attribute.clone() };
    let no_path = InstructionSet::new();

    assert!(Command::Append(plain.clone()).is_well_formed());
    assert!(Command::Remove(plain.clone()).is_well_formed());
    assert!(Command::SetValue(plain.clone()).is_well_formed());
    assert!(Command::InsertAfter(plain.clone()).is_well_formed());
    assert!(Command::InsertBefore(plain.clone()).is_well_formed());
    assert!(!Command::Append(with_attribute.clone()).is_well_formed());
    assert!(!Command::Append(with_edit.clone()).is_well_formed());
    assert!(!Command::Append(no_path.clone()).is_well_formed());

    assert!(Command::SetAttribute(with_attribute.clone()).is_well_formed());
    assert!(Command::RemoveAttribute(with_attribute.clone()).is_well_formed());
    assert!(!Command::SetAttribute(plain.clone()).is_well_formed());
    assert!(!Command::RemoveAttribute(plain.clone()).is_well_formed());
    assert!(!Command::SetAttribute(with_both.clone()).is_well_formed());

    assert!(Command::Csv(with_edit.clone()).is_well_formed());
    assert!(Command::Csv(with_both.clone()).is_well_formed());
    assert!(!Command::Csv(plain.clone()).is_well_formed());
    assert!(!Command::Csv(with_attribute.clone()).is_well_formed());

    assert!(Command::NoOp.is_well_formed());
    assert!(Command::Unknown.is_well_formed());
    assert!(Command::Comment(String::new()).is_well_formed());
    assert!(Command::StartTag(None).is_well_formed());
}

#[test]
fn operands_are_those_of_the_kind() {
    let set = operands("/a", vec![text("1")]);
    assert_eq!(Command::Append(set.clone()).operands(), Some(&set));
    assert_eq!(Command::Csv(set.clone()).operands(), Some(&set));
    assert_eq!(Command::NoOp.operands(), None);
    assert_eq!(Command::Comment(String::from("c")).operands(), None);
    assert_eq!(Command::StartTag(None).operands(), None);
    assert_eq!(Command::Unknown.operands(), None);
}
