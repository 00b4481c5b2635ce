use modlet_xml::command::{Command, CsvInstruction, InstructionSet};
use modlet_xml::csv::{add_member, apply_csv, remove_member};
use modlet_xml::engine::PatchError;
use modlet_xml::event::{Attribute, XmlEvent};
use modlet_xml::package::{check_layout, decide, label_width, Decision, LoadError};
use modlet_xml::parser::{parse_instruction, read_patch, ParsedInstruction, PatchFile, Skipped};
use modlet_xml::text::{str_eq, str_or_empty};
use modlet_xml::tree::Document;
use quick_xml::events::{BytesStart, Event};
use quick_xml::Reader;

fn attributes(tag: &BytesStart) -> Vec<Attribute> {
    tag.attributes()
        .map(|a| {
            let a = a.unwrap();
            Attribute {
                key: a.key.as_ref().to_vec(),
                value: a.unescape_value().unwrap().into_owned().into_bytes(),
            }
        })
        .collect()
}

fn events(xml: &str) -> Vec<XmlEvent> {
    let mut reader = Reader::from_str(xml);
    let mut out = Vec::new();
    loop {
        match reader.read_event().unwrap() {
            Event::Start(e) => out.push(XmlEvent::Start {
                name: e.name().as_ref().to_vec(),
                attributes: attributes(&e),
            }),
            Event::Empty(e) => out.push(XmlEvent::Empty {
                name: e.name().as_ref().to_vec(),
                attributes: attributes(&e),
            }),
            Event::End(e) => out.push(XmlEvent::End { name: e.name().as_ref().to_vec() }),
            Event::Text(t) => {
                out.push(XmlEvent::Text { data: t.unescape().unwrap().into_owned().into_bytes() })
            }
            Event::Comment(t) => out.push(XmlEvent::Comment { data: t.into_inner().into_owned() }),
            Event::Eof => break,
            _ => {}
        }
    }
    out
}

fn attrs(pairs: &[(&str, &str)]) -> Vec<Attribute> {
    pairs
        .iter()
        .map(|(k, v)| Attribute { key: k.as_bytes().to_vec(), value: v.as_bytes().to_vec() })
        .collect()
}

fn parse(tag: &str, pairs: &[(&str, &str)], content: &str) -> Result<Command, PatchError> {
    let parsed = parse_instruction(tag.as_bytes(), &attrs(pairs), &events(content))?;
    assert_eq!(parsed.tag, tag.as_bytes().to_vec());
    Ok(parsed.command)
}

fn operands(xpath: &str, attribute: Option<&str>, content: &str) -> InstructionSet {
    InstructionSet {
        attribute: attribute.map(|a| a.as_bytes().to_vec()),
        csv_op: None,
        values: events(content),
        xpath: xpath.as_bytes().to_vec(),
    }
}

#[test]
fn content_bearing_kinds_take_path_and_content() {
    assert_eq!(
        parse("append", &[("xpath", "/items")], "<item name=\"a\"/>text"),
        Ok(Command::Append(operands("/items", None, "<item name=\"a\"/>text")))
    );
    assert_eq!(
        parse("insert_after", &[("xpath", "/items/item")], "<item/>"),
        Ok(Command::InsertAfter(operands("/items/item", None, "<item/>")))
    );
    assert_eq!(
        parse("insert_before", &[("xpath", "/items/item")], "<item/>"),
        Ok(Command::InsertBefore(operands("/items/item", None, "<item/>")))
    );
    assert_eq!(
        parse("set", &[("xpath", "/items/item")], "5"),
        Ok(Command::SetValue(operands("/items/item", None, "5")))
    );
    assert_eq!(
        parse("set_attribute", &[("xpath", "/items/item"), ("attribute", "count")], "5"),
        Ok(Command::SetAttribute(operands("/items/item", Some("count"), "5")))
    );
}

#[test]
fn kinds_without_content_drop_what_stands_inside() {
    assert_eq!(
        parse("remove", &[("xpath", "/items/item")], "ignored<x/>"),
        Ok(Command::Remove(operands("/items/item", None, "")))
    );
    assert_eq!(
        parse("remove_attribute", &[("attribute", "count"), ("xpath", "/items/item")], "x"),
        Ok(Command::RemoveAttribute(operands("/items/item", Some("count"), "")))
    );
}

#[test]
fn csv_takes_its_edit_from_op_and_value() {
    let expected = |op| {
        Command::Csv(InstructionSet { csv_op: Some(op), ..operands("/i", Some("tags"), "") })
    };
    assert_eq!(
        parse("csv", &[("xpath", "/i"), ("attribute", "tags"), ("op", "add"), ("value", "x")], ""),
        Ok(expected(CsvInstruction::Add('x')))
    );
    assert_eq!(
        parse(
            "csv",
            &[("op", "remove"), ("value", "\u{e9}"), ("xpath", "/i"), ("attribute", "tags")],
            "dropped"
        ),
        Ok(expected(CsvInstruction::Remove('\u{e9}')))
    );
    assert_eq!(
        parse("csv", &[("xpath", "/i"), ("op", "add"), ("value", ",")], ""),
        Ok(Command::Csv(InstructionSet {
            csv_op: Some(CsvInstruction::Add(',')),
            ..operands("/i", None, "")
        }))
    );
}

#[test]
fn csv_needs_an_op_and_one_character() {
    let base = [("xpath", "/i"), ("attribute", "tags")];
    let with = |extra: &[(&str, &str)]| {
        let mut all = base.to_vec();
        all.extend_from_slice(extra);
        parse("csv", &all, "")
    };
    assert_eq!(with(&[]), Err(PatchError::MalformedInstruction));
    assert_eq!(with(&[("op", "add")]), Err(PatchError::MalformedInstruction));
    assert_eq!(with(&[("value", "x")]), Err(PatchError::MalformedInstruction));
    assert_eq!(with(&[("op", "add"), ("value", "")]), Err(PatchError::MalformedInstruction));
    assert_eq!(with(&[("op", "add"), ("value", "xy")]), Err(PatchError::MalformedInstruction));
    assert_eq!(with(&[("op", "put"), ("value", "x")]), Err(PatchError::MalformedInstruction));
    assert_eq!(with(&[("op", "Add"), ("value", "x")]), Err(PatchError::MalformedInstruction));
    assert_eq!(with(&[("op", ""), ("value", "x")]), Err(PatchError::MalformedInstruction));
    let not_text = vec![
        Attribute { key: b"xpath".to_vec(), value: b"/i".to_vec() },
        Attribute { key: b"op".to_vec(), value: b"add".to_vec() },
        Attribute { key: b"value".to_vec(), value: vec![0xff] },
    ];
    assert_eq!(
        parse_instruction(b"csv", &not_text, &vec![]),
        Err(PatchError::MalformedInstruction)
    );
}

#[test]
fn a_missing_path_is_malformed() {
    for tag in [
        "append",
        "insert_after",
        "insert_before",
        "remove",
        "set",
    ] {
        assert_eq!(parse(tag, &[], ""), Err(PatchError::MalformedInstruction), "{}", tag);
        assert_eq!(
            parse(tag, &[("xpath", "")], ""),
            Err(PatchError::MalformedInstruction),
            "{}",
            tag
        );
    }
    for tag in ["remove_attribute", "set_attribute"] {
        assert_eq!(
            parse(tag, &[("attribute", "a")], ""),
            Err(PatchError::MalformedInstruction),
            "{}",
            tag
        );
    }
    assert_eq!(
        parse("csv", &[("op", "add"), ("value", "x")], ""),
        Err(PatchError::MalformedInstruction)
    );
}

#[test]
fn a_missing_or_stray_attribute_is_malformed() {
    assert_eq!(
        parse("set_attribute", &[("xpath", "/i")], "5"),
        Err(PatchError::MalformedInstruction)
    );
    assert_eq!(
        parse("remove_attribute", &[("xpath", "/i")], ""),
        Err(PatchError::MalformedInstruction)
    );
    for tag in ["append", "insert_after", "insert_before", "remove", "set"] {
        assert_eq!(
            parse(tag, &[("xpath", "/i"), ("attribute", "a")], ""),
            Err(PatchError::MalformedInstruction),
            "{}",
            tag
        );
    }
}

#[test]
fn content_to_insert_must_be_balanced() {
    let open = vec![XmlEvent::Start { name: b"item".to_vec(), attributes: vec![] }];
    let path = attrs(&[("xpath", "/items")]);
    for tag in ["append", "insert_after", "insert_before"] {
        assert_eq!(
            parse_instruction(tag.as_bytes(), &path, &open),
            Err(PatchError::MalformedInstruction),
            "{}",
            tag
        );
    }
    assert_eq!(
        parse_instruction(b"set", &path, &open),
        Ok(ParsedInstruction {
            command: Command::SetValue(InstructionSet {
                attribute: None,
                csv_op: None,
                values: open.clone(),
                xpath: b"/items".to_vec(),
            }),
            tag: b"set".to_vec(),
        })
    );
}

#[test]
fn kinds_without_operands_need_nothing() {
    assert_eq!(parse("no_op", &[], ""), Ok(Command::NoOp));
    assert_eq!(parse("no_op", &[("xpath", "/a")], "x"), Ok(Command::NoOp));
    assert_eq!(parse("start_tag", &[], ""), Ok(Command::StartTag(None)));
    assert_eq!(parse("comment", &[], "a note"), Ok(Command::Comment(String::from("a note"))));
    assert_eq!(parse("comment", &[], ""), Ok(Command::Comment(String::new())));
}

#[test]
fn an_unknown_tag_is_recorded() {
    assert_eq!(
        parse_instruction(b"replace", &attrs(&[("xpath", "/a")]), &vec![]),
        Ok(ParsedInstruction { command: Command::Unknown, tag: b"replace".to_vec() })
    );
    assert_eq!(
        parse_instruction(&[0xff, 0x61], &vec![], &vec![]),
        Ok(ParsedInstruction { command: Command::Unknown, tag: vec![0xff, 0x61] })
    );
    assert_eq!(parse("", &[], ""), Ok(Command::Unknown));
    assert_eq!(parse("SET", &[("xpath", "/a")], ""), Ok(Command::Unknown));
}

#[test]
fn the_first_attribute_with_a_key_counts() {
    assert_eq!(
        parse("remove", &[("xpath", "/first"), ("xpath", "/second")], ""),
        Ok(Command::Remove(operands("/first", None, "")))
    );
}

#[test]
fn a_patch_file_gives_its_instructions_in_order() {
    let patch = Document::from_events(&events(
        "<!--file--><configs>\
         <set xpath=\"/items/item[@name='a']\">5</set>\
         <!-- note -->\
         <append xpath=\"/items\"><item name=\"b\"/></append>\
         <bogus xpath=\"/x\"/>\
         <csv xpath=\"/items/item\" attribute=\"tags\" op=\"add\" value=\"z\"/>\
         <remove/>\
         <set_attribute xpath=\"/items/item\" attribute=\"v\">1</set_attribute>\
          text \
         </configs>",
    ))
    .unwrap();
    let file = read_patch(&patch).unwrap();
    assert_eq!(
        file.commands,
        vec![
            Command::SetValue(operands("/items/item[@name='a']", None, "5")),
            Command::Comment(String::from(" note ")),
            Command::Append(operands("/items", None, "<item name=\"b\"/>")),
            Command::Csv(InstructionSet {
                csv_op: Some(CsvInstruction::Add('z')),
                ..operands("/items/item", Some("tags"), "")
            }),
            Command::SetAttribute(operands("/items/item", Some("v"), "1")),
        ]
    );
    assert_eq!(
        file.skipped,
        vec![
            Skipped {
                index: 3,
                tag: b"bogus".to_vec(),
                error: PatchError::UnrecognizedInstruction
            },
            Skipped { index: 5, tag: b"remove".to_vec(), error: PatchError::MalformedInstruction },
        ]
    );
    assert!(file.is_usable());

    let mut target =
        Document::from_events(&events("<items><item name=\"a\" tags=\"x\">1</item></items>"))
            .unwrap();
    assert_eq!(target.apply_all(&file.commands), Ok(()));
    assert_eq!(
        String::from_utf8(target.serialize().unwrap()).unwrap(),
        "<items><item name=\"a\" tags=\"x,z\" v=\"1\">5</item>\
         <item name=\"b\" tags=\"z\" v=\"1\"/></items>"
    );
}

#[test]
fn a_patch_file_without_root_gives_nothing() {
    assert_eq!(read_patch(&Document { nodes: vec![] }), None);
    let only_comment = Document::from_events(&events("<!--nothing here-->")).unwrap();
    assert_eq!(read_patch(&only_comment), None);
}

#[test]
fn a_patch_file_is_of_no_use_when_everything_was_skipped() {
    let all_bad =
        Document::from_events(&events("<configs><bogus/><set/><csv xpath=\"/a\"/></configs>"))
            .unwrap();
    let file = read_patch(&all_bad).unwrap();
    assert_eq!(file.commands, vec![]);
    assert_eq!(file.skipped.len(), 3);
    assert_eq!(file.skipped[0].error, PatchError::UnrecognizedInstruction);
    assert_eq!(file.skipped[1].error, PatchError::MalformedInstruction);
    assert_eq!(file.skipped[2].error, PatchError::MalformedInstruction);
    assert!(!file.is_usable());
    let empty = read_patch(&Document::from_events(&events("<configs/>")).unwrap()).unwrap();
    assert_eq!(empty, PatchFile { commands: vec![], skipped: vec![] });
    assert!(empty.is_usable());
}

#[test]
fn members_are_added_at_the_end() {
    assert_eq!(add_member(b"a,b", b"c"), b"a,b,c".to_vec());
    assert_eq!(add_member(b"", b"c"), b"c".to_vec());
    assert_eq!(add_member(b"a,b", b"a"), b"a,b".to_vec());
    assert_eq!(add_member(b"a,b", b"b"), b"a,b".to_vec());
    assert_eq!(add_member(b"ab", b"a"), b"ab,a".to_vec());
    assert_eq!(add_member(b"a,", b"b"), b"a,,b".to_vec());
}

#[test]
fn members_are_removed_wherever_they_stand() {
    assert_eq!(remove_member(b"a,b,c", b"b"), b"a,c".to_vec());
    assert_eq!(remove_member(b"a,b,c", b"a"), b"b,c".to_vec());
    assert_eq!(remove_member(b"a,b,c", b"c"), b"a,b".to_vec());
    assert_eq!(remove_member(b"a,b,a,a", b"a"), b"b".to_vec());
    assert_eq!(remove_member(b"a", b"a"), b"".to_vec());
    assert_eq!(remove_member(b"", b"a"), b"".to_vec());
    assert_eq!(remove_member(b"ab,a", b"a"), b"ab".to_vec());
    assert_eq!(remove_member(b"a,b", b"x"), b"a,b".to_vec());
}

#[test]
fn csv_edits_spell_their_member_as_utf8() {
    assert_eq!(apply_csv(b"a", CsvInstruction::Add('b')), b"a,b".to_vec());
    assert_eq!(apply_csv(b"a,b", CsvInstruction::Remove('a')), b"b".to_vec());
    assert_eq!(
        apply_csv(b"a", CsvInstruction::Add('\u{20ac}')),
        "a,\u{20ac}".as_bytes().to_vec()
    );
    assert_eq!(
        apply_csv("\u{1f600},a".as_bytes(), CsvInstruction::Remove('\u{1f600}')),
        b"a".to_vec()
    );
    assert_eq!(apply_csv(b"", CsvInstruction::Add('\u{e9}')), vec![0xc3, 0xa9]);
}

#[test]
fn adding_and_removing_a_new_member_gives_the_value_back() {
    for value in ["", "a", "a,b", "b,a,b", "x,,y", ","] {
        let added = apply_csv(value.as_bytes(), CsvInstruction::Add('q'));
        assert_ne!(added, value.as_bytes().to_vec());
        assert_eq!(apply_csv(&added, CsvInstruction::Remove('q')), value.as_bytes().to_vec());
    }
}

#[test]
fn strings_compare_by_their_characters() {
    assert!(str_eq("set", "set"));
    assert!(str_eq("", ""));
    assert!(str_eq("caf\u{e9}", "caf\u{e9}"));
    assert!(!str_eq("set", "Set"));
    assert!(!str_eq("set", "set_attribute"));
    assert!(!str_eq("", " "));
    assert_eq!(str_or_empty(b"plain"), "plain");
    assert_eq!(str_or_empty(&[0xc3, 0xa9]), "\u{e9}");
    assert_eq!(str_or_empty(&[0xc3]), "");
    assert_eq!(str_or_empty(&[0x61, 0xff]), "");
    assert_eq!(str_or_empty(b""), "");
}

#[test]
fn the_label_width_is_that_of_the_longest_name() {
    assert_eq!(label_width(&vec![3, 9, 4], 5), 9);
    assert_eq!(label_width(&vec![3, 9, 4], 12), 12);
    assert_eq!(label_width(&vec![], 7), 7);
    assert_eq!(label_width(&vec![], 0), 0);
    assert_eq!(label_width(&vec![6], 6), 6);
    assert_eq!(label_width(&vec![usize::MAX, 1], 2), usize::MAX);
}

#[test]
fn a_modlet_needs_a_config_directory() {
    assert_eq!(check_layout(true, true), Ok(()));
    assert_eq!(check_layout(true, false), Err(LoadError::InvalidModlet));
    assert_eq!(check_layout(false, false), Err(LoadError::InvalidModlet));
    assert_eq!(check_layout(false, true), Err(LoadError::InvalidModlet));
}

#[test]
fn packaging_needs_every_modlet() {
    assert_eq!(decide(3, 3), Decision::Package);
    assert_eq!(decide(0, 0), Decision::Package);
    assert_eq!(decide(3, 2), Decision::Skip { failed: 1 });
    assert_eq!(decide(3, 0), Decision::Skip { failed: 3 });
}
