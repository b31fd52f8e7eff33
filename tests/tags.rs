use bagr::bag::{fill_bag_info, BagItVersion};
use bagr::manifest::FileMeta;
use bagr::tag::{read_bag_declaration, read_bag_info, write_bag_declaration, write_bag_info, BagDeclaration, BagInfo, Tag, TagList};
use bagr::tagfile::{parse_tag_line, read_tag_file, tag_file_contents};
use bagr::Error;

fn pairs(tags: &TagList) -> Vec<(String, String)> {
    let mut out = Vec::new();
    for i in 0..tags.len() {
        let t = tags.get(i);
        out.push((t.label().to_string(), t.value().to_string()));
    }
    out
}

#[test]
fn bagit_txt_is_written_exactly() {
    let text = write_bag_declaration(&BagDeclaration::new());
    assert_eq!("BagIt-Version: 1.0\nTag-File-Character-Encoding: UTF-8\n", text);
}

#[test]
fn tag_validation_rejects_bad_labels_and_values() {
    assert!(matches!(Tag::new(" label", "v"), Err(Error::InvalidTag { .. })));
    assert!(matches!(Tag::new("label\u{a0}", "v"), Err(Error::InvalidTag { .. })));
    assert!(matches!(Tag::new("la\nbel", "v"), Err(Error::InvalidTag { .. })));
    assert!(matches!(Tag::new("label", "a\rb"), Err(Error::InvalidTag { .. })));
    let t = Tag::new("Contact-Name", " spaced value ").unwrap();
    assert_eq!("Contact-Name", t.label());
    assert_eq!(" spaced value ", t.value());
}

#[test]
fn tag_line_grammar() {
    let t = parse_tag_line("Label:\tvalue: with colon").unwrap();
    assert_eq!("Label", t.label());
    assert_eq!("value: with colon", t.value());
    let t = parse_tag_line("Label:  two").unwrap();
    assert_eq!(" two", t.value());
    assert!(matches!(parse_tag_line("no colon"), Err(Error::InvalidTagLine { .. })));
    assert!(matches!(parse_tag_line("Label:value"), Err(Error::InvalidTagLine { .. })));
    assert!(matches!(parse_tag_line("Label:"), Err(Error::InvalidTagLine { .. })));
    assert!(matches!(parse_tag_line(" Label: v"), Err(Error::InvalidTag { .. })));
}

#[test]
fn lookup_is_ascii_case_insensitive() {
    let mut tags = TagList::new();
    tags.add_tag("Contact-Name", "a").unwrap();
    tags.add_tag("Other", "b").unwrap();
    tags.add_tag("CONTACT-name", "c").unwrap();
    assert_eq!("a", tags.get_tag("contact-NAME").unwrap().value());
    let all: Vec<&str> = tags.get_tags("contact-name").iter().map(|t| t.value()).collect();
    assert_eq!(vec!["a", "c"], all);
    assert!(tags.get_tag("missing").is_none());
    tags.remove_tags("Contact-Name");
    assert_eq!(vec![("Other".to_string(), "b".to_string())], pairs(&tags));
}

#[test]
fn tag_file_round_trip_keeps_order() {
    let input = "B-Label: 2\nA-Label: 1\nB-Label: 3\r\nEmpty: \nFolded: x\n  y\n";
    let tags = read_tag_file("bag-info.txt", input.as_bytes()).unwrap();
    let written = tag_file_contents(&tags);
    assert_eq!("B-Label: 2\nA-Label: 1\nB-Label: 3\nEmpty: \nFolded: x y\n", written);
    let again = read_tag_file("bag-info.txt", written.as_bytes()).unwrap();
    assert_eq!(pairs(&tags), pairs(&again));
}

#[test]
fn tag_file_errors_carry_path_and_line() {
    let input = "Good: 1\nBad line\nGood: 2\n";
    match read_tag_file("some/bag-info.txt", input.as_bytes()) {
        Err(Error::InvalidTagLineWithRef { path, num, details }) => {
            assert_eq!("some/bag-info.txt", path);
            assert_eq!(2, num);
            assert_eq!("Missing colon separating the label and value", details);
        }
        other => panic!("unexpected {:?}", other),
    }
    assert!(matches!(read_tag_file("x", &[0xc3, 0x28]), Err(Error::InvalidString { .. })));
}

#[test]
fn version_parsing() {
    assert_eq!(BagItVersion::new(1, 0), BagItVersion::parse("1.0").unwrap());
    assert_eq!(BagItVersion::new(0, 97), BagItVersion::parse("0.97").unwrap());
    assert_eq!(BagItVersion::new(2, 5), BagItVersion::parse("+2.05").unwrap());
    for bad in ["1", "1.", ".0", "1.0.0", "256.0", "a.b", "-1.0", "1. 0"] {
        match BagItVersion::parse(bad) {
            Err(Error::InvalidBagItVersion { value }) => assert_eq!(bad, value),
            other => panic!("{} gave {:?}", bad, other),
        }
    }
    assert_eq!("1.0", BagItVersion::new(1, 0).to_string());
    assert_eq!("255.17", BagItVersion::new(255, 17).to_string());
}

#[test]
fn declaration_reading() {
    let d = read_bag_declaration("bagit.txt", b"BagIt-Version: 1.0\nTag-File-Character-Encoding: UTF-8\n").unwrap();
    assert_eq!(BagItVersion::new(1, 0), d.version());
    assert_eq!("UTF-8", d.encoding());
    assert!(matches!(read_bag_declaration("bagit.txt", b"Tag-File-Character-Encoding: UTF-8\n"), Err(Error::MissingTag { tag }) if tag == "BagIt-Version"));
    assert!(matches!(read_bag_declaration("bagit.txt", b"BagIt-Version: 1.0\n"), Err(Error::MissingTag { tag }) if tag == "Tag-File-Character-Encoding"));
    assert!(matches!(read_bag_declaration("bagit.txt", b"BagIt-Version: one\nTag-File-Character-Encoding: UTF-8\n"), Err(Error::InvalidBagItVersion { .. })));
    assert!(matches!(read_bag_declaration("bagit.txt", b"BagIt-Version: 0.97\nTag-File-Character-Encoding: UTF-8\n"), Err(Error::UnsupportedVersion { .. })));
    assert!(matches!(read_bag_declaration("bagit.txt", b"BagIt-Version: 1.0\nTag-File-Character-Encoding: ISO-8859-1\n"), Err(Error::UnsupportedEncoding { encoding }) if encoding == "ISO-8859-1"));
    assert!(matches!(BagDeclaration::with_values(BagItVersion::new(1, 0), "utf-8"), Err(Error::UnsupportedEncoding { .. })));
}

#[test]
fn bag_info_setters_replace_or_append() {
    let mut info = BagInfo::new();
    info.add_bagging_date("2020-01-01").unwrap();
    info.add_contact_name("A").unwrap();
    info.add_bagging_date("2021-02-02").unwrap();
    info.add_contact_name("B").unwrap();
    info.add_tag("payload-oxum", "1.1").unwrap();
    info.add_tag("payload-oxum", "2.2").unwrap();
    info.add_tag("Custom", "x").unwrap();
    info.add_tag("Custom", "y").unwrap();
    assert!(info.add_bag_count("1\nof 2").is_err());
    assert_eq!(
        vec![
            ("Contact-Name".to_string(), "A".to_string()),
            ("Bagging-Date".to_string(), "2021-02-02".to_string()),
            ("Contact-Name".to_string(), "B".to_string()),
            ("payload-oxum".to_string(), "2.2".to_string()),
            ("Custom".to_string(), "x".to_string()),
            ("Custom".to_string(), "y".to_string()),
        ],
        pairs(info.tags())
    );
    let generated = BagInfo::with_generated("2020-01-01", "3.1").unwrap();
    assert_eq!("Bagging-Date: 2020-01-01\nPayload-Oxum: 3.1\n", write_bag_info(&generated));
}

#[test]
fn new_bag_info_lists_date_agent_and_oxum() {
    let metas = vec![FileMeta::new("data/hello.txt".to_string(), 3, Vec::new())];
    let mut info = BagInfo::new();
    fill_bag_info(&mut info, "2024-05-06", &metas).unwrap();
    let tags = pairs(info.tags());
    assert_eq!(3, tags.len());
    assert_eq!(("Bagging-Date".to_string(), "2024-05-06".to_string()), tags[0]);
    assert_eq!("Bag-Software-Agent", tags[1].0);
    assert_eq!(("Payload-Oxum".to_string(), "3.1".to_string()), tags[2]);

    let mut given = BagInfo::new();
    given.add_bagging_date("1999-12-31").unwrap();
    given.add_software_agent("me").unwrap();
    fill_bag_info(&mut given, "2024-05-06", &metas).unwrap();
    assert_eq!("Bagging-Date: 1999-12-31\nBag-Software-Agent: me\nPayload-Oxum: 3.1\n", write_bag_info(&given));
}

#[test]
fn today_is_a_dashed_date() {
    let mut info = BagInfo::new();
    bagr::bag::complete_bag_info(&mut info, &Vec::new());
    let date = info.bagging_date().unwrap().value().to_string();
    let parts: Vec<&str> = date.split('-').collect();
    assert_eq!(3, parts.len());
    assert_eq!((4, 2, 2), (parts[0].len(), parts[1].len(), parts[2].len()));
    assert!(date.chars().all(|c| c == '-' || c.is_ascii_digit()));
    assert_eq!("0.0", info.payload_oxum().unwrap().value());
}

#[test]
fn bag_info_reads_from_text() {
    let info = read_bag_info("bag-info.txt", b"Bagging-Date: 2020-01-01\nPayload-Oxum: 3.1\n").unwrap();
    assert_eq!("2020-01-01", info.bagging_date().unwrap().value());
    assert!(info.software_agent().is_none());
}

#[test]
fn custom_tag_arguments() {
    assert_eq!(
        ("Label".to_string(), "some: value".to_string()),
        bagr::tag::parse_tag_argument("  Label :\u{3000}some: value\t").unwrap()
    );
    assert_eq!(("".to_string(), "".to_string()), bagr::tag::parse_tag_argument(":").unwrap());
    match bagr::tag::parse_tag_argument("no separator") {
        Err(Error::InvalidTagLine { details }) => {
            assert_eq!("Label and value must be separated by a ':'. Found: no separator", details)
        }
        other => panic!("unexpected {:?}", other),
    }
}

#[test]
fn tag_line_errors_carry_the_label() {
    match parse_tag_line(" Label: v") {
        Err(Error::InvalidTag { label, details }) => {
            assert_eq!(" Label", label);
            assert_eq!("Label must not start or end with whitespace", details);
        }
        other => panic!("unexpected {:?}", other),
    }
    match BagInfo::with_generated("2020-01-01", "3.1\r") {
        Err(Error::InvalidTag { label, .. }) => assert_eq!("Payload-Oxum", label),
        other => panic!("unexpected {:?}", other),
    }
    match BagInfo::with_generated("2020\n01-01", "3.1") {
        Err(Error::InvalidTag { label, .. }) => assert_eq!("Bagging-Date", label),
        other => panic!("unexpected {:?}", other),
    }
}

#[test]
fn first_failing_line_decides_the_error() {
    // a bad tag line completed before the undecodable line is reported first
    match read_tag_file("f", b"bad\nok: 1\n\xff\n") {
        Err(Error::InvalidTagLineWithRef { num, .. }) => assert_eq!(1, num),
        other => panic!("unexpected {:?}", other),
    }
    // an undecodable line that cuts a logical line short comes first
    assert!(matches!(read_tag_file("f", b"ok: 1\nbad\n\xff\n"), Err(Error::InvalidString { .. })));
}
