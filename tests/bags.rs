use bagr::bag::{walk_action, EntryKind, WalkAction, defaulted_algorithms, delete_in_walk, fresh_temp_dir_name, include_in_tag_walk, include_in_walk, is_hidden_file, join_path, temp_dir_name, validate_bag};
use bagr::digest::DigestAlgorithm;
use bagr::manifest::{add_data_prefix, manifest_file_name, FileMeta};
use bagr::validate::{IssueLevel, ValidationVerdict};
use bagr::{open_bag, Error, IoErrorKind};

const BAGIT: &[u8] = b"BagIt-Version: 1.0\nTag-File-Character-Encoding: UTF-8\n";

fn names(v: &[&str]) -> Vec<String> {
    v.iter().map(|s| s.to_string()).collect()
}

#[test]
fn algorithms_are_defaulted_sorted_and_deduplicated() {
    assert_eq!(vec![DigestAlgorithm::Sha512], defaulted_algorithms(&[]));
    assert_eq!(
        vec![DigestAlgorithm::Md5, DigestAlgorithm::Sha256, DigestAlgorithm::Blake2b512],
        defaulted_algorithms(&[DigestAlgorithm::Blake2b512, DigestAlgorithm::Sha256, DigestAlgorithm::Md5, DigestAlgorithm::Sha256])
    );
    assert_eq!(Some(DigestAlgorithm::Blake2b256), DigestAlgorithm::from_name("BLAKE2b256"));
    assert_eq!(None, DigestAlgorithm::from_name("sha3"));
    assert_eq!("sha1", DigestAlgorithm::Sha1.name());
}

#[test]
fn created_bag_opens_with_its_algorithms() {
    let algs = defaulted_algorithms(&[DigestAlgorithm::Sha1, DigestAlgorithm::Md5, DigestAlgorithm::Sha1]);
    let mut root = names(&["bagit.txt", "bag-info.txt"]);
    for a in &algs {
        root.push(manifest_file_name("manifest", *a));
        root.push(manifest_file_name("tagmanifest", *a));
    }
    let bag = open_bag("/bags/one", BAGIT, &root, Some(b"Payload-Oxum: 0.0\n")).unwrap();
    assert_eq!(&algs, bag.algorithms());
    assert_eq!("/bags/one", bag.base_dir());
    assert_eq!("0.0", bag.bag_info().payload_oxum().unwrap().value());
}

#[test]
fn opening_needs_a_valid_declaration() {
    assert!(matches!(open_bag("b", b"BagIt-Version: 1.0\n", &Vec::new(), None), Err(Error::MissingTag { .. })));
    match open_bag("b", b"BagIt-Version 1.0\n", &Vec::new(), None) {
        Err(Error::InvalidTagLineWithRef { path, num, .. }) => {
            assert_eq!("b/bagit.txt", path);
            assert_eq!(1, num);
        }
        other => panic!("unexpected {:?}", other),
    }
    let bag = open_bag("b", BAGIT, &Vec::new(), None).unwrap();
    assert!(bag.algorithms().is_empty());
    assert_eq!(0, bag.bag_info().tags().len());
}

#[test]
fn rebag_changes_the_date_only() {
    let root = names(&["bagit.txt", "bag-info.txt", "manifest-sha512.txt", "tagmanifest-sha512.txt"]);
    let info = b"Bagging-Date: 2019-05-05\nBag-Software-Agent: other\nPayload-Oxum: 3.1\nContact-Name: A\n";
    let bag = open_bag("bag", BAGIT, &root, Some(info)).unwrap();
    let updater = bag.update().with_bagging_date(Some("2020-01-01".to_string()));
    assert!(updater.recalculating());
    assert_eq!(vec![DigestAlgorithm::Sha512], updater.chosen_algorithms());
    let mut metas = vec![FileMeta::new("hello.txt".to_string(), 3, vec![(DigestAlgorithm::Sha512, "x".to_string())])];
    add_data_prefix(&mut metas);
    let bag = updater.finalize_on("2024-01-01", Some(&metas)).unwrap();
    let text = bagr::tag::write_bag_info(bag.bag_info());
    assert_eq!(1, text.matches("Bagging-Date: ").count());
    assert!(text.contains("Bagging-Date: 2020-01-01\n"));
    assert!(text.contains("Payload-Oxum: 3.1\n"));
    assert!(text.contains("Contact-Name: A\n"));
    assert!(text.contains("Bag-Software-Agent: bagr v"));
    assert_eq!(&vec![DigestAlgorithm::Sha512], bag.algorithms());
}

#[test]
fn rebag_with_new_algorithms() {
    let root = names(&["bagit.txt", "manifest-sha512.txt"]);
    let bag = open_bag("bag", BAGIT, &root, None).unwrap();
    let updater = bag
        .update()
        .with_algorithm(DigestAlgorithm::Sha256)
        .with_algorithm(DigestAlgorithm::Md5)
        .with_software_agent(Some("agent".to_string()));
    assert_eq!(vec![DigestAlgorithm::Md5, DigestAlgorithm::Sha256], updater.chosen_algorithms());
    let kept = updater.recalculate_payload_manifests(false);
    assert_eq!(vec![DigestAlgorithm::Sha512], kept.chosen_algorithms());
    let bag = kept.finalize_on("2024-01-01", None).unwrap();
    assert_eq!(
        "Bagging-Date: 2024-01-01\nBag-Software-Agent: agent\n",
        bagr::tag::write_bag_info(bag.bag_info())
    );
    let bad = open_bag("bag", BAGIT, &root, None).unwrap().update().with_bagging_date(Some("a\nb".to_string()));
    assert!(matches!(bad.finalize(None), Err(Error::InvalidTag { .. })));
    let bag = open_bag("bag", BAGIT, &root, None).unwrap().update().with_algorithms(&[]).finalize(None).unwrap();
    assert!(bag.bag_info().bagging_date().is_some());
}

#[test]
fn hidden_files() {
    assert!(is_hidden_file(".git"));
    assert!(is_hidden_file(".x.txt"));
    assert!(!is_hidden_file("."));
    assert!(!is_hidden_file(".."));
    assert!(!is_hidden_file("a.txt"));
    assert!(!is_hidden_file(""));
    assert!(delete_in_walk(".hidden", false));
    assert!(!delete_in_walk(".hidden", true));
    assert!(!delete_in_walk("..", false));
    assert!(include_in_walk(".hidden", "temp-1"));
    assert!(include_in_walk("a.txt", "temp-1"));
    assert!(!include_in_walk("temp-1", "temp-1"));
    // hidden entries are deleted from the source whether the bag is made in place or copied
    assert_eq!(WalkAction::DeleteFile, walk_action(".hidden", EntryKind::File, false, true, false));
    assert_eq!(WalkAction::DeleteFile, walk_action(".hidden", EntryKind::File, false, false, false));
}

#[test]
fn tag_walk_skips_data_and_tag_manifests() {
    assert!(!include_in_tag_walk("data"));
    assert!(!include_in_tag_walk("tagmanifest-sha256.txt"));
    assert!(include_in_tag_walk("manifest-sha256.txt"));
    assert!(include_in_tag_walk("bag-info.txt"));
}

#[test]
fn staging_directory_names() {
    assert_eq!("temp-1700000000", temp_dir_name(1700000000));
    assert_eq!(Some("temp-100".to_string()), fresh_temp_dir_name(100, &names(&["a"])));
    assert_eq!(Some("temp-102".to_string()), fresh_temp_dir_name(100, &names(&["temp-100", "temp-101"])));
    assert_eq!("dir/name", join_path("dir", "name"));
}

#[test]
fn validation_of_the_declaration() {
    let ok = validate_bag("b", Ok(BAGIT.to_vec()), true).unwrap();
    assert_eq!(ValidationVerdict::Valid, ok.verdict());
    assert!(ok.issues().is_empty());
    let complete = validate_bag("b", Ok(BAGIT.to_vec()), false).unwrap();
    assert_eq!(ValidationVerdict::Complete, complete.verdict());

    let missing = validate_bag("b", Err(Error::IoRead { path: "b/bagit.txt".to_string(), kind: IoErrorKind::NotFound, details: String::new() }), true).unwrap();
    assert_eq!(ValidationVerdict::Invalid, missing.verdict());
    assert_eq!(IssueLevel::Error, missing.issues()[0].level());
    assert_eq!("bagit.txt does not exist", missing.issues()[0].message());

    let bad = validate_bag("b", Ok(b"BagIt-Version: x\nTag-File-Character-Encoding: UTF-8\n".to_vec()), true).unwrap();
    assert_eq!("bagit.txt contains an invalid BagIt-Version: x", bad.issues()[0].message());
    let line = validate_bag("b", Ok(b"nonsense\n".to_vec()), true).unwrap();
    assert_eq!("Tag 1 in bagit.txt is invalid: Missing colon separating the label and value", line.issues()[0].message());
    let tag = validate_bag("b", Ok(b"BagIt-Version: 1.0\n".to_vec()), true).unwrap();
    assert_eq!("bagit.txt is missing required tag 'Tag-File-Character-Encoding'", tag.issues()[0].message());

    assert!(validate_bag("b", Err(Error::IoRead { path: "p".to_string(), kind: IoErrorKind::Other, details: String::new() }), true).is_err());
    assert!(matches!(validate_bag("b", Ok(b"BagIt-Version: 0.97\nTag-File-Character-Encoding: UTF-8\n".to_vec()), true), Err(Error::UnsupportedVersion { .. })));
}

#[test]
fn walk_actions() {
    assert_eq!(WalkAction::DeleteFile, walk_action(".DS_Store", EntryKind::File, false, false, false));
    assert_eq!(WalkAction::DeleteDir, walk_action(".git", EntryKind::Dir, false, true, false));
    assert_eq!(WalkAction::MoveFile, walk_action(".git", EntryKind::File, false, false, true));
    assert_eq!(WalkAction::CopyFile, walk_action("a.txt", EntryKind::File, false, true, false));
    assert_eq!(WalkAction::SweepDir, walk_action("dir", EntryKind::Dir, false, false, false));
    assert_eq!(WalkAction::Keep, walk_action("dir", EntryKind::Dir, false, true, false));
    assert_eq!(WalkAction::Keep, walk_action(".bag", EntryKind::Dir, true, false, false));
    assert_eq!(WalkAction::Unsupported, walk_action("link", EntryKind::Other, false, false, false));
    assert_eq!(WalkAction::DeleteFile, walk_action(".link", EntryKind::Other, false, false, false));
}

#[test]
fn opening_reports_the_declaration_reading_error() {
    let bagit = b"BagIt-Version 1.0\nx: y\n\xff\n";
    let read = bagr::tag::read_bag_declaration("b/bagit.txt", bagit);
    let opened = open_bag("b", bagit, &Vec::new(), None);
    match (read, opened) {
        (Err(Error::InvalidTagLineWithRef { path: read_path, num: read_num, details: read_details }), Err(Error::InvalidTagLineWithRef { path: open_path, num: open_num, details: open_details })) => {
            assert_eq!((read_path, read_num, read_details), (open_path, open_num, open_details));
        }
        other => panic!("unexpected {:?}", other),
    }
}
