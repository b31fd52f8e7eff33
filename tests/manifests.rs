use bagr::digest::DigestAlgorithm;
use bagr::encoding::{is_well_encoded, percent_decode, percent_encode};
use bagr::manifest::{add_data_prefix, build_payload_oxum, detect_digest_algorithms, is_payload_manifest, is_tag_manifest, manifest_contents, manifest_file_name, parse_manifest_line, payload_manifest_token, read_manifest, relative_path, unknown_manifest_tokens, FileMeta};

const HI_SHA256: &str = "0bbf41d47930ff28d3f85c3b6c8e93d3f9a47f6abae68f80c2a4bf8a8b6a3d6b";

fn meta(path: &str, size: u64, alg: DigestAlgorithm, digest: &str) -> FileMeta {
    FileMeta::new(path.to_string(), size, vec![(alg, digest.to_string())])
}

fn names(v: &[&str]) -> Vec<String> {
    v.iter().map(|s| s.to_string()).collect()
}

#[test]
fn single_file_manifest() {
    let mut metas = vec![meta("hello.txt", 3, DigestAlgorithm::Sha256, HI_SHA256)];
    add_data_prefix(&mut metas);
    assert_eq!("data/hello.txt", metas[0].path);
    assert_eq!(
        format!("{}  data/hello.txt\n", HI_SHA256),
        manifest_contents(DigestAlgorithm::Sha256, &metas)
    );
    assert_eq!("3.1", build_payload_oxum(&metas));
}

#[test]
fn empty_payload() {
    assert_eq!("", manifest_contents(DigestAlgorithm::Sha512, &Vec::new()));
    assert_eq!("0.0", build_payload_oxum(&Vec::new()));
}

#[test]
fn lines_are_sorted_by_encoded_path() {
    let mut metas = vec![
        meta("test\nlf.txt", 13, DigestAlgorithm::Md5, "d1"),
        meta("test\rcr.txt", 13, DigestAlgorithm::Md5, "d2"),
        meta("test%20file.txt", 12, DigestAlgorithm::Md5, "d3"),
        meta("dir\r\nwith%25everything\r\n/file.txt", 13, DigestAlgorithm::Md5, "d4"),
    ];
    add_data_prefix(&mut metas);
    let text = manifest_contents(DigestAlgorithm::Md5, &metas);
    assert_eq!(
        "d4  data/dir%0D%0Awith%2525everything%0D%0A/file.txt\n\
         d1  data/test%0Alf.txt\n\
         d2  data/test%0Dcr.txt\n\
         d3  data/test%2520file.txt\n",
        text
    );
    assert_eq!("51.4", build_payload_oxum(&metas));
}

#[test]
fn manifests_do_not_depend_on_walk_order() {
    let a = vec![
        meta("data/b", 1, DigestAlgorithm::Sha1, "2"),
        meta("data/a", 1, DigestAlgorithm::Sha1, "1"),
        meta("data/é", 1, DigestAlgorithm::Sha1, "3"),
    ];
    let b = vec![
        meta("data/é", 1, DigestAlgorithm::Sha1, "3"),
        meta("data/a", 1, DigestAlgorithm::Sha1, "1"),
        meta("data/b", 1, DigestAlgorithm::Sha1, "2"),
    ];
    let ta = manifest_contents(DigestAlgorithm::Sha1, &a);
    assert_eq!(ta, manifest_contents(DigestAlgorithm::Sha1, &b));
    assert_eq!("1  data/a\n2  data/b\n3  data/é\n", ta);
}

#[test]
fn percent_decoding() {
    let s = "dir\r\nwith%25everything\r\n/ñ";
    assert_eq!(s, percent_decode(&percent_encode(s)));
    assert_eq!("100%", percent_decode("100%25"));
    assert_eq!("%zz%", percent_decode("%zz%"));
    assert!(is_well_encoded("a%0Db%25"));
    assert!(!is_well_encoded("50%"));
    assert!(!is_well_encoded("%20"));
}

#[test]
fn manifest_lines_are_read_tolerantly() {
    assert_eq!(Some(("abc".to_string(), "data/x y".to_string())), parse_manifest_line("abc  data/x y"));
    assert_eq!(Some(("abc".to_string(), "data/x".to_string())), parse_manifest_line("abc data/x"));
    assert_eq!(Some(("abc".to_string(), "data/x".to_string())), parse_manifest_line("abc *data/x"));
    assert_eq!(Some(("abc".to_string(), "data/x".to_string())), parse_manifest_line("abc\t./data/x"));
    assert_eq!(Some(("abc".to_string(), "data/a\nb".to_string())), parse_manifest_line("abc  data/a%0Ab"));
    assert_eq!(None, parse_manifest_line("abc"));
    assert_eq!(None, parse_manifest_line(" abc data"));
    assert_eq!(None, parse_manifest_line("abc  data/50%"));
    assert_eq!(None, parse_manifest_line("abc  "));
}

#[test]
fn written_manifest_reads_back() {
    let mut metas = vec![
        meta("a\rb%c", 1, DigestAlgorithm::Sha512, "ff"),
        meta("plain", 1, DigestAlgorithm::Sha512, "ee"),
    ];
    add_data_prefix(&mut metas);
    let text = manifest_contents(DigestAlgorithm::Sha512, &metas);
    let entries = read_manifest("manifest-sha512.txt", text.into_bytes()).unwrap();
    assert_eq!(
        vec![
            ("ff".to_string(), "data/a\rb%c".to_string()),
            ("ee".to_string(), "data/plain".to_string()),
        ],
        entries
    );
    match read_manifest("m.txt", b"ff  a\nbroken\n".to_vec()) {
        Err(bagr::Error::InvalidManifestLine { path, num, .. }) => {
            assert_eq!("m.txt", path);
            assert_eq!(2, num);
        }
        other => panic!("unexpected {:?}", other),
    }
}

#[test]
fn manifest_names() {
    assert_eq!("manifest-sha256.txt", manifest_file_name("manifest", DigestAlgorithm::Sha256));
    assert_eq!("tagmanifest-blake2b512.txt", manifest_file_name("tagmanifest", DigestAlgorithm::Blake2b512));
    assert_eq!(Some("SHA512".to_string()), payload_manifest_token("manifest-SHA512.txt"));
    assert_eq!(None, payload_manifest_token("tagmanifest-sha512.txt"));
    assert_eq!(None, payload_manifest_token("manifest-sha-512.txt"));
    assert_eq!(None, payload_manifest_token("manifest-.txt"));
    assert_eq!(None, payload_manifest_token("manifest-sha512.txt\n"));
    assert_eq!(None, payload_manifest_token("manifest-shä512.txt"));
    assert!(is_tag_manifest("tagmanifest-md5.txt"));
    assert!(!is_tag_manifest("manifest-md5.txt"));
    assert!(is_payload_manifest("manifest-md5.txt"));
    assert!(!is_payload_manifest("xmanifest-md5.txt"));
}

#[test]
fn unknown_algorithms_are_left_out() {
    let root = names(&["bagit.txt", "manifest-unknownalg.txt", "manifest-SHA256.txt", "tagmanifest-md5.txt", "manifest-md5.txt"]);
    assert_eq!(vec![DigestAlgorithm::Md5, DigestAlgorithm::Sha256], detect_digest_algorithms(&root));
    assert_eq!(vec!["unknownalg".to_string()], unknown_manifest_tokens(&root));
    assert!(detect_digest_algorithms(&names(&["bagit.txt"])).is_empty());
}

#[test]
fn relative_paths_use_slashes() {
    assert_eq!("dir/sub/file.txt", relative_path(&names(&["dir", "sub", "file.txt"])));
    assert_eq!("file.txt", relative_path(&names(&["file.txt"])));
    assert_eq!("", relative_path(&Vec::new()));
}

#[test]
fn manifest_errors_name_the_first_failing_line() {
    assert!(matches!(read_manifest("m", b"ff  a\n\xff\nbroken\n".to_vec()), Err(bagr::Error::InvalidString { .. })));
    match read_manifest("m", b"ff  a\nbroken\n\xff\n".to_vec()) {
        Err(bagr::Error::InvalidManifestLine { num, details, .. }) => {
            assert_eq!(2, num);
            assert_eq!("broken", details);
        }
        other => panic!("unexpected {:?}", other),
    }
}
