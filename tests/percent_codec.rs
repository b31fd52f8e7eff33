use bagr::encoding::percent_encode;

#[test]
fn test_percent_encoding() {
    assert_eq!(
        "a\tbc%25123%0Dqwe%0A%25%25asd%0D%0A !",
        percent_encode("a\tbc%123\rqwe\n%%asd\r\n !")
    );
    assert_eq!("nothing to see here", percent_encode("nothing to see here"));
}

#[test]
fn encoding_keeps_unicode_and_separators() {
    assert_eq!("dir/ñ é\tx", percent_encode("dir/ñ é\tx"));
    assert_eq!("", percent_encode(""));
}

#[test]
fn encoding_paths_with_line_breaks() {
    assert_eq!(
        "dir%0D%0Awith%2525everything%0D%0A/file.txt",
        percent_encode("dir\r\nwith%25everything\r\n/file.txt")
    );
    assert_eq!("test%0Dcr.txt", percent_encode("test\rcr.txt"));
    assert_eq!("test%0Alf.txt", percent_encode("test\nlf.txt"));
    assert_eq!("test%2520file.txt", percent_encode("test%20file.txt"));
}
