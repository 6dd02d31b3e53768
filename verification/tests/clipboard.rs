use difv::clipboard::{base64, copy};

#[test]
fn base64_matches_the_standard_alphabet_and_padding() {
    assert_eq!(base64(b""), "");
    assert_eq!(base64(b"f"), "Zg==");
    assert_eq!(base64(b"fo"), "Zm8=");
    assert_eq!(base64(b"foo"), "Zm9v");
    assert_eq!(base64(b"foob"), "Zm9vYg==");
    assert_eq!(base64(b"hello world"), "aGVsbG8gd29ybGQ=");
    assert_eq!(base64(&[0xff, 0xef, 0xfe]), "/+/+");
}

/// What the terminal is sent: the text, encoded, between the marks that say it is for
/// the clipboard.
#[test]
fn a_copy_is_one_terminal_sequence() {
    assert_eq!(copy("foo"), "\u{1b}]52;c;Zm9v\u{7}");
    assert_eq!(copy("你"), "\u{1b}]52;c;5L2g\u{7}");
    assert_eq!(copy(""), "\u{1b}]52;c;\u{7}");
}

/// Four characters for every three bytes, the last group filled up.
#[test]
fn an_encoding_is_a_third_longer() {
    for n in 0..10usize {
        assert_eq!(base64(&vec![7; n]).len(), n.div_ceil(3) * 4);
    }
}
