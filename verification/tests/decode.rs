use text_reader::decode::decode_text;

#[test]
fn valid_utf8_decodes_as_utf8() {
    let bytes = "hello, reader".as_bytes().to_vec();
    assert_eq!(decode_text(&bytes), "hello, reader");
}

#[test]
fn multibyte_utf8_decodes_as_utf8() {
    let bytes = "글자".as_bytes().to_vec();
    assert_eq!(decode_text(&bytes), "글자");
}

#[test]
fn empty_input_decodes_to_empty_text() {
    assert_eq!(decode_text(&Vec::new()), "");
}

#[test]
fn invalid_utf8_falls_back_to_euc_kr() {
    // 0xB0A1 is the EUC-KR encoding of the first hangul syllable; the bytes
    // are not valid UTF-8, so the fallback decoding must transform them.
    let bytes = vec![0xB0, 0xA1];
    assert_eq!(decode_text(&bytes), "\u{AC00}");
}

#[test]
fn mixed_ascii_and_euc_kr_falls_back() {
    let mut bytes = b"ab ".to_vec();
    bytes.extend_from_slice(&[0xB0, 0xA1]);
    assert_eq!(decode_text(&bytes), "ab \u{AC00}");
}
