use latin::file::{read_string_utf8, read_string_utf8_lossy};
use latin::text::{decode, decode_lossy, InvalidUtf8, TextError};

#[test]
fn strict_read_gives_the_text() {
    let read: Result<Vec<u8>, u32> = Ok(b"plain text".to_vec());
    assert_eq!(read_string_utf8(read), Ok(String::from("plain text")));
}

#[test]
fn strict_read_of_nothing_is_empty_text() {
    let read: Result<Vec<u8>, u32> = Ok(Vec::new());
    assert_eq!(read_string_utf8(read), Ok(String::new()));
}

#[test]
fn strict_read_keeps_text_beyond_ascii() {
    let text = "h\u{e9}llo \u{4e16}\u{754c} \u{1f600}";
    let written = latin::file::write(text).data;
    assert_eq!(written, text.as_bytes().to_vec());
    let read: Result<Vec<u8>, u32> = Ok(written);
    assert_eq!(read_string_utf8(read), Ok(String::from(text)));
}

#[test]
fn strict_read_refuses_bytes_that_are_not_utf8() {
    let read: Result<Vec<u8>, u32> = Ok(vec![0xFF, 0xFE]);
    let r = read_string_utf8(read);
    assert_eq!(r, Err(TextError::Decode(InvalidUtf8 { bytes: vec![0xFF, 0xFE] })));
    assert!(!matches!(r, Err(TextError::Io(_))));
}

#[test]
fn strict_read_refuses_a_truncated_character() {
    let read: Result<Vec<u8>, u32> = Ok(vec![b'a', 0xE4, 0xB8]);
    assert_eq!(
        read_string_utf8(read),
        Err(TextError::Decode(InvalidUtf8 { bytes: vec![b'a', 0xE4, 0xB8] }))
    );
}

#[test]
fn strict_read_passes_a_failed_read_on() {
    let read: Result<Vec<u8>, u32> = Err(2);
    assert_eq!(read_string_utf8(read), Err(TextError::Io(2)));
}

#[test]
fn lossy_read_replaces_what_is_not_utf8() {
    let read: Result<Vec<u8>, u32> = Ok(vec![0xFF]);
    assert_eq!(read_string_utf8_lossy(read), Ok(String::from("\u{FFFD}")));
}

#[test]
fn lossy_read_keeps_what_is_around_the_damage() {
    let read: Result<Vec<u8>, u32> = Ok(vec![b'a', 0xFF, b'b']);
    assert_eq!(read_string_utf8_lossy(read), Ok(String::from("a\u{FFFD}b")));
}

#[test]
fn lossy_read_of_good_text_is_the_text() {
    let text = "gr\u{fc}\u{df}e";
    let read: Result<Vec<u8>, u32> = Ok(text.as_bytes().to_vec());
    assert_eq!(read_string_utf8_lossy(read), Ok(String::from(text)));
}

#[test]
fn lossy_read_passes_a_failed_read_on() {
    let read: Result<Vec<u8>, u32> = Err(13);
    assert_eq!(read_string_utf8_lossy(read), Err(13));
}

#[test]
fn decode_agrees_with_the_standard_library() {
    let samples: Vec<Vec<u8>> = vec![
        vec![],
        b"ascii".to_vec(),
        "\u{e9}".as_bytes().to_vec(),
        vec![0xC3],
        vec![0xC0, 0x80],
        vec![0xED, 0xA0, 0x80],
        vec![0xF4, 0x90, 0x80, 0x80],
        vec![0xF0, 0x9F, 0x98, 0x80],
        vec![0x80],
    ];
    for bytes in samples {
        match (decode(bytes.clone()), std::str::from_utf8(&bytes)) {
            (Ok(text), Ok(expected)) => assert_eq!(text, expected),
            (Err(e), Err(_)) => assert_eq!(e.bytes, bytes),
            (got, expected) => panic!("{:?}: {:?} against {:?}", bytes, got, expected),
        }
    }
}

#[test]
fn decode_lossy_changes_what_it_has_to() {
    assert_eq!(decode_lossy(&[0xFF, 0xFE]), "\u{FFFD}\u{FFFD}");
    assert_eq!(decode_lossy(b"fine"), "fine");
    assert_eq!(decode_lossy(&[]), "");
}
