//! Text and its validation.
use bytes::Bytes;
use websocket_io::utf8::scan::{scan, Scan};
use websocket_io::Utf8Bytes;

#[test]
fn conversions() {
    let text = Utf8Bytes::from_static("zażółć");
    assert_eq!(text.as_str(), "zażółć");
    assert_eq!(text, "zażółć");
    assert_eq!(text, *"zażółć");
    assert!(text != "zażółc");
    assert!(text != "zażółć!");
    assert_eq!(text.len(), 10);
    assert_eq!(text.chars().count(), 6);
    assert_eq!(text.clone().into_bytes(), Bytes::from_static("zażółć".as_bytes()));
    assert_eq!(Bytes::from(text.clone()), Bytes::from_static("zażółć".as_bytes()));
    assert_eq!(Utf8Bytes::from(String::from("zażółć")), text);
    assert_eq!(Utf8Bytes::from("zażółć"), text);
    assert_eq!(
        Utf8Bytes::try_from(Bytes::from_static("zażółć".as_bytes())).unwrap(),
        text
    );
    assert!(Utf8Bytes::try_from(Bytes::from_static(b"ok\xff")).is_err());
    assert_eq!(Utf8Bytes::default(), "");
    assert_eq!(AsRef::<str>::as_ref(&text), "zażółć");
    assert_eq!(AsRef::<[u8]>::as_ref(&text), "zażółć".as_bytes());
}

#[test]
fn scan_agrees_with_std() {
    let mut cases = vec![
        b"".to_vec(),
        b"plain".to_vec(),
        "zażółć gęślą jaźń 🐢 \u{7ff}\u{800}\u{ffff}\u{10000}\u{10ffff}".as_bytes().to_vec(),
        b"ok\xc0\x80".to_vec(),
        b"\xc1\xbf".to_vec(),
        b"\xed\xa0\x80".to_vec(),
        b"\xed\x9f\xbf".to_vec(),
        b"\xe0\x9f\xbf".to_vec(),
        b"\xf0\x8f\xbf\xbf".to_vec(),
        b"\xf4\x90\x80\x80".to_vec(),
        b"\xf5\x80\x80\x80".to_vec(),
        b"\x80".to_vec(),
        b"a\xe2\x28\xa1".to_vec(),
    ];
    // All sequences of two bytes, and of three and four that start with chosen bytes.
    for a in 0..=255u8 {
        for b in 0..=255u8 {
            cases.push(vec![a, b]);
        }
    }
    for a in [0xE0, 0xE1, 0xED, 0xEF, 0xF0, 0xF1, 0xF4] {
        for b in [0x7F, 0x80, 0x8F, 0x90, 0x9F, 0xA0, 0xBF, 0xC0] {
            for c in [0x7F, 0x80, 0xBF, 0xC0] {
                cases.push(vec![a, b, c]);
                for d in [0x7F, 0x80, 0xBF, 0xC0] {
                    cases.push(vec![a, b, c, d]);
                }
            }
        }
    }
    for case in cases {
        for end in 0..=case.len() {
            let bytes = &case[..end];
            let expected = match std::str::from_utf8(bytes) {
                Ok(_) => Scan::Valid,
                Err(error) if error.error_len().is_none() => Scan::Cut(error.valid_up_to()),
                Err(_) => Scan::Invalid,
            };
            assert_eq!(scan(bytes, 0), expected, "{bytes:?}");
        }
    }
}

#[test]
fn scan_goes_on() {
    let text = "aż🐢".as_bytes();
    assert_eq!(scan(&text[..2], 0), Scan::Cut(1));
    assert_eq!(scan(&text[..3], 1), Scan::Valid);
    assert_eq!(scan(&text[..6], 3), Scan::Cut(3));
    assert_eq!(scan(text, 3), Scan::Valid);
    assert_eq!(scan(b"ab\xff", 2), Scan::Invalid);
}
