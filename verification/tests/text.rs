use gateway::text::{authority, decimal_string, decode_hex, encode_hex, is_blank, split_pieces};

#[test]
fn splits_like_str_split() {
    for s in ["a::b::c", "", "::", "a:::b", "::a::", "no separator", "a:b", "x::::y"] {
        let expected: Vec<String> = s.split("::").map(|p| p.to_string()).collect();
        assert_eq!(split_pieces(s), expected, "splitting {:?}", s);
    }
}

#[test]
fn blank_text() {
    assert!(is_blank(""));
    assert!(is_blank(" \t\r\n\u{a0}\u{2003}"));
    assert!(!is_blank(" a "));
    for s in [" x", "\u{85}", "\u{200b}"] {
        assert_eq!(is_blank(s), s.trim().is_empty(), "{:?}", s);
    }
}

#[test]
fn hex_both_ways() {
    assert_eq!(decode_hex("00ff10Ab"), Some(vec![0, 255, 16, 171]));
    assert_eq!(decode_hex("abc"), None);
    assert_eq!(decode_hex("zz"), None);
    assert_eq!(decode_hex(""), Some(vec![]));
    assert_eq!(encode_hex(&vec![0, 255, 16, 171]), "00ff10ab");
    let b = vec![1, 2, 3, 250];
    assert_eq!(decode_hex(&encode_hex(&b)), Some(b));
}

#[test]
fn decimal_and_authority() {
    assert_eq!(decimal_string(0), "0");
    assert_eq!(decimal_string(9), "9");
    assert_eq!(decimal_string(10), "10");
    assert_eq!(decimal_string(65535), "65535");
    assert_eq!(decimal_string(u64::MAX), u64::MAX.to_string());
    assert_eq!(authority("localhost", 8443), "localhost:8443");
}
