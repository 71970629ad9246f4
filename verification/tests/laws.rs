use boreal::module::ModuleValue;
use boreal::module_text::module_value_text;
use boreal::base64::{base64_encode, default_alphabet, encode_base64};
use boreal::variable::xor_bytes;
use boreal::wide::{is_match_wide, string_to_wide, unwide};

#[test]
fn unwide_undoes_string_to_wide() {
    let s = b"Hello, World";
    let w = string_to_wide(s);
    assert_eq!(w.len(), 2 * s.len());
    assert_eq!(&w[..4], b"H\0e\0");
    assert_eq!(unwide(&w), s.to_vec());
    assert!(is_match_wide(0, w.len(), &w));
    assert!(!is_match_wide(0, s.len(), s));
}

#[test]
fn unwide_stops_at_the_first_non_wide_pair() {
    assert_eq!(unwide(b"a\0b\0cd\0"), b"ab".to_vec());
    assert_eq!(unwide(b""), Vec::<u8>::new());
}

#[test]
fn xor_twice_gives_back_the_literal() {
    let lit = b"abc\x00\xff";
    let once = xor_bytes(lit, 0x5a);
    assert_eq!(once, vec![b'a' ^ 0x5a, b'b' ^ 0x5a, b'c' ^ 0x5a, 0x5a, 0xff ^ 0x5a]);
    assert_eq!(xor_bytes(&once, 0x5a), lit.to_vec());
}

#[test]
fn base64_encoding() {
    let alphabet = default_alphabet();
    assert_eq!(alphabet.len(), 64);
    assert_eq!(base64_encode(b"Man", &alphabet), b"TWFu".to_vec());
    assert_eq!(base64_encode(b"Ma", &alphabet), b"TWE".to_vec());
    assert_eq!(base64_encode(b"M", &alphabet), b"TQ".to_vec());
    assert_eq!(base64_encode(b"", &alphabet), Vec::<u8>::new());
    // The pieces searched for, at each of the three offsets.
    assert_eq!(
        encode_base64(b"This program cannot", &alphabet, 0),
        Some(b"VGhpcyBwcm9ncmFtIGNhbm5vd".to_vec())
    );
}

#[test]
fn module_value_text_layout() {
    let value = ModuleValue::Object(vec![
        ("b".to_owned(), ModuleValue::Integer(255)),
        ("a".to_owned(), ModuleValue::Bytes(b"xy".to_vec())),
        ("c".to_owned(), ModuleValue::Array(vec![ModuleValue::Boolean(true)])),
        (
            "d".to_owned(),
            ModuleValue::Dictionary(vec![(vec![0xff], ModuleValue::Undefined)]),
        ),
        ("e".to_owned(), ModuleValue::Object(Vec::new())),
        ("f".to_owned(), ModuleValue::Array(Vec::new())),
    ]);
    assert_eq!(
        module_value_text(&value, 4),
        "\n    a = \"xy\"\n    b = 255 (0xff)\n    c\n        [0] = true\n    d\n        [{ ff }][undef]\n    e = {}\n    f = []\n"
    );
    assert_eq!(
        module_value_text(&ModuleValue::Integer(-1), 0),
        " = -1 (0xffffffffffffffff)\n"
    );
}
