use dmm::key::{KEY_BASE, KEY_SPACE, KEY_WIDTH};
use dmm::{Key, KeyStrConverter};

#[test]
fn test_serialize_key() {
    assert_eq!(KeyStrConverter::key_to_str(Key::new(42)), "aaQ");
    assert_eq!(KeyStrConverter::str_to_key("aaQ"), Some(Key::new(42)));

    let max = KEY_BASE.pow(KEY_WIDTH as u32) - 1;
    assert_eq!(KeyStrConverter::key_to_str(Key::new(max)), "ZZZ");
    assert_eq!(KeyStrConverter::str_to_key("ZZZ"), Some(Key::new(max)));
}

#[test]
fn key_boundaries() {
    assert_eq!(KeyStrConverter::key_to_str(Key::new(0)), "aaa");
    assert_eq!(KeyStrConverter::key_to_str(Key::new(140607)), "ZZZ");
    assert_eq!(KeyStrConverter::key_to_str(Key::new(52)), "aba");
    assert_eq!(KeyStrConverter::key_to_str(Key::new(51)), "aaZ");
    assert_eq!(KeyStrConverter::key_to_str(Key::new(2704)), "baa");
    assert_eq!(KEY_SPACE, 140608);
}

#[test]
fn key_round_trip_on_samples() {
    for n in [0u32, 1, 25, 26, 51, 52, 53, 2703, 2704, 99999, 140606, 140607] {
        let text = KeyStrConverter::key_to_str(Key::new(n));
        assert_eq!(text.chars().count(), 3);
        assert_eq!(KeyStrConverter::str_to_key(&text).map(|k| k.value()), Some(n));
    }
}

#[test]
fn key_round_trip_everywhere() {
    for n in 0..KEY_SPACE {
        let text = KeyStrConverter::key_to_str(Key::new(n));
        assert_eq!(KeyStrConverter::str_to_key(&text).map(|k| k.value()), Some(n));
    }
}

#[test]
fn key_decode_rejects() {
    for bad in ["", "a", "aa", "aaaa", "aa1", "a a", "aé", "aaé", "éaa", "_aa"] {
        assert_eq!(KeyStrConverter::str_to_key(bad), None, "{:?}", bad);
    }
}
