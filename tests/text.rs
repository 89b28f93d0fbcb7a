use sup_smsac::big_endian::DecodeBE;
use sup_smsac::addr::Addr;
use sup_smsac::encoding::decode_c_string;
use sup_smsac::text::{bytes_to_hex, contains_char, parse_hex_u32, replace_all};

#[test]
fn hex_parsing_follows_from_str_radix() {
    assert_eq!(parse_hex_u32("1f"), Some(0x1F));
    assert_eq!(parse_hex_u32("+1F"), Some(0x1F));
    assert_eq!(parse_hex_u32("FFFFFFFF"), Some(0xFFFF_FFFF));
    assert_eq!(parse_hex_u32("100000000"), None);
    assert_eq!(parse_hex_u32(""), None);
    assert_eq!(parse_hex_u32("+"), None);
    assert_eq!(parse_hex_u32("-1"), None);
    assert_eq!(parse_hex_u32("12g"), None);
    for s in ["0", "abc", "DEADBEEF", "+7", "00000001"] {
        assert_eq!(parse_hex_u32(s), u32::from_str_radix(s, 16).ok());
    }
}

#[test]
fn replace_fills_every_marker() {
    assert_eq!(replace_all("slot*", '*', "x"), "slotx");
    assert_eq!(replace_all("a*b*", '*', "yz"), "ayzbyz");
    assert_eq!(replace_all("plain", '*', "q"), "plain");
    assert!(contains_char("child[*]", '*'));
    assert!(!contains_char("child", '*'));
}

#[test]
fn hex_dump_text() {
    assert_eq!(bytes_to_hex(&[0x00, 0xAB, 0x0F]), "00AB0F");
    assert_eq!(bytes_to_hex(&[]), "");
}

#[test]
fn big_endian_decoding() {
    assert_eq!(u32::decode_be(&[0x12, 0x34, 0x56, 0x78]), 0x1234_5678);
    assert_eq!(u16::decode_be(&[0xAB, 0xCD]), 0xABCD);
    assert_eq!(i16::decode_be(&[0xFF, 0xFE]), -2);
    assert_eq!(i8::decode_be(&[0x80]), -128);
    assert_eq!(i32::decode_be(&[0x80, 0, 0, 0]), i32::MIN);
    assert_eq!(u64::decode_be(&[0, 0, 0, 1, 0, 0, 0, 2]), 0x1_0000_0002);
    assert_eq!(i64::decode_be(&[0xFF; 8]), -1);
    assert_eq!(u128::decode_be(&[0xFF; 16]), u128::MAX);
    assert_eq!(i128::decode_be(&[0xFF; 16]), -1);
    assert_eq!(Addr::decode_be(&[0x80, 0x40, 0xA6, 0xE8]), Addr(0x8040_A6E8));
    assert_eq!(<u32 as DecodeBE>::packed_size(), 4);
}

#[test]
fn c_string_decoding() {
    assert_eq!(decode_c_string(b"abc\0def"), Some("abc".to_string()));
    assert_eq!(decode_c_string(b"abc"), Some("abc".to_string()));
    assert_eq!(decode_c_string(b"\0abc"), Some(String::new()));
    assert_eq!(decode_c_string(&[0x82, 0xA0, 0x00]), Some("\u{3042}".to_string()));
    assert_eq!(decode_c_string(&[0x41, 0x82, 0x00]), None);
}

#[test]
fn byte_arrays_decode_unchanged() {
    assert_eq!(<[u8; 3]>::decode_be(&[1, 2, 3]), [1, 2, 3]);
    assert_eq!(<[u8; 3] as DecodeBE>::packed_size(), 3);
}
