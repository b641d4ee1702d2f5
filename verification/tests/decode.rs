use asset_localizer::decode::{decode_config_bytes, decode_utf16_be, decode_utf16_le, DecodeError};

#[test]
fn plain_utf8() {
    assert_eq!(decode_config_bytes("héllo".as_bytes()), Ok("héllo".to_string()));
    assert_eq!(decode_config_bytes(b""), Ok(String::new()));
}

#[test]
fn utf8_byte_order_mark_is_dropped() {
    assert_eq!(decode_config_bytes(b"\xEF\xBB\xBFabc"), Ok("abc".to_string()));
}

#[test]
fn utf16_little_endian() {
    assert_eq!(decode_config_bytes(b"\xFF\xFEa\x00b\x00"), Ok("ab".to_string()));
    assert_eq!(decode_utf16_le(&[0x3D, 0xD8, 0x00, 0xDE]), Ok("\u{1F600}".to_string()));
}

#[test]
fn utf16_big_endian() {
    assert_eq!(decode_config_bytes(b"\xFE\xFF\x00a\x4F\x60"), Ok("a\u{4F60}".to_string()));
    assert_eq!(decode_utf16_be(&[]), Ok(String::new()));
}

#[test]
fn utf16_errors() {
    assert_eq!(
        decode_config_bytes(b"\xFF\xFEa"),
        Err(DecodeError::OddUtf16Length { little_endian: true })
    );
    assert_eq!(
        decode_config_bytes(b"\xFE\xFF\x00"),
        Err(DecodeError::OddUtf16Length { little_endian: false })
    );
    assert_eq!(
        decode_utf16_le(&[0x00, 0xD8]),
        Err(DecodeError::InvalidUtf16 { little_endian: true })
    );
    assert_eq!(
        decode_utf16_be(&[0xDC, 0x00, 0x00, 0x41]),
        Err(DecodeError::InvalidUtf16 { little_endian: false })
    );
}

#[test]
fn not_utf8_falls_back_to_gb18030() {
    // "你好" in GBK / GB18030
    assert_eq!(decode_config_bytes(&[0xC4, 0xE3, 0xBA, 0xC3]), Ok("你好".to_string()));
    // after a UTF-8 byte order mark too
    assert_eq!(
        decode_config_bytes(&[0xEF, 0xBB, 0xBF, 0xC4, 0xE3, 0xBA, 0xC3, b'!']),
        Ok("你好!".to_string())
    );
}

#[test]
fn utf8_text_reads_back() {
    for text in ["", "atlas.png", "héllo 世界", "\u{FEFF}marked"] {
        let mut with_mark = vec![0xEF, 0xBB, 0xBF];
        with_mark.extend_from_slice(text.as_bytes());
        assert_eq!(decode_config_bytes(&with_mark).unwrap(), text);
    }
    for text in ["", "atlas.png", "héllo 世界"] {
        assert_eq!(decode_config_bytes(text.as_bytes()).unwrap(), text);
    }
    assert_eq!(decode_config_bytes("\u{FEFF}marked".as_bytes()).unwrap(), "marked");
}
