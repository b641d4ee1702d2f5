use asset_localizer::text::trim;

#[test]
fn white_space_is_std_white_space() {
    for code in 0u32..=0x10FFFF {
        if let Some(c) = char::from_u32(code) {
            assert_eq!(trim(&[c]).is_empty(), c.is_whitespace(), "U+{code:04X}");
        }
    }
}
