use ass::color::rgb_to_u32;

#[test]
fn packs_components() {
    assert_eq!(rgb_to_u32(0, 0, 0), 0);
    assert_eq!(rgb_to_u32(1, 2, 3), 0x010203);
    assert_eq!(rgb_to_u32(255, 255, 255), 0xFFFFFF);
    assert_eq!(rgb_to_u32(255, 0, 0), 0xFF0000);
}

#[test]
fn saturates_components() {
    assert_eq!(rgb_to_u32(300, 0, 999), 0xFF00FF);
    assert_eq!(rgb_to_u32(usize::MAX, 256, 0), 0xFFFF00);
}
