use obweb::expiry::{tier_index, TIERS};

#[test]
fn there_is_a_tier_for_every_priority() {
    assert_eq!(TIERS, 256);
    assert_eq!(tier_index(i8::MIN), 0);
    assert_eq!(tier_index(-1), 127);
    assert_eq!(tier_index(0), 128);
    assert_eq!(tier_index(i8::MAX), 255);
}
