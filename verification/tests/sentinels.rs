use kvr::data::{KeyAtRevision, Revision};
use kvr::magic::Magic;

#[test]
fn unsigned_sentinels_hold_their_width_in_each_byte() {
    assert_eq!(u8::magic(), 8);
    assert_eq!(u16::magic(), 0x1010);
    assert_eq!(u32::magic(), 0x2020_2020);
    assert_eq!(u64::magic(), 0x4040_4040_4040_4040);
    assert_eq!(u128::magic(), 0x8080_8080_8080_8080_8080_8080_8080_8080);
    assert_eq!(u16::magic().to_le_bytes(), [16, 16]);
    assert_eq!(u32::magic().to_le_bytes(), [32; 4]);
    assert_eq!(u64::magic().to_le_bytes(), [64; 8]);
    assert_eq!(u128::magic().to_le_bytes(), [128; 16]);
}

#[test]
fn revision_sentinel_is_fixed() {
    assert_eq!(Revision::magic(), Revision(1963750875627707164224818581967208448));
    assert_eq!(Revision::magic(), Revision::magic());
    assert_eq!(Revision::magic().to_string(), "01F8T69CDB8NS6JTR000000000");
}

#[test]
fn revision_text_is_the_canonical_form() {
    assert_eq!(Revision(0).to_string(), "00000000000000000000000000");
    assert_eq!(Revision(1).to_string(), "00000000000000000000000001");
    assert_eq!(Revision(31).to_string(), "0000000000000000000000000Z");
    assert_eq!(Revision(32).to_string(), "00000000000000000000000010");
    assert_eq!(Revision(u128::MAX).to_string(), "7ZZZZZZZZZZZZZZZZZZZZZZZZZ");
    assert_eq!(
        Revision(0x0168_d3ff_00cf_8659_add4_9a16_d369_c5ff).to_string(),
        "01D39ZY06FGSCTVN4T2V9PKHFZ"
    );
    assert_eq!(
        Revision(0x4141_4141_4141_4141_4141_4141_4141_4141).to_string(),
        "21850M2GA1850M2GA1850M2GA1"
    );
}

#[test]
fn revisions_order_as_numbers() {
    assert!(Revision(1) < Revision(2));
    assert!(Revision(u128::MAX) > Revision(0));
    assert_eq!(Revision(5), Revision(5));
    assert_ne!(Revision(5), Revision(6));
}

#[test]
fn keys_at_revisions_order_by_key_then_revision() {
    let at = |key: u128, revision: u128| KeyAtRevision { key, revision: Revision(revision) };
    assert!(at(1, 9) < at(2, 0));
    assert!(at(1, 1) < at(1, 2));
    assert!(at(2, 0) > at(1, u128::MAX));
    assert_eq!(at(3, 3), at(3, 3));
}
