use api_rs::ident::PlayerId;

const SAMPLE: u128 = 0x550e8400_e29b_41d4_a716_446655440000;

#[test]
fn formats_as_hyphenated_lower_case() {
    assert_eq!(PlayerId(SAMPLE).to_text(), "550e8400-e29b-41d4-a716-446655440000");
    assert_eq!(PlayerId(0).to_text(), "00000000-0000-0000-0000-000000000000");
    assert_eq!(PlayerId(u128::MAX).to_text(), "ffffffff-ffff-ffff-ffff-ffffffffffff");
    assert_eq!(
        PlayerId(0x0123_4567_89ab_cdef_0123_4567_89ab_cdef).to_text(),
        "01234567-89ab-cdef-0123-456789abcdef"
    );
}

#[test]
fn parses_what_it_formats() {
    for bits in [0u128, 1, SAMPLE, u128::MAX, 0xdead_beef << 64] {
        let text = PlayerId(bits).to_text();
        assert_eq!(PlayerId::parse(&text), Some(PlayerId(bits)));
    }
}

#[test]
fn parses_the_forms_the_uuid_crate_reads() {
    let id = Some(PlayerId(SAMPLE));
    assert_eq!(PlayerId::parse("550e8400-e29b-41d4-a716-446655440000"), id);
    assert_eq!(PlayerId::parse("550E8400-E29B-41D4-A716-446655440000"), id);
    assert_eq!(PlayerId::parse("550e8400e29b41d4a716446655440000"), id);
    assert_eq!(PlayerId::parse("{550e8400-e29b-41d4-a716-446655440000}"), id);
    assert_eq!(PlayerId::parse("urn:uuid:550e8400-e29b-41d4-a716-446655440000"), id);
}

#[test]
fn rejects_what_is_no_identifier() {
    assert_eq!(PlayerId::parse(""), None);
    assert_eq!(PlayerId::parse("not-a-uuid"), None);
    assert_eq!(PlayerId::parse("550e8400-e29b-41d4-a716-44665544000"), None);
    assert_eq!(PlayerId::parse("550e8400-e29b-41d4-a716-44665544000g"), None);
    assert_eq!(PlayerId::parse("550e8400_e29b_41d4_a716_446655440000"), None);
}

#[test]
fn a_parsed_text_is_not_handed_back_as_it_came() {
    let id = PlayerId::parse("550E8400E29B41D4A716446655440000").unwrap();
    assert_eq!(id.0, SAMPLE);
    assert_eq!(id.to_text(), "550e8400-e29b-41d4-a716-446655440000");
}

#[test]
fn profile_identifiers_are_version_4_of_the_rfc_variant() {
    assert!(PlayerId(SAMPLE).is_profile_identifier());
    // version 3
    assert!(!PlayerId(0x02f09a3f_1624_3b1d_8409_44eff7708208).is_profile_identifier());
    // version 4, but the variant bits are 00 and 11
    assert!(!PlayerId(0x550e8400_e29b_41d4_2716_446655440000).is_profile_identifier());
    assert!(!PlayerId(0x550e8400_e29b_41d4_e716_446655440000).is_profile_identifier());
    // every value of the rfc variant's two bits
    assert!(PlayerId(0x550e8400_e29b_41d4_8716_446655440000).is_profile_identifier());
    assert!(PlayerId(0x550e8400_e29b_41d4_b716_446655440000).is_profile_identifier());
    assert!(!PlayerId(0).is_profile_identifier());
    assert!(!PlayerId(u128::MAX).is_profile_identifier());
}
