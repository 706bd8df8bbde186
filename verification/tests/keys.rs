use api_rs::codec::Generation;
use api_rs::ident::PlayerId;
use api_rs::keys::{
    expire_time, parse_profile_key, profile_key, scan_prefix, EXPIRATION_SECONDS, PROFILE_KEY_V1,
    PROFILE_KEY_V2, UNKNOWN_SET_KEY,
};

const SAMPLE: u128 = 0x550e8400_e29b_41d4_a716_446655440000;

#[test]
fn the_key_scheme_is_fixed() {
    assert_eq!(PROFILE_KEY_V1, "tiers-v1-profile");
    assert_eq!(PROFILE_KEY_V2, "tiers-v2-profile");
    assert_eq!(UNKNOWN_SET_KEY, "tiers-v2-unknown");
    assert_eq!(EXPIRATION_SECONDS, 12 * 60 * 60);
    assert_eq!(Generation::Legacy.namespace(), "tiers-v1-profile");
    assert_eq!(Generation::Current.namespace(), "tiers-v2-profile");
}

#[test]
fn a_profile_key_is_namespace_colon_identifier() {
    assert_eq!(
        profile_key(Generation::Current, PlayerId(SAMPLE)),
        "tiers-v2-profile:550e8400-e29b-41d4-a716-446655440000"
    );
    assert_eq!(
        profile_key(Generation::Legacy, PlayerId(SAMPLE)),
        "tiers-v1-profile:550e8400-e29b-41d4-a716-446655440000"
    );
}

#[test]
fn a_scan_looks_for_the_namespace_and_colon() {
    assert_eq!(scan_prefix(Generation::Current), "tiers-v2-profile:");
    assert_eq!(scan_prefix(Generation::Legacy), "tiers-v1-profile:");
}

#[test]
fn a_key_leads_back_to_its_player() {
    for generation in [Generation::Legacy, Generation::Current] {
        for bits in [0u128, SAMPLE, u128::MAX] {
            let key = profile_key(generation, PlayerId(bits));
            assert_eq!(parse_profile_key(generation, &key), Some(PlayerId(bits)));
        }
    }
}

#[test]
fn a_key_of_the_other_generation_leads_nowhere() {
    let key = profile_key(Generation::Legacy, PlayerId(SAMPLE));
    assert_eq!(parse_profile_key(Generation::Current, &key), None);
    let key = profile_key(Generation::Current, PlayerId(SAMPLE));
    assert_eq!(parse_profile_key(Generation::Legacy, &key), None);
}

#[test]
fn a_malformed_key_leads_nowhere() {
    let generation = Generation::Current;
    assert_eq!(parse_profile_key(generation, ""), None);
    assert_eq!(parse_profile_key(generation, "tiers-v2-profile"), None);
    assert_eq!(parse_profile_key(generation, "tiers-v2-profile:"), None);
    assert_eq!(parse_profile_key(generation, "tiers-v2-profile:steve"), None);
    assert_eq!(parse_profile_key(generation, "550e8400-e29b-41d4-a716-446655440000"), None);
    assert_eq!(
        parse_profile_key(generation, "tiers-v2-profile-550e8400-e29b-41d4-a716-446655440000"),
        None
    );
    assert_eq!(
        parse_profile_key(generation, "tiers-v2-profile:550e8400-e29b-41d4-a716-446655440000:x"),
        None
    );
    assert_eq!(parse_profile_key(generation, "tiers-v2-profilé:x"), None);
}

#[test]
fn a_key_in_another_spelling_of_the_identifier_still_leads_to_the_player() {
    assert_eq!(
        parse_profile_key(Generation::Current, "tiers-v2-profile:550E8400E29B41D4A716446655440000"),
        Some(PlayerId(SAMPLE))
    );
}

#[test]
fn entries_lapse_their_lifetime_after_they_were_written() {
    assert_eq!(expire_time(1_000, 300), 1_300);
    assert_eq!(expire_time(0, 0), 0);
    assert_eq!(expire_time(1_700_000_000, EXPIRATION_SECONDS), 1_700_043_200);
}

#[test]
fn the_lapse_time_stops_at_the_largest_time() {
    assert_eq!(expire_time(u64::MAX, 1), u64::MAX);
    assert_eq!(expire_time(u64::MAX - 5, 5), u64::MAX);
    assert_eq!(expire_time(u64::MAX - 5, 6), u64::MAX);
    assert_eq!(expire_time(5, u64::MAX), u64::MAX);
}
