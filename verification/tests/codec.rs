use api_rs::codec::{
    decode_value, DecodeError, DecodeErrorKind, Generation, OptionalPlayerInfo, RawValue,
};
use api_rs::ident::PlayerId;
use api_rs::json::{find_member, Json};
use api_rs::tiers::{Badge, ModeRanking, PlayerInfo, Ranking};

fn small() -> PlayerInfo {
    PlayerInfo {
        uuid: PlayerId(1),
        name: "a".to_string(),
        rankings: vec![],
        region: String::new(),
        points: 2,
        overall: 3,
        badges: vec![],
    }
}

fn full() -> PlayerInfo {
    PlayerInfo {
        uuid: PlayerId(0x550e8400_e29b_41d4_a716_446655440000),
        name: "Straße_π".to_string(),
        rankings: vec![
            ModeRanking {
                mode: "axe".to_string(),
                ranking: Ranking {
                    tier: 5,
                    pos: 1,
                    peak_tier: None,
                    peak_pos: None,
                    attained: u64::MAX,
                    retired: true,
                },
            },
            ModeRanking {
                mode: "sword".to_string(),
                ranking: Ranking {
                    tier: 2,
                    pos: 0,
                    peak_tier: Some(1),
                    peak_pos: Some(1),
                    attained: 1_700_000_000,
                    retired: false,
                },
            },
        ],
        region: "EU".to_string(),
        points: 123,
        overall: 45,
        badges: vec![
            Badge { title: "Tester".to_string(), desc: "helps \u{1F600}".to_string() },
            Badge { title: String::new(), desc: String::new() },
        ],
    }
}

const SMALL_TEXT: &str = "{\"type\":\"present\",\"uuid\":\"00000000-0000-0000-0000-000000000001\",\"name\":\"a\",\"rankings\":{},\"region\":\"\",\"points\":2,\"overall\":3,\"badges\":[]}";

fn document(bytes: &[u8]) -> serde_json::Value {
    serde_json::from_slice(bytes).unwrap()
}

fn decoded(text: &str) -> Result<OptionalPlayerInfo, DecodeError> {
    OptionalPlayerInfo::from_redis_value(RawValue::Bulk(text.as_bytes().to_vec()))
}

fn refused(text: &str) -> bool {
    decoded(text)
        == Err(DecodeError {
            kind: DecodeErrorKind::Malformed,
            payload: RawValue::Bulk(text.as_bytes().to_vec()),
        })
}

fn member(name: &str, tree: Json) -> (String, Json) {
    (name.to_string(), tree)
}

fn text(value: &str) -> Json {
    Json::Text(value.to_string())
}

#[test]
fn unknown_is_the_document_with_the_tag_alone() {
    assert_eq!(OptionalPlayerInfo::Unknown.encode(), b"{\"type\":\"unknown\"}".to_vec());
}

#[test]
fn a_profile_is_the_tagged_document_of_its_fields() {
    let bytes = OptionalPlayerInfo::Present(small()).encode();
    assert_eq!(document(&bytes), document(SMALL_TEXT.as_bytes()));
}

#[test]
fn a_ranking_is_a_member_named_by_its_mode() {
    let mut info = small();
    info.rankings.push(ModeRanking {
        mode: "uhc".to_string(),
        ranking: Ranking {
            tier: 3,
            pos: 1,
            peak_tier: Some(2),
            peak_pos: None,
            attained: 258,
            retired: true,
        },
    });
    info.badges.push(Badge { title: "T".to_string(), desc: "d".to_string() });
    let bytes = OptionalPlayerInfo::Present(info).encode();
    let written = document(&bytes);
    let ranking = &written["rankings"]["uhc"];
    assert_eq!(ranking["tier"].as_u64(), Some(3));
    assert_eq!(ranking["pos"].as_u64(), Some(1));
    assert_eq!(ranking["peak_tier"].as_u64(), Some(2));
    assert!(ranking["peak_pos"].is_null());
    assert_eq!(ranking["attained"].as_u64(), Some(258));
    assert_eq!(ranking["retired"].as_bool(), Some(true));
    assert_eq!(written["badges"][0]["title"].as_str(), Some("T"));
    assert_eq!(written["badges"][0]["desc"].as_str(), Some("d"));
    assert_eq!(written["type"].as_str(), Some("present"));
}

#[test]
fn the_document_of_unknown_reads_as_unknown() {
    assert_eq!(decoded("{\"type\":\"unknown\"}"), Ok(OptionalPlayerInfo::Unknown));
    assert_eq!(decoded(" { \"type\" : \"unknown\" } "), Ok(OptionalPlayerInfo::Unknown));
}

#[test]
fn the_document_of_a_profile_reads_as_the_profile() {
    assert_eq!(decoded(SMALL_TEXT), Ok(OptionalPlayerInfo::Present(small())));
}

#[test]
fn the_members_of_a_document_may_come_in_any_order() {
    let shuffled = "{\"points\":2,\"name\":\"a\",\"badges\":[],\"overall\":3,\"uuid\":\"00000000-0000-0000-0000-000000000001\",\"region\":\"\",\"rankings\":{},\"type\":\"present\"}";
    assert_eq!(decoded(shuffled), Ok(OptionalPlayerInfo::Present(small())));
}

#[test]
fn badges_and_peaks_may_be_left_out() {
    let doc = "{\"type\":\"present\",\"uuid\":\"00000000-0000-0000-0000-000000000001\",\"name\":\"a\",\"rankings\":{\"uhc\":{\"tier\":3,\"pos\":1,\"peak_tier\":null,\"attained\":258,\"retired\":false}},\"region\":\"\",\"points\":2,\"overall\":3}";
    let mut expected = small();
    expected.rankings.push(ModeRanking {
        mode: "uhc".to_string(),
        ranking: Ranking {
            tier: 3,
            pos: 1,
            peak_tier: None,
            peak_pos: None,
            attained: 258,
            retired: false,
        },
    });
    assert_eq!(decoded(doc), Ok(OptionalPlayerInfo::Present(expected)));
}

#[test]
fn round_trip_of_a_present_record() {
    let record = OptionalPlayerInfo::Present(small());
    assert_eq!(OptionalPlayerInfo::decode(&record.encode()), Some(record));
}

#[test]
fn round_trip_of_unknown() {
    let bytes = OptionalPlayerInfo::Unknown.encode();
    assert_eq!(OptionalPlayerInfo::decode(&bytes), Some(OptionalPlayerInfo::Unknown));
}

#[test]
fn round_trip_keeps_every_field() {
    let record = OptionalPlayerInfo::Present(full());
    let back = OptionalPlayerInfo::decode(&record.encode());
    match back {
        Some(OptionalPlayerInfo::Present(info)) => {
            let want = full();
            assert_eq!(info.uuid, want.uuid);
            assert_eq!(info.name, want.name);
            assert_eq!(info.rankings, want.rankings);
            assert_eq!(info.region, want.region);
            assert_eq!(info.points, want.points);
            assert_eq!(info.overall, want.overall);
            assert_eq!(info.badges, want.badges);
        }
        other => panic!("expected a profile, got {other:?}"),
    }
}

#[test]
fn present_and_unknown_are_never_conflated() {
    let present = OptionalPlayerInfo::Present(small()).encode();
    let unknown = OptionalPlayerInfo::Unknown.encode();
    assert_ne!(present, unknown);
    assert_ne!(OptionalPlayerInfo::decode(&present), Some(OptionalPlayerInfo::Unknown));
    assert_ne!(
        OptionalPlayerInfo::decode(&unknown),
        Some(OptionalPlayerInfo::Present(small()))
    );
}

#[test]
fn decode_refuses_what_is_no_document() {
    assert_eq!(OptionalPlayerInfo::decode(b""), None);
    assert_eq!(OptionalPlayerInfo::decode(b"garbage"), None);
    assert_eq!(OptionalPlayerInfo::decode(b"{\"type\":\"unknown\""), None);
    assert_eq!(OptionalPlayerInfo::decode(&[0]), None);
}

#[test]
fn decode_refuses_bytes_that_are_not_utf8() {
    let mut bytes = b"{\"type\":\"unknown\"}".to_vec();
    bytes.insert(2, 0xff);
    assert_eq!(OptionalPlayerInfo::decode(&bytes), None);
    assert_eq!(OptionalPlayerInfo::decode(&[0xc3, 0x28]), None);
}

#[test]
fn decode_refuses_a_document_without_a_known_tag() {
    assert!(refused("{}"));
    assert!(refused("null"));
    assert!(refused("[]"));
    assert!(refused("\"unknown\""));
    assert!(refused("{\"type\":\"absent\"}"));
    assert!(refused("{\"type\":\"Unknown\"}"));
    assert!(refused("{\"type\":1}"));
    assert!(refused("{\"kind\":\"unknown\"}"));
}

#[test]
fn decode_refuses_a_profile_that_is_not_complete() {
    assert!(refused("{\"type\":\"present\"}"));
    for name in ["uuid", "name", "rankings", "region", "points", "overall"] {
        let mut doc = document(SMALL_TEXT.as_bytes());
        doc.as_object_mut().unwrap().remove(name);
        assert!(refused(&doc.to_string()), "without {name}");
    }
}

#[test]
fn decode_refuses_fields_of_another_kind() {
    let with = |name: &str, value: &str| {
        let mut doc = document(SMALL_TEXT.as_bytes());
        let value: serde_json::Value = serde_json::from_str(value).unwrap();
        doc.as_object_mut().unwrap().insert(name.to_string(), value);
        doc.to_string()
    };
    assert!(refused(&with("uuid", "\"not-an-identifier\"")));
    assert!(refused(&with("uuid", "1")));
    assert!(refused(&with("name", "null")));
    assert!(refused(&with("points", "-1")));
    assert!(refused(&with("points", "1.5")));
    assert!(refused(&with("overall", "\"3\"")));
    assert!(refused(&with("rankings", "[]")));
    assert!(refused(&with("badges", "{}")));
    assert!(refused(&with("badges", "[{\"title\":\"t\"}]")));
    assert!(refused(&with(
        "rankings",
        "{\"uhc\":{\"tier\":256,\"pos\":0,\"attained\":1,\"retired\":false}}"
    )));
    assert!(refused(&with(
        "rankings",
        "{\"uhc\":{\"tier\":1,\"pos\":0,\"attained\":1,\"retired\":0}}"
    )));
    assert!(refused(&with("rankings", "{\"uhc\":{\"tier\":1,\"pos\":0,\"retired\":false}}")));
    assert!(!refused(&with("points", "7")));
}

#[test]
fn a_tree_with_the_tag_unknown_holds_unknown() {
    let tree = Json::Object(vec![member("type", text("unknown"))]);
    assert_eq!(OptionalPlayerInfo::from_tree(&tree), Some(OptionalPlayerInfo::Unknown));
    let tagged_twice =
        Json::Object(vec![member("type", text("unknown")), member("type", text("present"))]);
    assert_eq!(OptionalPlayerInfo::from_tree(&tagged_twice), Some(OptionalPlayerInfo::Unknown));
    assert_eq!(OptionalPlayerInfo::from_tree(&Json::Null), None);
    assert_eq!(OptionalPlayerInfo::from_tree(&Json::Array(vec![])), None);
    assert_eq!(OptionalPlayerInfo::from_tree(&Json::Object(vec![])), None);
}

#[test]
fn a_tree_with_the_tag_present_holds_the_profile_of_its_members() {
    let tree = Json::Object(vec![
        member("type", text("present")),
        member("uuid", text("00000000-0000-0000-0000-000000000001")),
        member("name", text("a")),
        member("rankings", Json::Object(vec![])),
        member("region", text("")),
        member("points", Json::Number(Some(2))),
        member("overall", Json::Number(Some(3))),
    ]);
    assert_eq!(OptionalPlayerInfo::from_tree(&tree), Some(OptionalPlayerInfo::Present(small())));
    let unread = Json::Object(vec![
        member("type", text("present")),
        member("uuid", text("00000000-0000-0000-0000-000000000001")),
        member("name", text("a")),
        member("rankings", Json::Object(vec![])),
        member("region", text("")),
        member("points", Json::Number(None)),
        member("overall", Json::Number(Some(3))),
    ]);
    assert_eq!(OptionalPlayerInfo::from_tree(&unread), None);
}

#[test]
fn the_tree_of_a_record_holds_the_record() {
    for record in [
        OptionalPlayerInfo::Unknown,
        OptionalPlayerInfo::Present(small()),
        OptionalPlayerInfo::Present(full()),
    ] {
        assert_eq!(OptionalPlayerInfo::from_tree(&record.to_tree()), Some(record));
    }
    let mut unordered = full();
    unordered.rankings.reverse();
    let record = OptionalPlayerInfo::Present(unordered);
    assert_eq!(OptionalPlayerInfo::from_tree(&record.to_tree()), Some(record));
}

#[test]
fn the_tree_of_unknown_is_the_tag_alone() {
    match OptionalPlayerInfo::Unknown.to_tree() {
        Json::Object(members) => {
            assert_eq!(members.len(), 1);
            assert_eq!(members[0].0, "type");
            assert!(matches!(&members[0].1, Json::Text(tag) if tag == "unknown"));
        }
        other => panic!("expected an object, got {other:?}"),
    }
}

#[test]
fn a_missing_legacy_value_reads_as_unknown() {
    assert_eq!(
        OptionalPlayerInfo::from_redis_value(RawValue::Nil),
        Ok(OptionalPlayerInfo::Unknown)
    );
    assert_eq!(
        decode_value(Generation::Legacy, RawValue::Nil),
        Ok(Some(OptionalPlayerInfo::Unknown))
    );
}

#[test]
fn a_missing_current_value_classifies_nothing() {
    assert_eq!(decode_value(Generation::Current, RawValue::Nil), Ok(None));
}

#[test]
fn a_stored_record_reads_in_both_generations() {
    for generation in [Generation::Legacy, Generation::Current] {
        let bytes = OptionalPlayerInfo::Present(full()).encode();
        assert_eq!(
            decode_value(generation, RawValue::Bulk(bytes)),
            Ok(Some(OptionalPlayerInfo::Present(full())))
        );
        assert_eq!(
            decode_value(generation, RawValue::Bulk(b"{\"type\":\"unknown\"}".to_vec())),
            Ok(Some(OptionalPlayerInfo::Unknown))
        );
    }
}

#[test]
fn malformed_bytes_fail_with_the_payload() {
    let payload = RawValue::Bulk(b"garbage".to_vec());
    let expected = DecodeError { kind: DecodeErrorKind::Malformed, payload: payload.clone() };
    assert_eq!(OptionalPlayerInfo::from_redis_value(payload.clone()), Err(expected.clone()));
    assert_eq!(decode_value(Generation::Current, payload), Err(expected));
}

#[test]
fn a_reply_of_another_kind_fails_with_its_description() {
    let payload = RawValue::Other("int(7)".to_string());
    let expected = DecodeError { kind: DecodeErrorKind::UnexpectedType, payload: payload.clone() };
    assert_eq!(OptionalPlayerInfo::from_redis_value(payload.clone()), Err(expected.clone()));
    assert_eq!(decode_value(Generation::Legacy, payload), Err(expected));
}

#[test]
fn options_and_records_convert_both_ways() {
    assert_eq!(OptionalPlayerInfo::from(None), OptionalPlayerInfo::Unknown);
    assert_eq!(OptionalPlayerInfo::from(Some(small())), OptionalPlayerInfo::Present(small()));
    assert_eq!(Option::<PlayerInfo>::from(OptionalPlayerInfo::Unknown), None);
    assert_eq!(Option::<PlayerInfo>::from(OptionalPlayerInfo::Present(full())), Some(full()));
    let through: Option<PlayerInfo> = OptionalPlayerInfo::from(Some(full())).into();
    assert_eq!(through, Some(full()));
}

#[test]
fn looks_up_a_ranking_by_mode() {
    let info = full();
    assert_eq!(info.ranking("axe").map(|r| r.tier), Some(5));
    assert_eq!(info.ranking("sword").map(|r| r.pos), Some(0));
    assert_eq!(info.ranking("mace"), None);
    let mut twice = full();
    let mut again = twice.rankings[0].clone();
    again.ranking.tier = 9;
    twice.rankings.push(again);
    assert_eq!(twice.ranking("sword").map(|r| r.tier), Some(2));
}

#[test]
fn position_zero_is_the_high_half_of_a_tier() {
    let info = full();
    assert!(info.ranking("sword").unwrap().is_high());
    assert!(!info.ranking("axe").unwrap().is_high());
}

#[test]
fn a_stored_profile_lists_its_rankings_by_the_names_of_the_modes() {
    let mut unordered = full();
    unordered.rankings.reverse();
    assert_ne!(unordered, full());
    let bytes = OptionalPlayerInfo::Present(unordered).encode();
    assert_eq!(OptionalPlayerInfo::decode(&bytes), Some(OptionalPlayerInfo::Present(full())));
}

#[test]
fn the_first_member_of_a_name_is_the_member_of_that_name() {
    let members = vec![
        member("a", Json::Number(Some(1))),
        member("b", Json::Bool(true)),
        member("a", Json::Null),
    ];
    assert!(matches!(find_member(&members, "a"), Some(Json::Number(Some(1)))));
    assert!(matches!(find_member(&members, "b"), Some(Json::Bool(true))));
    assert!(find_member(&members, "c").is_none());
    assert!(find_member(&members, "").is_none());
    assert!(find_member(&Vec::new(), "a").is_none());
}

#[test]
fn numbers_beyond_the_range_of_a_field_are_refused() {
    let at = |points: &str| {
        SMALL_TEXT.replace("\"points\":2", &format!("\"points\":{points}"))
    };
    let mut most = small();
    most.points = u64::MAX;
    assert_eq!(decoded(&at("18446744073709551615")), Ok(OptionalPlayerInfo::Present(most)));
    assert!(refused(&at("18446744073709551616")));
    assert!(refused(&at("2.0")));
    assert!(refused(&at("true")));
}

#[test]
fn bytes_that_are_not_utf8_fail_as_such() {
    let payload = RawValue::Bulk(vec![b'{', 0xff, b'}']);
    let expected = DecodeError { kind: DecodeErrorKind::NotUtf8, payload: payload.clone() };
    assert_eq!(OptionalPlayerInfo::from_redis_value(payload.clone()), Err(expected.clone()));
    assert_eq!(decode_value(Generation::Current, payload), Err(expected));
    assert_eq!(OptionalPlayerInfo::read(&[0xc3, 0x28]), Err(DecodeErrorKind::NotUtf8));
    assert_eq!(OptionalPlayerInfo::read(b"[]"), Err(DecodeErrorKind::Malformed));
    assert_eq!(OptionalPlayerInfo::read(b""), Err(DecodeErrorKind::Malformed));
    assert_eq!(
        OptionalPlayerInfo::read(b"{\"type\":\"unknown\"}"),
        Ok(OptionalPlayerInfo::Unknown)
    );
}
