use api_rs::config::{default_addr, default_metrics_addr};
use api_rs::model::{
    total_downloads, ModrinthProject, PlayerInfo, ShieldsBadge, TierList, TieredPlayerInfo,
};

fn player(name: &str, region: &str, points: u64) -> PlayerInfo {
    PlayerInfo { name: name.to_string(), region: region.to_string(), points }
}

fn entry(key: &str, low: u8) -> (String, u8) {
    (key.to_string(), low)
}

fn flag(key: &str, high: bool) -> (String, bool) {
    (key.to_string(), high)
}

fn list() -> TierList {
    TierList {
        rankings: vec![
            vec![entry("a", 0), entry("b", 1)],
            vec![],
            vec![entry("c", 0), entry("ghost", 0), entry("d", 2)],
        ],
        players: vec![
            ("d".to_string(), player("Dora", "EU", 4)),
            ("a".to_string(), player("Ann", "NA", 40)),
            ("b".to_string(), player("Bob", "AS", 30)),
            ("c".to_string(), player("Cy", "EU", 10)),
            ("unranked".to_string(), player("Una", "EU", 0)),
        ],
    }
}

#[test]
fn position_zero_is_the_high_half() {
    assert_eq!(
        list().get_formatted_rankings(),
        vec![
            vec![flag("a", true), flag("b", false)],
            vec![],
            vec![flag("c", true), flag("ghost", true), flag("d", false)],
        ]
    );
}

#[test]
fn the_last_entry_of_a_key_counts() {
    let tiers = TierList {
        rankings: vec![vec![entry("a", 0), entry("b", 0), entry("a", 1), entry("b", 0)]],
        players: vec![],
    };
    assert_eq!(tiers.get_formatted_rankings(), vec![vec![flag("a", false), flag("b", true)]]);
}

#[test]
fn an_empty_list_formats_to_nothing() {
    let tiers = TierList { rankings: vec![], players: vec![] };
    assert_eq!(tiers.get_formatted_rankings(), Vec::<Vec<(String, bool)>>::new());
    assert_eq!(tiers.into_tiered_info(), vec![]);
}

#[test]
fn tiers_count_from_one_and_unknown_keys_are_passed_over() {
    let tiered = list().into_tiered_info();
    let item = |name: &str, region: &str, points: u64, tier: u8, high: bool| TieredPlayerInfo {
        name: name.to_string(),
        region: region.to_string(),
        points,
        tier,
        high,
    };
    assert_eq!(
        tiered,
        vec![
            item("Ann", "NA", 40, 1, true),
            item("Bob", "AS", 30, 1, false),
            item("Cy", "EU", 10, 3, true),
            item("Dora", "EU", 4, 3, false),
        ]
    );
}

#[test]
fn a_player_may_stand_in_several_tiers() {
    let tiers = TierList {
        rankings: vec![vec![entry("a", 1)], vec![entry("a", 0)]],
        players: vec![("a".to_string(), player("Ann", "NA", 1))],
    };
    let tiered = tiers.into_tiered_info();
    assert_eq!(tiered.len(), 2);
    assert_eq!((tiered[0].tier, tiered[0].high), (1, false));
    assert_eq!((tiered[1].tier, tiered[1].high), (2, true));
}

#[test]
fn the_first_pair_of_a_key_is_the_player() {
    let tiers = TierList {
        rankings: vec![vec![entry("a", 0)]],
        players: vec![
            ("a".to_string(), player("first", "EU", 1)),
            ("a".to_string(), player("second", "EU", 2)),
        ],
    };
    assert_eq!(tiers.player(&"a".to_string()), Some(0));
    assert_eq!(tiers.player(&"b".to_string()), None);
    assert_eq!(tiers.into_tiered_info()[0].name, "first");
}

#[test]
fn the_tier_number_is_kept_as_far_as_a_byte_holds_it() {
    let mut rankings = vec![vec![]; 300];
    rankings[254] = vec![entry("a", 0)];
    rankings[255] = vec![entry("a", 0)];
    rankings[256] = vec![entry("a", 0)];
    let tiers = TierList { rankings, players: vec![("a".to_string(), player("Ann", "NA", 1))] };
    let numbers: Vec<u8> = tiers.into_tiered_info().iter().map(|t| t.tier).collect();
    assert_eq!(numbers, vec![255, 0, 1]);
}

#[test]
fn downloads_add_up() {
    let project = |downloads: usize| ModrinthProject { slug: "mod".to_string(), downloads };
    assert_eq!(total_downloads(&vec![]), Some(0));
    assert_eq!(total_downloads(&vec![project(5)]), Some(5));
    assert_eq!(total_downloads(&vec![project(5), project(0), project(1_000_000)]), Some(1_000_005));
    assert_eq!(total_downloads(&vec![project(usize::MAX - 1), project(1)]), Some(usize::MAX));
    assert_eq!(total_downloads(&vec![project(usize::MAX), project(1)]), None);
    assert_eq!(total_downloads(&vec![project(1), project(usize::MAX), project(0)]), None);
}

#[test]
fn the_downloads_badge_is_green_and_labelled() {
    assert_eq!(
        ShieldsBadge::downloads("1.2k".to_string()),
        ShieldsBadge {
            schema_version: 1,
            label: "downloads".to_string(),
            message: "1.2k".to_string(),
            color: "brightgreen".to_string(),
            named_logo: "modrinth".to_string(),
        }
    );
}

#[test]
fn the_service_listens_on_port_5000_and_metrics_on_5001() {
    assert_eq!(default_addr(), "0.0.0.0:5000");
    assert_eq!(default_metrics_addr(), "127.0.0.1:5001");
}
