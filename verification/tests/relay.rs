use api_rs::metrics::{contains_word, path_label};
use api_rs::twitter::{
    announcement, attachments, decimal, found_links, join_spaced, numbered_link, numbered_links,
    resolved_urls, tco_urls, TCO_EXPRESSION,
};

fn strings(items: &[&str]) -> Vec<String> {
    items.iter().map(|s| s.to_string()).collect()
}

#[test]
fn numbers_print_in_decimal() {
    assert_eq!(decimal(0), "0");
    assert_eq!(decimal(7), "7");
    assert_eq!(decimal(10), "10");
    assert_eq!(decimal(1234567890), "1234567890");
    assert_eq!(decimal(100), "100");
    assert_eq!(decimal(usize::MAX), usize::MAX.to_string());
}

#[test]
fn a_link_shows_its_number() {
    assert_eq!(numbered_link(1, "https://example.org/a"), "[1](https://example.org/a)");
    assert_eq!(numbered_link(12, ""), "[12]()");
}

#[test]
fn parts_are_joined_by_single_spaces() {
    assert_eq!(join_spaced(&strings(&[])), "");
    assert_eq!(join_spaced(&strings(&["a"])), "a");
    assert_eq!(join_spaced(&strings(&["a", "b", "c"])), "a b c");
    assert_eq!(join_spaced(&strings(&["", ""])), " ");
}

#[test]
fn a_link_without_a_target_leaves_a_gap_in_the_numbers() {
    let targets = vec![Some("x".to_string()), None, Some("y".to_string()), None];
    assert_eq!(numbered_links(&targets), strings(&["[1](x)", "[3](y)"]));
    assert_eq!(resolved_urls(&targets), " (urls: [1](x) [3](y))");
}

#[test]
fn no_resolved_link_no_suffix() {
    assert_eq!(resolved_urls(&vec![]), "");
    assert_eq!(resolved_urls(&vec![None, None]), "");
    assert_eq!(resolved_urls(&vec![None, Some("z".to_string())]), " (urls: [2](z))");
}

#[test]
fn attachments_are_listed_behind_their_heading() {
    assert_eq!(attachments(strings(&["u1"])), "attachments: [1](u1)");
    assert_eq!(attachments(strings(&["u1", "u2", "u3"])), "attachments: [1](u1) [2](u2) [3](u3)");
    assert_eq!(attachments(vec![]), "attachments: ");
}

#[test]
fn a_tweet_is_announced_with_author_and_url() {
    assert_eq!(
        announcement("someone", "https://x.com/someone/status/1"),
        "New tweet by someone: https://x.com/someone/status/1"
    );
    assert_eq!(announcement("", ""), "New tweet by : ");
}

#[test]
fn shortened_links_are_found_in_order() {
    assert_eq!(tco_urls("nothing here"), Vec::<String>::new());
    assert_eq!(
        tco_urls("look https://t.co/abc123 and https://t.co/XYZ, also http://t.co/no"),
        strings(&["https://t.co/abc123", "https://t.co/XYZ,"])
    );
    assert_eq!(tco_urls("https://t.co/ alone"), Vec::<String>::new());
    assert_eq!(tco_urls("https://tXco/abc"), Vec::<String>::new());
    assert_eq!(tco_urls("a\nhttps://t.co/q\tb"), strings(&["https://t.co/q"]));
}

#[test]
fn found_links_are_not_the_text_as_it_came() {
    assert_eq!(tco_urls("https://t.co/a b"), strings(&["https://t.co/a"]));
}

#[test]
fn words_are_found_anywhere_in_a_text() {
    assert!(contains_word("/tiers/profile/abc", "profile"));
    assert!(contains_word("profile", "profile"));
    assert!(contains_word("xprofile", "profile"));
    assert!(contains_word("anything", ""));
    assert!(contains_word("", ""));
    assert!(!contains_word("/tiers/profil", "profile"));
    assert!(!contains_word("", "profile"));
    assert!(!contains_word("pro/file", "profile"));
    assert!(contains_word("/späße/profile", "profile"));
}

#[test]
fn profile_requests_are_counted_together() {
    assert_eq!(
        path_label("/tiers/profile/550e8400-e29b-41d4-a716-446655440000"),
        "/tiers/profile"
    );
    assert_eq!(path_label("/tiers/search_profile/steve"), "/tiers/search_profile");
    assert_eq!(path_label("/tiers/profile/"), "/tiers/profile");
    assert_eq!(path_label("/profile"), "");
}

#[test]
fn other_requests_are_counted_by_their_path() {
    assert_eq!(path_label("/tiers/all"), "/tiers/all");
    assert_eq!(path_label("/downloads/someone/shields"), "/downloads/someone/shields");
    assert_eq!(path_label(""), "");
    assert_eq!(path_label("profile"), "profile");
}

#[test]
fn the_expression_for_shortened_links_is_the_address_and_what_follows() {
    assert_eq!(TCO_EXPRESSION, r"https://t\.co/\S+");
}

#[test]
fn a_search_that_could_not_be_made_finds_no_links() {
    assert_eq!(found_links(None), Vec::<String>::new());
    assert_eq!(found_links(Some(vec![])), Vec::<String>::new());
    assert_eq!(
        found_links(Some(strings(&["https://t.co/a", "https://t.co/b"]))),
        strings(&["https://t.co/a", "https://t.co/b"])
    );
}
