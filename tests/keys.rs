use bgm_rank::keys::{available_seasons, parse_season_key, season_key};

fn keys(list: &[&str]) -> Vec<String> {
    list.iter().map(|s| s.to_string()).collect()
}

#[test]
fn season_key_format() {
    assert_eq!(season_key(202501), "season:202501");
    assert_eq!(season_key(0), "season:0");
    assert_eq!(season_key(u32::MAX), "season:4294967295");
}

#[test]
fn season_key_parsing() {
    assert_eq!(parse_season_key("season:202504"), Some(202504));
    assert_eq!(parse_season_key("season:4294967295"), Some(u32::MAX));
    assert_eq!(parse_season_key("season:4294967296"), None);
    assert_eq!(parse_season_key("season:"), None);
    assert_eq!(parse_season_key("season:12a"), None);
    assert_eq!(parse_season_key("seasons:12"), None);
    assert_eq!(parse_season_key("other:1"), None);
    assert_eq!(parse_season_key(&season_key(202510)), Some(202510));
}

#[test]
fn list_seasons_descending() {
    let r = available_seasons(&keys(&["season:202501", "season:202510", "season:202504"]));
    assert_eq!(r, vec![202510, 202504, 202501]);
}

#[test]
fn list_seasons_skips_foreign_keys_and_repeats() {
    let r = available_seasons(&keys(&["season:7", "foo", "season:7", "season:12", "season:x"]));
    assert_eq!(r, vec![12, 7]);
    assert!(available_seasons(&vec![]).is_empty());
}
