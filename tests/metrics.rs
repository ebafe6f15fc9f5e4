use bgm_rank::date::{has_aired, is_before, Date};
use bgm_rank::metrics::{
    get_average_comment, get_drop_rate, get_score, get_total_collection, Collection, Episode,
    Rating, Ratio,
};
use bgm_rank::subject::{get_air_weekday, InfoboxItem};

fn today() -> Date {
    Date { year: 2025, month: 4, day: 10 }
}

fn episode(id: u32, airdate: &str, comment: u32) -> Episode {
    Episode { id, episode_type: 0, airdate: airdate.to_string(), comment }
}

fn item(key: &str, value: Option<&str>) -> InfoboxItem {
    InfoboxItem { key: key.to_string(), value: value.map(|v| v.to_string()) }
}

#[test]
fn score_is_zero_without_raters() {
    let none = Rating { rank: 3, count: vec![] };
    assert_eq!(get_score(&none), Ratio { num: 0, den: 1 });
    let zeros = Rating { rank: 3, count: vec![(1, 0), (7, 0), (10, 0)] };
    assert_eq!(get_score(&zeros), Ratio { num: 0, den: 1 });
}

#[test]
fn score_is_weighted_mean() {
    let rating = Rating { rank: 12, count: vec![(8, 2), (10, 1), (3, 0)] };
    assert_eq!(get_score(&rating), Ratio { num: 26, den: 3 });
}

#[test]
fn score_of_large_counts() {
    let rating = Rating { rank: 1, count: vec![(10, u32::MAX), (9, u32::MAX)] };
    let r = get_score(&rating);
    assert_eq!(r.num, 19 * u32::MAX as u128);
    assert_eq!(r.den, 2 * u32::MAX as u128);
}

#[test]
fn collection_total_sums_five_buckets() {
    let c = Collection { wish: 10, collect: 20, doing: 5, on_hold: 3, dropped: 2 };
    assert_eq!(get_total_collection(&c), 40);
    let full = Collection {
        wish: u32::MAX,
        collect: u32::MAX,
        doing: u32::MAX,
        on_hold: u32::MAX,
        dropped: u32::MAX,
    };
    assert_eq!(get_total_collection(&full), 5 * u32::MAX as u64);
}

#[test]
fn drop_rate_within_unit_interval() {
    let c = Collection { wish: 10, collect: 20, doing: 5, on_hold: 3, dropped: 2 };
    let total = get_total_collection(&c);
    let r = get_drop_rate(&c, total);
    assert_eq!(r, Ratio { num: 2, den: 40 });
    assert!(r.num <= r.den);
}

#[test]
fn drop_rate_zero_when_nobody_collected() {
    let c = Collection { wish: 0, collect: 0, doing: 0, on_hold: 0, dropped: 0 };
    assert_eq!(get_drop_rate(&c, get_total_collection(&c)), Ratio { num: 0, den: 1 });
}

#[test]
fn average_comment_counts_only_aired_episodes() {
    let eps = vec![
        episode(1, "2025-04-01", 10),
        episode(2, "2025-04-08", 20),
        episode(3, "2025-04-10", 30),
        episode(4, "2025-04-17", 40),
        episode(5, "", 50),
        episode(6, "TBA", 60),
        episode(7, "2025-02-30", 70),
    ];
    let r = get_average_comment(&eps, today());
    assert_eq!(r, Ratio { num: 30, den: 2 });
    assert_eq!(get_average_comment(&eps, today()), r);
}

#[test]
fn average_comment_zero_when_nothing_aired() {
    let eps = vec![episode(1, "", 5), episode(2, "2030-01-01", 9)];
    assert_eq!(get_average_comment(&eps, today()), Ratio { num: 0, den: 1 });
    assert_eq!(get_average_comment(&vec![], today()), Ratio { num: 0, den: 1 });
}

#[test]
fn air_dates_are_read_as_dates() {
    assert!(has_aired("2025-04-09", today()));
    assert!(has_aired("2024-12-31", today()));
    assert!(!has_aired("2025-04-10", today()));
    assert!(!has_aired("2025-05-01", today()));
    assert!(!has_aired("", today()));
    assert!(!has_aired("not a date", today()));
}

#[test]
fn date_order_is_chronological() {
    let a = Date { year: 2024, month: 12, day: 31 };
    let b = Date { year: 2025, month: 1, day: 1 };
    assert!(is_before(&a, &b));
    assert!(!is_before(&b, &a));
    assert!(!is_before(&a, &a));
}

#[test]
fn air_weekday_is_first_matching_fact() {
    let infobox = vec![
        item("中文名", Some("葬送的芙莉莲")),
        item("放送星期", Some("星期五")),
        item("放送星期", Some("星期六")),
    ];
    assert_eq!(get_air_weekday(&infobox), "星期五");
}

#[test]
fn air_weekday_empty_when_absent_or_not_text() {
    assert_eq!(get_air_weekday(&vec![item("中文名", Some("x"))]), "");
    assert_eq!(get_air_weekday(&vec![item("放送星期", None), item("放送星期", Some("星期一"))]), "");
    assert_eq!(get_air_weekday(&vec![]), "");
}
