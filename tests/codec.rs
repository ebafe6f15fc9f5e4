use bgm_rank::codec::{decode_snapshot, encode_snapshot};
use bgm_rank::metrics::Ratio;
use bgm_rank::refresh::SeasonData;
use bgm_rank::subject::Subject;

fn subject(id: u32, name: &str) -> Subject {
    Subject {
        subject_id: id,
        name: name.to_string(),
        name_cn: "葬送的芙莉莲 第二季".to_string(),
        images_grid: "https://lain.bgm.tv/r/100/pic/cover/l/0b/24/515759_qA1Zc.jpg".to_string(),
        images_large: "https://lain.bgm.tv/pic/cover/l/0b/24/515759_qA1Zc.jpg".to_string(),
        rank: 395,
        score: Ratio { num: 26, den: 3 },
        collection_total: 6781,
        average_comment: Ratio { num: 0, den: 1 },
        drop_rate: Ratio { num: 12, den: 6781 },
        air_weekday: "星期五".to_string(),
        meta_tags: vec!["漫画改".to_string(), "TV".to_string()],
    }
}

#[test]
fn snapshot_round_trip() {
    let data = SeasonData {
        season_id: 202601,
        subjects: vec![subject(515759, "葬送のフリーレン 第2期"), subject(1, "a \"quoted\" \\ name")],
        last_updated: 1_760_000_000,
    };
    let text = encode_snapshot(&data);
    assert_eq!(decode_snapshot(&text), Some(data));
}

#[test]
fn empty_snapshot_round_trip() {
    let data = SeasonData { season_id: 1, subjects: vec![], last_updated: 2 };
    let text = encode_snapshot(&data);
    assert_eq!(text, r#"{"season_id":1,"subjects":[],"last_updated":2}"#);
    assert_eq!(decode_snapshot(&text), Some(data));
}

#[test]
fn snapshot_text_layout() {
    let mut s = subject(7, "x\"y");
    s.meta_tags = vec![];
    let data = SeasonData { season_id: 3, subjects: vec![s], last_updated: 4 };
    let text = encode_snapshot(&data);
    assert!(text.starts_with(r#"{"season_id":3,"subjects":[{"subject_id":7,"name":"x\"y","#));
    assert!(text.contains(r#""score":[26,3],"collection_total":6781,"#));
    assert!(text.ends_with(r#""meta_tags":[]}],"last_updated":4}"#));
}

#[test]
fn malformed_text_is_refused() {
    assert_eq!(decode_snapshot(""), None);
    assert_eq!(decode_snapshot("{}"), None);
    assert_eq!(decode_snapshot(r#"{"season_id":1,"subjects":[],"last_updated":2}x"#), None);
    assert_eq!(decode_snapshot(r#"{"season_id":1,"subjects":[,"last_updated":2}"#), None);
    assert_eq!(decode_snapshot(r#"{"season_id":01,"subjects":[],"last_updated":2}"#), None);
}
