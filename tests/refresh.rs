use std::collections::HashMap;

use bgm_rank::date::Date;
use bgm_rank::keys::season_key;
use bgm_rank::metrics::{Collection, Episode, Rating, Ratio};
use bgm_rank::refresh::{
    status_error, Event, FetchError, Outcome, RefreshFailure, Request, SeasonData, SeasonRefresh,
    Stage,
};
use bgm_rank::subject::{subject_metrics, Images, InfoboxItem, RawSubject};

fn today() -> Date {
    Date { year: 2025, month: 4, day: 10 }
}

fn raw(id: u32) -> RawSubject {
    RawSubject {
        id,
        name: format!("subject {}", id),
        name_cn: format!("条目 {}", id),
        images: Images {
            large: format!("https://example.org/l/{}.jpg", id),
            common: String::new(),
            medium: String::new(),
            small: String::new(),
            grid: format!("https://example.org/g/{}.jpg", id),
        },
        infobox: vec![InfoboxItem {
            key: "放送星期".to_string(),
            value: Some("星期五".to_string()),
        }],
        rating: Rating { rank: id, count: vec![(7, 3), (9, 1)] },
        collection: Collection { wish: 4, collect: 3, doing: 2, on_hold: 1, dropped: 2 },
        meta_tags: vec!["TV".to_string()],
    }
}

fn episodes() -> Vec<Episode> {
    vec![
        Episode { id: 1, episode_type: 0, airdate: "2025-04-01".to_string(), comment: 12 },
        Episode { id: 2, episode_type: 0, airdate: "2025-04-20".to_string(), comment: 99 },
    ]
}

/// Applies an outcome to a cache of stored snapshot texts, as the caller does.
fn apply(cache: &mut HashMap<String, SeasonData>, outcome: &Outcome) {
    if let Outcome::Store(snapshot) = outcome {
        cache.insert(season_key(snapshot.season_id), snapshot.clone());
    }
}

/// Feeds the index listing `[11, 22]` to a fresh refresh of season 202504.
fn listed() -> SeasonRefresh {
    let mut r = SeasonRefresh::new(202504, 74306, today(), 1_700_000_000);
    assert_eq!(
        r.next_request(),
        Some(Request::IndexPage { index_id: 74306, subject_type: 2, limit: 50, offset: 0 })
    );
    let out = r.handle(Event::IndexPage { total: 2, subject_ids: vec![11, 22] });
    assert!(matches!(out, Outcome::Continue));
    r
}

#[test]
fn refresh_stores_every_subject() {
    let mut r = listed();
    let mut last = Outcome::Continue;
    for id in [11u32, 22] {
        assert_eq!(r.next_request(), Some(Request::SubjectDetail { subject_id: id }));
        assert!(matches!(r.handle(Event::SubjectDetail(raw(id))), Outcome::Continue));
        assert_eq!(
            r.next_request(),
            Some(Request::EpisodePage { subject_id: id, episode_type: 0, limit: 100, offset: 0 })
        );
        last = r.handle(Event::EpisodePage { total: 2, episodes: episodes() });
    }
    match last {
        Outcome::Store(snapshot) => {
            assert_eq!(snapshot.season_id, 202504);
            assert_eq!(snapshot.last_updated, 1_700_000_000);
            assert_eq!(snapshot.subjects.len(), 2);
            assert_eq!(snapshot.subjects[0], subject_metrics(&raw(11), &episodes(), today()));
            assert_eq!(snapshot.subjects[1].subject_id, 22);
            assert_eq!(snapshot.subjects[1].score, Ratio { num: 30, den: 4 });
            assert_eq!(snapshot.subjects[1].collection_total, 12);
            assert_eq!(snapshot.subjects[1].drop_rate, Ratio { num: 2, den: 12 });
            assert_eq!(snapshot.subjects[1].average_comment, Ratio { num: 12, den: 1 });
            assert_eq!(snapshot.subjects[1].air_weekday, "星期五");
        }
        other => panic!("expected a snapshot, got {:?}", other),
    }
    assert_eq!(r.stage(), Stage::Done);
    assert_eq!(r.next_request(), None);
}

#[test]
fn failed_subject_leaves_cache_unchanged() {
    let mut cache: HashMap<String, SeasonData> = HashMap::new();
    let previous = SeasonData { season_id: 202504, subjects: vec![], last_updated: 5 };
    cache.insert(season_key(202504), previous.clone());

    let mut r = listed();
    let mut outcomes = Vec::new();
    outcomes.push(r.handle(Event::SubjectDetail(raw(11))));
    outcomes.push(r.handle(Event::EpisodePage { total: 2, episodes: episodes() }));
    assert_eq!(r.next_request(), Some(Request::SubjectDetail { subject_id: 22 }));
    let failed = r.handle(Event::Failed(FetchError::Upstream));
    match &failed {
        Outcome::Abort(f) => assert_eq!(
            *f,
            RefreshFailure { season_id: 202504, subject_id: Some(22), cause: FetchError::Upstream }
        ),
        other => panic!("expected an abort, got {:?}", other),
    }
    outcomes.push(failed);
    outcomes.push(r.handle(Event::SubjectDetail(raw(22))));
    outcomes.push(r.handle(Event::EpisodePage { total: 2, episodes: episodes() }));
    assert!(matches!(outcomes[3], Outcome::Ignored));
    assert!(matches!(outcomes[4], Outcome::Ignored));
    for o in &outcomes {
        apply(&mut cache, o);
    }
    assert_eq!(cache.len(), 1);
    assert_eq!(cache.get(&season_key(202504)), Some(&previous));
    assert_eq!(r.stage(), Stage::Aborted);
    assert_eq!(r.next_request(), None);
}

#[test]
fn failed_listing_aborts_without_subject() {
    let mut r = SeasonRefresh::new(202501, 67220, today(), 1);
    match r.handle(Event::Failed(FetchError::Decode)) {
        Outcome::Abort(f) => {
            assert_eq!(f.subject_id, None);
            assert_eq!(f.cause, FetchError::Decode);
        }
        other => panic!("expected an abort, got {:?}", other),
    }
}

#[test]
fn empty_index_stores_empty_snapshot() {
    let mut r = SeasonRefresh::new(202501, 67220, today(), 9);
    match r.handle(Event::IndexPage { total: 0, subject_ids: vec![] }) {
        Outcome::Store(s) => {
            assert_eq!(s, SeasonData { season_id: 202501, subjects: vec![], last_updated: 9 })
        }
        other => panic!("expected a snapshot, got {:?}", other),
    }
}

#[test]
fn stalled_index_aborts() {
    let mut r = SeasonRefresh::new(202501, 67220, today(), 9);
    match r.handle(Event::IndexPage { total: 10, subject_ids: vec![] }) {
        Outcome::Abort(f) => assert_eq!(f.cause, FetchError::StalledPagination),
        other => panic!("expected an abort, got {:?}", other),
    }
}

#[test]
fn index_pages_follow_offsets() {
    let mut r = SeasonRefresh::new(202501, 67220, today(), 9);
    let first: Vec<u32> = (1..=50).collect();
    assert!(matches!(r.handle(Event::IndexPage { total: 60, subject_ids: first }), Outcome::Continue));
    assert_eq!(
        r.next_request(),
        Some(Request::IndexPage { index_id: 67220, subject_type: 2, limit: 50, offset: 50 })
    );
    let second: Vec<u32> = (51..=60).collect();
    assert!(matches!(r.handle(Event::IndexPage { total: 60, subject_ids: second }), Outcome::Continue));
    assert_eq!(r.next_request(), Some(Request::SubjectDetail { subject_id: 1 }));
    assert!(matches!(
        r.handle(Event::EpisodePage { total: 0, episodes: vec![] }),
        Outcome::Ignored
    ));
}

#[test]
fn http_status_meanings() {
    let detail = Request::SubjectDetail { subject_id: 1 };
    let page = Request::IndexPage { index_id: 1, subject_type: 2, limit: 50, offset: 0 };
    assert_eq!(status_error(&detail, 200), None);
    assert_eq!(status_error(&page, 204), None);
    assert_eq!(status_error(&detail, 404), Some(FetchError::NotFound));
    assert_eq!(status_error(&page, 404), Some(FetchError::Upstream));
    assert_eq!(status_error(&detail, 500), Some(FetchError::Upstream));
    assert_eq!(status_error(&page, 302), Some(FetchError::Upstream));
}
