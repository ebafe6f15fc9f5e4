use bgm_rank::schemas::{default_sort, SearchFilter, SearchRequest};

#[test]
fn filter_from_type() {
    let f = SearchFilter::from_type(2);
    assert_eq!(f.subject_type, Some(vec![2]));
    assert_eq!(f.meta_tags, None);
    assert_eq!(f.nsfw, None);
}

#[test]
fn search_request_builders() {
    let r = SearchRequest::new("芙莉莲".to_string());
    assert_eq!(r.keyword, "芙莉莲");
    assert_eq!(r.sort, "match");
    assert_eq!(r.filter, None);
    assert_eq!(default_sort(), "match");
    let r = r.with_sort("rank".to_string()).with_filter(SearchFilter::from_type(2));
    assert_eq!(r.keyword, "芙莉莲");
    assert_eq!(r.sort, "rank");
    assert_eq!(r.filter, Some(SearchFilter::from_type(2)));
}
