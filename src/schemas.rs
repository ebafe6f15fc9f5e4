//! Records of the rating service's interface that the client exchanges
//! besides subjects and episodes: errors, tags, search requests, index
//! information, and the season records that tie a season to its index.

use vstd::prelude::*;

verus! {

/// The error body the rating service answers with.
#[derive(Clone, Debug, PartialEq, Eq)]
pub struct ErrorDetail {
    pub title: Option<String>,
    pub description: Option<String>,
    pub details: Option<String>,
}

/// A user tag of a subject and how many users applied it.
#[derive(Clone, Debug, PartialEq, Eq)]
pub struct Tag {
    pub name: Option<String>,
    pub count: Option<i32>,
}

/// The filter of a subject search.
#[derive(Clone, Debug, PartialEq, Eq)]
pub struct SearchFilter {
    pub subject_type: Option<Vec<i32>>,
    pub meta_tags: Option<Vec<String>>,
    pub tag: Option<Vec<String>>,
    pub air_date: Option<Vec<String>>,
    pub rating: Option<Vec<String>>,
    pub rank: Option<Vec<String>>,
    pub nsfw: Option<bool>,
}

impl SearchFilter {
    /// A filter that keeps subjects of one type and places no other bound.
    pub fn from_type(subject_type: i32) -> (r: SearchFilter)
        ensures
            r.subject_type matches Some(v) && v@ == seq![subject_type],
            r.meta_tags is None,
            r.tag is None,
            r.air_date is None,
            r.rating is None,
            r.rank is None,
            r.nsfw is None,
    {
        SearchFilter {
            subject_type: Some(vec![subject_type]),
            meta_tags: None,
            tag: None,
            air_date: None,
            rating: None,
            rank: None,
            nsfw: None,
        }
    }
}

/// The sort order of a search that names none.
pub open spec fn default_sort_spec() -> Seq<char> {
    seq!['m', 'a', 't', 'c', 'h']
}

/// The sort order of a search that names none: by match.
pub fn default_sort() -> (r: String)
    ensures
        r@ == default_sort_spec(),
{
    proof {
        reveal_strlit("match");
    }
    String::from_str("match")
}

/// A subject search: keyword, sort order (`match`, `heat`, `rank` or
/// `score`) and an optional filter.
#[derive(Clone, Debug, PartialEq, Eq)]
pub struct SearchRequest {
    pub keyword: String,
    pub sort: String,
    pub filter: Option<SearchFilter>,
}

impl SearchRequest {
    /// A plain keyword search, sorted by match and unfiltered.
    pub fn new(keyword: String) -> (r: SearchRequest)
        ensures
            r.keyword@ == keyword@,
            r.sort@ == default_sort_spec(),
            r.filter is None,
    {
        SearchRequest { keyword, sort: default_sort(), filter: None }
    }

    /// The same search under another sort order.
    pub fn with_sort(self, sort: String) -> (r: SearchRequest)
        ensures
            r.keyword == self.keyword,
            r.sort@ == sort@,
            r.filter == self.filter,
    {
        let mut r = self;
        r.sort = sort;
        r
    }

    /// The same search under a filter.
    pub fn with_filter(self, filter: SearchFilter) -> (r: SearchRequest)
        ensures
            r.keyword == self.keyword,
            r.sort == self.sort,
            r.filter == Some(filter),
    {
        let mut r = self;
        r.filter = Some(filter);
        r
    }
}

/// The comment and collection counts of an index.
#[derive(Clone, Copy, Debug, PartialEq, Eq, Structural)]
pub struct Stat {
    pub comments: i32,
    pub collects: i32,
}

/// The user who created an index.
#[derive(Clone, Debug, PartialEq, Eq)]
pub struct Creator {
    pub username: String,
    pub nickname: String,
}

/// The title and description of an index.
#[derive(Clone, Debug, PartialEq, Eq)]
pub struct IndexBasicInfo {
    pub title: Option<String>,
    pub description: Option<String>,
}

/// A request to add a subject to an index.
#[derive(Clone, Debug, PartialEq, Eq)]
pub struct AddSubjectToIndexRequest {
    pub subject_id: i32,
    pub sort: i32,
    pub comment: String,
}

/// A season to track: its id (year and quarter, as `202504`), year, name
/// of the quarter, the index that lists its lineup, and a display name.
#[derive(Clone, Debug, PartialEq, Eq)]
pub struct CreateSeason {
    pub season_id: i32,
    pub year: i32,
    pub season: String,
    pub bangumi_index_id: i32,
    pub name: Option<String>,
}

/// A change to a tracked season; `None` leaves a field as it is.
#[derive(Clone, Debug, PartialEq, Eq)]
pub struct UpdateSeason {
    pub year: Option<i32>,
    pub season: Option<String>,
    pub bangumi_index_id: Option<i32>,
    pub name: Option<String>,
}

/// A subject's membership in a season's lineup.
#[derive(Clone, Copy, Debug, PartialEq, Eq, Structural)]
pub struct CreateSeasonSubject {
    pub season_id: i32,
    pub subject_id: i32,
}

} // verus!
