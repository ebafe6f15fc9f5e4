//! Subjects as the rating service describes them, and the per-subject
//! record of derived metrics that a season snapshot holds.

use crate::date::Date;
use crate::metrics::{
    average_comment_spec, collection_total_spec, drop_rate_spec, get_average_comment,
    get_drop_rate, get_score, get_total_collection, score_spec, Collection, Episode, Rating, Ratio,
};
use vstd::prelude::*;

verus! {

broadcast use vstd::std_specs::vec::vec_clone_deep_view_proof;

/// The label of the infobox entry that gives the broadcast weekday.
pub const AIR_WEEKDAY_LABEL: &'static str = "放送星期";

/// The image URLs of a subject, one per size.
#[derive(Clone, Debug, PartialEq, Eq)]
pub struct Images {
    pub large: String,
    pub common: String,
    pub medium: String,
    pub small: String,
    pub grid: String,
}

/// One key/value fact of a subject's infobox; `value` holds the text where
/// the fact's value is a plain string, and is `None` otherwise.
#[derive(Clone, Debug, PartialEq, Eq)]
pub struct InfoboxItem {
    pub key: String,
    pub value: Option<String>,
}

/// A subject's detail as fetched from the rating service.
#[derive(Clone, Debug, PartialEq, Eq)]
pub struct RawSubject {
    pub id: u32,
    pub name: String,
    pub name_cn: String,
    pub images: Images,
    pub infobox: Vec<InfoboxItem>,
    pub rating: Rating,
    pub collection: Collection,
    pub meta_tags: Vec<String>,
}

/// The derived metrics of one subject, the unit of a season snapshot.
#[derive(Clone, Debug, PartialEq, Eq)]
pub struct Subject {
    pub subject_id: u32,
    pub name: String,
    pub name_cn: String,
    pub images_grid: String,
    pub images_large: String,
    pub rank: u32,
    pub score: Ratio,
    pub collection_total: u64,
    pub average_comment: Ratio,
    pub drop_rate: Ratio,
    pub air_weekday: String,
    pub meta_tags: Vec<String>,
}

pub open spec fn infobox_text(item: InfoboxItem) -> Seq<char> {
    match item.value {
        Some(v) => v@,
        None => Seq::empty(),
    }
}

/// The text of the first infobox entry keyed by `label`; empty when there
/// is none or its value is not a plain string.
pub open spec fn first_fact(items: Seq<InfoboxItem>, label: Seq<char>) -> Seq<char>
    decreases items.len(),
{
    if items.len() == 0 {
        Seq::empty()
    } else if items[0].key@ == label {
        infobox_text(items[0])
    } else {
        first_fact(items.subrange(1, items.len() as int), label)
    }
}

/// The broadcast weekday that a subject's infobox gives.
pub fn get_air_weekday(infobox: &Vec<InfoboxItem>) -> (r: String)
    ensures
        r@ == first_fact(infobox@, AIR_WEEKDAY_LABEL@),
{
    let label = String::from_str(AIR_WEEKDAY_LABEL);
    let mut i: usize = 0;
    assert(infobox@.subrange(0, infobox@.len() as int) =~= infobox@);
    while i < infobox.len()
        invariant
            i <= infobox@.len(),
            label@ == AIR_WEEKDAY_LABEL@,
            first_fact(infobox@, label@) == first_fact(
                infobox@.subrange(i as int, infobox@.len() as int),
                label@,
            ),
        decreases infobox@.len() - i,
    {
        let item = &infobox[i];
        let ghost rest = infobox@.subrange(i as int, infobox@.len() as int);
        assert(rest[0] == item);
        assert(rest.subrange(1, rest.len() as int) =~= infobox@.subrange(
            i + 1,
            infobox@.len() as int,
        ));
        if item.key == label {
            return match &item.value {
                Some(v) => v.clone(),
                None => String::new(),
            };
        }
        i = i + 1;
    }
    String::new()
}

/// The metrics record that the raw data of one subject and its episodes
/// give on `today`.
pub open spec fn metrics_match(r: Subject, raw: RawSubject, episodes: Seq<Episode>, today: Date) -> bool {
    &&& r.subject_id == raw.id
    &&& r.name@ == raw.name@
    &&& r.name_cn@ == raw.name_cn@
    &&& r.images_grid@ == raw.images.grid@
    &&& r.images_large@ == raw.images.large@
    &&& r.rank == raw.rating.rank
    &&& r.score == score_spec(raw.rating.count@)
    &&& r.collection_total == collection_total_spec(raw.collection)
    &&& r.average_comment == average_comment_spec(episodes, today)
    &&& r.drop_rate == drop_rate_spec(
        raw.collection.dropped as int,
        collection_total_spec(raw.collection),
    )
    &&& r.air_weekday@ == first_fact(raw.infobox@, AIR_WEEKDAY_LABEL@)
    &&& r.meta_tags.deep_view() == raw.meta_tags.deep_view()
}

/// Derives the metrics record of one subject from its detail and the full
/// list of its episodes, counting as aired what aired before `today`.
pub fn subject_metrics(raw: &RawSubject, episodes: &Vec<Episode>, today: Date) -> (r: Subject)
    ensures
        metrics_match(r, *raw, episodes@, today),
{
    let collection_total = get_total_collection(&raw.collection);
    Subject {
        subject_id: raw.id,
        name: raw.name.clone(),
        name_cn: raw.name_cn.clone(),
        images_grid: raw.images.grid.clone(),
        images_large: raw.images.large.clone(),
        rank: raw.rating.rank,
        score: get_score(&raw.rating),
        collection_total,
        average_comment: get_average_comment(episodes, today),
        drop_rate: get_drop_rate(&raw.collection, collection_total),
        air_weekday: get_air_weekday(&raw.infobox),
        meta_tags: raw.meta_tags.clone(),
    }
}

} // verus!
