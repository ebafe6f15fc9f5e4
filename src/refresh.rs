//! The season refresh: lists a season's subjects, fetches and aggregates
//! each of them, and hands over one complete snapshot to store, or none.
//!
//! The refresh decides and the caller acts: the caller performs the
//! request that `next_request` names, reports what came back through
//! `handle`, and stores the snapshot when `handle` says so.

use crate::date::Date;
use crate::metrics::Episode;
use crate::pagination::{PageWalker, WalkView};
use crate::subject::{metrics_match, subject_metrics, RawSubject, Subject};
use vstd::prelude::*;

verus! {

/// How many subjects one page of a season's index is asked for.
pub const INDEX_PAGE_LIMIT: u32 = 50;

/// How many episodes one page of a subject's episode list is asked for.
pub const EPISODE_PAGE_LIMIT: u32 = 100;

/// The subject type of anime, to which index listings are restricted.
pub const ANIME_SUBJECT_TYPE: u32 = 2;

/// The episode type of main-story episodes.
pub const MAIN_EPISODE_TYPE: u32 = 0;

/// The snapshot of one season: its subjects' metrics, in the order in which
/// the season's index lists them, and when it was made.
#[derive(Clone, Debug, PartialEq, Eq)]
pub struct SeasonData {
    pub season_id: u32,
    pub subjects: Vec<Subject>,
    pub last_updated: u64,
}

/// Why a fetch or a store failed.
#[derive(Clone, Copy, Debug, PartialEq, Eq, Structural)]
pub enum FetchError {
    /// The rating service answered with a non-success status.
    Upstream,
    /// The rating service's answer could not be decoded.
    Decode,
    /// The subject does not exist.
    NotFound,
    /// The chain of subject redirects exceeded its bound.
    TooManyRedirects,
    /// A page brought no items before the listing's total was reached.
    StalledPagination,
    /// The snapshot cache could not be read or written.
    Cache,
}

/// A failed refresh: the season, the subject being fetched if any, and
/// the cause.
#[derive(Clone, Copy, Debug, PartialEq, Eq, Structural)]
pub struct RefreshFailure {
    pub season_id: u32,
    pub subject_id: Option<u32>,
    pub cause: FetchError,
}

/// A request to the rating service that the refresh needs answered.
#[derive(Clone, Copy, Debug, PartialEq, Eq, Structural)]
pub enum Request {
    /// One page of the subjects of an index.
    IndexPage { index_id: u32, subject_type: u32, limit: u32, offset: u64 },
    /// The detail of one subject.
    SubjectDetail { subject_id: u32 },
    /// One page of the episodes of a subject.
    EpisodePage { subject_id: u32, episode_type: u32, limit: u32, offset: u64 },
}

/// The failure that an HTTP status of the rating service's answer to
/// `request` means, or `None` for a success (2xx). A 404 on a subject lookup
/// means the subject is gone; any other failing status is an upstream error.
pub fn status_error(request: &Request, status: u16) -> (r: Option<FetchError>)
    ensures
        r == (if 200 <= status < 300 {
            None
        } else if status == 404 && request is SubjectDetail {
            Some(FetchError::NotFound)
        } else {
            Some(FetchError::Upstream)
        }),
{
    if 200 <= status && status < 300 {
        None
    } else if status == 404 && matches!(request, Request::SubjectDetail { .. }) {
        Some(FetchError::NotFound)
    } else {
        Some(FetchError::Upstream)
    }
}

/// What came back for the request last named.
#[derive(Debug)]
pub enum Event {
    IndexPage { total: u64, subject_ids: Vec<u32> },
    SubjectDetail(RawSubject),
    EpisodePage { total: u64, episodes: Vec<Episode> },
    Failed(FetchError),
}

/// What the caller does after an event.
#[derive(Debug)]
pub enum Outcome {
    /// Perform the next request.
    Continue,
    /// The event did not answer the pending request and was dropped.
    Ignored,
    /// The refresh is complete: store this snapshot under the season's key.
    Store(SeasonData),
    /// The refresh failed; nothing is to be stored.
    Abort(RefreshFailure),
}

/// Where a refresh stands.
#[derive(Clone, Copy, Debug, PartialEq, Eq, Structural)]
pub enum Stage {
    /// Walking the season's index for subject ids.
    Listing,
    /// Fetching and aggregating the subjects one by one.
    Fetching,
    /// The snapshot was handed over.
    Done,
    /// A failure ended the refresh.
    Aborted,
}

/// The refresh of one season, as a state machine driven by fetch results.
pub struct SeasonRefresh {
    season_id: u32,
    index_id: u32,
    today: Date,
    updated_at: u64,
    stage: Stage,
    ids: PageWalker<u32>,
    subject_ids: Vec<u32>,
    next: usize,
    current: Option<RawSubject>,
    episodes: PageWalker<Episode>,
    subjects: Vec<Subject>,
    sources: Ghost<Seq<(RawSubject, Seq<Episode>)>>,
}

/// What a refresh holds: its season, index, reference day and time of
/// making, its stage, the walk over the index, the subject ids listed, the
/// position of the subject being fetched, its detail once fetched, the walk
/// over its episodes, and the subjects aggregated so far.
pub struct RefreshView {
    pub season_id: u32,
    pub index_id: u32,
    pub today: Date,
    pub updated_at: u64,
    pub stage: Stage,
    pub ids: WalkView<u32>,
    pub subject_ids: Seq<u32>,
    pub next: nat,
    pub current: Option<RawSubject>,
    pub episodes: WalkView<Episode>,
    pub subjects: Seq<Subject>,
    /// The detail and full episode list from which each subject of
    /// `subjects` was derived, in the same order.
    pub sources: Seq<(RawSubject, Seq<Episode>)>,
}

impl RefreshView {
    pub open spec fn finished(self) -> bool {
        self.stage == Stage::Done || self.stage == Stage::Aborted
    }

    /// The subject being fetched, while subjects are fetched.
    pub open spec fn current_subject(self) -> Option<u32> {
        if self.stage == Stage::Fetching {
            Some(self.subject_ids[self.next as int])
        } else {
            None
        }
    }

    /// Each subject gathered so far is the metrics of its source.
    pub open spec fn derived(self) -> bool {
        &&& self.subjects.len() == self.sources.len()
        &&& forall|i: int|
            0 <= i < self.subjects.len() ==> metrics_match(
                #[trigger] self.subjects[i],
                self.sources[i].0,
                self.sources[i].1,
                self.today,
            )
    }
}

/// The contract of one `handle` step, from the state before, the event,
/// the state after and the outcome.
pub open spec fn handle_post(s: RefreshView, event: Event, t: RefreshView, out: Outcome) -> bool {
    &&& s.finished() ==> t == s && out is Ignored
    &&& !s.finished() && event is Failed ==> {
        &&& t.stage == Stage::Aborted
        &&& out == Outcome::Abort(
            RefreshFailure {
                season_id: s.season_id,
                subject_id: s.current_subject(),
                cause: event->Failed_0,
            },
        )
    }
    &&& out is Store ==> !s.finished() && t.stage == Stage::Done
    &&& t.stage == Stage::Done && !s.finished() ==> out is Store
    &&& t.season_id == s.season_id
    &&& t.today == s.today
    &&& out matches Outcome::Store(snap) ==> {
        &&& snap.season_id == s.season_id
        &&& snap.last_updated == s.updated_at
        &&& snap.subjects@.len() == t.subject_ids.len()
        &&& snap.subjects@.len() == t.sources.len()
        &&& forall|i: int|
            0 <= i < snap.subjects@.len() ==> metrics_match(
                #[trigger] snap.subjects@[i],
                t.sources[i].0,
                t.sources[i].1,
                s.today,
            )
    }
}

impl SeasonRefresh {
    pub closed spec fn view(&self) -> RefreshView {
        RefreshView {
            season_id: self.season_id,
            index_id: self.index_id,
            today: self.today,
            updated_at: self.updated_at,
            stage: self.stage,
            ids: self.ids.view(),
            subject_ids: self.subject_ids@,
            next: self.next as nat,
            current: self.current,
            episodes: self.episodes.view(),
            subjects: self.subjects@,
            sources: self.sources@,
        }
    }

    pub closed spec fn wf(&self) -> bool {
        &&& self.ids.wf()
        &&& self.episodes.wf()
        &&& self.ids.view().limit == INDEX_PAGE_LIMIT
        &&& self.episodes.view().limit == EPISODE_PAGE_LIMIT
        &&& self.stage == Stage::Listing ==> {
            &&& !self.ids.view().done
            &&& self.next == 0
            &&& self.subjects@.len() == 0
            &&& self.sources@.len() == 0
            &&& self.current is None
        }
        &&& self.stage == Stage::Fetching ==> {
            &&& self.next < self.subject_ids@.len()
            &&& self.subjects@.len() == self.next
            &&& self.view().derived()
            &&& self.current is Some ==> !self.episodes.view().done
        }
    }

    /// A refresh of `season_id`, whose subjects the index `index_id` lists.
    /// Episodes count as aired when they aired before `today`; the snapshot
    /// carries `updated_at` as its time of making.
    pub fn new(season_id: u32, index_id: u32, today: Date, updated_at: u64) -> (r: SeasonRefresh)
        ensures
            r.wf(),
            r.view().season_id == season_id,
            r.view().index_id == index_id,
            r.view().today == today,
            r.view().updated_at == updated_at,
            r.view().stage == Stage::Listing,
            r.view().ids == WalkView::<u32>::start(INDEX_PAGE_LIMIT as nat),
    {
        SeasonRefresh {
            season_id,
            index_id,
            today,
            updated_at,
            stage: Stage::Listing,
            ids: PageWalker::new(INDEX_PAGE_LIMIT),
            subject_ids: Vec::new(),
            next: 0,
            current: None,
            episodes: PageWalker::new(EPISODE_PAGE_LIMIT),
            subjects: Vec::new(),
            sources: Ghost(Seq::empty()),
        }
    }

    /// Takes in what came back for the pending request and says what the
    /// caller does next. A failure ends the refresh with nothing to store;
    /// the snapshot is handed over only once every subject of the season
    /// has been fetched and aggregated.
    pub fn handle(&mut self, event: Event) -> (r: Outcome)
        requires
            old(self).wf(),
        ensures
            final(self).wf(),
            handle_post(old(self).view(), event, final(self).view(), r),
            old(self).view().stage == Stage::Listing ==> match event {
                Event::IndexPage { total, subject_ids } => {
                    let w = old(self).view().ids.absorb(total as nat, subject_ids@);
                    if old(self).view().ids.absorb_error(total as nat, subject_ids@) is Some {
                        final(self).view().stage == Stage::Aborted && r == Outcome::Abort(
                            RefreshFailure {
                                season_id: old(self).view().season_id,
                                subject_id: None,
                                cause: FetchError::StalledPagination,
                            },
                        )
                    } else if !w.done {
                        final(self).view().stage == Stage::Listing && final(self).view().ids == w
                            && r is Continue
                    } else {
                        &&& final(self).view().subject_ids == w.items
                        &&& w.items.len() == 0 ==> final(self).view().stage == Stage::Done
                        &&& w.items.len() > 0 ==> {
                            &&& final(self).view().stage == Stage::Fetching
                            &&& final(self).view().next == 0
                            &&& final(self).view().current is None
                            &&& r is Continue
                        }
                    }
                },
                Event::Failed(_) => true,
                _ => final(self).view() == old(self).view() && r is Ignored,
            },
            old(self).view().stage == Stage::Fetching ==> match event {
                Event::SubjectDetail(raw) => if old(self).view().current is None {
                    &&& final(self).view().stage == Stage::Fetching
                    &&& final(self).view().current == Some(raw)
                    &&& final(self).view().next == old(self).view().next
                    &&& final(self).view().episodes == WalkView::<Episode>::start(
                        EPISODE_PAGE_LIMIT as nat,
                    )
                    &&& r is Continue
                } else {
                    final(self).view() == old(self).view() && r is Ignored
                },
                Event::EpisodePage { total, episodes } => match old(self).view().current {
                    None => final(self).view() == old(self).view() && r is Ignored,
                    Some(raw) => {
                        let w = old(self).view().episodes.absorb(total as nat, episodes@);
                        let n = old(self).view().next;
                        if old(self).view().episodes.absorb_error(
                            total as nat,
                            episodes@,
                        ) is Some {
                            final(self).view().stage == Stage::Aborted && r == Outcome::Abort(
                                RefreshFailure {
                                    season_id: old(self).view().season_id,
                                    subject_id: Some(old(self).view().subject_ids[n as int]),
                                    cause: FetchError::StalledPagination,
                                },
                            )
                        } else if !w.done {
                            &&& final(self).view().stage == Stage::Fetching
                            &&& final(self).view().episodes == w
                            &&& final(self).view().current == Some(raw)
                            &&& final(self).view().next == n
                            &&& r is Continue
                        } else {
                            &&& final(self).view().sources == old(self).view().sources.push(
                                (raw, w.items),
                            )
                            &&& final(self).view().next == n + 1
                            &&& n + 1 == old(self).view().subject_ids.len()
                                ==> final(self).view().stage == Stage::Done
                            &&& n + 1 < old(self).view().subject_ids.len() ==> {
                                &&& final(self).view().stage == Stage::Fetching
                                &&& final(self).view().current is None
                                &&& r is Continue
                            }
                        }
                    },
                },
                Event::Failed(_) => true,
                _ => final(self).view() == old(self).view() && r is Ignored,
            },
    {
        if self.stage == Stage::Done || self.stage == Stage::Aborted {
            return Outcome::Ignored;
        }
        match event {
            Event::Failed(cause) => {
                let subject_id = if self.stage == Stage::Fetching {
                    Some(self.subject_ids[self.next])
                } else {
                    None
                };
                self.stage = Stage::Aborted;
                Outcome::Abort(RefreshFailure { season_id: self.season_id, subject_id, cause })
            },
            Event::IndexPage { total, subject_ids } => {
                if self.stage != Stage::Listing {
                    return Outcome::Ignored;
                }
                if self.ids.absorb(total, subject_ids).is_err() {
                    self.stage = Stage::Aborted;
                    return self.stalled(None);
                }
                if !self.ids.is_done() {
                    return Outcome::Continue;
                }
                let mut walker = PageWalker::new(INDEX_PAGE_LIMIT);
                core::mem::swap(&mut self.ids, &mut walker);
                self.subject_ids = walker.into_items();
                if self.subject_ids.len() == 0 {
                    self.finish()
                } else {
                    self.stage = Stage::Fetching;
                    assert(self.wf());
                    Outcome::Continue
                }
            },
            Event::SubjectDetail(raw) => {
                if self.stage != Stage::Fetching || self.current.is_some() {
                    return Outcome::Ignored;
                }
                self.current = Some(raw);
                self.episodes = PageWalker::new(EPISODE_PAGE_LIMIT);
                Outcome::Continue
            },
            Event::EpisodePage { total, episodes } => {
                if self.stage != Stage::Fetching || self.current.is_none() {
                    return Outcome::Ignored;
                }
                let subject_id = self.subject_ids[self.next];
                assert(self.next < self.subject_ids@.len());
                if self.episodes.absorb(total, episodes).is_err() {
                    self.stage = Stage::Aborted;
                    return self.stalled(Some(subject_id));
                }
                if !self.episodes.is_done() {
                    return Outcome::Continue;
                }
                let mut walker = PageWalker::new(EPISODE_PAGE_LIMIT);
                core::mem::swap(&mut self.episodes, &mut walker);
                let all_episodes = walker.into_items();
                let raw = match self.current.take() {
                    Some(raw) => raw,
                    None => {
                        return Outcome::Ignored;
                    },
                };
                let metrics = subject_metrics(&raw, &all_episodes, self.today);
                let count = self.subject_ids.len();
                assert(self.next < count);
                let ghost before = self.view();
                self.subjects.push(metrics);
                self.sources = Ghost(self.sources@.push((raw, all_episodes@)));
                self.next = self.next + 1;
                assert forall|i: int| 0 <= i < self.subjects@.len() implies metrics_match(
                    #[trigger] self.subjects@[i],
                    self.sources@[i].0,
                    self.sources@[i].1,
                    self.today,
                ) by {
                    if i < before.subjects.len() {
                        assert(self.subjects@[i] == before.subjects[i]);
                        assert(self.sources@[i] == before.sources[i]);
                    }
                }
                assert(self.view().derived());
                if self.next == count {
                    self.finish()
                } else {
                    assert(self.wf());
                    Outcome::Continue
                }
            },
        }
    }

    fn stalled(&self, subject_id: Option<u32>) -> (r: Outcome)
        ensures
            r == Outcome::Abort(
                RefreshFailure {
                    season_id: self.season_id,
                    subject_id,
                    cause: FetchError::StalledPagination,
                },
            ),
    {
        Outcome::Abort(
            RefreshFailure {
                season_id: self.season_id,
                subject_id,
                cause: FetchError::StalledPagination,
            },
        )
    }

    /// Ends the refresh and hands over the gathered subjects.
    fn finish(&mut self) -> (r: Outcome)
        requires
            old(self).view().derived(),
            old(self).subjects@.len() == old(self).subject_ids@.len(),
        ensures
            final(self).view() == (RefreshView {
                stage: Stage::Done,
                subjects: Seq::empty(),
                ..old(self).view()
            }),
            final(self).ids == old(self).ids,
            final(self).episodes == old(self).episodes,
            r matches Outcome::Store(snap) && snap.season_id == old(self).season_id
                && snap.last_updated == old(self).updated_at && snap.subjects@ == old(self).subjects@,
    {
        let mut subjects = Vec::new();
        core::mem::swap(&mut self.subjects, &mut subjects);
        self.stage = Stage::Done;
        Outcome::Store(
            SeasonData { season_id: self.season_id, subjects, last_updated: self.updated_at },
        )
    }

    /// Where the refresh stands.
    pub fn stage(&self) -> (r: Stage)
        ensures
            r == self.view().stage,
    {
        self.stage
    }

    /// The request to perform next; `None` once the refresh has ended.
    pub fn next_request(&self) -> (r: Option<Request>)
        requires
            self.wf(),
        ensures
            r == (match self.view().stage {
                Stage::Listing => Some(
                    Request::IndexPage {
                        index_id: self.view().index_id,
                        subject_type: ANIME_SUBJECT_TYPE,
                        limit: INDEX_PAGE_LIMIT,
                        offset: self.view().ids.offset as u64,
                    },
                ),
                Stage::Fetching => if self.view().current is None {
                    Some(
                        Request::SubjectDetail {
                            subject_id: self.view().subject_ids[self.view().next as int],
                        },
                    )
                } else {
                    Some(
                        Request::EpisodePage {
                            subject_id: self.view().subject_ids[self.view().next as int],
                            episode_type: MAIN_EPISODE_TYPE,
                            limit: EPISODE_PAGE_LIMIT,
                            offset: self.view().episodes.offset as u64,
                        },
                    )
                },
                _ => None,
            }),
    {
        match self.stage {
            Stage::Listing => {
                let offset = match self.ids.next_offset() {
                    Some(o) => o,
                    None => 0,
                };
                Some(
                    Request::IndexPage {
                        index_id: self.index_id,
                        subject_type: ANIME_SUBJECT_TYPE,
                        limit: INDEX_PAGE_LIMIT,
                        offset,
                    },
                )
            },
            Stage::Fetching => {
                let subject_id = self.subject_ids[self.next];
                if self.current.is_none() {
                    Some(Request::SubjectDetail { subject_id })
                } else {
                    let offset = match self.episodes.next_offset() {
                        Some(o) => o,
                        None => 0,
                    };
                    Some(
                        Request::EpisodePage {
                            subject_id,
                            episode_type: MAIN_EPISODE_TYPE,
                            limit: EPISODE_PAGE_LIMIT,
                            offset,
                        },
                    )
                }
            },
            _ => None,
        }
    }
}

/// The snapshot cache, by season id, after the caller has acted on a run's
/// outcomes: each `Store` overwrites its season's entry.
pub open spec fn cache_after(cache: Map<u32, SeasonData>, outs: Seq<Outcome>) -> Map<
    u32,
    SeasonData,
>
    decreases outs.len(),
{
    if outs.len() == 0 {
        cache
    } else {
        let c = cache_after(cache, outs.drop_last());
        match outs.last() {
            Outcome::Store(snap) => c.insert(snap.season_id, snap),
            _ => c,
        }
    }
}

/// A run of `handle`: `states[i + 1]` and `outs[i]` follow from `states[i]`
/// and `events[i]`.
pub open spec fn is_run(states: Seq<RefreshView>, events: Seq<Event>, outs: Seq<Outcome>) -> bool {
    &&& states.len() == events.len() + 1
    &&& outs.len() == events.len()
    &&& forall|i: int|
        0 <= i < events.len() ==> handle_post(
            #[trigger] states[i],
            events[i],
            states[i + 1],
            outs[i],
        )
}

proof fn lemma_finished_stays(
    states: Seq<RefreshView>,
    events: Seq<Event>,
    outs: Seq<Outcome>,
    i: int,
    j: int,
)
    requires
        is_run(states, events, outs),
        0 <= i <= j < states.len(),
        states[i].finished(),
    ensures
        states[j] == states[i],
        forall|m: int| i <= m < j ==> #[trigger] outs[m] is Ignored,
    decreases j - i,
{
    if i < j {
        assert(handle_post(states[i], events[i], states[i + 1], outs[i]));
        lemma_finished_stays(states, events, outs, i + 1, j);
    }
}

/// A refresh is all or nothing: when a fetch fails while the refresh is in
/// progress, no outcome of the run, before or after the failure, stores a
/// snapshot, and the cache holds exactly what it held before the refresh.
pub proof fn lemma_refresh_all_or_nothing(
    states: Seq<RefreshView>,
    events: Seq<Event>,
    outs: Seq<Outcome>,
    k: int,
    cache: Map<u32, SeasonData>,
)
    requires
        is_run(states, events, outs),
        0 <= k < events.len(),
        events[k] is Failed,
        !states[k].finished(),
    ensures
        forall|i: int| 0 <= i < outs.len() ==> !(#[trigger] outs[i] is Store),
        cache_after(cache, outs) == cache,
{
    assert forall|i: int| 0 <= i < outs.len() implies !(#[trigger] outs[i] is Store) by {
        assert(handle_post(states[i], events[i], states[i + 1], outs[i]));
        if i < k && outs[i] is Store {
            lemma_finished_stays(states, events, outs, i + 1, k);
        }
        if i > k {
            assert(handle_post(states[k], events[k], states[k + 1], outs[k]));
            lemma_finished_stays(states, events, outs, k + 1, i + 1);
        }
    }
    lemma_no_store_keeps_cache(cache, outs);
}

proof fn lemma_no_store_keeps_cache(cache: Map<u32, SeasonData>, outs: Seq<Outcome>)
    requires
        forall|i: int| 0 <= i < outs.len() ==> !(#[trigger] outs[i] is Store),
    ensures
        cache_after(cache, outs) == cache,
    decreases outs.len(),
{
    if outs.len() > 0 {
        let rest = outs.drop_last();
        assert forall|i: int| 0 <= i < rest.len() implies !(#[trigger] rest[i] is Store) by {
            assert(rest[i] == outs[i]);
        }
        lemma_no_store_keeps_cache(cache, rest);
        assert(!(outs[outs.len() - 1] is Store));
    }
}

} // verus!
