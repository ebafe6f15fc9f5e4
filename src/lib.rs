//! Ranked season snapshots of airing anime, computed from a rating
//! service's subject, collection and episode data.
//!
//! - `metrics` and `subject`: the per-subject metrics (weighted score,
//!   collection total, drop rate, average comments of aired episodes,
//!   broadcast weekday), as exact fractions.
//! - `date`: broadcast dates and the aired-before-today test.
//! - `pagination`: the walker that follows offset-paged listings.
//! - `refresh`: the refresh of one season as a state machine that names each
//!   request to make and hands over a complete snapshot or nothing.
//! - `keys` and `codec`: how snapshots are keyed and written in the cache.
//! - `schemas`: further records of the rating service's interface.

pub mod codec;
pub mod date;
pub mod keys;
pub mod metrics;
pub mod pagination;
pub mod refresh;
pub mod schemas;
pub mod subject;
