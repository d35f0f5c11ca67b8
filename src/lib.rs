//! Usage statistics: daily and weekly aggregation of application usage
//! events, with break detection, and the navigation state of a two-tab
//! browser over the summaries.

pub mod calendar;
pub mod daily;
pub mod sessions;
pub mod text;
pub mod view;
pub mod weekly;
