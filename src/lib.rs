//! Match analytics over a decoded match-event stream: positional heatmaps,
//! per-round timelines, scoreboard statistics and a head-to-head kill table.

pub mod analysis;
pub mod demo_analysis;
pub mod digits;
pub mod endofgame;
pub mod events;
pub mod head_to_head;
pub mod heatmap;
pub mod idmap;
pub mod perround;
pub mod storage;
