//! Verified core of the Neil blueprint console: the text handling, parsing,
//! layout decisions and small state machines behind the terminal UI.
use vstd::prelude::*;

pub mod text;
pub mod cluster;
pub mod cluster_layout;
pub mod stream;
pub mod blocks;
pub mod history;
pub mod state;
pub mod panels;
pub mod graph;
pub mod palace;
pub mod console;
pub mod styled;
pub mod chat_view;
pub mod heartbeat_view;
pub mod panel_view;
pub mod screen_view;
pub mod cluster_view;
pub mod cluster_cards;
pub mod cluster_tiers;
pub mod awareness;
pub mod raster;
pub mod commands;
pub mod dashboard;
pub mod seal_art;
pub mod cluster_tree;
pub mod clock;

verus! {

} // verus!
