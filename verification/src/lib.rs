//! Core logic of the `oyo` step-through diff viewer: the per-file diff session,
//! the view metrics used for scrolling, configuration values, review-editor
//! text helpers and command-line argument interpretation.

pub mod types;
pub mod text;
pub mod view;
pub mod config;
pub mod view_metrics;
pub mod git;
pub mod paths;
pub mod diff;
pub mod multi;
pub mod laws;
pub mod review;
pub mod cli;
pub mod keybindings;
pub mod search;
pub mod mention;
pub mod patch;
pub mod hunks;
pub mod jump;
pub mod anchors;
pub mod window;
pub mod editor;
pub mod palette;
pub mod navigation;
pub mod file_panel;
pub mod playback;
pub mod peek;
pub mod editor_focus;
pub mod count;
pub mod scroll;
pub mod comments;
pub mod keys;
pub mod key_sequences;
pub mod viewer;
pub mod file_views;
pub mod frame;
pub mod dashboard;
