//! Verified core of a terminal git viewer.

pub mod agentio;
pub mod anchor_laws;
pub mod area_laws;
pub mod base_laws;
pub mod card;
pub mod card_laws;
pub mod compose;
pub mod config;
pub mod decision_laws;
pub mod docview;
pub mod draw_laws;
pub mod edit_laws;
pub mod elide;
pub mod emphasis;
pub mod emphasis_laws;
pub mod git;
pub mod git_laws;
pub mod git_order;
pub mod git_parse;
pub mod git_repo;
pub mod git_stat;
pub mod hash;
pub mod header_laws;
pub mod host;
pub mod host_laws;
pub mod ipc;
pub mod json;
pub mod keymap;
pub mod keymap_laws;
pub mod layout;
pub mod list;
pub mod list_draw;
pub mod list_edit;
pub mod list_footer;
pub mod list_input;
pub mod list_laws;
pub mod list_rows;
pub mod list_session;
pub mod list_tick;
pub mod list_ui;
pub mod list_views;
pub mod notes;
pub mod offer_laws;
pub mod opening;
pub mod orchestrate;
pub mod order_laws;
pub mod pane_laws;
pub mod path;
pub mod popups;
pub mod preview;
pub mod preview_message;
pub mod preview_session;
pub mod preview_tick;
pub mod preview_ui;
pub mod probe;
pub mod render;
pub mod render_laws;
pub mod reply;
pub mod reply_laws;
pub mod rows;
pub mod run_laws;
pub mod session_laws;
pub mod settings_laws;
pub mod splice;
pub mod style;
pub mod tabs;
pub mod talk_laws;
pub mod text;
pub mod text_laws;
pub mod textarea;
pub mod thread;
pub mod view_laws;
pub mod wrap;
pub mod wrap_laws;
