//! The state and the rules of a terminal session multiplexer: tabs, pane groups, the key and
//! mouse bindings, the sidebar and the workspace snapshot.

pub mod app;
pub mod app_laws;
pub mod draw;
pub mod drawing_laws;
pub mod emulator;
pub mod event_laws;
pub mod events;
pub mod focus_laws;
pub mod geometry;
pub mod group_laws;
pub mod groups;
pub mod input;
pub mod key_laws;
pub mod label_laws;
pub mod labels;
pub mod layout;
pub mod layout_laws;
pub mod menu;
pub mod menu_laws;
pub mod mouse;
pub mod mouse_laws;
pub mod path_laws;
pub mod paths;
pub mod picture_laws;
pub mod platform;
pub mod platform_laws;
pub mod screen;
pub mod selection_laws;
pub mod session;
pub mod sidebar;
pub mod split_laws;
pub mod style;
pub mod tab_laws;
pub mod tabs;
pub mod terminal;
pub mod terminal_laws;
pub mod text;
pub mod text_laws;
pub mod timing;
pub mod ui;
pub mod workspace;
pub mod workspace_laws;
