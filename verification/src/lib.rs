//! Verified core of the Linux Soundboard user interface: the state machines,
//! caches and rules behind the window, with the widget toolkit left outside.

pub mod text;
pub mod tab_dnd;
pub mod ui_event_bridge;
pub mod folders;
pub mod sibling_pager;
pub mod scrub;
pub mod format;
pub mod transport;
pub mod paged_cache;
pub mod preferences;
pub mod window;
pub mod dropped;
pub mod folder_tree;
pub mod stylesheet;
pub mod icons;
pub mod volume;
pub mod sound_menu;
