//! A verified core for a dynamic menu: the string matching, the input-line
//! editing, the paging of the match list and the key and mouse decisions of
//! an X11 menu program.  The drawing and the X protocol live outside.

pub mod strings;
pub mod config;
pub mod menu;
pub mod line;
pub mod nav;
pub mod keys;
pub mod mouse;
pub mod geometry;
pub mod items;
pub mod textdraw;
pub mod paint;
pub mod events;
pub mod laws;
