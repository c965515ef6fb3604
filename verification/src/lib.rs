//! The logic of a gesture launcher: a drawn rectangle becomes a window placement, a typed query
//! becomes a ranked list of applications, and pointer and key events become decisions.

pub mod aim;
pub mod apps;
pub mod backend;
pub mod card;
pub mod config;
pub mod frame;
pub mod fuzzy;
pub mod gesture;
pub mod history;
pub mod hyprland;
pub mod icons;
pub mod json;
pub mod launch;
pub mod overlay;
pub mod pen;
pub mod picker;
pub mod pinned;
pub mod pixels;
pub mod rank;
pub mod shimmer;
pub mod sketch;
pub mod snap;
pub mod stroke;
pub mod text;
