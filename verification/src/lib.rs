//! Decision logic of the Buzzard OS guest desktop.

pub mod accessibility;
pub mod arith;
pub mod canvas;
pub mod chooser;
pub mod command;
pub mod desktop;
pub mod dialogs;
pub mod events;
pub mod extracted;
pub mod icons;
pub mod input;
pub mod inspector;
pub mod json;
pub mod keyboard;
pub mod lists;
pub mod marks;
pub mod menus;
pub mod model;
pub mod paste;
pub mod paths;
pub mod pointer;
pub mod scene;
pub mod selection;
pub mod settings;
pub mod shell;
pub mod state;
pub mod store;
pub mod sway_ipc;
pub mod text;
pub mod thunar;
pub mod tray;
pub mod tray_menu;
pub mod updates;
pub mod watch;
pub mod windows;
pub mod workspaces;
