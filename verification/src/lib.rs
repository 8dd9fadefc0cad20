//! A system monitor for the terminal: what it reads, decides and draws.
pub mod bindings;
pub mod buffer;
pub mod draw;
pub mod history;
pub mod input;
pub mod layout;
pub mod lineage;
pub mod list;
pub mod notation;
pub mod number;
pub mod panels;
pub mod picture;
pub mod process;
pub mod procfs;
pub mod reading;
pub mod render;
pub mod sensors;
pub mod state;
pub mod stats;
pub mod table;
pub mod term;
pub mod text;
pub mod tree;
pub mod ui;
