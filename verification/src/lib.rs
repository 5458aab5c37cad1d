//! Recipe resolution for containerised firmware builds.
//!
//! A board definition is a tree of toolchain nodes. Walking it against what a project
//! holds gives recipes: the Dockerfile to build an image from, and the command to run in
//! it. Every function here is verified against a model stated in its contract; reading
//! the disk and running containers is left to the caller.
pub mod boards;
pub mod book;
pub mod builder;
pub mod commands;
pub mod detector;
pub mod docs;
pub mod document;
pub mod engine;
pub mod formats;
pub mod laws;
pub mod text;
pub mod ui;
pub mod workspace;

pub use boards::{BoardError, board_from_document, get_supported_boards, load_board_from_toml};
pub use document::Document;
pub use engine::{Board, LayerCmd, Recipe, RecipeNotFound, Toolchain, image_tag};
pub use workspace::{FileRead, GlobMatch, Workspace};
