//! Markdown to rich HTML for the clipboard: a line-based renderer for a
//! subset of GitHub-Flavored Markdown, and the helpers around it.
pub mod text;
pub mod refs;
pub mod inline;
pub mod blocks;
pub mod lists;
pub mod render;
pub mod args;
pub mod images;
pub mod html;
