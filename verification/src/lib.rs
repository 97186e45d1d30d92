//! The model behind a two-panel file browser for the terminal: a directory
//! tree flattened into scrollable rows, and file content turned into styled
//! lines.
//!
//! Nothing here reads the file system or draws on a terminal. The caller reads
//! directories and files and hands over what it found; the library answers
//! with rows, previews and lines of styled text, and says after each command
//! what has to be read next.
//!
//! * `tree` puts a directory listing in order and flattens the open part of
//!   the tree into rows; `order` is the order of a listing.
//! * `window` keeps the selection on screen and finds the row under a click.
//! * `ansi` splits terminal text into styled runs; `style` is their style.
//! * `inline` and `markdown` render markdown as terminal text; `highlight`
//!   colours code with the syntect crate.
//! * `preview` decides what is shown of a file; `size` writes its size.
//! * `panel` writes the two panels as lines; `app` is the state of the
//!   browser and its commands.
//! * `text`, `scan`, `lines` and `codes` are the shared character-level
//!   tools.

pub mod ansi;
pub mod app;
pub mod codes;
pub mod highlight;
pub mod inline;
pub mod lines;
pub mod markdown;
pub mod order;
pub mod panel;
pub mod preview;
pub mod scan;
pub mod size;
pub mod style;
pub mod text;
pub mod tree;
pub mod window;
