//! Document editing core of a sprite-sheet editor: the sheet model, the view
//! and selection state, interactive drags, the undo history and the command
//! dispatcher, each specified over a mathematical model and verified.

pub mod document;
pub mod export;
pub mod history;
pub mod names;
mod paths;
pub mod selection;
pub mod sheet;
pub mod transient;
pub mod view;
