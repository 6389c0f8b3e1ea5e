//! A plain-text task tracker: a pipe-delimited record codec and the
//! load / add / complete / delete / list logic over the text of a task file.

pub mod chars;
pub mod deadline;
pub mod listing;
pub mod order;
pub mod round_trip;
pub mod task;
pub mod text;
pub mod tracker;
