//! Grouping of the rows of a table by windows of time.
//!
//! A [`window::Window`] is a family of ranges of time of one length that
//! follow one another at one distance. [`groupby::groupby`] takes a window
//! and the timestamps of the rows, sorted, and gives for each range of the
//! window that overlaps the timestamps the rows whose timestamps lie in it.
//! It passes over the timestamps once: a single cursor, which only moves
//! forward, finds the first row of each range in turn.
//!
//! Two things are the caller's to know. The timestamps are taken to be
//! sorted, and nothing tests that they are. And the group of a range in which
//! the cursor finds no row is the number of the row one past the last,
//! `time.len()`: a row number from a group is to be tested against the number
//! of rows before it is used. [`lemmas`] states what holds of the groups.

pub mod bounds;
pub mod duration;
pub mod groupby;
pub mod lemmas;
pub mod window;
