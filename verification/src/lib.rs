//! Decision logic of a terminal dashboard that watches a set of working copies.
//!
//! The crate holds everything the dashboard decides: which directories become
//! entries, how a finished probe is classified, when the next probe may start,
//! how an entry's status may change, and what each row of the list shows.
//! Reading the disk, running the query tool and drawing on the terminal are
//! left to the program around it, which hands in plain values.

pub mod status;
pub mod probe;
pub mod store;
pub mod scan;
pub mod scheduler;
pub mod render;
pub mod event;
