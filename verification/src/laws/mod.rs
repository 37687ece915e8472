//! What the operations of the library are for: laws that say of every input what
//! a result has to be like, or how two results relate.

pub mod contents;
pub mod counting;
pub mod figures;
pub mod lists;
pub mod naming;
pub mod pictures;
pub mod playing;
pub mod queries;
pub mod scanning;
pub mod searching;
pub mod sidecars;
pub mod sounds;
pub mod tagging;
pub mod texts;
