//! Decision logic of a small download server.

pub mod api;
pub mod board;
pub mod favorites;
pub mod ident;
pub mod job;
pub mod lines;
pub mod media;
pub mod number;
pub mod path;
pub mod range;
pub mod recovery;
pub mod run;
pub mod serve;
pub mod socket;
pub mod sort;
pub mod source;
pub mod status;
pub mod table;
pub mod text;
pub mod thumbs;
pub mod tree;
pub mod walk;
