//! Virtual branches: several branches applied side by side in one working directory.

pub mod after_commit;
pub mod alignment;
pub mod amending;
pub mod answers;
pub mod apply;
pub mod applying;
pub mod author;
pub mod branch;
pub mod claims;
pub mod commit;
pub mod committing;
pub mod conflicts;
pub mod contents;
pub mod create;
pub mod dialogue;
pub mod diff;
pub mod digest;
pub mod files;
pub mod filing;
pub mod guards;
pub mod keeping;
pub mod listing;
pub mod looking;
pub mod making;
pub mod merge;
pub mod names;
pub mod naming;
pub mod objects;
pub mod owned;
pub mod ownership;
pub mod owning;
pub mod patch;
pub mod picking;
pub mod places;
pub mod presentation;
pub mod protocol;
pub mod push;
pub mod refusals;
pub mod reordering;
pub mod replay;
pub mod round_trips;
pub mod seen;
pub mod seqs;
pub mod session;
pub mod sharing;
pub mod showing;
pub mod status;
pub mod text;
pub mod texts;
pub mod times;
pub mod tree;
pub mod unapplying;
pub mod uncommitted;
pub mod upstream;
