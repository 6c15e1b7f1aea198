//! A line-addressable text buffer with batched, atomically applied line edits.

mod change;
mod error;
mod file;
mod line_buffer;

pub use change::{
    applied, apply_result, conflicts, deleted, edited, inserts_at, lemma_delete_replace_conflict,
    lemma_out_of_range_fails, line_out, replacement, Change, Changes,
};
pub use error::EditError;
pub use file::File;
pub use line_buffer::{
    join_lines, lemma_lines_round_trip, lemma_round_trip, lemma_split_nonempty, split_lines, texts,
    LineAwareFile,
};
