//! A query-string parser that folds repeated keys into multi-valued entries,
//! with a few small verified helpers beside it.

pub mod memory;
pub mod positive_number;
pub mod query_string;
pub mod sums;
pub mod table_lemmas;
pub mod text;
