//! A columnar dataset library for machine-learning pipelines: an in-memory
//! `Table` of named, equally long columns; a `DataSet` that tags a table with
//! identity metadata and offers shuffling and feature/target separation; a
//! deterministic train/test splitter; and a `DataLoader` that iterates over a
//! dataset in fixed-size batches along a row permutation.

use vstd::prelude::*;

pub mod codec;
pub mod dataset;
pub mod format;
pub mod identity;
pub mod loader;
pub mod records;
pub mod rng;
pub mod split;
pub mod table;

pub use codec::decode_csv;
pub use codec::encode_csv;
pub use dataset::DataSet;
pub use format::FileFormat;
pub use format::format_of_name;
pub use loader::DataLoader;
pub use records::SecurityRecord;
pub use split::Ratio;
pub use split::train_test_split;
pub use table::Table;
pub use table::Value;

verus! {

/// Every failure a library operation can report.
#[derive(Clone, Copy, Debug, PartialEq, Eq, Structural)]
pub enum DataError {
    /// A named column (or input file) does not exist.
    NotFound,
    /// A row range lies outside the table's bounds.
    OutOfRange,
    /// An argument violates the operation's contract, such as a zero batch
    /// size, a ratio outside `[0, 1]`, or mismatched lengths.
    InvalidArgument,
    /// Bytes could not be decoded into a table.
    DecodeError,
    /// A table could not be encoded into bytes.
    EncodeError,
}

} // verus!
