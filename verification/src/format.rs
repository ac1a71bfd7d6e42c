//! File-format selection: which codec a format name or file extension
//! denotes. The codecs themselves — byte-level readers and writers — live
//! outside the library; this is the dispatch they share.

use vstd::prelude::*;
use vstd::string::StringExecFns;

verus! {

/// The file formats a dataset can be read from or written to.
#[derive(Clone, Copy, Debug, PartialEq, Eq, Structural)]
pub enum FileFormat {
    Csv,
    Json,
    Parquet,
}

/// The format the name (or file extension) `s` denotes, if any.
pub open spec fn spec_format_of_name(s: Seq<char>) -> Option<FileFormat> {
    if s == "csv"@ {
        Some(FileFormat::Csv)
    } else if s == "json"@ {
        Some(FileFormat::Json)
    } else if s == "parquet"@ {
        Some(FileFormat::Parquet)
    } else {
        None
    }
}

/// Maps a format name or file extension to its format: exactly "csv",
/// "json" and "parquet" are known; anything else is `None`, which callers
/// surface as an unsupported-format failure.
pub fn format_of_name(name: &str) -> (r: Option<FileFormat>)
    ensures
        r == spec_format_of_name(name@),
{
    let owned: String = name.to_owned();
    if owned == String::from_str("csv") {
        Some(FileFormat::Csv)
    } else if owned == String::from_str("json") {
        Some(FileFormat::Json)
    } else if owned == String::from_str("parquet") {
        Some(FileFormat::Parquet)
    } else {
        None
    }
}

} // verus!
