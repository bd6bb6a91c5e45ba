//! Where the input data comes from.

use crate::text::text_is;
use vstd::prelude::*;

verus! {

/// The kinds of input source that can be named on the command line.
#[derive(Clone, Copy, Debug, PartialEq, Eq, Structural)]
pub enum SourceType {
    /// A file of comma-separated values.
    CsvFile,
    /// The address of comma-separated values.
    CsvUrl,
}

impl SourceType {
    /// The source that a name denotes.
    pub open spec fn named(name: Seq<char>) -> SourceType {
        if name == "url"@ {
            SourceType::CsvUrl
        } else {
            SourceType::CsvFile
        }
    }

    /// Reads the kind of source from its name: `url` is an address, `csv` and
    /// every other name a file. It never fails.
    pub fn from_str(s: &str) -> (source: Result<SourceType, std::convert::Infallible>)
        ensures
            source == Ok::<SourceType, std::convert::Infallible>(SourceType::named(s@)),
    {
        proof {
            reveal_strlit("csv");
            reveal_strlit("url");
            assert("csv"@[0] != "url"@[0]);
        }
        if text_is(s, "csv") {
            Ok(SourceType::CsvFile)
        } else if text_is(s, "url") {
            Ok(SourceType::CsvUrl)
        } else {
            Ok(SourceType::CsvFile)
        }
    }
}

} // verus!
