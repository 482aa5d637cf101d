use crate::text::{lower_of, lowercase, split_at_commas, split_commas, trim_text, trimmed};
use vstd::prelude::*;

verus! {

/// `std::path::PathBuf`, carried through as an opaque value.
#[verifier::external_type_specification]
#[verifier::external_body]
pub struct ExPathBuf(std::path::PathBuf);

/// The settings of one run, fixed when the run starts.
#[derive(Debug)]
pub struct Config {
    /// Where the selected images go; `None` picks the default location.
    pub output: Option<std::path::PathBuf>,
    /// The smallest size, in KB, of a file that is taken.
    pub min_size_kb: u64,
    /// The start of every destination file name.
    pub prefix: String,
    /// Extensions to skip, separated by commas.
    pub exclude_extensions: Option<String>,
    /// Log every skipped and copied file.
    pub verbose: bool,
    /// Decide and report, but write nothing.
    pub dry_run: bool,
}

impl Config {
    /// The size threshold in bytes.
    pub open spec fn threshold(&self) -> int {
        self.min_size_kb * 1024
    }

    /// The excluded extensions: each comma-separated piece, trimmed and lower-cased.
    pub open spec fn excluded(&self) -> Seq<Seq<char>> {
        match self.exclude_extensions {
            None => Seq::empty(),
            Some(list) => split_commas(list@).map_values(|p: Seq<char>| lower_of(trimmed(p))),
        }
    }

    /// The size threshold in bytes.
    pub fn min_size_bytes(&self) -> (r: u64)
        requires
            self.min_size_kb <= u64::MAX / 1024,
        ensures
            r == self.threshold(),
    {
        self.min_size_kb * 1024
    }

    /// The excluded extensions, trimmed and lower-cased, in the order given.
    pub fn excluded_extensions(&self) -> (r: Vec<String>)
        ensures
            r@.map_values(|e: String| e@) == self.excluded(),
    {
        let mut out: Vec<String> = Vec::new();
        match &self.exclude_extensions {
            None => {},
            Some(list) => {
                let pieces = split_at_commas(list.as_str());
                let ghost views = pieces@.map_values(|p: &str| p@);
                let mut i: usize = 0;
                while i < pieces.len()
                    invariant
                        i <= pieces@.len(),
                        views == split_commas(list@),
                        views == pieces@.map_values(|p: &str| p@),
                        out@.len() == i,
                        forall|k: int| 0 <= k < i ==> #[trigger] out@[k]@ == lower_of(trimmed(views[k])),
                    decreases pieces@.len() - i,
                {
                    let ext = lowercase(trim_text(pieces[i]));
                    assert(views[i as int] == pieces@[i as int]@);
                    out.push(ext);
                    i = i + 1;
                }
            },
        }
        assert(out@.map_values(|e: String| e@) =~= self.excluded());
        out
    }
}

} // verus!
