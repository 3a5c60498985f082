//! An input file entry: a path together with its detected input type.

use vstd::prelude::*;
use crate::filetype::{input_of_path, Input};

verus! {

/// A file path paired with its input type, so that each archive kind can be
/// routed to its own handler.
#[derive(Debug)]
pub struct Entry {
    /// The path; `-` stands for standard input.
    pub p: String,
    /// The input type, detected from the path or set explicitly.
    pub ft: Input,
}

impl Default for Entry {
    /// The default entry has an empty path and an unknown type.
    fn default() -> (r: Self)
        ensures
            r.p@ == Seq::<char>::empty(),
            r.ft == Input::Unknown,
    {
        Entry { p: String::new(), ft: Input::Unknown }
    }
}

impl Entry {
    /// Creates an entry, detecting the input type from the path.
    pub fn new(p: &str) -> (r: Self)
        ensures
            r.p@ == p@,
            r.ft == input_of_path(p@),
    {
        let ft = Input::from_path(p);
        Entry { p: p.to_owned(), ft }
    }

    /// Replaces the detected input type.
    pub fn set(self, t: Input) -> (r: Self)
        ensures
            r.p@ == self.p@,
            r.ft == t,
    {
        Entry { p: self.p, ft: t }
    }

    /// The stored path.
    pub fn path(&self) -> (r: String)
        ensures
            r@ == self.p@,
    {
        self.p.clone()
    }

    /// The input type of this entry.
    pub fn input_type(self) -> (r: Input)
        ensures
            r == self.ft,
    {
        self.ft
    }
}

/// The handler tag for one entry, by its input type; an unknown type has no
/// handler.
pub fn handle_one_file(e: &Entry) -> (r: Option<String>)
    ensures
        e.ft == Input::Csv ==> (r matches Some(s) && s@ == "csv"@),
        e.ft == Input::Xml ==> (r matches Some(s) && s@ == "xml"@),
        e.ft == Input::Zip ==> (r matches Some(s) && s@ == "zip"@),
        e.ft == Input::Gzip ==> (r matches Some(s) && s@ == "gzip"@),
        e.ft == Input::TarGzip ==> (r matches Some(s) && s@ == "tgz"@),
        e.ft == Input::Unknown ==> r is None,
{
    match e.ft {
        Input::Csv => Some(String::from_str("csv")),
        Input::Xml => Some(String::from_str("xml")),
        Input::Zip => Some(String::from_str("zip")),
        Input::Gzip => Some(String::from_str("gzip")),
        Input::TarGzip => Some(String::from_str("tgz")),
        Input::Unknown => None,
    }
}

} // verus!
