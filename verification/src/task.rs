//! A unit of input work: either a buffered stream (standard input) or a
//! list of files.  Reading the bytes is the caller's concern; this type
//! only carries what is to be read.

use vstd::prelude::*;
use crate::filetype::Input;

verus! {

/// What a run reads its reports from.
#[derive(Debug)]
pub enum Task {
    /// A buffered stream of the given input type, such as standard input.
    Stream {
        /// The input type of the streamed data.
        ft: Input,
    },
    /// A list of file paths, possibly of different formats.
    Files {
        /// The paths to process.
        list: Vec<String>,
    },
}

impl Task {
    /// A task over a set of files.
    pub fn from_list(l: Vec<String>) -> (t: Task)
        ensures
            t matches Task::Files { list } && list@ == l@,
    {
        Task::Files { list: l }
    }

    /// A task over a stream of the given input type.
    pub fn from_stream(ft: Input) -> (t: Task)
        ensures
            t == (Task::Stream { ft }),
    {
        Task::Stream { ft }
    }

    /// The paths to be processed: the file list, or the one pseudo-path
    /// `<STDIN>` for a stream.
    pub fn list(self) -> (r: Vec<String>)
        ensures
            self matches Task::Files { list } ==> r@ == list@,
            self matches Task::Stream { .. } ==> r@.len() == 1 && r@[0]@ == "<STDIN>"@,
    {
        match self {
            Task::Stream { .. } => {
                let mut v: Vec<String> = Vec::new();
                v.push(String::from_str("<STDIN>"));
                v
            },
            Task::Files { list } => list,
        }
    }
}

} // verus!
