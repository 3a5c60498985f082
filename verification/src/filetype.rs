//! Input file type detection from a path's extension.

use vstd::prelude::*;

verus! {

broadcast use vstd::string::group_string_axioms;

/// The kind of input a file holds, guessed from its extension.
#[derive(Clone, Copy, Debug, PartialEq, Eq, Structural)]
pub enum Input {
    /// Plain CSV files.
    Csv,
    /// XML compressed with gzip.
    Gzip,
    /// Actual XML files; plain text files are assumed to be XML.
    Xml,
    /// ZIP files, generally with both CSV and XML inside.
    Zip,
    /// Tar archives compressed with gzip.
    TarGzip,
    /// Anything unrecognised.
    Unknown,
}

impl Default for Input {
    /// The default input type is plain XML.
    fn default() -> (r: Self)
        ensures
            r == Input::Xml,
    {
        Input::Xml
    }
}

/// ASCII lower-casing of one character.
pub open spec fn lower_char(c: char) -> char {
    if 65 <= c as u32 <= 90 {
        (((c as u32) + 32) as u8) as char
    } else {
        c
    }
}

/// ASCII lower-casing of a character sequence.
pub open spec fn lower_seq(s: Seq<char>) -> Seq<char> {
    s.map_values(|c: char| lower_char(c))
}

/// The last index before `i` holding `c`, if any.
pub open spec fn scan_back(s: Seq<char>, i: int, c: char) -> Option<int>
    decreases i,
{
    if i <= 0 || i > s.len() {
        None
    } else if s[i - 1] == c {
        Some(i - 1)
    } else {
        scan_back(s, i - 1, c)
    }
}

/// The index where the file name starts: just after the last `/`.
pub open spec fn file_name_start(s: Seq<char>) -> int {
    match scan_back(s, s.len() as int, '/') {
        None => 0,
        Some(k) => k + 1,
    }
}

/// The extension of the path: the text after the last `.` of the file
/// name.  A dot that begins the file name does not count (a hidden file
/// has no extension), nor does a dot in a directory component.
pub open spec fn extension_of(s: Seq<char>) -> Option<Seq<char>> {
    match scan_back(s, s.len() as int, '.') {
        None => None,
        Some(p) => if p <= file_name_start(s) {
            None
        } else {
            Some(s.subrange(p + 1, s.len() as int))
        },
    }
}

/// Does the path end in `.tar.gz` (in any letter case)?
pub open spec fn ends_tar_gz(s: Seq<char>) -> bool {
    s.len() >= 7 && lower_seq(s.subrange(s.len() - 7, s.len() as int)) == ".tar.gz"@
}

/// The input type a CLI tag names; unrecognised tags give `Unknown`.
pub open spec fn tag_input(s: Seq<char>) -> Input {
    if s == "csv"@ {
        Input::Csv
    } else if s == "txt"@ || s == "xml"@ {
        Input::Xml
    } else if s == "gzip"@ || s == "gz"@ {
        Input::Gzip
    } else if s == "zip"@ {
        Input::Zip
    } else if s == "tgz"@ {
        Input::TarGzip
    } else {
        Input::Unknown
    }
}

/// The input type a path maps to: by its lower-cased extension, with a
/// path with no extension treated as plain text, and a `.gz` that closes a
/// `.tar.gz` recognised as a tar archive.
pub open spec fn input_of_path(s: Seq<char>) -> Input {
    match extension_of(s) {
        None => Input::Xml,
        Some(ext) => {
            let le = lower_seq(ext);
            if le == "csv"@ {
                Input::Csv
            } else if le == "zip"@ {
                Input::Zip
            } else if le == "txt"@ || le == "xml"@ {
                Input::Xml
            } else if le == "tgz"@ {
                Input::TarGzip
            } else if le == "gz"@ {
                if ends_tar_gz(s) {
                    Input::TarGzip
                } else {
                    Input::Gzip
                }
            } else {
                Input::Unknown
            }
        },
    }
}

/// ASCII lower-casing of one character.
fn to_lower(c: char) -> (r: char)
    ensures
        r == lower_char(c),
{
    let v = c as u32;
    if 65 <= v && v <= 90 {
        ((v + 32) as u8) as char
    } else {
        c
    }
}

/// The last index before `i` holding `c`, if any.
fn scan_back_exec(s: &str, i: usize, c: char) -> (r: Option<usize>)
    requires
        i <= s@.len(),
    ensures
        match r {
            None => scan_back(s@, i as int, c) is None,
            Some(k) => scan_back(s@, i as int, c) == Some(k as int) && k < i,
        },
    decreases i,
{
    if i == 0 {
        None
    } else if s.get_char(i - 1) == c {
        Some(i - 1)
    } else {
        scan_back_exec(s, i - 1, c)
    }
}

/// Does `s[from..to]`, lower-cased, equal the (already lower-case) `pat`?
fn range_is(s: &str, from: usize, to: usize, pat: &str) -> (r: bool)
    requires
        from <= to <= s@.len(),
    ensures
        r == (lower_seq(s@.subrange(from as int, to as int)) == pat@),
{
    let ghost sub = lower_seq(s@.subrange(from as int, to as int));
    let plen = pat.unicode_len();
    if to - from != plen {
        proof {
            assert(sub.len() != pat@.len());
        }
        return false;
    }
    let mut i: usize = 0;
    while i < plen
        invariant
            i <= plen,
            plen == pat@.len(),
            from + plen == to <= s@.len(),
            sub == lower_seq(s@.subrange(from as int, to as int)),
            sub.len() == plen,
            forall|k: int| 0 <= k < i ==> sub[k] == pat@[k],
        decreases plen - i,
    {
        let cs = to_lower(s.get_char(from + i));
        let cp = pat.get_char(i);
        proof {
            assert(sub[i as int] == lower_char(s@.subrange(from as int, to as int)[i as int]));
            assert(s@.subrange(from as int, to as int)[i as int] == s@[from as int + i]);
        }
        if cs != cp {
            proof {
                assert(sub[i as int] != pat@[i as int]);
            }
            return false;
        }
        i = i + 1;
    }
    proof {
        assert(sub =~= pat@);
    }
    true
}

/// Does `s` equal `pat` exactly?
fn str_is(s: &str, pat: &str) -> (r: bool)
    ensures
        r == (s@ == pat@),
{
    let slen = s.unicode_len();
    let plen = pat.unicode_len();
    if slen != plen {
        return false;
    }
    let mut i: usize = 0;
    while i < plen
        invariant
            i <= plen,
            plen == pat@.len() == s@.len(),
            forall|k: int| 0 <= k < i ==> s@[k] == pat@[k],
        decreases plen - i,
    {
        if s.get_char(i) != pat.get_char(i) {
            return false;
        }
        i = i + 1;
    }
    proof {
        assert(s@ =~= pat@);
    }
    true
}

impl Input {
    /// Guesses the input type from a path's extension, as `input_of_path`
    /// describes.
    pub fn from_path(p: &str) -> (r: Input)
        ensures
            r == input_of_path(p@),
    {
        let len = p.unicode_len();
        let start = match scan_back_exec(p, len, '/') {
            None => 0,
            Some(k) => k + 1,
        };
        let dp = match scan_back_exec(p, len, '.') {
            None => {
                return Input::Xml;
            },
            Some(dp) => dp,
        };
        if dp <= start {
            return Input::Xml;
        }
        let e0 = dp + 1;
        if range_is(p, e0, len, "csv") {
            Input::Csv
        } else if range_is(p, e0, len, "zip") {
            Input::Zip
        } else if range_is(p, e0, len, "txt") || range_is(p, e0, len, "xml") {
            Input::Xml
        } else if range_is(p, e0, len, "tgz") {
            Input::TarGzip
        } else if range_is(p, e0, len, "gz") {
            if len >= 7 && range_is(p, len - 7, len, ".tar.gz") {
                Input::TarGzip
            } else {
                Input::Gzip
            }
        } else {
            Input::Unknown
        }
    }

    /// Maps a CLI tag to an input type, as `tag_input` describes.
    pub fn from_tag(s: &str) -> (r: Input)
        ensures
            r == tag_input(s@),
    {
        if str_is(s, "csv") {
            Input::Csv
        } else if str_is(s, "txt") || str_is(s, "xml") {
            Input::Xml
        } else if str_is(s, "gzip") || str_is(s, "gz") {
            Input::Gzip
        } else if str_is(s, "zip") {
            Input::Zip
        } else if str_is(s, "tgz") {
            Input::TarGzip
        } else {
            Input::Unknown
        }
    }

    /// Is this a recognised input type?
    pub fn valid(self) -> (r: bool)
        ensures
            r == (self != Input::Unknown),
    {
        self != Input::Unknown
    }
}

} // verus!
