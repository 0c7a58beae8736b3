//! The decisions of the convert command: the output format, the output
//! path, and whether an existing output file may be replaced.
use vstd::prelude::*;
use crate::cli::{Convert, Format};
use crate::text::{chars_eq, chars_of, lowercase_of, slice_copy, str_eq, to_lowercase};

verus! {

/// Whether the path, in lowercase, ends with `.txt`.
pub open spec fn ends_with_txt(path: Seq<char>) -> bool {
    let l = lowercase_of(path);
    l.len() >= 4 && l.subrange(l.len() - 4, l.len() as int) == seq!['.', 't', 'x', 't']
}

/// The output format: the one asked for; else txt for a path whose
/// lowercase ends with `.txt`; else asciicast v3.
pub open spec fn spec_output_format(asked: Option<Format>, path: Seq<char>) -> Format {
    match asked {
        Some(f) => f,
        None => if ends_with_txt(path) {
            Format::Txt
        } else {
            Format::AsciicastV3
        },
    }
}

/// Whether the path, in lowercase, ends with `.txt`.
pub fn is_txt_path(path: &str) -> (r: bool)
    ensures
        r == ends_with_txt(path@),
{
    let lower = to_lowercase(path);
    let cs = chars_of(lower.as_str());
    if cs.len() < 4 {
        return false;
    }
    let tail = slice_copy(cs.as_slice(), cs.len() - 4, cs.len());
    let txt: Vec<char> = vec!['.', 't', 'x', 't'];
    assert(txt@ =~= seq!['.', 't', 'x', 't']);
    chars_eq(tail.as_slice(), txt.as_slice())
}

/// The error when the output file exists and may not be replaced.
pub open spec fn file_exists_error() -> Seq<char> {
    "file exists, use --overwrite option to overwrite the file"@
}

impl Convert {
    /// The format to convert to.
    pub fn output_format(&self) -> (f: Format)
        ensures
            f == spec_output_format(self.output_format, self.output@),
    {
        match self.output_format {
            Some(f) => f,
            None => if is_txt_path(self.output.as_str()) {
                Format::Txt
            } else {
                Format::AsciicastV3
            },
        }
    }

    /// The path to write to: standard output for `-`.
    pub fn get_output_path(&self) -> (p: String)
        ensures
            self.output@ == "-"@ ==> p@ == "/dev/stdout"@,
            self.output@ != "-"@ ==> p@ == self.output@,
    {
        if str_eq(self.output.as_str(), "-") {
            "/dev/stdout".to_string()
        } else {
            self.output.clone()
        }
    }

    /// Whether the output file is replaced, given whether it exists and its
    /// length: an empty existing file is replaced; another existing file
    /// only with `--overwrite`, else this is an error.
    pub fn get_mode(&self, exists: bool, len: u64) -> (r: Result<bool, String>)
        ensures
            !exists ==> r == Ok::<bool, String>(self.overwrite),
            exists && (len == 0 || self.overwrite) ==> r == Ok::<bool, String>(true),
            exists && len != 0 && !self.overwrite ==> (r matches Err(e) && e@
                == file_exists_error()),
    {
        let mut overwrite = self.overwrite;
        if exists {
            if len == 0 {
                overwrite = true;
            }
            if !overwrite {
                return Err("file exists, use --overwrite option to overwrite the file".to_string());
            }
        }
        Ok(overwrite)
    }
}

} // verus!
