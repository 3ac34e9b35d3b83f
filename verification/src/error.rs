//! The failures a core operation can report.

use vstd::prelude::*;

use crate::codec::spec_dec;
use crate::codec::dec_string;

verus! {

/// A typed failure of a core operation.
///
/// The file variants carry the offending path (and for a rename both paths)
/// together with the text of the underlying input/output failure, as the
/// caller performing the file access reports it.  `ParseStrToTasksErr`
/// carries the path of a collection file whose content is not a well-formed
/// record list.  `TaskNotFound` carries the id that no active collection
/// holds; it is the one non-fatal, expected failure.
#[derive(Debug, PartialEq, Eq)]
pub enum SigoError {
    FileCreateErr(String, String),
    FileReadErr(String, String),
    FileWriteErr(String, String),
    FileRenameErr(String, String, String),
    ParseStrToTasksErr(String),
    TaskNotFound(u32),
}

/// The text of a failure, one line per report.
pub open spec fn spec_message(e: SigoError) -> Seq<char> {
    match e {
        SigoError::FileCreateErr(path, err) => "unable to create file "@ + path@ + ": "@ + err@
            + "\n"@,
        SigoError::FileReadErr(path, err) => "unable to read file "@ + path@ + ": "@ + err@
            + "\n"@,
        SigoError::FileWriteErr(path, err) => "unable to write file "@ + path@ + ": "@ + err@
            + "\n"@,
        SigoError::FileRenameErr(src, dst, err) => "unable to rename file "@ + src@
            + " to file "@ + dst@ + ": "@ + err@ + "\n"@,
        SigoError::ParseStrToTasksErr(path) => "unable to parse file "@ + path@ + "\n"@,
        SigoError::TaskNotFound(id) => "not found sigo "@ + spec_dec(id as nat) + "\n"@,
    }
}

impl SigoError {
    /// Renders the failure for the caller to show.
    pub fn message(&self) -> (r: String)
        ensures
            r@ == spec_message(*self),
    {
        let mut out = String::new();
        match self {
            SigoError::FileCreateErr(path, err) => {
                out.append("unable to create file ");
                out.append(path.as_str());
                out.append(": ");
                out.append(err.as_str());
                out.append("\n");
            },
            SigoError::FileReadErr(path, err) => {
                out.append("unable to read file ");
                out.append(path.as_str());
                out.append(": ");
                out.append(err.as_str());
                out.append("\n");
            },
            SigoError::FileWriteErr(path, err) => {
                out.append("unable to write file ");
                out.append(path.as_str());
                out.append(": ");
                out.append(err.as_str());
                out.append("\n");
            },
            SigoError::FileRenameErr(src, dst, err) => {
                out.append("unable to rename file ");
                out.append(src.as_str());
                out.append(" to file ");
                out.append(dst.as_str());
                out.append(": ");
                out.append(err.as_str());
                out.append("\n");
            },
            SigoError::ParseStrToTasksErr(path) => {
                out.append("unable to parse file ");
                out.append(path.as_str());
                out.append("\n");
            },
            SigoError::TaskNotFound(id) => {
                out.append("not found sigo ");
                let t = dec_string(*id as u64);
                out.append(t.as_str());
                out.append("\n");
            },
        }
        out
    }
}

} // verus!
