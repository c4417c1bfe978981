//! The resolver's error taxonomy: I/O failures carry the offending path, a
//! malformed binary carries its path, an unresolved dependency carries the
//! soname, and a symlink cycle carries the path that closed it.

use vstd::prelude::*;
use vstd::string::StringExecFns;

verus! {

/// The mathematical value of an error.
pub ghost enum ErrAbs {
    Io(Seq<char>),
    Elf(Seq<char>),
    NotFound(Seq<char>),
    RecursiveLink(Seq<char>),
}

/// Why a resolution failed.
#[derive(Debug)]
pub enum LddError {
    /// A filesystem entry was missing or unreadable; carries the path.
    Io(String),
    /// The file is not a parseable dynamic binary; carries the path.
    Elf(String),
    /// A needed soname was found in no search directory; carries the soname.
    NotFound(String),
    /// Following symlinks came back to an already-visited path.
    RecursiveLink(String),
}

impl LddError {
    /// The mathematical value of this error.
    pub open spec fn abs(&self) -> ErrAbs {
        match self {
            LddError::Io(p) => ErrAbs::Io(p@),
            LddError::Elf(p) => ErrAbs::Elf(p@),
            LddError::NotFound(p) => ErrAbs::NotFound(p@),
            LddError::RecursiveLink(p) => ErrAbs::RecursiveLink(p@),
        }
    }

    /// A one-line description of the error, for diagnostics.
    pub fn describe(&self) -> (r: String)
        ensures
            r@ == describe_spec(self.abs()),
    {
        let mut r: String;
        match self {
            LddError::Io(p) => {
                r = "cannot access: ".to_owned();
                r.append(p.as_str());
            },
            LddError::Elf(p) => {
                r = "cannot parse binary: ".to_owned();
                r.append(p.as_str());
            },
            LddError::NotFound(p) => {
                r = "cannot find dependency: ".to_owned();
                r.append(p.as_str());
            },
            LddError::RecursiveLink(p) => {
                r = "recursive link: ".to_owned();
                r.append(p.as_str());
            },
        }
        r
    }
}

/// The text `describe` produces for each error.
pub open spec fn describe_spec(e: ErrAbs) -> Seq<char> {
    match e {
        ErrAbs::Io(p) => "cannot access: "@ + p,
        ErrAbs::Elf(p) => "cannot parse binary: "@ + p,
        ErrAbs::NotFound(p) => "cannot find dependency: "@ + p,
        ErrAbs::RecursiveLink(p) => "recursive link: "@ + p,
    }
}

} // verus!
