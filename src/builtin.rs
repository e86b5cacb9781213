//! The closed set of commands that the shell carries out itself.
use vstd::prelude::*;
use vstd::string::*;

verus! {

/// Declares std's `io::Error` so that `RashError` can carry it; nothing is
/// assumed of its contents, which stay opaque.
#[verifier::external_type_specification]
#[verifier::external_body]
pub struct ExIoError(std::io::Error);

/// A command carried out in-process rather than by launching a program.
#[derive(Debug, Clone, Copy, PartialEq, Eq, Structural)]
pub enum Builtin {
    CD,
    Exit,
    Export,
}

/// Errors of the shell's core.
#[derive(Debug)]
pub enum RashError {
    /// Tried to parse an unknown variant
    InvalidVariant { input: String },
    /// Wrapper around any std::io::Error
    Io(std::io::Error),
}

impl From<std::io::Error> for RashError {
    fn from(err: std::io::Error) -> (r: Self) {
        RashError::Io(err)
    }
}

impl vstd::std_specs::convert::FromSpecImpl<std::io::Error> for RashError {
    open spec fn obeys_from_spec() -> bool {
        true
    }

    open spec fn from_spec(v: std::io::Error) -> RashError {
        RashError::Io(v)
    }
}

/// The builtin that a command name denotes, if any: names match exactly and
/// case-sensitively.
pub open spec fn builtin_named(s: Seq<char>) -> Option<Builtin> {
    if s == "cd"@ {
        Some(Builtin::CD)
    } else if s == "exit"@ {
        Some(Builtin::Exit)
    } else if s == "export"@ {
        Some(Builtin::Export)
    } else {
        None
    }
}

/// Whether two strings hold the same characters.
pub fn str_equal(a: &str, b: &str) -> (r: bool)
    ensures
        r == (a@ == b@),
{
    let n = a.unicode_len();
    if n != b.unicode_len() {
        return false;
    }
    let mut i: usize = 0;
    while i < n
        invariant
            n == a@.len(),
            n == b@.len(),
            i <= n,
            forall|j: int| 0 <= j < i ==> a@[j] == b@[j],
        decreases n - i,
    {
        if a.get_char(i) != b.get_char(i) {
            return false;
        }
        i = i + 1;
    }
    assert(a@ =~= b@);
    true
}

impl Builtin {
    /// Classifies a command name: the builtin it names, or
    /// `InvalidVariant` holding the name, which tells the caller to look
    /// for an external program instead.
    pub fn classify(s: &str) -> (r: Result<Builtin, RashError>)
        ensures
            match builtin_named(s@) {
                Some(b) => r == Ok::<Builtin, RashError>(b),
                None => r matches Err(RashError::InvalidVariant { input }) && input@ == s@,
            },
    {
        if str_equal(s, "cd") {
            Ok(Builtin::CD)
        } else if str_equal(s, "exit") {
            Ok(Builtin::Exit)
        } else if str_equal(s, "export") {
            Ok(Builtin::Export)
        } else {
            Err(RashError::InvalidVariant { input: String::from_str(s) })
        }
    }
}

impl std::str::FromStr for Builtin {
    type Err = RashError;

    /// The same classification as `Builtin::classify`.
    fn from_str(s: &str) -> (r: Result<Self, Self::Err>)
        ensures
            match builtin_named(s@) {
                Some(b) => r == Ok::<Builtin, RashError>(b),
                None => r matches Err(RashError::InvalidVariant { input }) && input@ == s@,
            },
    {
        Builtin::classify(s)
    }
}

} // verus!
