//! Parsing of the `NAME=VALUE` arguments taken by the `export` builtin.
use vstd::prelude::*;
use vstd::string::*;

verus! {

/// The message that rejects an `export` argument without an `=`.
pub open spec fn not_a_pair_message(s: Seq<char>) -> Seq<char> {
    "`"@ + s + "` is not a name=value pair"@
}

/// Splits `s` at its first `=` into a name and a value. The value may itself
/// hold further `=` characters; an argument without any `=` is rejected with
/// a message that quotes it.
pub fn parse_kv(s: &str) -> (r: Result<(String, String), String>)
    ensures
        match r {
            Ok((k, v)) => s@ == k@ + seq!['='] + v@ && !k@.contains('='),
            Err(e) => !s@.contains('=') && e@ == not_a_pair_message(s@),
        },
{
    let n = s.unicode_len();
    let mut i: usize = 0;
    while i < n
        invariant
            n == s@.len(),
            i <= n,
            forall|j: int| 0 <= j < i ==> s@[j] != '=',
        decreases n - i,
    {
        if s.get_char(i) == '=' {
            let k = String::from_str(s.substring_char(0, i));
            let v = String::from_str(s.substring_char(i + 1, n));
            assert(s@ =~= k@ + seq!['='] + v@);
            assert(!k@.contains('=')) by {
                assert(forall|j: int| 0 <= j < k@.len() ==> k@[j] == s@[j]);
            }
            return Ok((k, v));
        }
        i = i + 1;
    }
    let msg = String::from_str("`").concat(s).concat("` is not a name=value pair");
    Err(msg)
}

/// The message that rejects an `export` pair with an empty name.
pub open spec fn empty_name_message(s: Seq<char>) -> Seq<char> {
    "`"@ + s + "` has an empty name"@
}

/// The message that rejects an `export` pair holding a NUL character.
pub open spec fn nul_message(s: Seq<char>) -> Seq<char> {
    "`"@ + s + "` holds a NUL character"@
}

/// Whether `s` holds the character `c`.
pub fn has_char(s: &str, c: char) -> (r: bool)
    ensures
        r == s@.contains(c),
{
    let n = s.unicode_len();
    let mut i: usize = 0;
    while i < n
        invariant
            n == s@.len(),
            i <= n,
            forall|j: int| 0 <= j < i ==> s@[j] != c,
        decreases n - i,
    {
        if s.get_char(i) == c {
            return true;
        }
        i = i + 1;
    }
    false
}

/// Checks one argument of `export` and splits it into the name and value to
/// set. It is rejected, with a message that quotes it, when it has no `=`,
/// when its name is empty, or when it holds a NUL character: the
/// environment cannot hold such a variable.
pub fn export_pair(s: &str) -> (r: Result<(String, String), String>)
    ensures
        match r {
            Ok((k, v)) => s@ == k@ + seq!['='] + v@ && !k@.contains('=') && k@.len() > 0
                && !s@.contains('\0'),
            Err(e) => if !s@.contains('=') {
                e@ == not_a_pair_message(s@)
            } else if s@[0] == '=' {
                e@ == empty_name_message(s@)
            } else {
                s@.contains('\0') && e@ == nul_message(s@)
            },
        },
{
    match parse_kv(s) {
        Err(e) => Err(e),
        Ok((k, v)) => {
            assert(s@.contains('=')) by {
                assert(s@[k@.len() as int] == '=');
            }
            if k.as_str().unicode_len() == 0 {
                assert(s@[0] == '=');
                Err(String::from_str("`").concat(s).concat("` has an empty name"))
            } else if has_char(s, '\0') {
                assert(s@[0] == k@[0]);
                Err(String::from_str("`").concat(s).concat("` holds a NUL character"))
            } else {
                assert(s@[0] == k@[0]);
                Ok((k, v))
            }
        },
    }
}

} // verus!
