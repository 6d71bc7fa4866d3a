//! Process configuration data: the runtime environment switch and the
//! application's listening address. Reading configuration files and
//! environment variables is the surrounding program's business; the
//! types and the environment-name parsing live here.

use vstd::prelude::*;
use vstd::string::{StrSliceExecFns, StringExecFns};

verus! {

/// `c` lowered to its ASCII lowercase: letters `A`-`Z` move down by the
/// case distance, everything else stays.
pub open spec fn lower_char(c: char) -> char {
    if 'A' <= c && c <= 'Z' {
        (((c as u32) + 32) as u8) as char
    } else {
        c
    }
}

/// `a` and `b` are the same word up to ASCII case.
pub open spec fn eq_ignore_ascii_case(a: Seq<char>, b: Seq<char>) -> bool {
    a.len() == b.len() && forall|i: int|
        0 <= i < a.len() ==> lower_char(a[i]) == lower_char(b[i])
}

fn lower_char_exec(c: char) -> (r: char)
    ensures
        r == lower_char(c),
{
    if 'A' <= c && c <= 'Z' {
        ((c as u8) + 32) as char
    } else {
        c
    }
}

fn str_eq_ignore_case(a: &str, b: &str) -> (r: bool)
    ensures
        r == eq_ignore_ascii_case(a@, b@),
{
    let n = a.unicode_len();
    let m = b.unicode_len();
    if n != m {
        return false;
    }
    let mut i: usize = 0;
    while i < n
        invariant
            i <= n,
            n == a@.len(),
            n == b@.len(),
            forall|j: int| 0 <= j < i ==> lower_char(a@[j]) == lower_char(b@[j]),
        decreases n - i,
    {
        let ca = a.get_char(i);
        let cb = b.get_char(i);
        if lower_char_exec(ca) != lower_char_exec(cb) {
            return false;
        }
        i += 1;
    }
    true
}

/// Where the process runs: development defaults or production settings.
#[derive(Clone, Copy, PartialEq, Eq, Structural, Debug)]
pub enum Environment {
    Local,
    Production,
}

impl Environment {
    /// The canonical name of the environment.
    pub fn to_str(&self) -> (r: &'static str)
        ensures
            (match self {
                Environment::Local => r@ == "local"@,
                Environment::Production => r@ == "production"@,
            }),
    {
        match self {
            Environment::Local => "local",
            Environment::Production => "production",
        }
    }

    /// Parse an environment name, ignoring ASCII case. Any other name is
    /// rejected with a message that starts with the offending value.
    pub fn try_from(value: String) -> (r: Result<Environment, String>)
        ensures
            eq_ignore_ascii_case(value@, "local"@) ==> r == Ok::<Environment, String>(
                Environment::Local,
            ),
            !eq_ignore_ascii_case(value@, "local"@) && eq_ignore_ascii_case(
                value@,
                "production"@,
            ) ==> r == Ok::<Environment, String>(Environment::Production),
            !eq_ignore_ascii_case(value@, "local"@) && !eq_ignore_ascii_case(
                value@,
                "production"@,
            ) ==> (r matches Err(m) && m@ == value@
                + " is not a supported environment. Use either `local` or `production`"@),
    {
        if str_eq_ignore_case(value.as_str(), "local") {
            Ok(Environment::Local)
        } else if str_eq_ignore_case(value.as_str(), "production") {
            Ok(Environment::Production)
        } else {
            Err(value.concat(" is not a supported environment. Use either `local` or `production`"))
        }
    }
}

/// Where the application listens.
pub struct ApplicationSettings {
    pub host: String,
    pub port: u16,
}

} // verus!
