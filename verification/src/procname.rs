use vstd::prelude::*;
use vstd::string::StringExecFns;

verus! {

/// What lowercasing returns for a given string: a function of the
/// characters alone.
pub uninterp spec fn lower_of(s: Seq<char>) -> Seq<char>;

/// Relies on `str::to_lowercase`: the lowercase form of a string depends
/// on its characters alone.
#[verifier::external_body]
fn to_lowercase(s: &str) -> (r: String)
    ensures
        r@ == lower_of(s@),
{
    s.to_lowercase()
}

/// Whether a running process's name matches the requested name: equal
/// ignoring case, directly or with an `.exe` suffix on the process name.
pub fn process_name_matches(process_name: &str, target: &str) -> (r: bool)
    ensures
        r == (lower_of(process_name@) == lower_of(target@) || lower_of(process_name@) == lower_of(
            target@,
        ) + ".exe"@),
{
    let lp = to_lowercase(process_name);
    let lt = to_lowercase(target);
    if lp == lt {
        return true;
    }
    let lt_exe = lt.concat(".exe");
    lp == lt_exe
}

} // verus!
