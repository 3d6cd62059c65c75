//! The naming rule enforced when user-declared schema types register:
//! names the pagination machinery claims for itself are reserved.

use vstd::prelude::*;
use crate::strutil::str_eq;

verus! {

/// Whether `s` ends with `suffix`.
pub open spec fn ends_with_spec(s: Seq<char>, suffix: Seq<char>) -> bool {
    s.len() >= suffix.len() && s.subrange(s.len() - suffix.len(), s.len() as int) == suffix
}

/// Checks whether `s` ends with `suffix`.
pub fn str_ends_with(s: &str, suffix: &str) -> (r: bool)
    ensures
        r == ends_with_spec(s@, suffix@),
{
    let n = s.unicode_len();
    let m = suffix.unicode_len();
    if m > n {
        false
    } else {
        let tail = s.substring_char(n - m, n);
        str_eq(tail, suffix)
    }
}

/// A reserved user-facing type name: one ending in `Connection`, or
/// `PageInfo` itself.
pub open spec fn reserved_name(n: Seq<char>) -> bool {
    ends_with_spec(n, "Connection"@) || n == "PageInfo"@
}

/// Rejects a reserved user-facing type name; internal registrations are
/// exempt.
pub fn check_reserved_name(name: &str, internal: bool) -> (r: Result<(), &'static str>)
    ensures
        r is Ok <==> (internal || !reserved_name(name@)),
        !internal && ends_with_spec(name@, "Connection"@) ==> (r matches Err(m) && m@
            == "The name ending with 'Connection' is reserved"@),
        !internal && !ends_with_spec(name@, "Connection"@) && name@ == "PageInfo"@ ==> (
        r matches Err(m) && m@ == "The name 'PageInfo' is reserved"@),
{
    if internal {
        return Ok(());
    }
    if str_ends_with(name, "Connection") {
        Err("The name ending with 'Connection' is reserved")
    } else if str_eq(name, "PageInfo") {
        Err("The name 'PageInfo' is reserved")
    } else {
        Ok(())
    }
}

} // verus!
