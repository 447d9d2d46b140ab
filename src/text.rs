use vstd::prelude::*;

verus! {

/// Relies on `str::strip_prefix`: `Some` of what follows `prefix` when `s`
/// starts with it, `None` otherwise.
#[verifier::external_body]
pub(crate) fn strip_prefix<'h>(s: &'h str, prefix: &str) -> (r: Option<&'h str>)
    ensures
        r is Some <==> prefix@.is_prefix_of(s@),
        r matches Some(rest) ==> s@ == prefix@ + rest@,
{
    s.strip_prefix(prefix)
}

} // verus!
