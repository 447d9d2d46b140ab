use vstd::prelude::*;

verus! {

/// Whether `regex::Regex::new` accepts `pattern`.
pub uninterp spec fn regex_accepts(pattern: Seq<char>) -> bool;

/// The first match that `regex::Regex::find` reports for `pattern` in
/// `haystack`, as a range of character positions `(start, end)`.
pub uninterp spec fn regex_find(pattern: Seq<char>, haystack: Seq<char>) -> Option<(int, int)>;

/// Relies on `regex::Regex::new`: whether a pattern compiles depends on the
/// pattern alone.
#[verifier::external_body]
pub(crate) fn regex_compiles(pattern: &str) -> (r: bool)
    ensures
        r == regex_accepts(pattern@),
{
    regex::Regex::new(pattern).is_ok()
}

/// Relies on `regex::Regex::new` and `regex::Regex::find`: compiles `pattern`
/// and reports the first match in `haystack`, split into the text before the
/// match, the match itself and the text after it. A pattern that does not
/// compile matches nothing.
#[verifier::external_body]
pub(crate) fn find_regex<'h>(pattern: &str, haystack: &'h str) -> (r: Option<(&'h str, &'h str, &'h str)>)
    ensures
        !regex_accepts(pattern@) ==> r is None,
        regex_accepts(pattern@) ==> (r is Some <==> regex_find(pattern@, haystack@) is Some),
        r matches Some((before, found, after)) ==> haystack@ == before@ + found@ + after@
            && regex_find(pattern@, haystack@) == Some(
            (before@.len() as int, (before@.len() + found@.len()) as int),
        ),
{
    match regex::Regex::new(pattern) {
        Ok(re) => re.find(haystack).map(|m| (&haystack[..m.start()], m.as_str(), &haystack[m.end()..])),
        Err(_) => None,
    }
}

} // verus!
