use vstd::prelude::*;

verus! {

/// Whether the regular expression `pat` matches somewhere in `text`, as the
/// regex engine decides it; a pattern that is not valid regex syntax matches
/// nothing. The result depends on the two character sequences alone.
pub uninterp spec fn regex_match(pat: Seq<char>, text: Seq<char>) -> bool;

/// Relies on regex::Regex::new and regex::Regex::is_match: compiling a
/// pattern and testing a text against it is deterministic in the pattern and
/// the text; a pattern the engine rejects as invalid matches no text.
#[verifier::external_body]
pub(crate) fn regex_segment_match(pat: &str, text: &str) -> (r: bool)
    ensures
        r == regex_match(pat@, text@),
{
    match regex::Regex::new(pat) {
        Ok(re) => re.is_match(text),
        Err(_) => false,
    }
}

} // verus!
