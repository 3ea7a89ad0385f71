//! Regular expressions, by the `regex` crate.
use regex::Regex;
use vstd::prelude::*;

verus! {

#[verifier::external_type_specification]
#[verifier::external_body]
pub struct ExRegex(regex::Regex);

/// The texts in which a compiled expression finds a match.
pub uninterp spec fn language(re: Regex) -> Set<Seq<char>>;

/// What compiling an expression gives: the texts that it finds a match in, or what is
/// wrong with it.
pub uninterp spec fn compiled(pattern: Seq<char>) -> std::result::Result<
    Set<Seq<char>>,
    Seq<char>,
>;

/// Compiles an expression (`regex::Regex::new`). Whether that succeeds, which texts the
/// expression matches and how a failure is worded depend on the expression alone; what
/// they are is left to the crate.
#[verifier::external_body]
pub(crate) fn compile(pattern: &str) -> (r: std::result::Result<Regex, String>)
    ensures
        match r {
            Ok(re) => compiled(pattern@) == Ok::<Set<Seq<char>>, Seq<char>>(language(re)),
            Err(e) => compiled(pattern@) == Err::<Set<Seq<char>>, Seq<char>>(e@),
        },
{
    Regex::new(pattern).map_err(|e| e.to_string())
}

/// Whether an expression finds a match in a text (`regex::Regex::is_match`): whether the
/// text is one of those that the expression matches.
#[verifier::external_body]
pub(crate) fn is_match(re: &Regex, text: &str) -> (r: bool)
    ensures
        r == language(*re).contains(text@),
{
    re.is_match(text)
}

} // verus!
