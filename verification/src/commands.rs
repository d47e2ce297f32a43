//! The decisions of the command line: which files it checks and how it exits.
use vstd::prelude::*;

verus! {

/// How the command line exits.
#[derive(Clone, Copy, Debug, PartialEq, Eq, Structural)]
pub enum ExitStatus {
    Success,
    LintFailure,
    Error,
}

impl ExitStatus {
    /// The process exit code: 0, 1 and 2 in turn.
    pub open spec fn spec_code(self) -> int {
        match self {
            ExitStatus::Success => 0,
            ExitStatus::LintFailure => 1,
            ExitStatus::Error => 2,
        }
    }

    /// The process exit code for this status.
    pub fn code(self) -> (r: i32)
        ensures
            r == self.spec_code(),
    {
        match self {
            ExitStatus::Success => 0,
            ExitStatus::LintFailure => 1,
            ExitStatus::Error => 2,
        }
    }
}

/// The status of a failure of kind `failure`: success all the same when asked to
/// exit with zero.
pub open spec fn failure_status_spec(failure: ExitStatus, exit_zero: bool) -> ExitStatus {
    if exit_zero { ExitStatus::Success } else { failure }
}

/// The status after a failure of kind `failure` (a path that does not exist is an
/// error; lint findings, or no file to check, a lint failure).
pub fn failure_status(failure: ExitStatus, exit_zero: bool) -> (r: ExitStatus)
    ensures
        r == failure_status_spec(failure, exit_zero),
{
    if exit_zero { ExitStatus::Success } else { failure }
}

/// The status after checking one query: success when it is valid or when asked to
/// exit with zero, a lint failure otherwise.
pub fn query_status(is_valid: bool, exit_zero: bool) -> (r: ExitStatus)
    ensures
        r == (if is_valid || exit_zero { ExitStatus::Success } else { ExitStatus::LintFailure }),
{
    if is_valid || exit_zero { ExitStatus::Success } else { ExitStatus::LintFailure }
}

/// Whether `ext` is one of `extensions`.
pub open spec fn extension_listed(ext: Seq<char>, extensions: Seq<String>) -> bool {
    exists|i: int| 0 <= i < extensions.len() && (#[trigger] extensions[i])@ == ext
}

/// Whether a file with the extension `file_ext` is to be checked: it has one,
/// and it is one of `extensions`.
pub fn matches_extensions(file_ext: Option<&str>, extensions: &Vec<String>) -> (r: bool)
    ensures
        r == (file_ext is Some && extension_listed(file_ext.unwrap()@, extensions@)),
{
    match file_ext {
        None => false,
        Some(e) => {
            let mut i: usize = 0;
            while i < extensions.len()
                invariant
                    file_ext == Some(e),
                    0 <= i <= extensions@.len(),
                    forall|k: int| 0 <= k < i ==> (#[trigger] extensions@[k])@ != e@,
                decreases extensions@.len() - i,
            {
                if crate::text::str_eq(extensions[i].as_str(), e) {
                    assert(extensions@[i as int]@ == e@);
                    return true;
                }
                i += 1;
            }
            false
        },
    }
}

/// The text the `examples` command prints.
pub open spec fn examples_text() -> Seq<char> {
    "Brandwatch Query Examples:\n\nBasic Boolean Operators:\n  apple AND juice\n  apple OR orange\n  apple NOT bitter\n  (apple OR orange) AND juice\n\nQuoted Phrases:\n  \"apple juice\"\n  \"organic fruit\" AND healthy\n\nProximity Operators:\n  \"apple juice\"~5\n  apple NEAR/3 juice\n  apple NEAR/2f juice\n\nWildcards and Replacement:\n  appl*\n  customi?e\n\nField Operators:\n  title:\"apple juice\"\n  site:twitter.com\n  author:brandwatch\n  language:en\n  rating:[3 TO 5]\n\nLocation Operators:\n  country:usa\n  region:usa.ca\n  city:\"usa.ca.san francisco\"\n\nAdvanced Operators:\n  authorFollowers:[1000 TO 50000]\n  engagementType:RETWEET\n  authorGender:F\n  {BrandWatch}  (case-sensitive)\n\nComments:\n  apple <<<This is a comment>>> AND juice\n\nSpecial Characters:\n  #MondayMotivation\n  @brandwatch\n\n"@
}

/// The `examples` command: the example queries to print, and success.
pub fn run_examples() -> (r: (String, ExitStatus))
    ensures
        r.0@ == examples_text(),
        r.1 == ExitStatus::Success,
{
    let text = crate::text::owned("Brandwatch Query Examples:\n\nBasic Boolean Operators:\n  apple AND juice\n  apple OR orange\n  apple NOT bitter\n  (apple OR orange) AND juice\n\nQuoted Phrases:\n  \"apple juice\"\n  \"organic fruit\" AND healthy\n\nProximity Operators:\n  \"apple juice\"~5\n  apple NEAR/3 juice\n  apple NEAR/2f juice\n\nWildcards and Replacement:\n  appl*\n  customi?e\n\nField Operators:\n  title:\"apple juice\"\n  site:twitter.com\n  author:brandwatch\n  language:en\n  rating:[3 TO 5]\n\nLocation Operators:\n  country:usa\n  region:usa.ca\n  city:\"usa.ca.san francisco\"\n\nAdvanced Operators:\n  authorFollowers:[1000 TO 50000]\n  engagementType:RETWEET\n  authorGender:F\n  {BrandWatch}  (case-sensitive)\n\nComments:\n  apple <<<This is a comment>>> AND juice\n\nSpecial Characters:\n  #MondayMotivation\n  @brandwatch\n\n");
    (text, ExitStatus::Success)
}

} // verus!
