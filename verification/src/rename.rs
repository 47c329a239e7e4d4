//! Renaming of projects by regular expressions.
use vstd::prelude::*;

verus! {

/// Why a text is no regular expression, where it is none.
pub uninterp spec fn regex_fault(pattern: Seq<char>) -> Option<Seq<char>>;

/// The text is a regular expression.
pub open spec fn regex_valid(pattern: Seq<char>) -> bool {
    regex_fault(pattern) is None
}

/// The regular expression matches somewhere in the text.
pub uninterp spec fn regex_matches(pattern: Seq<char>, text: Seq<char>) -> bool;

/// The text with the leftmost match of the regular expression replaced.
pub uninterp spec fn regex_replaced(
    pattern: Seq<char>,
    text: Seq<char>,
    replacement: Seq<char>,
) -> Seq<char>;

/// Compiles a regular expression, and gives the reason where the text is none.
///
/// Calls `regex::Regex::new`. Whether it fails, and with which message, is a function of the
/// pattern alone, named `regex_fault` here.
#[verifier::external_body]
fn check_pattern(pattern: &str) -> (r: Result<(), String>)
    ensures
        match r {
            Ok(_) => regex_fault(pattern@) is None,
            Err(reason) => regex_fault(pattern@) == Some(reason@),
        },
{
    regex::Regex::new(pattern).map(|_| ()).map_err(|e| e.to_string())
}

/// Whether the regular expression matches somewhere in the text.
///
/// Calls `regex::Regex::is_match`, whose result is a function of the pattern and of the text and
/// is named `regex_matches` here.
#[verifier::external_body]
fn pattern_matches(pattern: &str, text: &str) -> (r: bool)
    requires
        regex_valid(pattern@),
    ensures
        r == regex_matches(pattern@, text@),
{
    regex::Regex::new(pattern).unwrap().is_match(text)
}

/// The text with the leftmost match of the regular expression replaced, where `$` in the
/// replacement refers to what groups matched.
///
/// Calls `regex::Regex::replace`, whose result is a function of the pattern, the text and the
/// replacement and is named `regex_replaced` here. Where nothing matches, the text comes back.
#[verifier::external_body]
fn replace_pattern(pattern: &str, text: &str, replacement: &str) -> (r: String)
    requires
        regex_valid(pattern@),
    ensures
        r@ == regex_replaced(pattern@, text@, replacement@),
        !regex_matches(pattern@, text@) ==> r@ == text@,
{
    regex::Regex::new(pattern).unwrap().replace(text, replacement).into_owned()
}

/// A regular expression and what replaces its match in the name of a project.
pub struct ProjectRename {
    regex: String,
    replacement: String,
}

impl ProjectRename {
    /// The regular expression is one.
    #[verifier::type_invariant]
    spec fn well_formed(self) -> bool {
        regex_valid(self.regex@)
    }

    /// The text of the regular expression.
    pub closed spec fn pattern_text(self) -> Seq<char> {
        self.regex@
    }

    /// The text of the replacement.
    pub closed spec fn replacement_text(self) -> Seq<char> {
        self.replacement@
    }

    /// A rename, unless the first text is no regular expression.
    pub fn new(regex: String, replacement: String) -> (r: Result<ProjectRename, String>)
        ensures
            match regex_fault(regex@) {
                None => r is Ok && r->Ok_0.pattern_text() == regex@ && r->Ok_0.replacement_text()
                    == replacement@,
                Some(reason) => r is Err && r->Err_0@ == reason,
            },
    {
        match check_pattern(regex.as_str()) {
            Ok(()) => Ok(ProjectRename { regex, replacement }),
            Err(reason) => Err(reason),
        }
    }

    /// The regular expression.
    pub fn pattern(&self) -> (r: &str)
        ensures
            r@ == self.pattern_text(),
    {
        self.regex.as_str()
    }

    /// The replacement.
    pub fn replacement(&self) -> (r: &str)
        ensures
            r@ == self.replacement_text(),
    {
        self.replacement.as_str()
    }

    /// The name of the project after the rename, where the rename applies to it.
    pub fn rename(&self, project: &str) -> (r: Option<String>)
        ensures
            r.deep_view() == renamed(self.pattern_text(), self.replacement_text(), project@),
    {
        proof {
            use_type_invariant(self);
        }
        if pattern_matches(self.regex.as_str(), project) {
            Some(replace_pattern(self.regex.as_str(), project, self.replacement.as_str()))
        } else {
            None
        }
    }
}

/// The name of a project after a rename, where the regular expression matches somewhere in it.
pub open spec fn renamed(
    pattern: Seq<char>,
    replacement: Seq<char>,
    project: Seq<char>,
) -> Option<Seq<char>> {
    if regex_matches(pattern, project) {
        Some(regex_replaced(pattern, project, replacement))
    } else {
        None
    }
}

/// A rename applies exactly where its regular expression matches somewhere in the name, and then
/// gives what replacing the match does.
pub proof fn law_rename_applies_where_it_matches(
    pattern: Seq<char>,
    replacement: Seq<char>,
    project: Seq<char>,
)
    ensures
        renamed(pattern, replacement, project) is Some <==> regex_matches(pattern, project),
        regex_matches(pattern, project) ==> renamed(pattern, replacement, project) == Some(
            regex_replaced(pattern, project, replacement),
        ),
{
}

} // verus!
