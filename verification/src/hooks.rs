//! The git hooks that every project of a tree gets.
use vstd::prelude::*;

verus! {

/// The hook that gives every commit message a `Change-Id`.
pub const COMMIT_MSG: &'static str = "#!/bin/sh\n# Adds a Change-Id to the commit message where it has none.\nset -eu\nmessage=\"$1\"\nif grep -q '^Change-Id: I[0-9a-f]\\{40\\}$' \"$message\"; then\n  exit 0\nfi\nif ! grep -v '^#' \"$message\" | grep -q '[^[:space:]]'; then\n  exit 0\nfi\nid=$( (git var GIT_COMMITTER_IDENT; git var GIT_AUTHOR_IDENT; cat \"$message\") | git hash-object --stdin)\nexec git interpret-trailers --in-place --where end --trailer \"Change-Id: I$id\" \"$message\"\n";

/// A hook: the name of its file, and what the file holds.
pub struct Hook {
    pub name: &'static str,
    pub contents: &'static str,
}

/// The hooks that every project of a tree gets.
pub fn hooks() -> (r: Vec<Hook>)
    ensures
        r@.len() == 1,
        r@[0].name@ == "commit-msg"@,
        r@[0].contents@ == COMMIT_MSG@,
{
    let mut r: Vec<Hook> = Vec::new();
    r.push(Hook { name: "commit-msg", contents: COMMIT_MSG });
    r
}

} // verus!
