//! A manifest as one document lists it, element by element and with its values as text.
use vstd::prelude::*;

use crate::text::copy_option;

verus! {

/// A manifest as one document lists it.
pub struct Manifest {
    pub remotes: Vec<Remote>,
    pub default: Option<Default>,
    pub manifest_server: Option<ManifestServer>,
    pub projects: Vec<Project>,
    pub repohooks: RepoHooks,
}

/// A remote as it is listed.
pub struct Remote {
    pub name: String,
    pub alias: Option<String>,
    pub fetch: String,
    pub review: Option<String>,
}

/// The default as it is listed.
pub struct Default {
    pub revision: Option<String>,
    pub remote: Option<String>,
    pub syncj: Option<String>,
    pub syncc: Option<String>,
}

/// The manifest server as it is listed.
pub struct ManifestServer {
    pub url: String,
}

/// A project as it is listed.
pub struct Project {
    pub name: String,
    pub path: Option<String>,
    pub remote: Option<String>,
    pub revision: Option<String>,
    pub groups: Option<String>,
    pub syncc: Option<String>,
    pub clone_depth: Option<String>,
    pub linkfiles: Vec<Linkfile>,
    pub copyfiles: Vec<Copyfile>,
}

/// A copy of a file as it is listed.
pub struct Copyfile {
    pub src: String,
    pub dst: String,
}

/// A link to a file as it is listed.
pub struct Linkfile {
    pub src: String,
    pub dst: String,
}

/// The hooks as they are listed.
pub struct RepoHooks {
    pub in_project: Option<String>,
    pub enabled_list: Option<String>,
}

impl Project {
    /// The place of the project in the tree: its path, or its name where it has none.
    pub fn path(&self) -> (r: String)
        ensures
            r@ == match self.path {
                Some(path) => path@,
                None => self.name@,
            },
    {
        match copy_option(&self.path) {
            Some(path) => path,
            None => self.name.clone(),
        }
    }
}

} // verus!
