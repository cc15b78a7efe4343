//! Records of repositories at given versions.
use vstd::prelude::*;

verus! {

broadcast use vstd::string::group_string_axioms;

/// A repository at a version: name, commit, URL and tag.
#[derive(Debug)]
pub struct RepoAtVer {
    name: String,
    sha: String,
    url: String,
    tag: String,
}

impl View for RepoAtVer {
    /// (name, sha, url, tag)
    type V = (Seq<char>, Seq<char>, Seq<char>, Seq<char>);

    closed spec fn view(&self) -> (Seq<char>, Seq<char>, Seq<char>, Seq<char>) {
        (self.name@, self.sha@, self.url@, self.tag@)
    }
}

impl RepoAtVer {
    pub fn new(name: String, sha: String, url: String, tag: String) -> (r: Self)
        ensures
            r@ == (name@, sha@, url@, tag@),
    {
        RepoAtVer { name, sha, url, tag }
    }

    pub fn name(&self) -> (r: &str)
        ensures
            r@ == self@.0,
    {
        self.name.as_str()
    }

    pub fn sha(&self) -> (r: &str)
        ensures
            r@ == self@.1,
    {
        self.sha.as_str()
    }

    pub fn url(&self) -> (r: &str)
        ensures
            r@ == self@.2,
    {
        self.url.as_str()
    }

    pub fn tag(&self) -> (r: &str)
        ensures
            r@ == self@.3,
    {
        self.tag.as_str()
    }
}

/// Whether a batch over repositories stops before the next one: a limit of
/// zero means no limit; otherwise the batch stops once `counter` repositories
/// have been counted.
pub fn clone_limit_reached(max_cloned: u32, counter: u32) -> (r: bool)
    ensures
        r == (max_cloned != 0 && counter >= max_cloned),
{
    max_cloned != 0 && counter >= max_cloned
}

} // verus!
