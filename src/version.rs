//! What a resolved version means for a request: serve it, redirect, or not found.
use vstd::prelude::*;
use crate::paths::{join, segments_view};
use crate::text::{chars_of, string_of};

verus! {

/// How the requested version of a package matched the stored releases.
#[derive(Debug, PartialEq, Eq)]
pub enum VersionMatch {
    /// The request named a stored release exactly.
    Exact { name: String, version: String },
    /// A stored release matched by relaxed rules (a semver range, a wildcard,
    /// a corrected name); `name` and `version` are the canonical ones.
    FuzzyRedirect { name: String, version: String },
    /// No release matches.
    NotFound,
}

/// The next step of a request once its version is resolved.
#[derive(Debug, PartialEq, Eq)]
pub enum VersionStep {
    Serve { name: String, version: String },
    Redirect(String),
    NotFound,
}

/// `/crate/`
pub open spec fn crate_segment() -> Seq<char> {
    seq!['/', 'c', 'r', 'a', 't', 'e', '/']
}

/// `/source/`
pub open spec fn source_segment() -> Seq<char> {
    seq!['/', 's', 'o', 'u', 'r', 'c', 'e', '/']
}

/// The canonical source path of `sub` in release `version` of `name`.
pub open spec fn source_path(name: Seq<char>, version: Seq<char>, sub: Seq<char>) -> Seq<char> {
    crate_segment() + name + seq!['/'] + version + source_segment() + sub
}

/// The canonical source path of `sub` in release `version` of `name`.
pub fn redirect_path(name: &str, version: &str, sub: &str) -> (r: String)
    ensures
        r@ == source_path(name@, version@, sub@),
{
    let mut v: Vec<char> = vec!['/', 'c', 'r', 'a', 't', 'e', '/'];
    let mut n = chars_of(name);
    v.append(&mut n);
    v.push('/');
    let mut ver = chars_of(version);
    v.append(&mut ver);
    let mut src: Vec<char> = vec!['/', 's', 'o', 'u', 'r', 'c', 'e', '/'];
    v.append(&mut src);
    let mut s = chars_of(sub);
    v.append(&mut s);
    assert(v@ =~= source_path(name@, version@, sub@));
    string_of(&v)
}

/// Serve an exact match, redirect a fuzzy one to its canonical path with the
/// rest of the request path kept, and report no match as not found.
pub fn version_step(m: VersionMatch, segs: &Vec<String>) -> (r: VersionStep)
    ensures
        m is NotFound <==> r is NotFound,
        m matches VersionMatch::Exact { name, version } ==> r == (VersionStep::Serve { name, version }),
        m matches VersionMatch::FuzzyRedirect { name, version } ==> r matches VersionStep::Redirect(p)
            && p@ == source_path(name@, version@, join(segments_view(segs@))),
{
    match m {
        VersionMatch::Exact { name, version } => VersionStep::Serve { name, version },
        VersionMatch::FuzzyRedirect { name, version } => {
            let sub = crate::paths::file_path_of(segs);
            VersionStep::Redirect(redirect_path(name.as_str(), version.as_str(), sub.as_str()))
        },
        VersionMatch::NotFound => VersionStep::NotFound,
    }
}

/// A redirect keeps the sub-path of the request exactly, at its end, after
/// the canonical name, version and `/source/`.
pub proof fn lemma_redirect_keeps_sub_path(name: Seq<char>, version: Seq<char>, segs: Seq<Seq<char>>)
    ensures
        ({
            let p = source_path(name, version, join(segs));
            let head = crate_segment() + name + seq!['/'] + version + source_segment();
            &&& p.take(head.len() as int) == head
            &&& p.skip(head.len() as int) == join(segs)
        }),
{
    let p = source_path(name, version, join(segs));
    let head = crate_segment() + name + seq!['/'] + version + source_segment();
    assert(p.take(head.len() as int) =~= head);
    assert(p.skip(head.len() as int) =~= join(segs));
}

} // verus!
