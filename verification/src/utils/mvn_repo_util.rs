//! Names and addresses of artifact files in the Maven central repository.
use vstd::prelude::*;

use crate::pomdep::{coord_text, MvnCoord};
use crate::text::{
    all_white, chars_of, has_prefix, has_white, is_white_char, owned, replace_char, replace_char_str,
    split_words, string_of, words,
};
use crate::utils::err::{DepError, ErrorKind};

verus! {

broadcast use vstd::string::group_string_axioms;

/// Which file of an artifact: the jar, its tests jar, its sources jar or
/// its test sources jar.
#[derive(PartialEq, Eq, Structural, Debug, Clone, Copy)]
pub enum JarKind {
    Jar,
    Tests,
    Sources,
    TestSources,
}

/// The file name suffix of a kind of jar.
pub open spec fn jar_suffix(kind: JarKind) -> Seq<char> {
    match kind {
        JarKind::Jar => ".jar"@,
        JarKind::Tests => "-tests.jar"@,
        JarKind::Sources => "-sources.jar"@,
        JarKind::TestSources => "-test-sources.jar"@,
    }
}

/// `artifact-version` followed by the kind's suffix.
pub open spec fn jar_file_text(c: (Seq<char>, Seq<char>, Seq<char>), kind: JarKind) -> Seq<char> {
    c.1 + "-"@ + c.2 + jar_suffix(kind)
}

/// The repository path of an artifact file: the group with `.` read as
/// `/`, then artifact, version and file name, `/`-separated.
pub open spec fn repo_path_text(c: (Seq<char>, Seq<char>, Seq<char>), kind: JarKind) -> Seq<char> {
    replace_char(c.0, '.', "/"@) + "/"@ + c.1 + "/"@ + c.2 + "/"@ + jar_file_text(c, kind)
}

/// The Maven central repository, the base of every artifact URL.
pub open spec fn central_base() -> Seq<char> {
    "https://repo1.maven.org/maven2/"@
}

/// The file name of an artifact file of the given kind.
pub fn jar_file_name(coord: &MvnCoord, kind: JarKind) -> (r: String)
    ensures
        r@ == jar_file_text(coord@, kind),
{
    let mut r = owned(coord.artifact_id());
    r.append("-");
    r.append(coord.version_id());
    match kind {
        JarKind::Jar => r.append(".jar"),
        JarKind::Tests => r.append("-tests.jar"),
        JarKind::Sources => r.append("-sources.jar"),
        JarKind::TestSources => r.append("-test-sources.jar"),
    }
    r
}

/// `artifact-version.jar`
pub fn jar_name(coord: &MvnCoord) -> (r: String)
    ensures
        r@ == jar_file_text(coord@, JarKind::Jar),
{
    jar_file_name(coord, JarKind::Jar)
}

/// `artifact-version-tests.jar`
pub fn tests_jar_name(coord: &MvnCoord) -> (r: String)
    ensures
        r@ == jar_file_text(coord@, JarKind::Tests),
{
    jar_file_name(coord, JarKind::Tests)
}

/// `artifact-version-sources.jar`
pub fn source_jar_name(coord: &MvnCoord) -> (r: String)
    ensures
        r@ == jar_file_text(coord@, JarKind::Sources),
{
    jar_file_name(coord, JarKind::Sources)
}

/// `artifact-version-test-sources.jar`
pub fn test_source_jar_name(coord: &MvnCoord) -> (r: String)
    ensures
        r@ == jar_file_text(coord@, JarKind::TestSources),
{
    jar_file_name(coord, JarKind::TestSources)
}

/// The path of an artifact file in a Maven repository, e.g.
/// `org/assertj/assertj-core/3.20.2/assertj-core-3.20.2-tests.jar`.
pub fn repo_path_segments(coord: &MvnCoord, kind: JarKind) -> (r: String)
    ensures
        r@ == repo_path_text(coord@, kind),
{
    let mut r = replace_char_str(coord.group_id(), '.', "/");
    r.append("/");
    r.append(coord.artifact_id());
    r.append("/");
    r.append(coord.version_id());
    r.append("/");
    let f = jar_file_name(coord, kind);
    r.append(f.as_str());
    r
}

/// The URL that `reference` resolves to against `base`, as the `url`
/// crate resolves it, or `None` where it reports a parse error.
pub uninterp spec fn url_resolution(base: Seq<char>, reference: Seq<char>) -> Option<Seq<char>>;

/// Parses `base` with `url::Url::parse` and resolves `reference` against it
/// with `Url::join`, giving the serialization of the result. Trusted: the
/// outcome is the one `url_resolution` names for the two strings.
#[verifier::external_body]
fn resolve_url(base: &str, reference: &str) -> (r: Result<String, url::ParseError>)
    ensures
        r is Ok == url_resolution(base@, reference@) is Some,
        r matches Ok(s) ==> s@ == url_resolution(base@, reference@)->0,
{
    match url::Url::parse(base) {
        Ok(b) => b.join(reference).map(String::from),
        Err(e) => Err(e),
    }
}

/// The URL of a repository path in the Maven central repository; a
/// `UrlParseErr` where the path cannot be joined to it.
pub fn maven_central_url(path_seg: &str) -> (r: Result<String, DepError>)
    ensures
        match url_resolution(central_base(), path_seg@) {
            Some(u) => r matches Ok(s) && s@ == u,
            None => r matches Err(e) && e.kind_view() is UrlParseErr,
        },
{
    match resolve_url("https://repo1.maven.org/maven2/", path_seg) {
        Ok(s) => Ok(s),
        Err(e) => Err(DepError::new(ErrorKind::UrlParseErr(e))),
    }
}

/// The central repository URL of an artifact file.
pub fn artifact_url(coord: &MvnCoord, kind: JarKind) -> (r: Result<String, DepError>)
    ensures
        match url_resolution(central_base(), repo_path_text(coord@, kind)) {
            Some(u) => r matches Ok(s) && s@ == u,
            None => r matches Err(e) && e.kind_view() is UrlParseErr,
        },
{
    let seg = repo_path_segments(coord, kind);
    maven_central_url(seg.as_str())
}

/// The directory name under which an artifact's files are stored:
/// `group--artifact--version` (every `:` of `group:artifact:version` read as
/// `--`).
pub open spec fn store_dir_text(c: (Seq<char>, Seq<char>, Seq<char>)) -> Seq<char> {
    replace_char(coord_text(c), ':', "--"@)
}

/// The directory name under which an artifact's files are stored.
pub fn jar_store_dir_name(coord: &MvnCoord) -> (r: String)
    ensures
        r@ == store_dir_text(coord@),
{
    let t = coord.to_string();
    replace_char_str(t.as_str(), ':', "--")
}

/// The character is ASCII (one byte in UTF-8).
pub open spec fn is_ascii_char(c: char) -> bool {
    (c as u32) < 128
}

/// A line of a coordinate list is a comment (it starts with `#`) or blank.
pub open spec fn list_line_skipped(l: Seq<char>) -> bool {
    has_prefix(l, "#"@) || all_white(l)
}

/// A line of a coordinate list can be read: it is skipped, or it holds no
/// whitespace, or (a Gradle short declaration such as
/// `implementation 'g:a:v'`) its second word has two ASCII characters around
/// the coordinate.
pub open spec fn list_line_readable(l: Seq<char>) -> bool {
    ||| list_line_skipped(l)
    ||| !has_white(l)
    ||| {
        let w = words(l);
        &&& w.len() >= 2
        &&& w[1].len() >= 2
        &&& is_ascii_char(w[1][0])
        &&& is_ascii_char(w[1].last())
    }
}

/// The coordinate text a line of a coordinate list holds: none for a comment
/// or blank line; for a line with whitespace, its second word without its
/// first and last characters (the quotes of a Gradle declaration); else the
/// line itself.
pub open spec fn list_line_coord(l: Seq<char>) -> Option<Seq<char>> {
    if list_line_skipped(l) {
        None
    } else if has_white(l) {
        let w = words(l)[1];
        Some(w.subrange(1, w.len() - 1))
    } else {
        Some(l)
    }
}

/// Whether a line of a coordinate list can be read (see
/// `list_line_readable`).
pub fn is_list_line_readable(line: &str) -> (r: bool)
    ensures
        r == list_line_readable(line@),
{
    if line_is_skipped(line) || !line_has_white(line) {
        return true;
    }
    let w = split_words(line);
    if w.len() < 2 {
        return false;
    }
    let cs = chars_of(w[1].as_str());
    cs.len() >= 2 && (cs[0] as u32) < 128 && (cs[cs.len() - 1] as u32) < 128
}

fn line_is_skipped(line: &str) -> (r: bool)
    ensures
        r == list_line_skipped(line@),
{
    let cs = chars_of(line);
    proof {
        reveal_strlit("#");
    }
    if cs.len() > 0 && cs[0] == '#' {
        assert(line@.subrange(0, 1) =~= "#"@);
        return true;
    }
    proof {
        if has_prefix(line@, "#"@) {
            assert(line@.subrange(0, 1)[0] == line@[0]);
        }
    }
    let mut i: usize = 0;
    while i < cs.len()
        invariant
            i <= cs.len(),
            cs@ == line@,
            !has_prefix(line@, "#"@),
            forall|j: int| 0 <= j < i ==> crate::text::is_white(#[trigger] line@[j]),
        decreases cs.len() - i,
    {
        if !is_white_char(cs[i]) {
            assert(!crate::text::is_white(line@[i as int]));
            assert(!all_white(line@));
            return false;
        }
        i = i + 1;
    }
    true
}

fn line_has_white(line: &str) -> (r: bool)
    ensures
        r == has_white(line@),
{
    let cs = chars_of(line);
    let mut i: usize = 0;
    while i < cs.len()
        invariant
            i <= cs.len(),
            cs@ == line@,
            forall|j: int| 0 <= j < i ==> !crate::text::is_white(#[trigger] line@[j]),
        decreases cs.len() - i,
    {
        if is_white_char(cs[i]) {
            return true;
        }
        i = i + 1;
    }
    false
}

/// The coordinate text a line of a coordinate list holds (see
/// `list_line_coord`).
pub fn coord_of_list_line(line: &str) -> (r: Option<String>)
    requires
        list_line_readable(line@),
    ensures
        match list_line_coord(line@) {
            Some(c) => r matches Some(s) && s@ == c,
            None => r is None,
        },
{
    if line_is_skipped(line) {
        return None;
    }
    if !line_has_white(line) {
        return Some(owned(line));
    }
    let w = split_words(line);
    let cs = chars_of(w[1].as_str());
    let mut inner: Vec<char> = Vec::new();
    let mut i: usize = 1;
    while i + 1 < cs.len()
        invariant
            1 <= i <= cs.len() - 1,
            cs.len() >= 2,
            inner@ == cs@.subrange(1, i as int),
        decreases cs.len() - i,
    {
        inner.push(cs[i]);
        i = i + 1;
        assert(inner@ =~= cs@.subrange(1, i as int));
    }
    Some(string_of(&inner))
}

} // verus!
