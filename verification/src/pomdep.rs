//! Package-level dependency graphs as stated in POM files.
//!
//! The graph mirrors the JSON that the depgraph Maven plugin writes: nodes
//! (artifacts) carry a numeric id starting from 1, edges (dependencies) refer
//! to nodes by numeric id starting from 0.
use vstd::prelude::*;
use std::collections::{HashMap, HashSet};

use crate::dot_graph::DotStyle;
use crate::text::{
    concat_all, first_index, join_strings, join_with, lemma_first_index_prefix, lemma_first_index_step,
    lemma_split_first_piece, lemma_split_no_sep, owned, replace_char, replace_char_str, spaces, spaces_string,
    split_on, split_str, str_eq, views,
};

verus! {

broadcast use vstd::string::group_string_axioms;

/// The packaging of a Maven artifact.
#[derive(PartialEq, Eq, Structural, Hash, Debug, Clone, Copy)]
pub enum MvnPkgType {
    Jar,
    Pom,
    Bundle,
    Ejb,
    War,
    Ear,
    Rar,
    TestJar,
    MavenPlugin,
    MavenArchetype,
}

impl MvnPkgType {
    /// The variant's name, as it is printed.
    pub open spec fn name_view(self) -> Seq<char> {
        match self {
            MvnPkgType::Jar => "Jar"@,
            MvnPkgType::Pom => "Pom"@,
            MvnPkgType::Bundle => "Bundle"@,
            MvnPkgType::Ejb => "Ejb"@,
            MvnPkgType::War => "War"@,
            MvnPkgType::Ear => "Ear"@,
            MvnPkgType::Rar => "Rar"@,
            MvnPkgType::TestJar => "TestJar"@,
            MvnPkgType::MavenPlugin => "MavenPlugin"@,
            MvnPkgType::MavenArchetype => "MavenArchetype"@,
        }
    }

    /// The variant's name.
    pub fn to_string(&self) -> (r: String)
        ensures
            r@ == self.name_view(),
    {
        match self {
            MvnPkgType::Jar => owned("Jar"),
            MvnPkgType::Pom => owned("Pom"),
            MvnPkgType::Bundle => owned("Bundle"),
            MvnPkgType::Ejb => owned("Ejb"),
            MvnPkgType::War => owned("War"),
            MvnPkgType::Ear => owned("Ear"),
            MvnPkgType::Rar => owned("Rar"),
            MvnPkgType::TestJar => owned("TestJar"),
            MvnPkgType::MavenPlugin => owned("MavenPlugin"),
            MvnPkgType::MavenArchetype => owned("MavenArchetype"),
        }
    }
}

/// The scope of a Maven dependency.
#[derive(PartialEq, Eq, Structural, Hash, Debug, Clone, Copy)]
pub enum MvnScope {
    Compile,
    Provided,
    Runtime,
    Test,
    System,
    Import,
}

impl MvnScope {
    /// The variant's name, as it is printed.
    pub open spec fn name_view(self) -> Seq<char> {
        match self {
            MvnScope::Compile => "Compile"@,
            MvnScope::Provided => "Provided"@,
            MvnScope::Runtime => "Runtime"@,
            MvnScope::Test => "Test"@,
            MvnScope::System => "System"@,
            MvnScope::Import => "Import"@,
        }
    }

    /// The variant's name.
    pub fn to_string(&self) -> (r: String)
        ensures
            r@ == self.name_view(),
    {
        match self {
            MvnScope::Compile => owned("Compile"),
            MvnScope::Provided => owned("Provided"),
            MvnScope::Runtime => owned("Runtime"),
            MvnScope::Test => owned("Test"),
            MvnScope::System => owned("System"),
            MvnScope::Import => owned("Import"),
        }
    }
}

/// How the Maven resolver treated a dependency edge.
#[derive(PartialEq, Eq, Structural, Debug, Clone, Copy)]
pub enum Resolution {
    Included,
    OmittedForDuplicate,
    OmittedForConflict,
}

impl Resolution {
    /// The variant's name, as it is printed.
    pub open spec fn name_view(self) -> Seq<char> {
        match self {
            Resolution::Included => "Included"@,
            Resolution::OmittedForDuplicate => "OmittedForDuplicate"@,
            Resolution::OmittedForConflict => "OmittedForConflict"@,
        }
    }

    /// The variant's name.
    pub fn to_string(&self) -> (r: String)
        ensures
            r@ == self.name_view(),
    {
        match self {
            Resolution::Included => owned("Included"),
            Resolution::OmittedForDuplicate => owned("OmittedForDuplicate"),
            Resolution::OmittedForConflict => owned("OmittedForConflict"),
        }
    }
}

/// A Maven coordinate: group, artifact and version.
#[derive(Hash, Debug)]
pub struct MvnCoord {
    group_id: String,
    artifact_id: String,
    version_id: String,
}

impl View for MvnCoord {
    /// (group, artifact, version)
    type V = (Seq<char>, Seq<char>, Seq<char>);

    closed spec fn view(&self) -> (Seq<char>, Seq<char>, Seq<char>) {
        (self.group_id@, self.artifact_id@, self.version_id@)
    }
}

impl Clone for MvnCoord {
    fn clone(&self) -> (r: Self)
        ensures
            r@ == self@,
    {
        MvnCoord {
            group_id: self.group_id.clone(),
            artifact_id: self.artifact_id.clone(),
            version_id: self.version_id.clone(),
        }
    }
}

impl PartialEq for MvnCoord {
    fn eq(&self, other: &Self) -> (r: bool) {
        self.group_id == other.group_id && self.artifact_id == other.artifact_id
            && self.version_id == other.version_id
    }
}

impl Eq for MvnCoord {}

impl vstd::std_specs::cmp::PartialEqSpecImpl for MvnCoord {
    open spec fn obeys_eq_spec() -> bool {
        true
    }

    open spec fn eq_spec(&self, other: &MvnCoord) -> bool {
        self@ == other@
    }
}

/// `g:a:v`
pub open spec fn coord_text(c: (Seq<char>, Seq<char>, Seq<char>)) -> Seq<char> {
    c.0 + ":"@ + c.1 + ":"@ + c.2
}

/// `g<TAB>a<TAB>v`, one Datalog row.
pub open spec fn coord_dl_text(c: (Seq<char>, Seq<char>, Seq<char>)) -> Seq<char> {
    c.0 + "\t"@ + c.1 + "\t"@ + c.2
}

/// The coordinate a fresh default `MvnCoord` has.
pub open spec fn default_coord() -> (Seq<char>, Seq<char>, Seq<char>) {
    ("DEFAULT_group"@, "DEFAULT_artifact"@, "DEFAULT_version"@)
}

/// The elements a coordinate is matched on: the dot-separated parts of the
/// group and then of the artifact, each with `-` replaced by `_`.
pub open spec fn id_list(c: (Seq<char>, Seq<char>, Seq<char>)) -> Seq<Seq<char>> {
    split_on(replace_char(c.0, '-', "_"@), '.') + split_on(replace_char(c.1, '-', "_"@), '.')
}

impl MvnCoord {
    pub fn group_id(&self) -> (r: &str)
        ensures
            r@ == self@.0,
    {
        self.group_id.as_str()
    }

    pub fn artifact_id(&self) -> (r: &str)
        ensures
            r@ == self@.1,
    {
        self.artifact_id.as_str()
    }

    pub fn version_id(&self) -> (r: &str)
        ensures
            r@ == self@.2,
    {
        self.version_id.as_str()
    }

    pub fn set_group_id(&mut self, group_id: String)
        ensures
            final(self)@ == (group_id@, old(self)@.1, old(self)@.2),
    {
        self.group_id = group_id;
    }

    pub fn set_artifact_id(&mut self, artifact_id: String)
        ensures
            final(self)@ == (old(self)@.0, artifact_id@, old(self)@.2),
    {
        self.artifact_id = artifact_id;
    }

    pub fn set_version_id(&mut self, version_id: String)
        ensures
            final(self)@ == (old(self)@.0, old(self)@.1, version_id@),
    {
        self.version_id = version_id;
    }

    /// None of group, artifact and version is empty.
    pub fn is_all_set(&self) -> (r: bool)
        ensures
            r == (self@.0.len() != 0 && self@.1.len() != 0 && self@.2.len() != 0),
    {
        !self.group_id.as_str().is_empty() && !self.artifact_id.as_str().is_empty()
            && !self.version_id.as_str().is_empty()
    }

    /// The dot-separated parts of the group and then of the artifact, with
    /// `-` replaced by `_`.
    pub fn build_id_list(&self) -> (r: Vec<String>)
        ensures
            views(r@) == id_list(self@),
    {
        let gid = replace_char_str(self.group_id.as_str(), '-', "_");
        let aid = replace_char_str(self.artifact_id.as_str(), '-', "_");
        let mut coord_elements = split_str(gid.as_str(), '.');
        let mut rest = split_str(aid.as_str(), '.');
        let ghost first = coord_elements@;
        let ghost second = rest@;
        coord_elements.append(&mut rest);
        assert(views(coord_elements@) =~= views(first) + views(second));
        coord_elements
    }

    pub fn new(g: &str, a: &str, v: &str) -> (r: MvnCoord)
        ensures
            r@ == (g@, a@, v@),
    {
        MvnCoord { group_id: owned(g), artifact_id: owned(a), version_id: owned(v) }
    }

    /// `group:artifact:version`
    pub fn to_string(&self) -> (r: String)
        ensures
            r@ == coord_text(self@),
    {
        let mut r = self.group_id.clone();
        r.append(":");
        r.append(self.artifact_id.as_str());
        r.append(":");
        r.append(self.version_id.as_str());
        r
    }

    /// Reads `group:artifact:version`: the three `:`-separated parts of `s`,
    /// or `None` where `s` does not have exactly three.
    pub fn from_one_string(s: &str) -> (r: Option<MvnCoord>)
        ensures
            split_on(s@, ':').len() == 3 <==> r is Some,
            r matches Some(c) ==> c@ == (split_on(s@, ':')[0], split_on(s@, ':')[1], split_on(s@, ':')[2]),
    {
        let parts = split_str(s, ':');
        if parts.len() == 3 {
            assert(views(parts@)[0] == parts@[0]@);
            assert(views(parts@)[1] == parts@[1]@);
            assert(views(parts@)[2] == parts@[2]@);
            Some(MvnCoord::new(parts[0].as_str(), parts[1].as_str(), parts[2].as_str()))
        } else {
            None
        }
    }

    /// `group<TAB>artifact<TAB>version`
    pub fn to_dl_string(&self) -> (r: String)
        ensures
            r@ == coord_dl_text(self@),
    {
        let mut r = self.group_id.clone();
        r.append("\t");
        r.append(self.artifact_id.as_str());
        r.append("\t");
        r.append(self.version_id.as_str());
        r
    }

    /// `G: group<TAB>A:artifact<TAB>V:<TAB>version`, the form used in messages.
    pub fn display_string(&self) -> (r: String)
        ensures
            r@ == "G: "@ + self@.0 + "\tA:"@ + self@.1 + "\tV:\t"@ + self@.2,
    {
        let mut r = owned("G: ");
        r.append(self.group_id.as_str());
        r.append("\tA:");
        r.append(self.artifact_id.as_str());
        r.append("\tV:\t");
        r.append(self.version_id.as_str());
        r
    }
}

impl Default for MvnCoord {
    fn default() -> (r: MvnCoord)
        ensures
            r@ == default_coord(),
    {
        MvnCoord {
            group_id: owned("DEFAULT_group"),
            artifact_id: owned("DEFAULT_artifact"),
            version_id: owned("DEFAULT_version"),
        }
    }
}

/// A node of the dependency graph: one artifact.
#[derive(Debug)]
pub struct GraphNode {
    id: String,
    numeric_id: u32,
    mvn_coord: MvnCoord,
    optional: bool,
    classifiers: Option<Vec<String>>,
    scopes: Vec<MvnScope>,
    packaging: Vec<MvnPkgType>,
}

impl GraphNode {
    pub closed spec fn id_view(&self) -> Seq<char> {
        self.id@
    }

    pub closed spec fn nid(&self) -> u32 {
        self.numeric_id
    }

    pub closed spec fn coord_view(&self) -> (Seq<char>, Seq<char>, Seq<char>) {
        self.mvn_coord@
    }

    pub closed spec fn is_optional(&self) -> bool {
        self.optional
    }

    pub closed spec fn classifiers_view(&self) -> Option<Seq<Seq<char>>> {
        match self.classifiers {
            Some(v) => Some(views(v@)),
            None => None,
        }
    }

    pub closed spec fn scopes_view(&self) -> Seq<MvnScope> {
        self.scopes@
    }

    pub closed spec fn packaging_view(&self) -> Seq<MvnPkgType> {
        self.packaging@
    }

    /// Everything the node holds.
    pub open spec fn node_view(&self) -> NodeView {
        (
            self.id_view(),
            self.nid(),
            self.coord_view(),
            self.is_optional(),
            self.classifiers_view(),
            self.scopes_view(),
            self.packaging_view(),
        )
    }

    /// A node with all of its fields given.
    pub fn new(
        id: String,
        numeric_id: u32,
        mvn_coord: MvnCoord,
        optional: bool,
        classifiers: Option<Vec<String>>,
        scopes: Vec<MvnScope>,
        packaging: Vec<MvnPkgType>,
    ) -> (r: GraphNode)
        ensures
            r.id_view() == id@,
            r.nid() == numeric_id,
            r.coord_view() == mvn_coord@,
            r.is_optional() == optional,
            r.classifiers_view() == (match classifiers {
                Some(v) => Some(views(v@)),
                None => None,
            }),
            r.scopes_view() == scopes@,
            r.packaging_view() == packaging@,
    {
        GraphNode { id, numeric_id, mvn_coord, optional, classifiers, scopes, packaging }
    }

    pub fn id(&self) -> (r: &str)
        ensures
            r@ == self.id_view(),
    {
        self.id.as_str()
    }

    pub fn mvn_coord(&self) -> (r: &MvnCoord)
        ensures
            r@ == self.coord_view(),
    {
        &self.mvn_coord
    }

    pub fn numeric_id(&self) -> (r: u32)
        ensures
            r == self.nid(),
    {
        self.numeric_id
    }

    pub fn optional(&self) -> (r: bool)
        ensures
            r == self.is_optional(),
    {
        self.optional
    }

    pub fn classifiers(&self) -> (r: &Option<Vec<String>>)
        ensures
            (match *r {
                Some(v) => Some(views(v@)),
                None => None,
            }) == self.classifiers_view(),
    {
        &self.classifiers
    }

    pub fn scopes(&self) -> (r: &Vec<MvnScope>)
        ensures
            r@ == self.scopes_view(),
    {
        &self.scopes
    }

    pub fn packaging(&self) -> (r: &Vec<MvnPkgType>)
        ensures
            r@ == self.packaging_view(),
    {
        &self.packaging
    }
}

impl Default for GraphNode {
    fn default() -> (r: GraphNode)
        ensures
            r.id_view() == "DefaultNode"@,
            r.nid() == 0,
            r.coord_view() == default_coord(),
            !r.is_optional(),
            r.classifiers_view() is None,
            r.scopes_view() == Seq::<MvnScope>::empty(),
            r.packaging_view() == Seq::<MvnPkgType>::empty(),
    {
        GraphNode {
            id: owned("DefaultNode"),
            numeric_id: 0,
            mvn_coord: MvnCoord::default(),
            optional: false,
            classifiers: None,
            scopes: Vec::new(),
            packaging: Vec::new(),
        }
    }
}

/// An edge describing a dependency from a package to another, as stated in
/// the POM.
#[derive(Debug)]
pub struct PomDepEdge {
    from: String,
    to: String,
    numeric_from: u32,
    numeric_to: u32,
    resolution: Resolution,
    version: Option<String>,
}

impl PomDepEdge {
    pub closed spec fn from_view(&self) -> Seq<char> {
        self.from@
    }

    pub closed spec fn to_view(&self) -> Seq<char> {
        self.to@
    }

    pub closed spec fn nfrom(&self) -> u32 {
        self.numeric_from
    }

    pub closed spec fn nto(&self) -> u32 {
        self.numeric_to
    }

    pub closed spec fn res(&self) -> Resolution {
        self.resolution
    }

    pub closed spec fn version_view(&self) -> Option<Seq<char>> {
        match self.version {
            Some(v) => Some(v@),
            None => None,
        }
    }

    pub fn from(&self) -> (r: &str)
        ensures
            r@ == self.from_view(),
    {
        self.from.as_str()
    }

    pub fn to(&self) -> (r: &str)
        ensures
            r@ == self.to_view(),
    {
        self.to.as_str()
    }

    pub fn numeric_from(&self) -> (r: u32)
        ensures
            r == self.nfrom(),
    {
        self.numeric_from
    }

    pub fn numeric_to(&self) -> (r: u32)
        ensures
            r == self.nto(),
    {
        self.numeric_to
    }

    pub fn resolution(&self) -> (r: &Resolution)
        ensures
            *r == self.res(),
    {
        &self.resolution
    }

    pub fn version(&self) -> (r: &Option<String>)
        ensures
            (match *r {
                Some(v) => Some(v@),
                None => None,
            }) == self.version_view(),
    {
        &self.version
    }

    pub fn new(
        from: String,
        to: String,
        numeric_from: u32,
        numeric_to: u32,
        resolution: Resolution,
        version: Option<String>,
    ) -> (r: Self)
        ensures
            r.from_view() == from@,
            r.to_view() == to@,
            r.nfrom() == numeric_from,
            r.nto() == numeric_to,
            r.res() == resolution,
            r.version_view() == (match version {
                Some(v) => Some(v@),
                None => None,
            }),
    {
        PomDepEdge { from, to, numeric_from, numeric_to, resolution, version }
    }
}

/// Everything a node holds: (id, numeric id, coordinate, optional,
/// classifiers, scopes, packaging).
pub type NodeView = (
    Seq<char>,
    u32,
    (Seq<char>, Seq<char>, Seq<char>),
    bool,
    Option<Seq<Seq<char>>>,
    Seq<MvnScope>,
    Seq<MvnPkgType>,
);

/// The node views of a sequence of nodes.
pub open spec fn node_views(s: Seq<GraphNode>) -> Seq<NodeView> {
    s.map_values(|n: GraphNode| n.node_view())
}

/// The nodes with every node equal (in every field) to an earlier one
/// dropped, in order.
pub open spec fn distinct_nodes(s: Seq<GraphNode>) -> Seq<GraphNode>
    decreases s.len(),
{
    if s.len() == 0 {
        s
    } else {
        let p = distinct_nodes(s.drop_last());
        if node_views(p).contains(s.last().node_view()) {
            p
        } else {
            p.push(s.last())
        }
    }
}

/// The two lists hold the same strings.
fn same_strings(a: &Vec<String>, b: &Vec<String>) -> (r: bool)
    ensures
        r == (views(a@) == views(b@)),
{
    if a.len() != b.len() {
        assert(views(a@).len() != views(b@).len());
        return false;
    }
    let mut i: usize = 0;
    while i < a.len()
        invariant
            i <= a.len(),
            a.len() == b.len(),
            forall|j: int| 0 <= j < i ==> a@[j]@ == b@[j]@,
        decreases a.len() - i,
    {
        if !str_eq(a[i].as_str(), b[i].as_str()) {
            assert(views(a@)[i as int] != views(b@)[i as int]);
            return false;
        }
        i = i + 1;
    }
    assert(views(a@) =~= views(b@));
    true
}

/// The two lists hold the same scopes.
fn same_scopes(a: &Vec<MvnScope>, b: &Vec<MvnScope>) -> (r: bool)
    ensures
        r == (a@ == b@),
{
    if a.len() != b.len() {
        return false;
    }
    let mut i: usize = 0;
    while i < a.len()
        invariant
            i <= a.len(),
            a.len() == b.len(),
            forall|j: int| 0 <= j < i ==> a@[j] == b@[j],
        decreases a.len() - i,
    {
        if a[i] != b[i] {
            return false;
        }
        i = i + 1;
    }
    assert(a@ =~= b@);
    true
}

/// The two lists hold the same packaging types.
fn same_packaging(a: &Vec<MvnPkgType>, b: &Vec<MvnPkgType>) -> (r: bool)
    ensures
        r == (a@ == b@),
{
    if a.len() != b.len() {
        return false;
    }
    let mut i: usize = 0;
    while i < a.len()
        invariant
            i <= a.len(),
            a.len() == b.len(),
            forall|j: int| 0 <= j < i ==> a@[j] == b@[j],
        decreases a.len() - i,
    {
        if a[i] != b[i] {
            return false;
        }
        i = i + 1;
    }
    assert(a@ =~= b@);
    true
}

/// The two nodes are equal in every field.
fn same_node(a: &GraphNode, b: &GraphNode) -> (r: bool)
    ensures
        r == (a.node_view() == b.node_view()),
{
    let same_classifiers = match (&a.classifiers, &b.classifiers) {
        (Some(x), Some(y)) => same_strings(x, y),
        (None, None) => true,
        _ => false,
    };
    str_eq(a.id.as_str(), b.id.as_str()) && a.numeric_id == b.numeric_id && a.mvn_coord == b.mvn_coord
        && a.optional == b.optional && same_classifiers && same_scopes(&a.scopes, &b.scopes)
        && same_packaging(&a.packaging, &b.packaging)
}

/// Whether a node equal (in every field) to `n` is among `v`.
fn contains_node(v: &Vec<GraphNode>, n: &GraphNode) -> (r: bool)
    ensures
        r == node_views(v@).contains(n.node_view()),
{
    let mut i: usize = 0;
    while i < v.len()
        invariant
            i <= v.len(),
            forall|j: int| 0 <= j < i ==> v@[j].node_view() != n.node_view(),
        decreases v.len() - i,
    {
        if same_node(&v[i], n) {
            assert(node_views(v@)[i as int] == n.node_view());
            return true;
        }
        i = i + 1;
    }
    assert(!node_views(v@).contains(n.node_view())) by {
        if node_views(v@).contains(n.node_view()) {
            let j = choose|j: int| 0 <= j < v@.len() && node_views(v@)[j] == n.node_view();
            assert(v@[j].node_view() == n.node_view());
        }
    }
    false
}

/// The number of entries of `ends` equal to `k`.
pub open spec fn end_count(ends: Seq<u32>, k: u32) -> nat
    decreases ends.len(),
{
    if ends.len() == 0 {
        0
    } else {
        end_count(ends.drop_last(), k) + if ends.last() == k {
            1nat
        } else {
            0nat
        }
    }
}

/// A graph describing package-level dependencies as stated in POM files.
pub struct PomGraph {
    graph_name: String,
    artifacts: Vec<GraphNode>,
    dependencies: Vec<PomDepEdge>,
}

impl PomGraph {
    pub closed spec fn name_view(&self) -> Seq<char> {
        self.graph_name@
    }

    pub closed spec fn nodes(&self) -> Seq<GraphNode> {
        self.artifacts@
    }

    pub closed spec fn edges(&self) -> Seq<PomDepEdge> {
        self.dependencies@
    }

    /// The `numeric_from` of every edge, in order.
    pub open spec fn froms(&self) -> Seq<u32> {
        Seq::new(self.edges().len(), |i: int| self.edges()[i].nfrom())
    }

    /// The `numeric_to` of every edge, in order.
    pub open spec fn tos(&self) -> Seq<u32> {
        Seq::new(self.edges().len(), |i: int| self.edges()[i].nto())
    }

    /// The edge-numbering id of every node (its `numeric_id` minus one).
    pub open spec fn node_keys(&self) -> Seq<u32> {
        Seq::new(self.nodes().len(), |i: int| (self.nodes()[i].nid() - 1) as u32)
    }

    /// Every node has a `numeric_id` of at least 1, so that its edge-numbering
    /// id (`numeric_id - 1`) exists.
    pub open spec fn numbered_from_one(&self) -> bool {
        forall|i: int| 0 <= i < self.nodes().len() ==> #[trigger] self.nodes()[i].nid() >= 1
    }

    /// The degree counters fit in a `u32`.
    pub open spec fn countable(&self) -> bool {
        self.edges().len() <= u32::MAX
    }

    /// Every id a degree is counted for: both ends of every edge and every node.
    pub open spec fn degree_keys(&self) -> Set<u32> {
        self.froms().to_set() + self.tos().to_set() + self.node_keys().to_set()
    }

    /// In-degrees: for each id, the number of edges that end there.
    pub open spec fn in_degrees(&self) -> Map<u32, u32> {
        Map::new(|k: u32| self.degree_keys().contains(k), |k: u32| end_count(self.tos(), k) as u32)
    }

    /// Out-degrees: for each id, the number of edges that start there.
    pub open spec fn out_degrees(&self) -> Map<u32, u32> {
        Map::new(|k: u32| self.degree_keys().contains(k), |k: u32| end_count(self.froms(), k) as u32)
    }

    /// Origins: the ids with in-degree 0.
    pub open spec fn origin_ids(&self) -> Set<u32> {
        Set::new(|k: u32| self.degree_keys().contains(k) && end_count(self.tos(), k) == 0)
    }

    /// No two nodes are equal in every field: the nodes form a set.
    #[verifier::type_invariant]
    spec fn nodes_form_set(&self) -> bool {
        node_views(self.artifacts@).no_duplicates()
    }

    /// A graph with the given name, nodes and edges; a node equal in every
    /// field to an earlier one is the same node and is kept once.
    pub fn new(graph_name: String, artifacts: Vec<GraphNode>, dependencies: Vec<PomDepEdge>) -> (r: Self)
        ensures
            r.name_view() == graph_name@,
            r.nodes() == distinct_nodes(artifacts@),
            node_views(r.nodes()).no_duplicates(),
            r.edges() == dependencies@,
    {
        let ghost all = artifacts@;
        let mut kept: Vec<GraphNode> = Vec::new();
        for n in it: artifacts
            invariant
                it.seq() == all,
                kept@ == distinct_nodes(all.take(it.index() as int)),
                node_views(kept@).no_duplicates(),
        {
            let ghost i = it.index() as int;
            assert(all.take(i + 1).drop_last() =~= all.take(i));
            assert(all.take(i + 1).last() == n);
            let ghost before = kept@;
            if !contains_node(&kept, &n) {
                kept.push(n);
                assert(node_views(kept@) =~= node_views(before).push(n.node_view()));
            }
        }
        assert(all.take(all.len() as int) =~= all);
        PomGraph { graph_name, artifacts: kept, dependencies }
    }

    pub fn graph_name(&self) -> (r: &str)
        ensures
            r@ == self.name_view(),
    {
        self.graph_name.as_str()
    }

    pub fn artifacts(&self) -> (r: &Vec<GraphNode>)
        ensures
            r@ == self.nodes(),
    {
        &self.artifacts
    }

    pub fn dependencies(&self) -> (r: &Vec<PomDepEdge>)
        ensures
            r@ == self.edges(),
    {
        &self.dependencies
    }

    /// Whether every node has a `numeric_id` of at least 1.
    pub fn is_numbered_from_one(&self) -> (r: bool)
        ensures
            r == self.numbered_from_one(),
    {
        let mut i: usize = 0;
        while i < self.artifacts.len()
            invariant
                i <= self.artifacts.len(),
                forall|j: int| 0 <= j < i ==> #[trigger] self.nodes()[j].nid() >= 1,
            decreases self.artifacts.len() - i,
        {
            if self.artifacts[i].numeric_id < 1 {
                assert(self.nodes()[i as int].nid() < 1);
                return false;
            }
            i = i + 1;
        }
        true
    }

    /// Count the in-degree (`incoming`) or the out-degree of every node.
    /// Both ends of every edge and every node get an entry; edge ends are
    /// numbered from 0, so a node is counted under its `numeric_id - 1`.
    pub fn count_degrees(&self, incoming: bool) -> (r: HashMap<u32, u32>)
        requires
            self.numbered_from_one(),
            self.countable(),
        ensures
            r@ == (if incoming { self.in_degrees() } else { self.out_degrees() }),
    {
        broadcast use vstd::std_specs::hash::group_hash_axioms;
        let ghost counted = if incoming { self.tos() } else { self.froms() };
        let ghost other = if incoming { self.froms() } else { self.tos() };
        let mut m: HashMap<u32, u32> = HashMap::new();
        let mut i: usize = 0;
        while i < self.dependencies.len()
            invariant
                i <= self.dependencies.len(),
                self.countable(),
                counted == (if incoming { self.tos() } else { self.froms() }),
                other == (if incoming { self.froms() } else { self.tos() }),
                m@.dom() =~= counted.take(i as int).to_set() + other.take(i as int).to_set(),
                forall|k: u32| #[trigger] m@.contains_key(k) ==> m@[k] == end_count(counted.take(i as int), k),
                forall|k: u32| end_count(counted.take(i as int), k) <= i,
            decreases self.dependencies.len() - i,
        {
            let e = &self.dependencies[i];
            let (a, b) = if incoming { (e.numeric_to, e.numeric_from) } else { (e.numeric_from, e.numeric_to) };
            assert(counted.take(i + 1).drop_last() =~= counted.take(i as int));
            assert(other.take(i + 1).drop_last() =~= other.take(i as int));
            assert(counted.take(i + 1) =~= counted.take(i as int).push(a));
            assert(other.take(i + 1) =~= other.take(i as int).push(b));
            proof {
                counted.take(i as int).lemma_push_to_set_commute(a);
                other.take(i as int).lemma_push_to_set_commute(b);
                lemma_end_count_le(counted.take(i as int), a);
                if !m@.contains_key(a) {
                    lemma_not_in_set_count_zero(counted.take(i as int), a);
                }
                if !m@.contains_key(b) {
                    lemma_not_in_set_count_zero(counted.take(i as int), b);
                }
            }
            let c: u32 = match m.get(&a) {
                Some(v) => *v,
                None => 0,
            };
            m.insert(a, c + 1);
            if !m.contains_key(&b) {
                m.insert(b, 0);
                proof {
                    lemma_end_count_absent_after_push(counted.take(i as int), a, b);
                }
            }
            i = i + 1;
            proof {
                assert forall|k: u32| #[trigger] m@.contains_key(k) implies m@[k] == end_count(counted.take(i as int), k) by {
                    assert(counted.take(i as int).drop_last() =~= counted.take(i - 1));
                }
                assert forall|k: u32| end_count(counted.take(i as int), k) <= i by {
                    lemma_end_count_le(counted.take(i as int), k);
                }
            }
        }
        assert(counted.take(i as int) =~= counted);
        assert(other.take(i as int) =~= other);
        let mut j: usize = 0;
        while j < self.artifacts.len()
            invariant
                j <= self.artifacts.len(),
                self.numbered_from_one(),
                m@.dom() =~= counted.to_set() + other.to_set() + self.node_keys().take(j as int).to_set(),
                forall|k: u32| #[trigger] m@.contains_key(k) ==> m@[k] == end_count(counted, k),
                forall|k: u32| end_count(counted, k) <= self.edges().len(),
                counted == (if incoming { self.tos() } else { self.froms() }),
                other == (if incoming { self.froms() } else { self.tos() }),
            decreases self.artifacts.len() - j,
        {
            assert(self.nodes()[j as int].nid() >= 1);
            let key = self.artifacts[j].numeric_id - 1;
            assert(self.node_keys().take(j + 1) =~= self.node_keys().take(j as int).push(key));
            proof {
                self.node_keys().take(j as int).lemma_push_to_set_commute(key);
            }
            if !m.contains_key(&key) {
                m.insert(key, 0);
                proof {
                    lemma_not_in_set_count_zero(counted, key);
                }
            }
            j = j + 1;
        }
        assert(self.node_keys().take(j as int) =~= self.node_keys());
        proof {
            let target = if incoming { self.in_degrees() } else { self.out_degrees() };
            assert(m@.dom() =~= target.dom());
            assert forall|k: u32| #[trigger] m@.contains_key(k) implies m@[k] == target[k] by {
                assert(end_count(counted, k) <= u32::MAX);
            }
        }
        m
    }

    /// In-degree of every node, counted as `count_degrees` does.
    pub fn count_in_degree(&self) -> (r: HashMap<u32, u32>)
        requires
            self.numbered_from_one(),
            self.countable(),
        ensures
            r@ == self.in_degrees(),
    {
        self.count_degrees(true)
    }

    /// Out-degree of every node, counted as `count_degrees` does.
    pub fn count_out_degree(&self) -> (r: HashMap<u32, u32>)
        requires
            self.numbered_from_one(),
            self.countable(),
        ensures
            r@ == self.out_degrees(),
    {
        self.count_degrees(false)
    }
}

proof fn lemma_end_count_absent(ends: Seq<u32>, k: u32)
    requires
        forall|j: int| 0 <= j < ends.len() ==> ends[j] != k,
    ensures
        end_count(ends, k) == 0,
    decreases ends.len(),
{
    if ends.len() > 0 {
        lemma_end_count_absent(ends.drop_last(), k);
    }
}

proof fn lemma_not_in_set_count_zero(ends: Seq<u32>, k: u32)
    requires
        !ends.to_set().contains(k),
    ensures
        end_count(ends, k) == 0,
{
    assert forall|j: int| 0 <= j < ends.len() implies ends[j] != k by {
        assert(ends.to_set().contains(ends[j]));
    }
    lemma_end_count_absent(ends, k);
}

proof fn lemma_end_count_le(ends: Seq<u32>, k: u32)
    ensures
        end_count(ends, k) <= ends.len(),
    decreases ends.len(),
{
    if ends.len() > 0 {
        lemma_end_count_le(ends.drop_last(), k);
    }
}

proof fn lemma_end_count_absent_after_push(ends: Seq<u32>, a: u32, b: u32)
    requires
        a != b,
        end_count(ends, b) == 0,
    ensures
        end_count(ends.push(a), b) == 0,
{
    assert(ends.push(a).drop_last() =~= ends);
}

/// The coordinate views of a sequence of coordinates.
pub open spec fn coord_views(v: Seq<MvnCoord>) -> Seq<(Seq<char>, Seq<char>, Seq<char>)> {
    v.map_values(|c: MvnCoord| c@)
}

/// `s` with later repetitions of an element dropped (first occurrences kept,
/// in order).
pub open spec fn dedup<A>(s: Seq<A>) -> Seq<A>
    decreases s.len(),
{
    if s.len() == 0 {
        s
    } else {
        let d = dedup(s.drop_last());
        if d.contains(s.last()) {
            d
        } else {
            d.push(s.last())
        }
    }
}

/// The coordinates of the nodes whose edge-numbering id is in `keys`, in
/// node order.
pub open spec fn coords_with_keys(nodes: Seq<GraphNode>, keys: Set<u32>) -> Seq<(Seq<char>, Seq<char>, Seq<char>)>
    decreases nodes.len(),
{
    if nodes.len() == 0 {
        Seq::empty()
    } else {
        let p = coords_with_keys(nodes.drop_last(), keys);
        if keys.contains((nodes.last().nid() - 1) as u32) {
            p.push(nodes.last().coord_view())
        } else {
            p
        }
    }
}

/// Appends a copy of `c` unless an equal coordinate is already in `v`.
pub(crate) fn push_coord_if_new(v: &mut Vec<MvnCoord>, c: &MvnCoord)
    ensures
        coord_views(final(v)@) == (if coord_views(old(v)@).contains(c@) {
            coord_views(old(v)@)
        } else {
            coord_views(old(v)@).push(c@)
        }),
{
    let mut i: usize = 0;
    while i < v.len()
        invariant
            i <= v.len(),
            forall|j: int| 0 <= j < i ==> v@[j]@ != c@,
        decreases v.len() - i,
    {
        if v[i] == *c {
            assert(coord_views(v@)[i as int] == c@);
            return;
        }
        i = i + 1;
    }
    let ghost before = v@;
    v.push(c.clone());
    assert(coord_views(v@) =~= coord_views(before).push(c@));
}

impl PomGraph {
    /// Whether `k` is counted with in-degree 0.
    spec fn zero_in(&self, k: u32) -> bool {
        self.degree_keys().contains(k) && end_count(self.tos(), k) == 0
    }

    /// Find all origins of the graph: the ids (numbered from 0, as in edges)
    /// whose in-degree is 0.
    pub fn find_origins_id(&self) -> (r: HashSet<u32>)
        requires
            self.numbered_from_one(),
            self.countable(),
        ensures
            r@ == self.origin_ids(),
    {
        broadcast use vstd::std_specs::hash::group_hash_axioms;
        let m = self.count_in_degree();
        let mut r: HashSet<u32> = HashSet::new();
        let mut i: usize = 0;
        while i < self.dependencies.len()
            invariant
                i <= self.dependencies.len(),
                self.countable(),
                m@ == self.in_degrees(),
                r@ =~= Set::new(|k: u32| (self.froms().take(i as int).to_set().contains(k)
                    || self.tos().take(i as int).to_set().contains(k)) && self.zero_in(k)),
            decreases self.dependencies.len() - i,
        {
            let a = self.dependencies[i].numeric_from;
            let b = self.dependencies[i].numeric_to;
            proof {
                assert(self.froms().take(i + 1) =~= self.froms().take(i as int).push(a));
                assert(self.tos().take(i + 1) =~= self.tos().take(i as int).push(b));
                self.froms().take(i as int).lemma_push_to_set_commute(a);
                self.tos().take(i as int).lemma_push_to_set_commute(b);
                assert(self.froms()[i as int] == a);
                assert(self.tos()[i as int] == b);
                assert(self.froms().contains(a));
                assert(self.tos().contains(b));
                assert(self.degree_keys().contains(a));
                assert(self.degree_keys().contains(b));
                lemma_end_count_le(self.tos(), a);
                lemma_end_count_le(self.tos(), b);
            }
            if *m.get(&a).unwrap() == 0 {
                r.insert(a);
            }
            if *m.get(&b).unwrap() == 0 {
                r.insert(b);
            }
            i = i + 1;
        }
        proof {
            assert(self.froms().take(i as int) =~= self.froms());
            assert(self.tos().take(i as int) =~= self.tos());
            assert(self.node_keys().take(0) =~= Seq::<u32>::empty());
        }
        let mut j: usize = 0;
        while j < self.artifacts.len()
            invariant
                j <= self.artifacts.len(),
                self.countable(),
                self.numbered_from_one(),
                m@ == self.in_degrees(),
                r@ =~= Set::new(|k: u32| (self.froms().to_set().contains(k)
                    || self.tos().to_set().contains(k)
                    || self.node_keys().take(j as int).to_set().contains(k)) && self.zero_in(k)),
            decreases self.artifacts.len() - j,
        {
            assert(self.nodes()[j as int].nid() >= 1);
            let key = self.artifacts[j].numeric_id - 1;
            proof {
                assert(self.froms().take(self.edges().len() as int) =~= self.froms());
                assert(self.tos().take(self.edges().len() as int) =~= self.tos());
                assert(self.node_keys().take(j + 1) =~= self.node_keys().take(j as int).push(key));
                self.node_keys().take(j as int).lemma_push_to_set_commute(key);
                assert(self.node_keys()[j as int] == key);
                assert(self.node_keys().contains(key));
                assert(self.degree_keys().contains(key));
                lemma_end_count_le(self.tos(), key);
            }
            if *m.get(&key).unwrap() == 0 {
                r.insert(key);
            }
            j = j + 1;
        }
        proof {
            assert(self.froms().take(self.edges().len() as int) =~= self.froms());
            assert(self.tos().take(self.edges().len() as int) =~= self.tos());
            assert(self.node_keys().take(self.nodes().len() as int) =~= self.node_keys());
            assert(r@ =~= self.origin_ids());
        }
        r
    }

    /// The coordinates of the origins, each once, in node order.
    pub fn find_origins_coord(&self) -> (r: Vec<MvnCoord>)
        requires
            self.numbered_from_one(),
            self.countable(),
        ensures
            coord_views(r@) == dedup(coords_with_keys(self.nodes(), self.origin_ids())),
    {
        broadcast use vstd::std_specs::hash::group_hash_axioms;
        let origins = self.find_origins_id();
        self.coords_with_ids(&origins)
    }

    /// The coordinates of the nodes whose edge-numbering id is in `ids`, each
    /// once, in node order.
    fn coords_with_ids(&self, ids: &HashSet<u32>) -> (r: Vec<MvnCoord>)
        requires
            self.numbered_from_one(),
        ensures
            coord_views(r@) == dedup(coords_with_keys(self.nodes(), ids@)),
    {
        broadcast use vstd::std_specs::hash::group_hash_axioms;
        let mut r: Vec<MvnCoord> = Vec::new();
        let mut j: usize = 0;
        while j < self.artifacts.len()
            invariant
                j <= self.artifacts.len(),
                self.numbered_from_one(),
                coord_views(r@) == dedup(coords_with_keys(self.nodes().take(j as int), ids@)),
            decreases self.artifacts.len() - j,
        {
            assert(self.nodes()[j as int].nid() >= 1);
            let node = &self.artifacts[j];
            let key = node.numeric_id - 1;
            proof {
                assert(self.nodes().take(j + 1).drop_last() =~= self.nodes().take(j as int));
                assert(self.nodes().take(j + 1).last() == self.nodes()[j as int]);
            }
            if ids.contains(&key) {
                let ghost p = coords_with_keys(self.nodes().take(j as int), ids@);
                assert(coords_with_keys(self.nodes().take(j + 1), ids@) == p.push(node.mvn_coord@));
                assert(p.push(node.mvn_coord@).drop_last() =~= p);
                push_coord_if_new(&mut r, &node.mvn_coord);
            }
            j = j + 1;
        }
        assert(self.nodes().take(j as int) =~= self.nodes());
        r
    }

    /// The ids reached by an edge from an origin, origins excluded.
    pub open spec fn direct_dep_ids(&self) -> Set<u32> {
        Set::new(|k: u32| (exists|i: int| 0 <= i < self.edges().len()
            && self.origin_ids().contains(#[trigger] self.edges()[i].nfrom())
            && self.edges()[i].nto() == k) && !self.origin_ids().contains(k))
    }

    /// The coordinates of the direct dependencies of the origins (origins
    /// themselves excluded), each once, in node order.
    pub fn find_direct_dep(&self) -> (r: Vec<MvnCoord>)
        requires
            self.numbered_from_one(),
            self.countable(),
        ensures
            coord_views(r@) == dedup(coords_with_keys(self.nodes(), self.direct_dep_ids())),
    {
        broadcast use vstd::std_specs::hash::group_hash_axioms;
        let origins = self.find_origins_id();
        let mut direct: HashSet<u32> = HashSet::new();
        let mut i: usize = 0;
        while i < self.dependencies.len()
            invariant
                i <= self.dependencies.len(),
                origins@ == self.origin_ids(),
                direct@ =~= Set::new(|k: u32| (exists|t: int| 0 <= t < i
                    && self.origin_ids().contains(#[trigger] self.edges()[t].nfrom())
                    && self.edges()[t].nto() == k) && !self.origin_ids().contains(k)),
            decreases self.dependencies.len() - i,
        {
            let e = &self.dependencies[i];
            if origins.contains(&e.numeric_from) && !origins.contains(&e.numeric_to) {
                direct.insert(e.numeric_to);
            }
            i = i + 1;
            proof {
                assert forall|k: u32| direct@.contains(k) == ((exists|t: int| 0 <= t < i
                    && self.origin_ids().contains(#[trigger] self.edges()[t].nfrom())
                    && self.edges()[t].nto() == k) && !self.origin_ids().contains(k)) by {
                    if direct@.contains(k) && k == e.numeric_to && self.origin_ids().contains(e.numeric_from) {
                        assert(self.edges()[i - 1].nfrom() == e.numeric_from);
                    }
                }
            }
        }
        assert(direct@ =~= self.direct_dep_ids());
        self.coords_with_ids(&direct)
    }
}

/// The view of an optional string.
pub open spec fn opt_string_view(o: Option<String>) -> Option<Seq<char>> {
    match o {
        Some(s) => Some(s@),
        None => None,
    }
}

/// The id of the node that matches `c`: the first node with exactly that
/// coordinate, else the first with the same artifact id, else none.
pub open spec fn node_id_for(nodes: Seq<GraphNode>, c: (Seq<char>, Seq<char>, Seq<char>)) -> Option<Seq<char>> {
    match first_index(nodes, |n: GraphNode| n.coord_view() == c) {
        Some(i) => Some(nodes[i].id_view()),
        None => match first_index(nodes, |n: GraphNode| n.coord_view().1 == c.1) {
            Some(i) => Some(nodes[i].id_view()),
            None => None,
        },
    }
}

/// The last of `nodes` whose numeric id is `k`.
pub open spec fn node_with_id(nodes: Seq<GraphNode>, k: u32) -> GraphNode
    decreases nodes.len(),
{
    if nodes.len() == 0 {
        arbitrary()
    } else if nodes.last().nid() == k {
        nodes.last()
    } else {
        node_with_id(nodes.drop_last(), k)
    }
}

/// The numeric ids of `nodes`.
pub open spec fn numeric_ids(nodes: Seq<GraphNode>) -> Set<u32> {
    Seq::new(nodes.len(), |i: int| nodes[i].nid()).to_set()
}

/// The coordinate of the node with numeric id `k`, or the default coordinate
/// when there is none.
pub open spec fn coord_for_id(nodes: Seq<GraphNode>, k: u32) -> (Seq<char>, Seq<char>, Seq<char>) {
    if numeric_ids(nodes).contains(k) {
        node_with_id(nodes, k).coord_view()
    } else {
        default_coord()
    }
}

/// One Datalog row for an edge: both ends' coordinates and the resolution.
pub open spec fn dl_line(nodes: Seq<GraphNode>, e: PomDepEdge) -> Seq<char> {
    coord_dl_text(coord_for_id(nodes, (e.nfrom() + 1) as u32)) + "\t"@
        + coord_dl_text(coord_for_id(nodes, (e.nto() + 1) as u32)) + "\t"@ + e.res().name_view()
        + "\n"@
}

proof fn lemma_ids_push(nodes: Seq<GraphNode>, n: GraphNode)
    ensures
        numeric_ids(nodes.push(n)) == numeric_ids(nodes).insert(n.nid()),
{
    let s = Seq::new(nodes.len(), |i: int| nodes[i].nid());
    let t = Seq::new(nodes.push(n).len(), |i: int| nodes.push(n)[i].nid());
    assert(t =~= s.push(n.nid()));
    s.lemma_push_to_set_commute(n.nid());
}

impl PomGraph {
    /// The Datalog rows of all edges, one after another.
    pub open spec fn datalog_text(&self) -> Seq<char> {
        concat_all(Seq::new(self.edges().len(), |i: int| dl_line(self.nodes(), self.edges()[i])))
    }

    /// Every edge end can be shifted to the node numbering (plus one) without
    /// overflow.
    pub open spec fn shiftable(&self) -> bool {
        forall|i: int| 0 <= i < self.edges().len() ==> #[trigger] self.edges()[i].nfrom() < u32::MAX
            && self.edges()[i].nto() < u32::MAX
    }

    /// Whether every edge end can be shifted up by one (no end is `u32::MAX`).
    pub fn is_shiftable(&self) -> (r: bool)
        ensures
            r == self.shiftable(),
    {
        let mut i: usize = 0;
        while i < self.dependencies.len()
            invariant
                i <= self.dependencies.len(),
                forall|j: int| 0 <= j < i ==> #[trigger] self.edges()[j].nfrom() < u32::MAX
                    && self.edges()[j].nto() < u32::MAX,
            decreases self.dependencies.len() - i,
        {
            let e = &self.dependencies[i];
            if e.numeric_from == u32::MAX || e.numeric_to == u32::MAX {
                assert(!(self.edges()[i as int].nfrom() < u32::MAX && self.edges()[i as int].nto() < u32::MAX));
                return false;
            }
            i = i + 1;
        }
        true
    }

    /// Map every numeric id to its node; where ids repeat, the last node wins.
    pub fn build_nodes_hashmap(&self) -> (r: HashMap<u32, &GraphNode>)
        ensures
            r@.dom() == numeric_ids(self.nodes()),
            forall|k: u32| #[trigger] r@.contains_key(k) ==> *r@[k] == node_with_id(self.nodes(), k),
    {
        broadcast use vstd::std_specs::hash::group_hash_axioms;
        let mut m: HashMap<u32, &GraphNode> = HashMap::new();
        let mut j: usize = 0;
        while j < self.artifacts.len()
            invariant
                j <= self.artifacts.len(),
                m@.dom() == numeric_ids(self.nodes().take(j as int)),
                forall|k: u32| #[trigger] m@.contains_key(k) ==> *m@[k] == node_with_id(self.nodes().take(j as int), k),
            decreases self.artifacts.len() - j,
        {
            let x = &self.artifacts[j];
            proof {
                assert(self.nodes().take(j + 1) =~= self.nodes().take(j as int).push(*x));
                lemma_ids_push(self.nodes().take(j as int), *x);
            }
            m.insert(x.numeric_id, x);
            j = j + 1;
            proof {
                assert(self.nodes().take(j as int).drop_last() =~= self.nodes().take(j - 1));
            }
        }
        assert(self.nodes().take(j as int) =~= self.nodes());
        m
    }

    /// Given a coordinate, the id of the first node with exactly that
    /// coordinate; failing that, of the first node with the same artifact id;
    /// failing that, `None`.
    pub fn get_node_id(&self, coord: &MvnCoord) -> (r: Option<String>)
        ensures
            opt_string_view(r) == node_id_for(self.nodes(), coord@),
    {
        let ghost exact = |n: GraphNode| n.coord_view() == coord@;
        let ghost fuzzy = |n: GraphNode| n.coord_view().1 == coord@.1;
        let mut i: usize = 0;
        while i < self.artifacts.len()
            invariant
                i <= self.artifacts.len(),
                exact == (|n: GraphNode| n.coord_view() == coord@),
                first_index(self.nodes().take(i as int), exact) is None,
            decreases self.artifacts.len() - i,
        {
            proof {
                lemma_first_index_step(self.nodes(), exact, i as int);
            }
            if self.artifacts[i].mvn_coord == *coord {
                let r = self.artifacts[i].id.clone();
                proof {
                    lemma_first_index_prefix(self.nodes(), exact, i + 1);
                }
                return Some(r);
            }
            i = i + 1;
        }
        assert(self.nodes().take(i as int) =~= self.nodes());
        let mut i: usize = 0;
        while i < self.artifacts.len()
            invariant
                i <= self.artifacts.len(),
                exact == (|n: GraphNode| n.coord_view() == coord@),
                fuzzy == (|n: GraphNode| n.coord_view().1 == coord@.1),
                first_index(self.nodes(), exact) is None,
                first_index(self.nodes().take(i as int), fuzzy) is None,
            decreases self.artifacts.len() - i,
        {
            proof {
                lemma_first_index_step(self.nodes(), fuzzy, i as int);
            }
            if self.artifacts[i].mvn_coord.artifact_id == coord.artifact_id {
                let r = self.artifacts[i].id.clone();
                proof {
                    lemma_first_index_prefix(self.nodes(), fuzzy, i + 1);
                }
                return Some(r);
            }
            i = i + 1;
        }
        assert(self.nodes().take(i as int) =~= self.nodes());
        None
    }

    /// The Datalog coordinate text of the node with numeric id `k` (the
    /// default coordinate when there is none).
    fn coord_dl_for(&self, m: &HashMap<u32, &GraphNode>, k: u32) -> (r: String)
        requires
            m@.dom() == numeric_ids(self.nodes()),
            forall|k: u32| #[trigger] m@.contains_key(k) ==> *m@[k] == node_with_id(self.nodes(), k),
        ensures
            r@ == coord_dl_text(coord_for_id(self.nodes(), k)),
    {
        broadcast use vstd::std_specs::hash::group_hash_axioms;
        match m.get(&k) {
            Some(v) => v.mvn_coord.to_dl_string(),
            None => MvnCoord::default().to_dl_string(),
        }
    }

    /// One Datalog row for `x`.
    fn dl_line_of(&self, m: &HashMap<u32, &GraphNode>, x: &PomDepEdge) -> (r: String)
        requires
            m@.dom() == numeric_ids(self.nodes()),
            forall|k: u32| #[trigger] m@.contains_key(k) ==> *m@[k] == node_with_id(self.nodes(), k),
            x.nfrom() < u32::MAX,
            x.nto() < u32::MAX,
        ensures
            r@ == dl_line(self.nodes(), *x),
    {
        let mut out = self.coord_dl_for(m, x.numeric_from + 1);
        let to_coord = self.coord_dl_for(m, x.numeric_to + 1);
        let res = x.resolution.to_string();
        out.append("\t");
        out.append(to_coord.as_str());
        out.append("\t");
        out.append(res.as_str());
        out.append("\n");
        out
    }

    /// All dependencies as Datalog facts, one row per edge: the coordinates
    /// of both ends (the default coordinate for an end with no node) and the
    /// resolution, tab-separated.
    pub fn to_datalog(&self) -> (r: String)
        requires
            self.shiftable(),
        ensures
            r@ == self.datalog_text(),
    {
        broadcast use vstd::std_specs::hash::group_hash_axioms;
        let m = self.build_nodes_hashmap();
        let ghost lines = Seq::new(self.edges().len(), |i: int| dl_line(self.nodes(), self.edges()[i]));
        let mut out = String::new();
        let mut i: usize = 0;
        while i < self.dependencies.len()
            invariant
                i <= self.dependencies.len(),
                self.shiftable(),
                lines == Seq::new(self.edges().len(), |i: int| dl_line(self.nodes(), self.edges()[i])),
                m@.dom() == numeric_ids(self.nodes()),
                forall|k: u32| #[trigger] m@.contains_key(k) ==> *m@[k] == node_with_id(self.nodes(), k),
                out@ == concat_all(lines.take(i as int)),
            decreases self.dependencies.len() - i,
        {
            let x = &self.dependencies[i];
            assert(self.edges()[i as int].nfrom() < u32::MAX);
            let line = self.dl_line_of(&m, x);
            out.append(line.as_str());
            proof {
                assert(lines.take(i + 1).drop_last() =~= lines.take(i as int));
                assert(lines[i as int] == dl_line(self.nodes(), *x));
            }
            i = i + 1;
        }
        assert(lines.take(i as int) =~= lines);
        out
    }
}

/// The names of the scopes.
pub open spec fn scope_names(scopes: Seq<MvnScope>) -> Seq<Seq<char>> {
    Seq::new(scopes.len(), |i: int| scopes[i].name_view())
}

/// The scope annotation of a node label: empty for no scopes or for the
/// compile scope alone, else the scope names joined by `/`.
pub open spec fn scope_line(scopes: Seq<MvnScope>) -> Seq<char> {
    if scopes.len() > 0 && (scopes.len() != 1 || scopes[0] != MvnScope::Compile) {
        "<font point-size=\"10\"><br/>("@ + join_with(scope_names(scopes), "/"@) + ")</font>"@
    } else {
        Seq::empty()
    }
}

/// The dot statement for one node.
pub open spec fn dot_node_line(indent: nat, n: GraphNode) -> Seq<char> {
    spaces(indent) + "\""@ + n.id_view() + "\"[label=<<font point-size=\"10\">"@ + n.coord_view().0
        + "</font><br/>"@ + n.coord_view().1 + "<font point-size=\"10\"><br/>"@ + n.coord_view().2
        + "</font>"@ + scope_line(n.scopes_view()) + ">]\n"@
}

/// The dot attributes for an edge, by resolution.
pub open spec fn dot_edge_attr(e: PomDepEdge) -> Seq<char> {
    match e.res() {
        Resolution::Included => Seq::empty(),
        Resolution::OmittedForDuplicate => "[style=\"dotted\"]"@,
        Resolution::OmittedForConflict => "[style=\"dashed\",color=\"red\",fontcolor=\"red\",label=\""@
            + (match e.version_view() {
            Some(v) => v,
            None => "unknown"@,
        }) + "\"]"@,
    }
}

/// The dot statement for one edge.
pub open spec fn dot_edge_line(indent: nat, e: PomDepEdge) -> Seq<char> {
    spaces(indent) + "\""@ + e.from_view() + "\" -> \""@ + e.to_view() + "\""@ + dot_edge_attr(e) + "\n"@
}

impl PomGraph {
    /// The opening of the digraph and its style declarations.
    pub open spec fn dot_preamble(&self, ss: DotStyle) -> Seq<char> {
        "digraph \""@ + self.name_view() + "\" {\n"@ + spaces(ss.indent_view() as nat) + ss.node_decl() + "\n"@
            + spaces(ss.indent_view() as nat) + ss.edge_decl() + "\n"@
    }

    /// The node statements.
    pub open spec fn dot_nodes(&self, ss: DotStyle) -> Seq<char> {
        spaces(ss.indent_view() as nat) + "// Node Definitions:\n"@ + concat_all(
            Seq::new(self.nodes().len(), |i: int| dot_node_line(ss.indent_view() as nat, self.nodes()[i])),
        )
    }

    /// The edge statements.
    pub open spec fn dot_edges(&self, ss: DotStyle) -> Seq<char> {
        spaces(ss.indent_view() as nat) + "// Edge Definitions:\n"@ + concat_all(
            Seq::new(self.edges().len(), |i: int| dot_edge_line(ss.indent_view() as nat, self.edges()[i])),
        )
    }

    /// The whole digraph.
    pub open spec fn dot_text(&self, ss: DotStyle) -> Seq<char> {
        self.dot_preamble(ss) + self.dot_nodes(ss) + self.dot_edges(ss) + "}\n"@
    }

    /// The depgraph-maven-plugin goal that writes the dependency graph:
    /// `aggregate` when asked for, `graph` for any other goal name.
    pub fn depgraph_plugin_goal(select_goal: &str) -> (r: String)
        ensures
            r@ == "com.github.ferstl:depgraph-maven-plugin:"@ + (if select_goal@ == "aggregate"@ {
                "aggregate"@
            } else {
                "graph"@
            }),
    {
        let mut r = owned("com.github.ferstl:depgraph-maven-plugin:");
        if str_eq(select_goal, "aggregate") {
            r.append("aggregate");
        } else {
            r.append("graph");
        }
        r
    }

    /// The graph in Graphviz dot, with the given style.
    pub fn to_dot(&self, ss: &DotStyle) -> (r: String)
        ensures
            r@ == self.dot_text(*ss),
    {
        let mut out = self.write_dot_preamble(ss);
        let nodes = self.to_dot_nodes(ss);
        let edges = self.to_dot_edges(ss);
        out.append(nodes.as_str());
        out.append(edges.as_str());
        out.append("}\n");
        out
    }

    /// The opening of the digraph: its name and the style declarations.
    pub fn write_dot_preamble(&self, ss: &DotStyle) -> (r: String)
        ensures
            r@ == self.dot_preamble(*ss),
    {
        let pad = spaces_string(ss.indent());
        let mut out = owned("digraph \"");
        out.append(self.graph_name.as_str());
        out.append("\" {\n");
        out.append(pad.as_str());
        let nd = ss.node_style_decl();
        out.append(nd.as_str());
        out.append("\n");
        out.append(pad.as_str());
        let ed = ss.edge_style_decl();
        out.append(ed.as_str());
        out.append("\n");
        out
    }

    /// The node statements: each node labelled with its group, artifact,
    /// version and, unless it is compile-only, its scopes.
    pub fn to_dot_nodes(&self, ss: &DotStyle) -> (r: String)
        ensures
            r@ == self.dot_nodes(*ss),
    {
        let pad = spaces_string(ss.indent());
        let ghost lines = Seq::new(self.nodes().len(), |i: int| dot_node_line(ss.indent_view() as nat, self.nodes()[i]));
        let mut body = String::new();
        let mut i: usize = 0;
        while i < self.artifacts.len()
            invariant
                i <= self.artifacts.len(),
                pad@ == spaces(ss.indent_view() as nat),
                lines == Seq::new(self.nodes().len(), |i: int| dot_node_line(ss.indent_view() as nat, self.nodes()[i])),
                body@ == concat_all(lines.take(i as int)),
            decreases self.artifacts.len() - i,
        {
            let line = dot_node_statement(&pad, &self.artifacts[i]);
            body.append(line.as_str());
            assert(lines.take(i + 1).drop_last() =~= lines.take(i as int));
            i = i + 1;
        }
        assert(lines.take(i as int) =~= lines);
        let mut out = pad;
        out.append("// Node Definitions:\n");
        out.append(body.as_str());
        out
    }

    /// The edge statements: dotted for duplicates, dashed red with the
    /// version for conflicts.
    pub fn to_dot_edges(&self, ss: &DotStyle) -> (r: String)
        ensures
            r@ == self.dot_edges(*ss),
    {
        let pad = spaces_string(ss.indent());
        let ghost lines = Seq::new(self.edges().len(), |i: int| dot_edge_line(ss.indent_view() as nat, self.edges()[i]));
        let mut body = String::new();
        let mut i: usize = 0;
        while i < self.dependencies.len()
            invariant
                i <= self.dependencies.len(),
                pad@ == spaces(ss.indent_view() as nat),
                lines == Seq::new(self.edges().len(), |i: int| dot_edge_line(ss.indent_view() as nat, self.edges()[i])),
                body@ == concat_all(lines.take(i as int)),
            decreases self.dependencies.len() - i,
        {
            let line = dot_edge_statement(&pad, &self.dependencies[i]);
            body.append(line.as_str());
            assert(lines.take(i + 1).drop_last() =~= lines.take(i as int));
            i = i + 1;
        }
        assert(lines.take(i as int) =~= lines);
        let mut out = pad;
        out.append("// Edge Definitions:\n");
        out.append(body.as_str());
        out
    }

    /// Datalog facts in the Souffle dialect (the same rows as `to_datalog`).
    pub fn write_souffle(&self) -> (r: String)
        requires
            self.shiftable(),
        ensures
            r@ == self.datalog_text(),
    {
        self.to_datalog()
    }

    /// Dot output with the default style.
    pub fn write_dot(&self) -> (r: String)
        ensures
            exists|ss: DotStyle| ss.shape_view() == Some("box"@) && ss.style_view() == Some("rounded"@)
                && ss.fontname_view() == Some("Helvetica"@) && ss.fontsize_view() == Some("14"@)
                && ss.indent_view() == 2 && r@ == self.dot_text(ss),
    {
        let ss = DotStyle::default();
        self.to_dot(&ss)
    }

    /// The output for a format name: dot for `dot`, Souffle facts for
    /// `souffle`, nothing for any other name.
    pub fn output_for_format(&self, out_fmt: &str) -> (r: Option<String>)
        requires
            self.shiftable(),
        ensures
            out_fmt@ == "dot"@ ==> r is Some && exists|ss: DotStyle| ss.shape_view() == Some("box"@)
                && ss.style_view() == Some("rounded"@) && ss.fontname_view() == Some("Helvetica"@)
                && ss.fontsize_view() == Some("14"@) && ss.indent_view() == 2 && r->0@ == self.dot_text(ss),
            out_fmt@ == "souffle"@ ==> r is Some && r->0@ == self.datalog_text(),
            out_fmt@ != "dot"@ && out_fmt@ != "souffle"@ ==> r is None,
    {
        proof {
            reveal_strlit("dot");
            reveal_strlit("souffle");
            assert("dot"@.len() == 3);
            assert("souffle"@.len() == 7);
            assert("dot"@ != "souffle"@);
        }
        if str_eq(out_fmt, "dot") {
            Some(self.write_dot())
        } else if str_eq(out_fmt, "souffle") {
            Some(self.write_souffle())
        } else {
            None
        }
    }
}

/// The scope names joined by `/`.
fn scope_names_joined(scopes: &Vec<MvnScope>) -> (r: String)
    ensures
        r@ == join_with(scope_names(scopes@), "/"@),
{
    let mut names: Vec<String> = Vec::new();
    let mut i: usize = 0;
    while i < scopes.len()
        invariant
            i <= scopes.len(),
            views(names@) == scope_names(scopes@).take(i as int),
        decreases scopes.len() - i,
    {
        let n = scopes[i].to_string();
        let ghost before = names@;
        names.push(n);
        assert(views(names@) =~= views(before).push(n@));
        assert(scope_names(scopes@).take(i + 1) =~= scope_names(scopes@).take(i as int).push(n@));
        i = i + 1;
    }
    assert(scope_names(scopes@).take(i as int) =~= scope_names(scopes@));
    join_strings(&names, "/")
}

/// The dot statement for node `n`, indented by `pad`.
fn dot_node_statement(pad: &String, n: &GraphNode) -> (r: String)
    ensures
        forall|k: nat| pad@ == spaces(k) ==> r@ == dot_node_line(k, *n),
{
    let mut scope_text = String::new();
    if n.scopes.len() > 0 && (n.scopes.len() != 1 || n.scopes[0] != MvnScope::Compile) {
        scope_text.append("<font point-size=\"10\"><br/>(");
        let joined = scope_names_joined(&n.scopes);
        scope_text.append(joined.as_str());
        scope_text.append(")</font>");
    }
    assert(scope_text@ == scope_line(n.scopes@));
    let mut out = pad.clone();
    out.append("\"");
    out.append(n.id.as_str());
    out.append("\"[label=<<font point-size=\"10\">");
    out.append(n.mvn_coord.group_id.as_str());
    out.append("</font><br/>");
    out.append(n.mvn_coord.artifact_id.as_str());
    out.append("<font point-size=\"10\"><br/>");
    out.append(n.mvn_coord.version_id.as_str());
    out.append("</font>");
    out.append(scope_text.as_str());
    out.append(">]\n");
    out
}

/// The dot statement for edge `e`, indented by `pad`.
fn dot_edge_statement(pad: &String, e: &PomDepEdge) -> (r: String)
    ensures
        forall|k: nat| pad@ == spaces(k) ==> r@ == dot_edge_line(k, *e),
{
    let attr = match e.resolution {
        Resolution::Included => String::new(),
        Resolution::OmittedForDuplicate => owned("[style=\"dotted\"]"),
        Resolution::OmittedForConflict => {
            let mut a = owned("[style=\"dashed\",color=\"red\",fontcolor=\"red\",label=\"");
            match &e.version {
                Some(v) => a.append(v.as_str()),
                None => a.append("unknown"),
            }
            a.append("\"]");
            a
        },
    };
    assert(attr@ == dot_edge_attr(*e));
    let mut out = pad.clone();
    out.append("\"");
    out.append(e.from.as_str());
    out.append("\" -> \"");
    out.append(e.to.as_str());
    out.append("\"");
    out.append(attr.as_str());
    out.append("\n");
    out
}

/// Laws of the degree counts and of origins.
impl PomGraph {
    /// In- and out-degrees are counted for the same ids: both ends of every
    /// edge and every node, standalone nodes included.
    pub proof fn lemma_degree_maps_share_keys(&self)
        ensures
            self.in_degrees().dom() == self.out_degrees().dom(),
            self.in_degrees().dom() == self.degree_keys(),
            forall|i: int| 0 <= i < self.nodes().len() ==> self.in_degrees().contains_key(#[trigger] self.node_keys()[i]),
            forall|i: int| 0 <= i < self.edges().len() ==> self.in_degrees().contains_key(#[trigger] self.froms()[i])
                && self.in_degrees().contains_key(self.tos()[i]),
    {
        assert(self.in_degrees().dom() =~= self.degree_keys());
        assert(self.out_degrees().dom() =~= self.degree_keys());
        assert forall|i: int| 0 <= i < self.nodes().len() implies self.in_degrees().contains_key(#[trigger] self.node_keys()[i]) by {
            assert(self.node_keys().contains(self.node_keys()[i]));
        }
        assert forall|i: int| 0 <= i < self.edges().len() implies self.in_degrees().contains_key(#[trigger] self.froms()[i])
            && self.in_degrees().contains_key(self.tos()[i]) by {
            assert(self.froms().contains(self.froms()[i]));
            assert(self.tos().contains(self.tos()[i]));
        }
    }

    /// The origins are exactly the counted ids whose in-degree is 0.
    pub proof fn lemma_origins_have_no_incoming_edge(&self)
        requires
            self.countable(),
        ensures
            self.origin_ids() == Set::new(|k: u32| self.in_degrees().contains_key(k) && self.in_degrees()[k] == 0),
            forall|k: u32, i: int| #![trigger self.origin_ids().contains(k), self.edges()[i]]
                self.origin_ids().contains(k) && 0 <= i < self.edges().len() ==> self.edges()[i].nto() != k,
    {
        assert forall|k: u32| self.origin_ids().contains(k) == (self.in_degrees().contains_key(k) && self.in_degrees()[k] == 0) by {
            lemma_end_count_le(self.tos(), k);
        }
        assert(self.origin_ids() =~= Set::new(|k: u32| self.in_degrees().contains_key(k) && self.in_degrees()[k] == 0));
        assert forall|k: u32, i: int| #![trigger self.origin_ids().contains(k), self.edges()[i]]
            self.origin_ids().contains(k) && 0 <= i < self.edges().len() implies self.edges()[i].nto() != k by {
            if self.edges()[i].nto() == k {
                assert(self.tos()[i] == k);
                lemma_end_count_pos(self.tos(), k, i);
            }
        }
    }

    /// No direct dependency is itself an origin, and each is the target of
    /// an edge from an origin.
    pub proof fn lemma_direct_deps_are_not_origins(&self)
        ensures
            self.direct_dep_ids().disjoint(self.origin_ids()),
            forall|k: u32| #[trigger] self.direct_dep_ids().contains(k) ==> exists|i: int| 0 <= i < self.edges().len()
                && self.edges()[i].nto() == k && self.origin_ids().contains(self.edges()[i].nfrom()),
    {
    }
}

proof fn lemma_end_count_pos(ends: Seq<u32>, k: u32, i: int)
    requires
        0 <= i < ends.len(),
        ends[i] == k,
    ensures
        end_count(ends, k) > 0,
    decreases ends.len(),
{
    if i < ends.len() - 1 {
        lemma_end_count_pos(ends.drop_last(), k, i);
    }
}

/// `dedup` keeps every element once: no duplicates, and the same elements.
pub proof fn lemma_dedup_distinct<A>(s: Seq<A>)
    ensures
        dedup(s).no_duplicates(),
        dedup(s).to_set() == s.to_set(),
    decreases s.len(),
{
    if s.len() > 0 {
        let d = dedup(s.drop_last());
        lemma_dedup_distinct(s.drop_last());
        s.drop_last().lemma_push_to_set_commute(s.last());
        assert(s.drop_last().push(s.last()) =~= s);
        if d.contains(s.last()) {
            assert(d.to_set() =~= d.to_set().insert(s.last()));
        } else {
            d.lemma_push_to_set_commute(s.last());
            assert forall|a: int, b: int| 0 <= a < b < d.push(s.last()).len() implies d.push(s.last())[a] != d.push(
                s.last(),
            )[b] by {
                if b == d.len() {
                    assert(d.contains(d[a]));
                }
            }
        }
    }
}

/// Reading back what `to_string` writes gives the coordinate again, for a
/// coordinate whose group, artifact and version hold no `:`.
pub proof fn lemma_coord_text_round_trip(c: (Seq<char>, Seq<char>, Seq<char>))
    requires
        !c.0.contains(':'),
        !c.1.contains(':'),
        !c.2.contains(':'),
    ensures
        split_on(coord_text(c), ':') == seq![c.0, c.1, c.2],
{
    reveal_strlit(":");
    assert(":"@ =~= seq![':']);
    lemma_split_no_sep(c.2, ':');
    lemma_split_first_piece(c.1, c.2, ':');
    assert(c.1 + seq![':'] + c.2 == c.1 + ":"@ + c.2);
    lemma_split_first_piece(c.0, c.1 + ":"@ + c.2, ':');
    assert(coord_text(c) =~= c.0 + seq![':'] + (c.1 + ":"@ + c.2));
    assert(seq![c.0] + (seq![c.1] + seq![c.2]) =~= seq![c.0, c.1, c.2]);
}

} // verus!
