//! Library pairs found by the Datalog analysis, read from its tab-separated
//! output relations.
use vstd::prelude::*;

use crate::text::{concat_all, owned, spaces, spaces_string, str_eq, views};
use crate::utils::err::{DepError, ErrorKind};

verus! {

broadcast use vstd::string::group_string_axioms;

/// The kind of relation a library pair was found in.
#[derive(PartialEq, Eq, Structural, Debug, Clone, Copy)]
pub enum RelKind {
    PomDepDataFlowLLib,
    PomDepDataFlowRLib,
    SameGroupDataFlowLib,
    Default,
}

impl RelKind {
    /// The variant's name, as it is printed.
    pub open spec fn name_view(self) -> Seq<char> {
        match self {
            RelKind::PomDepDataFlowLLib => "PomDepDataFlowLLib"@,
            RelKind::PomDepDataFlowRLib => "PomDepDataFlowRLib"@,
            RelKind::SameGroupDataFlowLib => "SameGroupDataFlowLib"@,
            RelKind::Default => "Default"@,
        }
    }

    /// The kind a relation name stands for; `Default` for any other name.
    pub open spec fn of_name(k: Seq<char>) -> RelKind {
        if k == "PomDepDataFlowLLib"@ {
            RelKind::PomDepDataFlowLLib
        } else if k == "PomDepDataFlowRLib"@ {
            RelKind::PomDepDataFlowRLib
        } else if k == "SameGroupDataFlowLib"@ {
            RelKind::SameGroupDataFlowLib
        } else {
            RelKind::Default
        }
    }

    /// The kind a relation name stands for; `Default` for any other name.
    pub fn from_str(k: &str) -> (r: Self)
        ensures
            r == RelKind::of_name(k@),
    {
        if str_eq(k, "PomDepDataFlowLLib") {
            RelKind::PomDepDataFlowLLib
        } else if str_eq(k, "PomDepDataFlowRLib") {
            RelKind::PomDepDataFlowRLib
        } else if str_eq(k, "SameGroupDataFlowLib") {
            RelKind::SameGroupDataFlowLib
        } else {
            RelKind::Default
        }
    }

    /// The variant's name.
    pub fn to_string(&self) -> (r: String)
        ensures
            r@ == self.name_view(),
    {
        match self {
            RelKind::PomDepDataFlowLLib => owned("PomDepDataFlowLLib"),
            RelKind::PomDepDataFlowRLib => owned("PomDepDataFlowRLib"),
            RelKind::SameGroupDataFlowLib => owned("SameGroupDataFlowLib"),
            RelKind::Default => owned("Default"),
        }
    }

    /// The names of the relations the analysis writes, in order.
    pub fn rel_kinds() -> (r: Vec<String>)
        ensures
            views(r@) == seq!["PomDepDataFlowLLib"@, "PomDepDataFlowRLib"@, "SameGroupDataFlowLib"@],
    {
        let mut r: Vec<String> = Vec::new();
        r.push(owned("PomDepDataFlowLLib"));
        r.push(owned("PomDepDataFlowRLib"));
        r.push(owned("SameGroupDataFlowLib"));
        assert(views(r@) =~= seq!["PomDepDataFlowLLib"@, "PomDepDataFlowRLib"@, "SameGroupDataFlowLib"@]);
        r
    }
}

/// A relation between two libraries that can name both ends.
pub trait LibPairRelation {
    fn to_id_pair(&self) -> (String, String);
}

/// The view of a library pair: (kind, group x, artifact x, group y, artifact y).
pub type PairView = (RelKind, Seq<char>, Seq<char>, Seq<char>, Seq<char>);

/// A pair of libraries `x -> y`, each given by group and artifact.
#[derive(Debug)]
pub struct SimpleLibPair {
    kind: RelKind,
    group_x: String,
    artifact_x: String,
    group_y: String,
    artifact_y: String,
}

impl View for SimpleLibPair {
    type V = PairView;

    closed spec fn view(&self) -> PairView {
        (self.kind, self.group_x@, self.artifact_x@, self.group_y@, self.artifact_y@)
    }
}

/// `group:artifact:jar`, the node id of a library in the POM graph.
pub open spec fn jar_node_id(g: Seq<char>, a: Seq<char>) -> Seq<char> {
    g + ":"@ + a + ":jar"@
}

/// The pair a record of 4 fields (gx, ax, gy, ay) or of 3 fields (g, ax, ay,
/// both in group g) stands for; no pair for any other number of fields.
pub open spec fn pair_of_fields(p: Seq<Seq<char>>) -> Option<(Seq<char>, Seq<char>, Seq<char>, Seq<char>)> {
    if p.len() == 4 {
        Some((p[0], p[1], p[2], p[3]))
    } else if p.len() == 3 {
        Some((p[0], p[1], p[0], p[2]))
    } else {
        None
    }
}

/// The message for a record that stands for no pair.
pub open spec fn unconvertible_message(p: Seq<Seq<char>>) -> Seq<char> {
    "Cannot convert "@ + concat_all(p) + " to a SimpleLibPair"@
}

impl SimpleLibPair {
    pub fn new(k: RelKind, grp_x: &str, art_x: &str, grp_y: &str, art_y: &str) -> (r: Self)
        ensures
            r@ == (k, grp_x@, art_x@, grp_y@, art_y@),
    {
        SimpleLibPair {
            kind: k,
            group_x: owned(grp_x),
            artifact_x: owned(art_x),
            group_y: owned(grp_y),
            artifact_y: owned(art_y),
        }
    }

    pub fn kind(&self) -> (r: RelKind)
        ensures
            r == self@.0,
    {
        self.kind
    }

    pub fn group_x(&self) -> (r: &str)
        ensures
            r@ == self@.1,
    {
        self.group_x.as_str()
    }

    pub fn artifact_x(&self) -> (r: &str)
        ensures
            r@ == self@.2,
    {
        self.artifact_x.as_str()
    }

    pub fn group_y(&self) -> (r: &str)
        ensures
            r@ == self@.3,
    {
        self.group_y.as_str()
    }

    pub fn artifact_y(&self) -> (r: &str)
        ensures
            r@ == self@.4,
    {
        self.artifact_y.as_str()
    }

    pub fn set_kind(&mut self, kind: RelKind)
        ensures
            final(self)@ == (kind, old(self)@.1, old(self)@.2, old(self)@.3, old(self)@.4),
    {
        self.kind = kind
    }

    /// `[kind]<TAB>gx:ax -> gy:ay`, the form the pair is printed in.
    pub fn display_string(&self) -> (r: String)
        ensures
            r@ == "["@ + self@.0.name_view() + "]\t"@ + self@.1 + ":"@ + self@.2 + " -> "@ + self@.3 + ":"@
                + self@.4,
    {
        let mut r = owned("[");
        let k = self.kind.to_string();
        r.append(k.as_str());
        r.append("]\t");
        r.append(self.group_x.as_str());
        r.append(":");
        r.append(self.artifact_x.as_str());
        r.append(" -> ");
        r.append(self.group_y.as_str());
        r.append(":");
        r.append(self.artifact_y.as_str());
        r
    }

    /// The pair a record stands for, of kind `Default`: 4 fields are
    /// (gx, ax, gy, ay), 3 fields are (g, ax, ay) with both in group g; any
    /// other record is an `ObjConstructErr`.
    pub fn try_from(r: Vec<String>) -> (res: Result<SimpleLibPair, DepError>)
        ensures
            match pair_of_fields(views(r@)) {
                Some(p) => res matches Ok(v) && v@ == (RelKind::Default, p.0, p.1, p.2, p.3),
                None => res matches Err(e) && e.kind_view() matches ErrorKind::ObjConstructErr(m)
                    && m@ == unconvertible_message(views(r@)),
            },
    {
        if r.len() == 4 {
            Ok(SimpleLibPair::new(RelKind::Default, r[0].as_str(), r[1].as_str(), r[2].as_str(), r[3].as_str()))
        } else if r.len() == 3 {
            Ok(SimpleLibPair::new(RelKind::Default, r[0].as_str(), r[1].as_str(), r[0].as_str(), r[2].as_str()))
        } else {
            let mut m = owned("Cannot convert ");
            let mut i: usize = 0;
            let ghost prefix = m@;
            while i < r.len()
                invariant
                    i <= r.len(),
                    m@ == prefix + concat_all(views(r@).take(i as int)),
                decreases r.len() - i,
            {
                m.append(r[i].as_str());
                assert(views(r@).take(i + 1).drop_last() =~= views(r@).take(i as int));
                i = i + 1;
            }
            assert(views(r@).take(i as int) =~= views(r@));
            m.append(" to a SimpleLibPair");
            Err(DepError::new(ErrorKind::ObjConstructErr(m)))
        }
    }
}

impl LibPairRelation for SimpleLibPair {
    /// Both ends as POM graph node ids, `group:artifact:jar`.
    fn to_id_pair(&self) -> (r: (String, String))
        ensures
            r.0@ == jar_node_id(self@.1, self@.2),
            r.1@ == jar_node_id(self@.3, self@.4),
    {
        let mut x = self.group_x.clone();
        x.append(":");
        x.append(self.artifact_x.as_str());
        x.append(":jar");
        let mut y = self.group_y.clone();
        y.append(":");
        y.append(self.artifact_y.as_str());
        y.append(":jar");
        (x, y)
    }
}

/// The rows of `text` read as tab-separated records without a header row:
/// per record, its fields, or `None` where the CSV reader reports an error.
pub uninterp spec fn tsv_rows(text: Seq<char>) -> Seq<Option<Seq<Seq<char>>>>;

/// Reads `text` with `csv::ReaderBuilder` (tab delimiter, no header row) and
/// collects every record from `records()`, each as its fields or the error
/// the reader gave for it. Trusted: the records are those `tsv_rows` names.
#[verifier::external_body]
fn read_tsv_records(text: &str) -> (r: Vec<Result<Vec<String>, csv::Error>>)
    ensures
        r@.len() == tsv_rows(text@).len(),
        forall|i: int| 0 <= i < r@.len() ==> (#[trigger] r@[i] is Ok) == (tsv_rows(text@)[i] is Some),
        forall|i: int| 0 <= i < r@.len() ==> (#[trigger] r@[i] matches Ok(v) ==> views(v@) == tsv_rows(text@)[i]->0),
{
    let mut rdr = csv::ReaderBuilder::new().delimiter(b'\t').has_headers(false).from_reader(text.as_bytes());
    rdr.records().map(|x| x.map(|rec| rec.iter().map(String::from).collect())).collect()
}

/// The record views: fields for a record, `None` for a reader error.
pub open spec fn record_views(records: Seq<Result<Vec<String>, csv::Error>>) -> Seq<Option<Seq<Seq<char>>>> {
    records.map_values(|x: Result<Vec<String>, csv::Error>| match x {
        Ok(v) => Some(views(v@)),
        Err(_) => None,
    })
}

/// The row converts to a pair.
pub open spec fn row_ok(row: Option<Seq<Seq<char>>>) -> bool {
    row matches Some(f) && pair_of_fields(f) is Some
}

/// The pair of a row that converts, with kind `k`.
pub open spec fn row_pair(row: Option<Seq<Seq<char>>>, k: RelKind) -> PairView {
    let p = pair_of_fields(row->0)->0;
    (k, p.0, p.1, p.2, p.3)
}

/// The outcome the rows give: every pair if every row converts; else the
/// error of the first row that does not (a CSV error, or an
/// `ObjConstructErr` for a record of the wrong width).
pub open spec fn pairs_outcome_ok(rows: Seq<Option<Seq<Seq<char>>>>, k: RelKind, r: Result<Vec<SimpleLibPair>, DepError>) -> bool {
    if forall|i: int| 0 <= i < rows.len() ==> #[trigger] row_ok(rows[i]) {
        r matches Ok(v) && v@.len() == rows.len() && forall|i: int| 0 <= i < rows.len() ==> (#[trigger] v@[i])@
            == row_pair(rows[i], k)
    } else {
        exists|i: int| {
            &&& 0 <= i < rows.len()
            &&& !row_ok(#[trigger] rows[i])
            &&& forall|j: int| 0 <= j < i ==> row_ok(rows[j])
            &&& r matches Err(e) && match rows[i] {
                None => e.kind_view() is CSVErr,
                Some(f) => e.kind_view() matches ErrorKind::ObjConstructErr(m) && m@ == unconvertible_message(f),
            }
        }
    }
}

/// The library pairs of the given records, each of kind `k`; the first
/// record that is an error or has the wrong width ends the reading with its
/// error.
pub fn lib_pairs_from_records(records: Vec<Result<Vec<String>, csv::Error>>, k: RelKind) -> (r: Result<
    Vec<SimpleLibPair>,
    DepError,
>)
    ensures
        pairs_outcome_ok(record_views(records@), k, r),
{
    let ghost rows = record_views(records@);
    let mut out: Vec<SimpleLibPair> = Vec::new();
    for x in it: records
        invariant
            rows == record_views(it.seq()),
            out@.len() == it.index(),
            forall|j: int| 0 <= j < it.index() ==> row_ok(#[trigger] rows[j]),
            forall|j: int| 0 <= j < it.index() ==> (#[trigger] out@[j])@ == row_pair(rows[j], k),
    {
        let ghost i = it.index();
        assert(rows[i] == match x { Ok(v) => Some(views(v@)), Err(_) => None });
        match x {
            Ok(fields) => {
                match SimpleLibPair::try_from(fields) {
                    Ok(mut y) => {
                        y.set_kind(k);
                        out.push(y);
                    },
                    Err(e) => {
                        assert(!row_ok(rows[i]));
                        return Err(e);
                    },
                }
            },
            Err(e) => {
                assert(!row_ok(rows[i]));
                return Err(DepError::new(ErrorKind::CSVErr(e)));
            },
        }
    }
    Ok(out)
}

/// The library pairs in the text of a tab-separated relation file, each of
/// kind `k` (records of 4 or 3 fields, as `SimpleLibPair::try_from` reads
/// them; the first bad record ends the reading with its error).
pub fn read_simple_lib_pair(text: &str, k: RelKind) -> (r: Result<Vec<SimpleLibPair>, DepError>)
    ensures
        pairs_outcome_ok(tsv_rows(text@), k, r),
{
    let records = read_tsv_records(text);
    proof {
        assert(record_views(records@) =~= tsv_rows(text@));
    }
    lib_pairs_from_records(records, k)
}

/// The dot attributes for an added edge of the given kind.
pub open spec fn added_edge_attr(k: RelKind) -> Seq<char> {
    match k {
        RelKind::SameGroupDataFlowLib => "[style=\"dashed\",color=\"blue\"]"@,
        RelKind::PomDepDataFlowLLib => "[style=\"dashed\",color=\"brown\"]"@,
        RelKind::PomDepDataFlowRLib => "[style=\"dashed\",color=\"darkorange\"]"@,
        RelKind::Default => Seq::empty(),
    }
}

/// The dot statement that adds the edge of a pair to a POM graph.
pub open spec fn added_edge_line(p: PairView) -> Seq<char> {
    spaces(2) + "\""@ + jar_node_id(p.1, p.2) + "\" -> \""@ + jar_node_id(p.3, p.4) + "\""@ + added_edge_attr(p.0)
        + "\n"@
}

/// Dot statements adding an edge for every pair, between the `g:a:jar`
/// nodes of its ends, styled by the pair's kind.
pub fn add_edge_to_graph(pairs: &Vec<SimpleLibPair>) -> (r: String)
    ensures
        r@ == concat_all(Seq::new(pairs@.len(), |i: int| added_edge_line(pairs@[i]@))),
{
    let ghost lines = Seq::new(pairs@.len(), |i: int| added_edge_line(pairs@[i]@));
    let pad = spaces_string(2);
    let mut out = String::new();
    let mut i: usize = 0;
    while i < pairs.len()
        invariant
            i <= pairs.len(),
            pad@ == spaces(2),
            lines == Seq::new(pairs@.len(), |i: int| added_edge_line(pairs@[i]@)),
            out@ == concat_all(lines.take(i as int)),
        decreases pairs.len() - i,
    {
        let p = &pairs[i];
        let (src_node, dst_node) = p.to_id_pair();
        let attr = match p.kind {
            RelKind::SameGroupDataFlowLib => owned("[style=\"dashed\",color=\"blue\"]"),
            RelKind::PomDepDataFlowLLib => owned("[style=\"dashed\",color=\"brown\"]"),
            RelKind::PomDepDataFlowRLib => owned("[style=\"dashed\",color=\"darkorange\"]"),
            RelKind::Default => String::new(),
        };
        let mut line = pad.clone();
        line.append("\"");
        line.append(src_node.as_str());
        line.append("\" -> \"");
        line.append(dst_node.as_str());
        line.append("\"");
        line.append(attr.as_str());
        line.append("\n");
        assert(line@ == lines[i as int]);
        out.append(line.as_str());
        assert(lines.take(i + 1).drop_last() =~= lines.take(i as int));
        i = i + 1;
    }
    assert(lines.take(i as int) =~= lines);
    out
}

} // verus!
