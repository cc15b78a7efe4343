//! Data flows between library classes, as reported by a data-flow analysis,
//! and the class-level graph they induce.
use vstd::prelude::*;

use crate::text::{
    contains_str, contains_sub, lemma_lex_irreflexive, lemma_lex_total, lemma_lex_transitive, lex_less,
    lex_lt, strictly_sorted,
};

verus! {

broadcast use vstd::string::group_string_axioms;

/// The view of a flow: (source method, source class, sink method, sink class).
pub type FlowView = (Seq<char>, Seq<char>, Seq<char>, Seq<char>);

/// One data flow from a source method in one class to a sink method in
/// another.
#[derive(Debug)]
pub struct Flow {
    src_method: String,
    src_class: String,
    dst_method: String,
    dst_class: String,
}

impl View for Flow {
    type V = FlowView;

    closed spec fn view(&self) -> FlowView {
        (self.src_method@, self.src_class@, self.dst_method@, self.dst_class@)
    }
}

impl Clone for Flow {
    fn clone(&self) -> (r: Self)
        ensures
            r@ == self@,
    {
        Flow {
            src_method: self.src_method.clone(),
            src_class: self.src_class.clone(),
            dst_method: self.dst_method.clone(),
            dst_class: self.dst_class.clone(),
        }
    }
}

impl Flow {
    /// A flow with the given source method and class and sink method and class.
    pub fn new(src_method: String, src_class: String, dst_method: String, dst_class: String) -> (r: Self)
        ensures
            r@ == (src_method@, src_class@, dst_method@, dst_class@),
    {
        Flow { src_method, src_class, dst_method, dst_class }
    }

    pub fn src_method(&self) -> (r: &str)
        ensures
            r@ == self@.0,
    {
        self.src_method.as_str()
    }

    pub fn src_class(&self) -> (r: &str)
        ensures
            r@ == self@.1,
    {
        self.src_class.as_str()
    }

    pub fn dst_method(&self) -> (r: &str)
        ensures
            r@ == self@.2,
    {
        self.dst_method.as_str()
    }

    pub fn dst_class(&self) -> (r: &str)
        ensures
            r@ == self@.3,
    {
        self.dst_class.as_str()
    }
}

/// A flow between two classes.
#[derive(Debug)]
pub struct CFlow {
    s: String,
    d: String,
}

impl View for CFlow {
    type V = (Seq<char>, Seq<char>);

    closed spec fn view(&self) -> (Seq<char>, Seq<char>) {
        (self.s@, self.d@)
    }
}

impl CFlow {
    /// The class-level flow of `f`: its source class to its sink class.
    pub fn from_flow(f: Flow) -> (r: CFlow)
        ensures
            r@ == (f@.1, f@.3),
    {
        CFlow { s: f.src_class, d: f.dst_class }
    }

    pub fn from_tuple(a: String, b: String) -> (r: CFlow)
        ensures
            r@ == (a@, b@),
    {
        CFlow { s: a, d: b }
    }

    pub fn s(&self) -> (r: &str)
        ensures
            r@ == self@.0,
    {
        self.s.as_str()
    }

    pub fn d(&self) -> (r: &str)
        ensures
            r@ == self@.1,
    {
        self.d.as_str()
    }
}

/// The views of a sequence of flows.
pub open spec fn flow_views(v: Seq<Flow>) -> Seq<FlowView> {
    v.map_values(|f: Flow| f@)
}

/// The views of a sequence of class flows.
pub open spec fn cflow_views(v: Seq<CFlow>) -> Seq<(Seq<char>, Seq<char>)> {
    v.map_values(|f: CFlow| f@)
}

/// The views of a sequence of string slices.
pub open spec fn str_views(v: Seq<&str>) -> Seq<Seq<char>> {
    v.map_values(|s: &str| s@)
}

/// The name of either class of `f` contains one of `patterns`.
pub open spec fn touches(f: FlowView, patterns: Seq<Seq<char>>) -> bool {
    exists|k: int| 0 <= k < patterns.len() && (contains_sub(f.1, #[trigger] patterns[k]) || contains_sub(f.3, patterns[k]))
}

/// The flows for which `touches` is `keep`, in order.
pub open spec fn select_flows(flows: Seq<FlowView>, patterns: Seq<Seq<char>>, keep: bool) -> Seq<FlowView>
    decreases flows.len(),
{
    if flows.len() == 0 {
        flows
    } else {
        let p = select_flows(flows.drop_last(), patterns, keep);
        if touches(flows.last(), patterns) == keep {
            p.push(flows.last())
        } else {
            p
        }
    }
}

/// The flows kept by an inclusion and an exclusion filter: with an inclusion
/// list, only flows with a class name containing one of its patterns; with an
/// exclusion list, only flows with no class name containing one of its
/// patterns.
pub open spec fn filtered_flows(
    flows: Seq<FlowView>,
    inc_filter: Option<Seq<Seq<char>>>,
    exc_filter: Option<Seq<Seq<char>>>,
) -> Seq<FlowView> {
    let inc = match inc_filter {
        Some(v) => select_flows(flows, v, true),
        None => flows,
    };
    match exc_filter {
        Some(v) => select_flows(inc, v, false),
        None => inc,
    }
}

/// The distinct (source class, sink class) pairs of `flows`, in order of
/// first occurrence.
pub open spec fn class_pairs(flows: Seq<FlowView>) -> Seq<(Seq<char>, Seq<char>)>
    decreases flows.len(),
{
    if flows.len() == 0 {
        Seq::empty()
    } else {
        let p = class_pairs(flows.drop_last());
        let e = (flows.last().1, flows.last().3);
        if p.contains(e) {
            p
        } else {
            p.push(e)
        }
    }
}

/// The classes at either end of the class flows.
pub open spec fn class_nodes(cf: Seq<(Seq<char>, Seq<char>)>) -> Set<Seq<char>> {
    Set::new(|c: Seq<char>| exists|i: int| 0 <= i < cf.len() && (#[trigger] cf[i].0 == c || cf[i].1 == c))
}

/// One Datalog row for a flow.
pub open spec fn flow_row(f: FlowView) -> Seq<char> {
    f.0 + "\t"@ + f.1 + "\t"@ + f.2 + "\t"@ + f.3 + "\n"@
}

/// Rows for all flows, one after another.
pub open spec fn flow_rows(flows: Seq<FlowView>) -> Seq<char>
    decreases flows.len(),
{
    if flows.len() == 0 {
        Seq::empty()
    } else {
        flow_rows(flows.drop_last()) + flow_row(flows.last())
    }
}

/// Whether the name of either class of `f` contains one of `patterns`.
fn flow_touches(f: &Flow, patterns: &Vec<String>) -> (r: bool)
    ensures
        r == touches(f@, crate::text::views(patterns@)),
{
    let mut k: usize = 0;
    while k < patterns.len()
        invariant
            k <= patterns.len(),
            forall|j: int| 0 <= j < k ==> !(contains_sub(f@.1, patterns@[j]@) || contains_sub(f@.3, patterns@[j]@)),
        decreases patterns.len() - k,
    {
        if contains_str(f.src_class.as_str(), patterns[k].as_str())
            || contains_str(f.dst_class.as_str(), patterns[k].as_str()) {
            assert(crate::text::views(patterns@)[k as int] == patterns@[k as int]@);
            return true;
        }
        k = k + 1;
    }
    assert forall|j: int| 0 <= j < patterns@.len() implies !(contains_sub(
        f@.1,
        #[trigger] crate::text::views(patterns@)[j],
    ) || contains_sub(f@.3, crate::text::views(patterns@)[j])) by {
        assert(crate::text::views(patterns@)[j] == patterns@[j]@);
    }
    false
}

/// Whether some class flow of `lf` goes from `s` to `d`.
fn contains_pair(lf: &Vec<CFlow>, s: &String, d: &String) -> (r: bool)
    ensures
        r == cflow_views(lf@).contains((s@, d@)),
{
    let mut k: usize = 0;
    while k < lf.len()
        invariant
            k <= lf.len(),
            forall|j: int| 0 <= j < k ==> lf@[j]@ != (s@, d@),
        decreases lf.len() - k,
    {
        if lf[k].s == *s && lf[k].d == *d {
            assert(cflow_views(lf@)[k as int] == (s@, d@));
            return true;
        }
        k = k + 1;
    }
    assert(!cflow_views(lf@).contains((s@, d@))) by {
        if cflow_views(lf@).contains((s@, d@)) {
            let j = choose|j: int| 0 <= j < lf@.len() && cflow_views(lf@)[j] == (s@, d@);
            assert(lf@[j]@ == (s@, d@));
        }
    }
    false
}

/// Copies of the flows for which `touches` is `keep`.
fn select(flows: &Vec<Flow>, patterns: &Vec<String>, keep: bool) -> (r: Vec<Flow>)
    ensures
        flow_views(r@) == select_flows(flow_views(flows@), crate::text::views(patterns@), keep),
{
    let mut r: Vec<Flow> = Vec::new();
    let mut i: usize = 0;
    while i < flows.len()
        invariant
            i <= flows.len(),
            flow_views(r@) == select_flows(flow_views(flows@).take(i as int), crate::text::views(patterns@), keep),
        decreases flows.len() - i,
    {
        assert(flow_views(flows@).take(i + 1).drop_last() =~= flow_views(flows@).take(i as int));
        assert(flow_views(flows@).take(i + 1).last() == flows@[i as int]@);
        if flow_touches(&flows[i], patterns) == keep {
            let ghost before = r@;
            r.push(flows[i].clone());
            assert(flow_views(r@) =~= flow_views(before).push(flows@[i as int]@));
        }
        i = i + 1;
    }
    assert(flow_views(flows@).take(i as int) =~= flow_views(flows@));
    r
}

/// The sorted insertion point bookkeeping: `x` joins the set, order kept.
fn insert_sorted<'a>(v: &mut Vec<&'a str>, x: &'a str)
    requires
        strictly_sorted(str_views(old(v)@)),
    ensures
        strictly_sorted(str_views(final(v)@)),
        str_views(final(v)@).to_set() == str_views(old(v)@).to_set().insert(x@),
{
    let ghost old_v = str_views(v@);
    let mut i: usize = 0;
    while i < v.len() && lex_less(v[i], x)
        invariant
            i <= v.len(),
            str_views(v@) == old_v,
            strictly_sorted(old_v),
            forall|j: int| 0 <= j < i ==> lex_lt(#[trigger] old_v[j], x@),
        decreases v.len() - i,
    {
        i = i + 1;
    }
    if i < v.len() && crate::text::str_eq(v[i], x) {
        assert(old_v[i as int] == x@);
        assert(old_v.to_set().insert(x@) =~= old_v.to_set());
        return;
    }
    proof {
        if i < v.len() {
            assert(!lex_lt(old_v[i as int], x@));
            assert(old_v[i as int] != x@);
            lemma_lex_total(old_v[i as int], x@);
        }
    }
    v.insert(i, x);
    let ghost nv = str_views(v@);
    assert(nv =~= old_v.insert(i as int, x@));
    proof {
        assert forall|a: int, b: int| 0 <= a < b < nv.len() implies lex_lt(#[trigger] nv[a], #[trigger] nv[b]) by {
            if b < i {
            } else if a < i && b == i {
            } else if a < i && b > i {
                assert(nv[b] == old_v[b - 1]);
                assert(lex_lt(x@, old_v[i as int]));
                if b - 1 > i {
                    lemma_lex_transitive(x@, old_v[i as int], old_v[b - 1]);
                }
                lemma_lex_transitive(old_v[a], x@, old_v[b - 1]);
            } else if a == i {
                assert(lex_lt(x@, old_v[i as int]));
                if b - 1 > i {
                    lemma_lex_transitive(x@, old_v[i as int], old_v[b - 1]);
                }
            } else {
                assert(nv[a] == old_v[a - 1]);
                assert(nv[b] == old_v[b - 1]);
            }
        }
        assert forall|c: Seq<char>| nv.to_set().contains(c) == old_v.to_set().insert(x@).contains(c) by {
            if nv.contains(c) {
                let k = choose|k: int| 0 <= k < nv.len() && nv[k] == c;
                if k < i {
                    assert(old_v[k] == c);
                } else if k > i {
                    assert(old_v[k - 1] == c);
                }
            }
            if old_v.contains(c) {
                let k = choose|k: int| 0 <= k < old_v.len() && old_v[k] == c;
                if k < i {
                    assert(nv[k] == c);
                } else {
                    assert(nv[k + 1] == c);
                }
            }
            if c == x@ {
                assert(nv[i as int] == c);
            }
        }
        assert(nv.to_set() =~= old_v.to_set().insert(x@));
    }
}

/// A graph of data flows, with the distinct class-level flows they induce.
pub struct FlowGraph {
    flows: Vec<Flow>,
    class_flows: Vec<CFlow>,
}

impl FlowGraph {
    /// The class flows are those the flows induce.
    #[verifier::type_invariant]
    spec fn class_flows_induced(&self) -> bool {
        cflow_views(self.class_flows@) == class_pairs(flow_views(self.flows@))
    }

    pub closed spec fn flows_view(&self) -> Seq<FlowView> {
        flow_views(self.flows@)
    }

    pub closed spec fn class_flows_view(&self) -> Seq<(Seq<char>, Seq<char>)> {
        cflow_views(self.class_flows@)
    }

    /// The graph of the given flows.
    pub fn from_flows(flows: Vec<Flow>) -> (r: FlowGraph)
        ensures
            r.flows_view() == flow_views(flows@),
            r.class_flows_view() == class_pairs(flow_views(flows@)),
    {
        let h = FlowGraph::extract_class_flow(&flows);
        FlowGraph { flows, class_flows: h }
    }

    /// The graph of the flows that pass the filters: with `inc_filter`, only
    /// flows with a class name containing one of its patterns; with
    /// `exc_filter`, only flows with no class name containing one of them. A
    /// flow matched by both is dropped.
    pub fn from_flows_with_filter(
        flows: Vec<Flow>,
        inc_filter: &Option<Vec<String>>,
        exc_filter: &Option<Vec<String>>,
    ) -> (r: FlowGraph)
        ensures
            r.flows_view() == filtered_flows(
                flow_views(flows@),
                match inc_filter {
                    Some(v) => Some(crate::text::views(v@)),
                    None => None,
                },
                match exc_filter {
                    Some(v) => Some(crate::text::views(v@)),
                    None => None,
                },
            ),
            r.class_flows_view() == class_pairs(r.flows_view()),
    {
        let g_filter = match inc_filter {
            Some(x) => select(&flows, x, true),
            None => flows,
        };
        let g_filter = match exc_filter {
            Some(x) => select(&g_filter, x, false),
            None => g_filter,
        };
        let h = FlowGraph::extract_class_flow(&g_filter);
        FlowGraph { flows: g_filter, class_flows: h }
    }

    /// The distinct (source class, sink class) pairs, in order of first
    /// occurrence.
    fn extract_class_flow(flows: &Vec<Flow>) -> (r: Vec<CFlow>)
        ensures
            cflow_views(r@) == class_pairs(flow_views(flows@)),
    {
        let mut lf: Vec<CFlow> = Vec::new();
        let mut i: usize = 0;
        while i < flows.len()
            invariant
                i <= flows.len(),
                cflow_views(lf@) == class_pairs(flow_views(flows@).take(i as int)),
            decreases flows.len() - i,
        {
            let f = &flows[i];
            assert(flow_views(flows@).take(i + 1).drop_last() =~= flow_views(flows@).take(i as int));
            assert(flow_views(flows@).take(i + 1).last() == f@);
            if !contains_pair(&lf, &f.src_class, &f.dst_class) {
                let ghost before = lf@;
                lf.push(CFlow::from_tuple(f.src_class.clone(), f.dst_class.clone()));
                assert(cflow_views(lf@) =~= cflow_views(before).push((f@.1, f@.3)));
            }
            i = i + 1;
        }
        assert(flow_views(flows@).take(i as int) =~= flow_views(flows@));
        lf
    }

    pub fn get_class_flows(&self) -> (r: &Vec<CFlow>)
        ensures
            cflow_views(r@) == self.class_flows_view(),
            self.class_flows_view() == class_pairs(self.flows_view()),
    {
        proof {
            use_type_invariant(self);
        }
        &self.class_flows
    }

    /// Every class at either end of a class flow, each once, in the order of
    /// `str`.
    pub fn all_nodes_sorted(&self) -> (r: Vec<&str>)
        ensures
            strictly_sorted(str_views(r@)),
            str_views(r@).to_set() == class_nodes(self.class_flows_view()),
    {
        let mut result: Vec<&str> = Vec::new();
        let mut i: usize = 0;
        let ghost cf = self.class_flows_view();
        assert(str_views(result@).to_set() =~= Set::<Seq<char>>::empty());
        while i < self.class_flows.len()
            invariant
                i <= self.class_flows.len(),
                cf == self.class_flows_view(),
                strictly_sorted(str_views(result@)),
                str_views(result@).to_set() == class_nodes(cf.take(i as int)),
            decreases self.class_flows.len() - i,
        {
            let f = &self.class_flows[i];
            insert_sorted(&mut result, f.s.as_str());
            insert_sorted(&mut result, f.d.as_str());
            proof {
                assert(cf[i as int] == f@);
                assert(class_nodes(cf.take(i + 1)) =~= class_nodes(cf.take(i as int)).insert(f@.0).insert(f@.1)) by {
                    assert forall|c: Seq<char>| class_nodes(cf.take(i + 1)).contains(c) implies class_nodes(cf.take(i as int)).insert(f@.0).insert(f@.1).contains(c) by {
                        let j = choose|j: int| 0 <= j < i + 1 && (#[trigger] cf.take(i + 1)[j].0 == c || cf.take(i + 1)[j].1 == c);
                        if j < i {
                            assert(cf.take(i as int)[j] == cf.take(i + 1)[j]);
                        }
                    }
                    assert forall|c: Seq<char>| class_nodes(cf.take(i as int)).contains(c) implies class_nodes(cf.take(i + 1)).contains(c) by {
                        let j = choose|j: int| 0 <= j < i && (#[trigger] cf.take(i as int)[j].0 == c || cf.take(i as int)[j].1 == c);
                        assert(cf.take(i + 1)[j] == cf.take(i as int)[j]);
                    }
                    assert(cf.take(i + 1)[i as int] == f@);
                }
            }
            i = i + 1;
        }
        assert(cf.take(i as int) =~= cf);
        result
    }

    /// All flows as Datalog facts: per flow, source method, source class,
    /// sink method and sink class, tab-separated, one row each.
    pub fn to_datalog(&self) -> (r: String)
        ensures
            r@ == flow_rows(self.flows_view()),
    {
        let mut out = String::new();
        let mut i: usize = 0;
        while i < self.flows.len()
            invariant
                i <= self.flows.len(),
                out@ == flow_rows(self.flows_view().take(i as int)),
            decreases self.flows.len() - i,
        {
            let x = &self.flows[i];
            assert(self.flows_view().take(i + 1).drop_last() =~= self.flows_view().take(i as int));
            assert(self.flows_view().take(i + 1).last() == x@);
            out.append(x.src_method.as_str());
            out.append("\t");
            out.append(x.src_class.as_str());
            out.append("\t");
            out.append(x.dst_method.as_str());
            out.append("\t");
            out.append(x.dst_class.as_str());
            out.append("\n");
            i = i + 1;
        }
        assert(self.flows_view().take(i as int) =~= self.flows_view());
        out
    }
}

/// The class flows of a graph are distinct and cover every flow: one per
/// distinct (source class, sink class) pair.
pub proof fn lemma_class_pairs_distinct_and_complete(fs: Seq<FlowView>)
    ensures
        class_pairs(fs).no_duplicates(),
        class_pairs(fs).to_set() == Seq::new(fs.len(), |i: int| (fs[i].1, fs[i].3)).to_set(),
    decreases fs.len(),
{
    let all = Seq::new(fs.len(), |i: int| (fs[i].1, fs[i].3));
    if fs.len() > 0 {
        let prev_all = Seq::new(fs.drop_last().len(), |i: int| (fs.drop_last()[i].1, fs.drop_last()[i].3));
        lemma_class_pairs_distinct_and_complete(fs.drop_last());
        let p = class_pairs(fs.drop_last());
        let e = (fs.last().1, fs.last().3);
        assert(all =~= prev_all.push(e));
        prev_all.lemma_push_to_set_commute(e);
        if p.contains(e) {
            assert(p.to_set() =~= p.to_set().insert(e));
        } else {
            p.lemma_push_to_set_commute(e);
            assert forall|a: int, b: int| 0 <= a < b < p.push(e).len() implies p.push(e)[a] != p.push(e)[b] by {
                if b == p.len() {
                    assert(p.contains(p[a]));
                }
            }
        }
    } else {
        assert(all.to_set() =~= Set::empty());
        assert(class_pairs(fs).to_set() =~= Set::empty());
    }
}

/// `select_flows` keeps exactly the flows whose `touches` is `keep`.
pub proof fn lemma_select_flows(fs: Seq<FlowView>, patterns: Seq<Seq<char>>, keep: bool)
    ensures
        select_flows(fs, patterns, keep).to_set() == fs.to_set().filter(|f: FlowView| touches(f, patterns) == keep),
    decreases fs.len(),
{
    if fs.len() > 0 {
        lemma_select_flows(fs.drop_last(), patterns, keep);
        let p = select_flows(fs.drop_last(), patterns, keep);
        fs.drop_last().lemma_push_to_set_commute(fs.last());
        assert(fs.drop_last().push(fs.last()) =~= fs);
        if touches(fs.last(), patterns) == keep {
            p.lemma_push_to_set_commute(fs.last());
        }
        assert(select_flows(fs, patterns, keep).to_set() =~= fs.to_set().filter(
            |f: FlowView| touches(f, patterns) == keep,
        ));
    } else {
        assert(fs.to_set() =~= Set::empty());
        assert(select_flows(fs, patterns, keep).to_set() =~= Set::empty());
        assert(fs.to_set().filter(|f: FlowView| touches(f, patterns) == keep) =~= Set::empty());
    }
}

/// The filters keep exactly the flows with a class name containing an
/// included pattern (when there is an inclusion list) and no class name
/// containing an excluded pattern (when there is
/// an exclusion list): a flow both included and excluded is excluded.
pub proof fn lemma_filters_keep_exactly(
    fs: Seq<FlowView>,
    inc_filter: Option<Seq<Seq<char>>>,
    exc_filter: Option<Seq<Seq<char>>>,
)
    ensures
        filtered_flows(fs, inc_filter, exc_filter).to_set() == fs.to_set().filter(
            |f: FlowView| (inc_filter matches Some(v) ==> touches(f, v)) && (exc_filter matches Some(v) ==> !touches(f, v)),
        ),
{
    let inc = match inc_filter {
        Some(v) => select_flows(fs, v, true),
        None => fs,
    };
    match inc_filter {
        Some(v) => lemma_select_flows(fs, v, true),
        None => {},
    }
    match exc_filter {
        Some(v) => lemma_select_flows(inc, v, false),
        None => {},
    }
    assert(filtered_flows(fs, inc_filter, exc_filter).to_set() =~= fs.to_set().filter(
        |f: FlowView| (inc_filter matches Some(v) ==> touches(f, v)) && (exc_filter matches Some(v) ==> !touches(f, v)),
    ));
}

/// A strictly sorted sequence of names holds no name twice.
pub proof fn lemma_sorted_names_distinct(s: Seq<Seq<char>>)
    requires
        strictly_sorted(s),
    ensures
        s.no_duplicates(),
{
    assert forall|a: int, b: int| 0 <= a < s.len() && 0 <= b < s.len() && a != b implies s[a] != s[b] by {
        if a < b {
            lemma_lex_irreflexive(s[a]);
        } else {
            lemma_lex_irreflexive(s[b]);
        }
    }
}

/// A flow whose source or sink class name contains any one of the inclusion
/// patterns (the first or a later one) is kept, unless an exclusion pattern
/// occurs in one of its class names.
pub proof fn lemma_included_flow_is_kept(
    fs: Seq<FlowView>,
    inc: Seq<Seq<char>>,
    exc_filter: Option<Seq<Seq<char>>>,
    f: FlowView,
    k: int,
)
    requires
        fs.contains(f),
        0 <= k < inc.len(),
        contains_sub(f.1, inc[k]) || contains_sub(f.3, inc[k]),
        exc_filter matches Some(es) ==> forall|j: int|
            0 <= j < es.len() ==> !contains_sub(f.1, #[trigger] es[j]) && !contains_sub(f.3, es[j]),
    ensures
        filtered_flows(fs, Some(inc), exc_filter).contains(f),
{
    lemma_filters_keep_exactly(fs, Some(inc), exc_filter);
    assert(touches(f, inc));
    match exc_filter {
        Some(es) => {
            assert(!touches(f, es));
        },
        None => {},
    }
    assert(fs.to_set().contains(f));
    assert(filtered_flows(fs, Some(inc), exc_filter).to_set().contains(f));
}

/// A flow without an inclusion list is kept unless an exclusion pattern
/// occurs in one of its class names.
pub proof fn lemma_unfiltered_flow_is_kept(fs: Seq<FlowView>, exc_filter: Option<Seq<Seq<char>>>, f: FlowView)
    requires
        fs.contains(f),
        exc_filter matches Some(es) ==> forall|j: int|
            0 <= j < es.len() ==> !contains_sub(f.1, #[trigger] es[j]) && !contains_sub(f.3, es[j]),
    ensures
        filtered_flows(fs, None, exc_filter).contains(f),
{
    lemma_filters_keep_exactly(fs, None, exc_filter);
    match exc_filter {
        Some(es) => {
            assert(!touches(f, es));
        },
        None => {},
    }
    assert(fs.to_set().contains(f));
    assert(filtered_flows(fs, None, exc_filter).to_set().contains(f));
}

/// A flow whose source or sink class name contains any one of the exclusion
/// patterns (the first or a later one) is dropped, whatever the inclusion
/// list.
pub proof fn lemma_excluded_flow_is_dropped(
    fs: Seq<FlowView>,
    inc_filter: Option<Seq<Seq<char>>>,
    exc: Seq<Seq<char>>,
    f: FlowView,
    k: int,
)
    requires
        0 <= k < exc.len(),
        contains_sub(f.1, exc[k]) || contains_sub(f.3, exc[k]),
    ensures
        !filtered_flows(fs, inc_filter, Some(exc)).contains(f),
{
    lemma_filters_keep_exactly(fs, inc_filter, Some(exc));
    assert(touches(f, exc));
    if filtered_flows(fs, inc_filter, Some(exc)).contains(f) {
        assert(filtered_flows(fs, inc_filter, Some(exc)).to_set().contains(f));
    }
}

} // verus!
