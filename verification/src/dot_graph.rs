//! Graphviz output: a class-level graph built from data flows, and the style
//! declarations shared by the dot writers.
use vstd::prelude::*;

use crate::dataflow::{class_nodes, str_views, FlowGraph};
use crate::text::{
    decimal, decimal_string, has_prefix, join_strings, join_with, owned, replace_char, replace_char_str,
    starts_with, str_eq, strictly_sorted, views,
};

verus! {

broadcast use vstd::string::group_string_axioms;

/// The view of an optional string.
pub open spec fn opt_view(o: Option<String>) -> Option<Seq<char>> {
    match o {
        Some(s) => Some(s@),
        None => None,
    }
}

/// The style-sheet entry `key="value"`, if the value is set.
pub open spec fn style_entry(key: Seq<char>, value: Option<Seq<char>>) -> Seq<Seq<char>> {
    match value {
        Some(v) => seq![key + "=\""@ + v + "\""@],
        None => Seq::empty(),
    }
}

/// The entries that start with `fontname` or `fontsize`, in order.
pub open spec fn font_entries(s: Seq<Seq<char>>) -> Seq<Seq<char>>
    decreases s.len(),
{
    if s.len() == 0 {
        s
    } else {
        let p = font_entries(s.drop_last());
        if has_prefix(s.last(), "fontname"@) || has_prefix(s.last(), "fontsize"@) {
            p.push(s.last())
        } else {
            p
        }
    }
}

/// Style settings for dot output.
pub struct DotStyle {
    shape: Option<String>,
    style: Option<String>,
    fontname: Option<String>,
    fontsize: Option<String>,
    indent: usize,
}

impl DotStyle {
    pub closed spec fn shape_view(&self) -> Option<Seq<char>> {
        opt_view(self.shape)
    }

    pub closed spec fn style_view(&self) -> Option<Seq<char>> {
        opt_view(self.style)
    }

    pub closed spec fn fontname_view(&self) -> Option<Seq<char>> {
        opt_view(self.fontname)
    }

    pub closed spec fn fontsize_view(&self) -> Option<Seq<char>> {
        opt_view(self.fontsize)
    }

    pub closed spec fn indent_view(&self) -> usize {
        self.indent
    }

    /// The style sheet: one `key="value"` entry for each set value, in the
    /// order shape, style, fontname, fontsize.
    pub open spec fn sheet(&self) -> Seq<Seq<char>> {
        style_entry("shape"@, self.shape_view()) + style_entry("style"@, self.style_view())
            + style_entry("fontname"@, self.fontname_view()) + style_entry("fontsize"@, self.fontsize_view())
    }

    /// `node [entries]`
    pub open spec fn node_decl(&self) -> Seq<char> {
        "node ["@ + join_with(self.sheet(), ","@) + "]"@
    }

    /// `edge [font entries]`
    pub open spec fn edge_decl(&self) -> Seq<char> {
        "edge ["@ + join_with(font_entries(self.sheet()), ","@) + "]"@
    }

    /// A style with the given values and an indent of 2.
    pub fn new(shape: Option<String>, style: Option<String>, fontname: Option<String>, fontsize: Option<String>) -> (r: Self)
        ensures
            r.shape_view() == opt_view(shape),
            r.style_view() == opt_view(style),
            r.fontname_view() == opt_view(fontname),
            r.fontsize_view() == opt_view(fontsize),
            r.indent_view() == 2,
    {
        DotStyle { shape, style, fontname, fontsize, indent: 2 }
    }

    /// A style with every value set.
    pub fn create_with_all(shape: &str, style: &str, fontname: &str, fontsize: &str, indent: usize) -> (r: Self)
        ensures
            r.shape_view() == Some(shape@),
            r.style_view() == Some(style@),
            r.fontname_view() == Some(fontname@),
            r.fontsize_view() == Some(fontsize@),
            r.indent_view() == indent,
    {
        DotStyle {
            shape: Some(owned(shape)),
            style: Some(owned(style)),
            fontname: Some(owned(fontname)),
            fontsize: Some(owned(fontsize)),
            indent,
        }
    }

    pub fn shape(&self) -> (r: &Option<String>)
        ensures
            opt_view(*r) == self.shape_view(),
    {
        &self.shape
    }

    pub fn style(&self) -> (r: &Option<String>)
        ensures
            opt_view(*r) == self.style_view(),
    {
        &self.style
    }

    pub fn fontname(&self) -> (r: &Option<String>)
        ensures
            opt_view(*r) == self.fontname_view(),
    {
        &self.fontname
    }

    pub fn fontsize(&self) -> (r: &Option<String>)
        ensures
            opt_view(*r) == self.fontsize_view(),
    {
        &self.fontsize
    }

    pub fn indent(&self) -> (r: usize)
        ensures
            r == self.indent_view(),
    {
        self.indent
    }

    /// Appends the entry for `key` when `value` is set.
    fn push_entry(sheet: &mut Vec<String>, key: &str, value: &Option<String>)
        ensures
            views(final(sheet)@) == views(old(sheet)@) + style_entry(key@, opt_view(*value)),
    {
        let ghost before = sheet@;
        match value {
            Some(v) => {
                let mut e = owned(key);
                e.append("=\"");
                e.append(v.as_str());
                e.append("\"");
                sheet.push(e);
                assert(views(sheet@) =~= views(before) + style_entry(key@, opt_view(*value)));
            },
            None => {
                assert(views(sheet@) =~= views(before) + style_entry(key@, opt_view(*value)));
            },
        }
    }

    /// The style sheet entries, `key="value"` for each set value.
    pub fn create_style_sheet(&self) -> (r: Vec<String>)
        ensures
            views(r@) == self.sheet(),
    {
        let mut style_sheet: Vec<String> = Vec::new();
        assert(views(style_sheet@) =~= Seq::empty());
        Self::push_entry(&mut style_sheet, "shape", &self.shape);
        Self::push_entry(&mut style_sheet, "style", &self.style);
        Self::push_entry(&mut style_sheet, "fontname", &self.fontname);
        Self::push_entry(&mut style_sheet, "fontsize", &self.fontsize);
        assert(views(style_sheet@) =~= self.sheet());
        style_sheet
    }

    /// The node style declaration: `node [` the entries joined by `,` `]`.
    pub fn node_style_decl(&self) -> (r: String)
        ensures
            r@ == self.node_decl(),
    {
        let ss = self.create_style_sheet();
        let mut r = owned("node [");
        let joined = join_strings(&ss, ",");
        r.append(joined.as_str());
        r.append("]");
        r
    }

    /// The edge style declaration: like the node one, with only the font
    /// entries.
    pub fn edge_style_decl(&self) -> (r: String)
        ensures
            r@ == self.edge_decl(),
    {
        let ss = self.create_style_sheet();
        let mut kept: Vec<String> = Vec::new();
        let mut i: usize = 0;
        while i < ss.len()
            invariant
                i <= ss.len(),
                views(kept@) == font_entries(views(ss@).take(i as int)),
            decreases ss.len() - i,
        {
            assert(views(ss@).take(i + 1).drop_last() =~= views(ss@).take(i as int));
            assert(views(ss@).take(i + 1).last() == ss@[i as int]@);
            if starts_with(ss[i].as_str(), "fontname") || starts_with(ss[i].as_str(), "fontsize") {
                let ghost before = kept@;
                kept.push(ss[i].clone());
                assert(views(kept@) =~= views(before).push(ss@[i as int]@));
            }
            i = i + 1;
        }
        assert(views(ss@).take(ss.len() as int) =~= views(ss@));
        let mut r = owned("edge [");
        let joined = join_strings(&kept, ",");
        r.append(joined.as_str());
        r.append("]");
        r
    }
}

impl Default for DotStyle {
    fn default() -> (r: Self)
        ensures
            r.shape_view() == Some("box"@),
            r.style_view() == Some("rounded"@),
            r.fontname_view() == Some("Helvetica"@),
            r.fontsize_view() == Some("14"@),
            r.indent_view() == 2,
    {
        DotStyle {
            shape: Some(owned("box")),
            style: Some(owned("rounded")),
            fontname: Some(owned("Helvetica")),
            fontsize: Some(owned("14")),
            indent: 2,
        }
    }
}

/// `orig` made usable as a dot identifier: `.` becomes `_`, `<` and `>`
/// become `__`.
pub open spec fn dot_id_text(orig: Seq<char>) -> Seq<char> {
    replace_char(replace_char(replace_char(orig, '.', "_"@), '<', "__"@), '>', "__"@)
}

/// `orig` made usable as a dot identifier: `.` becomes `_`, `<` and `>`
/// become `__`.
pub fn satisfy_dot_id(orig: &str) -> (r: String)
    ensures
        r@ == dot_id_text(orig@),
{
    let a = replace_char_str(orig, '.', "_");
    let b = replace_char_str(a.as_str(), '<', "__");
    replace_char_str(b.as_str(), '>', "__")
}

/// A character that `replace_char(s, from, to)` leaves behind came from `s`
/// or from `to`.
proof fn lemma_replace_char_origin(s: Seq<char>, from: char, to: Seq<char>, c: char)
    requires
        replace_char(s, from, to).contains(c),
    ensures
        (s.contains(c) && c != from) || to.contains(c),
    decreases s.len(),
{
    if s.len() > 0 {
        let prev = replace_char(s.drop_last(), from, to);
        let r = replace_char(s, from, to);
        let k = choose|k: int| 0 <= k < r.len() && r[k] == c;
        if k < prev.len() {
            assert(prev[k] == c);
            lemma_replace_char_origin(s.drop_last(), from, to, c);
            if s.drop_last().contains(c) {
                let j = choose|j: int| 0 <= j < s.drop_last().len() && s.drop_last()[j] == c;
                assert(s[j] == c);
            }
        } else if s.last() == from {
            assert(to[k - prev.len()] == c);
        } else {
            assert(s[s.len() - 1] == c);
        }
    }
}

/// The identifier that `satisfy_dot_id` makes holds no `.`, `<` or `>`.
pub proof fn lemma_dot_id_has_no_special(orig: Seq<char>)
    ensures
        !dot_id_text(orig).contains('.'),
        !dot_id_text(orig).contains('<'),
        !dot_id_text(orig).contains('>'),
{
    let a = replace_char(orig, '.', "_"@);
    let b = replace_char(a, '<', "__"@);
    let c = replace_char(b, '>', "__"@);
    reveal_strlit("_");
    reveal_strlit("__");
    if c.contains('.') {
        lemma_replace_char_origin(b, '>', "__"@, '.');
        lemma_replace_char_origin(a, '<', "__"@, '.');
        lemma_replace_char_origin(orig, '.', "_"@, '.');
    }
    if c.contains('<') {
        lemma_replace_char_origin(b, '>', "__"@, '<');
        lemma_replace_char_origin(a, '<', "__"@, '<');
    }
    if c.contains('>') {
        lemma_replace_char_origin(b, '>', "__"@, '>');
    }
}

/// Some edge starts or ends at node `i`.
pub open spec fn has_edge_at(edges: Seq<(usize, usize)>, i: int) -> bool {
    exists|k: int| 0 <= k < edges.len() && (#[trigger] edges[k].0 == i || edges[k].1 == i)
}

/// A graph of classes ready for dot rendering: node names and edges between
/// node indices.
pub struct DotGraph {
    edges: Vec<(usize, usize)>,
    nodes: Vec<String>,
    name: String,
}

impl DotGraph {
    /// Every edge joins two existing nodes.
    #[verifier::type_invariant]
    spec fn edges_in_range(&self) -> bool {
        forall|k: int| 0 <= k < self.edges@.len() ==> (#[trigger] self.edges@[k]).0 < self.nodes@.len()
            && self.edges@[k].1 < self.nodes@.len()
    }

    pub closed spec fn edges_view(&self) -> Seq<(usize, usize)> {
        self.edges@
    }

    pub closed spec fn nodes_view(&self) -> Seq<Seq<char>> {
        views(self.nodes@)
    }

    pub closed spec fn name_view(&self) -> Seq<char> {
        self.name@
    }

    pub fn edges(&self) -> (r: &Vec<(usize, usize)>)
        ensures
            r@ == self.edges_view(),
    {
        &self.edges
    }

    pub fn nodes(&self) -> (r: &Vec<String>)
        ensures
            views(r@) == self.nodes_view(),
    {
        &self.nodes
    }

    pub fn name(&self) -> (r: &str)
        ensures
            r@ == self.name_view(),
    {
        self.name.as_str()
    }

    /// The dot graph of a flow graph, named `test`: its nodes are the classes
    /// in sorted order, and each class flow becomes an edge between the
    /// indices of its two classes.
    pub fn from_flow_graph(g: &FlowGraph) -> (r: DotGraph)
        ensures
            r.name_view() == "test"@,
            strictly_sorted(r.nodes_view()),
            r.nodes_view().to_set() == class_nodes(g.class_flows_view()),
            r.edges_view().len() == g.class_flows_view().len(),
            forall|k: int| 0 <= k < r.edges_view().len() ==> {
                &&& (#[trigger] r.edges_view()[k]).0 < r.nodes_view().len()
                &&& r.edges_view()[k].1 < r.nodes_view().len()
                &&& r.nodes_view()[r.edges_view()[k].0 as int] == g.class_flows_view()[k].0
                &&& r.nodes_view()[r.edges_view()[k].1 as int] == g.class_flows_view()[k].1
            },
            r.edges_view().no_duplicates(),
            forall|i: int| 0 <= i < r.nodes_view().len() ==> #[trigger] has_edge_at(r.edges_view(), i),
    {
        let nodes_vec = g.all_nodes_sorted();
        let cf = g.get_class_flows();
        let ghost cfv = g.class_flows_view();
        let mut edges_vec: Vec<(usize, usize)> = Vec::new();
        let mut i: usize = 0;
        while i < cf.len()
            invariant
                i <= cf.len(),
                crate::dataflow::cflow_views(cf@) == cfv,
                str_views(nodes_vec@).to_set() == class_nodes(cfv),
                edges_vec@.len() == i,
                forall|k: int| 0 <= k < i ==> {
                    &&& (#[trigger] edges_vec@[k]).0 < nodes_vec@.len()
                    &&& edges_vec@[k].1 < nodes_vec@.len()
                    &&& str_views(nodes_vec@)[edges_vec@[k].0 as int] == cfv[k].0
                    &&& str_views(nodes_vec@)[edges_vec@[k].1 as int] == cfv[k].1
                },
            decreases cf.len() - i,
        {
            let f = &cf[i];
            assert(cfv[i as int] == f@);
            assert(class_nodes(cfv).contains(f@.0));
            assert(class_nodes(cfv).contains(f@.1));
            let src_id = position(&nodes_vec, f.s());
            let dst_id = position(&nodes_vec, f.d());
            edges_vec.push((src_id, dst_id));
            i = i + 1;
        }
        let mut names: Vec<String> = Vec::new();
        let mut j: usize = 0;
        while j < nodes_vec.len()
            invariant
                j <= nodes_vec.len(),
                views(names@) == str_views(nodes_vec@).take(j as int),
            decreases nodes_vec.len() - j,
        {
            let ghost before = names@;
            names.push(owned(nodes_vec[j]));
            assert(views(names@) =~= views(before).push(nodes_vec@[j as int]@));
            assert(str_views(nodes_vec@).take(j + 1) =~= str_views(nodes_vec@).take(j as int).push(nodes_vec@[j as int]@));
            j = j + 1;
        }
        assert(str_views(nodes_vec@).take(j as int) =~= str_views(nodes_vec@));
        let ghost nv = str_views(nodes_vec@);
        proof {
            crate::dataflow::lemma_class_pairs_distinct_and_complete(g.flows_view());
            crate::dataflow::lemma_sorted_names_distinct(nv);
            assert forall|a: int, b: int| 0 <= a < edges_vec@.len() && 0 <= b < edges_vec@.len() && a != b
                implies edges_vec@[a] != edges_vec@[b] by {
                if edges_vec@[a] == edges_vec@[b] {
                    assert(cfv[a] == cfv[b]);
                }
            }
            assert forall|i: int| 0 <= i < nv.len() implies #[trigger] has_edge_at(edges_vec@, i) by {
                assert(nv.to_set().contains(nv[i]));
                let k = choose|k: int| 0 <= k < cfv.len() && (#[trigger] cfv[k].0 == nv[i] || cfv[k].1 == nv[i]);
                if cfv[k].0 == nv[i] {
                    assert(nv[edges_vec@[k].0 as int] == nv[i]);
                    assert(edges_vec@[k].0 == i);
                } else {
                    assert(nv[edges_vec@[k].1 as int] == nv[i]);
                    assert(edges_vec@[k].1 == i);
                }
            }
        }
        DotGraph { name: owned("test"), nodes: names, edges: edges_vec }
    }

    /// The dot identifier of node `i`: `N` followed by the index.
    pub fn node_ident(i: usize) -> (r: String)
        ensures
            r@ == "N"@ + decimal(i as nat),
    {
        let mut r = owned("N");
        let n = decimal_string(i as u64);
        r.append(n.as_str());
        r
    }

    /// The nodes with their indices, in order.
    pub fn labelled_nodes(&self) -> (r: Vec<(usize, String)>)
        ensures
            r@.len() == self.nodes_view().len(),
            forall|k: int| 0 <= k < r@.len() ==> (#[trigger] r@[k]).0 == k && r@[k].1@ == self.nodes_view()[k],
    {
        let mut r: Vec<(usize, String)> = Vec::new();
        let mut j: usize = 0;
        while j < self.nodes.len()
            invariant
                j <= self.nodes.len(),
                r@.len() == j,
                forall|k: int| 0 <= k < j ==> (#[trigger] r@[k]).0 == k && r@[k].1@ == self.nodes_view()[k],
            decreases self.nodes.len() - j,
        {
            r.push((j, self.nodes[j].clone()));
            j = j + 1;
        }
        r
    }

    /// The edges with both ends labelled by index and node name, in order.
    pub fn labelled_edges(&self) -> (r: Vec<((usize, String), (usize, String))>)
        ensures
            r@.len() == self.edges_view().len(),
            forall|k: int| 0 <= k < r@.len() ==> {
                &&& (#[trigger] r@[k]).0.0 == self.edges_view()[k].0
                &&& r@[k].1.0 == self.edges_view()[k].1
                &&& r@[k].0.1@ == self.nodes_view()[self.edges_view()[k].0 as int]
                &&& r@[k].1.1@ == self.nodes_view()[self.edges_view()[k].1 as int]
            },
    {
        proof {
            use_type_invariant(self);
        }
        let mut r: Vec<((usize, String), (usize, String))> = Vec::new();
        let mut k: usize = 0;
        while k < self.edges.len()
            invariant
                k <= self.edges.len(),
                forall|t: int| 0 <= t < self.edges@.len() ==> (#[trigger] self.edges@[t]).0 < self.nodes@.len()
                    && self.edges@[t].1 < self.nodes@.len(),
                r@.len() == k,
                forall|t: int| 0 <= t < k ==> {
                    &&& (#[trigger] r@[t]).0.0 == self.edges_view()[t].0
                    &&& r@[t].1.0 == self.edges_view()[t].1
                    &&& r@[t].0.1@ == self.nodes_view()[self.edges_view()[t].0 as int]
                    &&& r@[t].1.1@ == self.nodes_view()[self.edges_view()[t].1 as int]
                },
            decreases self.edges.len() - k,
        {
            let (a, b) = self.edges[k];
            assert(self.edges@[k as int].0 < self.nodes@.len());
            r.push(((a, self.nodes[a].clone()), (b, self.nodes[b].clone())));
            k = k + 1;
        }
        r
    }
}

/// The index of `x` in `v`, which holds it.
fn position(v: &Vec<&str>, x: &str) -> (r: usize)
    requires
        str_views(v@).to_set().contains(x@),
    ensures
        r < v@.len(),
        str_views(v@)[r as int] == x@,
{
    let mut i: usize = 0;
    while i < v.len()
        invariant
            i <= v.len(),
            str_views(v@).to_set().contains(x@),
            forall|j: int| 0 <= j < i ==> v@[j]@ != x@,
        decreases v.len() - i,
    {
        if str_eq(v[i], x) {
            return i;
        }
        i = i + 1;
    }
    proof {
        let j = choose|j: int| 0 <= j < v@.len() && str_views(v@)[j] == x@;
        assert(v@[j]@ == x@);
    }
    0
}

} // verus!
