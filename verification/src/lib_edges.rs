//! Library-level edges induced by class-level data flows: each class is
//! traced to the artifact that contains it and then to its POM graph node.
use vstd::prelude::*;

use crate::dataflow::FlowGraph;
use crate::jar_class_map::{table_view, CoordView, MvnModule};
use crate::pomdep::{dedup, node_id_for, MvnCoord, PomGraph};
use crate::text::{
    contains_str, contains_string, contains_sub, first_index, flat, lemma_first_index_found, lemma_first_index_prefix,
    lemma_first_index_step, lemma_flat_contains, lemma_flat_member, views,
};

verus! {

broadcast use vstd::string::group_string_axioms;

/// The views of artifact table entries, by reference.
pub open spec fn entry_views(v: Seq<&(MvnCoord, Vec<String>)>) -> Seq<(CoordView, Seq<Seq<char>>)> {
    v.map_values(|e: &(MvnCoord, Vec<String>)| (e.0@, views(e.1@)))
}

/// Every artifact entry of every jar of the module, jar by jar.
pub open spec fn module_entries(m: MvnModule) -> Seq<(CoordView, Seq<Seq<char>>)> {
    flat(Seq::new(m.jars().len(), |j: int| m.jars()[j].1.artifacts_view()))
}

/// The entry lists class `name`.
pub open spec fn lists_class(name: Seq<char>) -> spec_fn((CoordView, Seq<Seq<char>>)) -> bool {
    |e: (CoordView, Seq<Seq<char>>)| e.1.contains(name)
}

/// The artifact that the first entry listing class `name` belongs to.
pub open spec fn artifact_for(m: MvnModule, name: Seq<char>) -> Option<CoordView> {
    match first_index(module_entries(m), lists_class(name)) {
        Some(i) => Some(module_entries(m)[i].0),
        None => None,
    }
}

/// The edge a class flow induces between POM graph nodes: none for a flow
/// touching the `com.github.dockerjava` client, none where a class has no
/// artifact or an artifact has no node.
pub open spec fn edge_of_flow(f: (Seq<char>, Seq<char>), m: MvnModule, g: PomGraph) -> Option<(Seq<char>, Seq<char>)> {
    if contains_sub(f.0, "com.github.dockerjava"@) || contains_sub(f.1, "com.github.dockerjava"@) {
        None
    } else {
        match artifact_for(m, f.0) {
            None => None,
            Some(s) => match artifact_for(m, f.1) {
                None => None,
                Some(d) => match (node_id_for(g.nodes(), s), node_id_for(g.nodes(), d)) {
                    (Some(a), Some(b)) => Some((a, b)),
                    _ => None,
                },
            },
        }
    }
}

/// The edges of the flows, in order, skipping flows with no edge.
pub open spec fn flow_edges(fs: Seq<(Seq<char>, Seq<char>)>, m: MvnModule, g: PomGraph) -> Seq<(Seq<char>, Seq<char>)>
    decreases fs.len(),
{
    if fs.len() == 0 {
        Seq::empty()
    } else {
        let p = flow_edges(fs.drop_last(), m, g);
        match edge_of_flow(fs.last(), m, g) {
            Some(e) => p.push(e),
            None => p,
        }
    }
}

/// The views of string pairs.
pub open spec fn pair_views(v: Seq<(String, String)>) -> Seq<(Seq<char>, Seq<char>)> {
    v.map_values(|p: (String, String)| (p.0@, p.1@))
}

/// Every artifact entry of every jar of the module, jar by jar.
fn all_entries(m: &MvnModule) -> (r: Vec<&(MvnCoord, Vec<String>)>)
    ensures
        entry_views(r@) == module_entries(*m),
{
    let jars = m.jar_map();
    let ghost parts = Seq::new(m.jars().len(), |j: int| m.jars()[j].1.artifacts_view());
    let mut r: Vec<&(MvnCoord, Vec<String>)> = Vec::new();
    let mut j: usize = 0;
    while j < jars.len()
        invariant
            j <= jars.len(),
            jars@ == m.jars(),
            parts == Seq::new(m.jars().len(), |j: int| m.jars()[j].1.artifacts_view()),
            entry_views(r@) == flat(parts.take(j as int)),
        decreases jars.len() - j,
    {
        let table = jars[j].1.artifacts();
        let ghost base = entry_views(r@);
        let mut a: usize = 0;
        while a < table.len()
            invariant
                a <= table.len(),
                entry_views(r@) == base + table_view(table@).take(a as int),
            decreases table.len() - a,
        {
            let ghost before = r@;
            r.push(&table[a]);
            assert(entry_views(r@) =~= entry_views(before).push((table@[a as int].0@, views(table@[a as int].1@))));
            assert(table_view(table@).take(a + 1) =~= table_view(table@).take(a as int).push(
                (table@[a as int].0@, views(table@[a as int].1@)),
            ));
            a = a + 1;
        }
        assert(table_view(table@).take(a as int) =~= table_view(table@));
        assert(parts.take(j + 1).drop_last() =~= parts.take(j as int));
        j = j + 1;
    }
    assert(parts.take(j as int) =~= parts);
    r
}

/// The artifact that contains class `class_name`: the first entry, jar by
/// jar, that lists it.
pub fn search_artifact<'a>(class_name: &str, mvn_module: &'a MvnModule) -> (r: Option<&'a MvnCoord>)
    ensures
        match artifact_for(*mvn_module, class_name@) {
            Some(c) => r matches Some(x) && x@ == c,
            None => r is None,
        },
{
    let entries = all_entries(mvn_module);
    let ghost ev = entry_views(entries@);
    let ghost p = lists_class(class_name@);
    let mut i: usize = 0;
    while i < entries.len()
        invariant
            i <= entries.len(),
            ev == entry_views(entries@),
            ev == module_entries(*mvn_module),
            p == lists_class(class_name@),
            first_index(ev.take(i as int), p) is None,
        decreases entries.len() - i,
    {
        proof {
            lemma_first_index_step(ev, p, i as int);
        }
        if contains_string(&entries[i].1, class_name) {
            proof {
                lemma_first_index_prefix(ev, p, i + 1);
            }
            return Some(&entries[i].0);
        }
        i = i + 1;
    }
    proof {
        assert(ev.take(i as int) =~= ev);
    }
    None
}

/// Appends `(a, b)` unless an equal pair is already there.
fn push_pair_if_new(v: &mut Vec<(String, String)>, a: String, b: String)
    ensures
        pair_views(final(v)@) == (if pair_views(old(v)@).contains((a@, b@)) {
            pair_views(old(v)@)
        } else {
            pair_views(old(v)@).push((a@, b@))
        }),
{
    let mut i: usize = 0;
    while i < v.len()
        invariant
            i <= v.len(),
            v@ == old(v)@,
            forall|j: int| 0 <= j < i ==> (v@[j].0@, v@[j].1@) != (a@, b@),
        decreases v.len() - i,
    {
        if v[i].0 == a && v[i].1 == b {
            assert(pair_views(v@)[i as int] == (a@, b@));
            return;
        }
        i = i + 1;
    }
    assert(!pair_views(v@).contains((a@, b@))) by {
        if pair_views(v@).contains((a@, b@)) {
            let j = choose|j: int| 0 <= j < v@.len() && pair_views(v@)[j] == (a@, b@);
            assert((v@[j].0@, v@[j].1@) == (a@, b@));
        }
    }
    let ghost before = v@;
    v.push((a, b));
    assert(pair_views(v@) =~= pair_views(before).push((a@, b@)));
}

/// The library-level edges the class flows of `dp_graph` induce on
/// `pom_graph`, each once, in order of first occurrence (see
/// `edge_of_flow`).
pub fn add_lib_edges(dp_graph: &FlowGraph, pom_graph: &PomGraph, mvn_mod: &MvnModule) -> (r: Vec<(String, String)>)
    ensures
        pair_views(r@) == dedup(flow_edges(dp_graph.class_flows_view(), *mvn_mod, *pom_graph)),
{
    let flows = dp_graph.get_class_flows();
    let ghost fs = dp_graph.class_flows_view();
    let mut added: Vec<(String, String)> = Vec::new();
    let mut i: usize = 0;
    while i < flows.len()
        invariant
            i <= flows.len(),
            crate::dataflow::cflow_views(flows@) == fs,
            pair_views(added@) == dedup(flow_edges(fs.take(i as int), *mvn_mod, *pom_graph)),
        decreases flows.len() - i,
    {
        let f = &flows[i];
        proof {
            assert(fs.take(i + 1).drop_last() =~= fs.take(i as int));
            assert(fs.take(i + 1).last() == f@);
        }
        if !contains_str(f.s(), "com.github.dockerjava") && !contains_str(f.d(), "com.github.dockerjava") {
            match search_artifact(f.s(), mvn_mod) {
                Some(s) => match search_artifact(f.d(), mvn_mod) {
                    Some(d) => {
                        let src_id = pom_graph.get_node_id(s);
                        let dst_id = pom_graph.get_node_id(d);
                        match (src_id, dst_id) {
                            (Some(a), Some(b)) => {
                                let ghost prev = dedup(flow_edges(fs.take(i as int), *mvn_mod, *pom_graph));
                                assert(dedup(flow_edges(fs.take(i as int), *mvn_mod, *pom_graph).push((a@, b@)))
                                    == (if prev.contains((a@, b@)) { prev } else { prev.push((a@, b@)) })) by {
                                    assert(flow_edges(fs.take(i as int), *mvn_mod, *pom_graph).push((a@, b@)).drop_last()
                                        =~= flow_edges(fs.take(i as int), *mvn_mod, *pom_graph));
                                }
                                push_pair_if_new(&mut added, a, b);
                            },
                            _ => {},
                        }
                    },
                    None => {},
                },
                None => {},
            }
        }
        i = i + 1;
    }
    assert(fs.take(i as int) =~= fs);
    added
}

/// A class listed by an artifact of any jar of the module (not only the
/// first jar) is found: `search_artifact` gives an artifact, and that
/// artifact, in some jar of the module, lists the class.
pub proof fn lemma_class_in_any_jar_is_found(m: MvnModule, name: Seq<char>, j: int, a: int)
    requires
        0 <= j < m.jars().len(),
        0 <= a < m.jars()[j].1.artifacts_view().len(),
        m.jars()[j].1.artifacts_view()[a].1.contains(name),
    ensures
        artifact_for(m, name) is Some,
        exists|j2: int, a2: int|
            0 <= j2 < m.jars().len() && 0 <= a2 < m.jars()[j2].1.artifacts_view().len()
                && #[trigger] m.jars()[j2].1.artifacts_view()[a2].0 == artifact_for(m, name)->0
                && m.jars()[j2].1.artifacts_view()[a2].1.contains(name),
{
    let parts = Seq::new(m.jars().len(), |jj: int| m.jars()[jj].1.artifacts_view());
    let entry = m.jars()[j].1.artifacts_view()[a];
    assert(parts[j] == m.jars()[j].1.artifacts_view());
    assert(parts[j].contains(entry));
    lemma_flat_contains(parts, j, entry);
    let all = module_entries(m);
    assert(all == flat(parts));
    let pos = choose|pos: int| 0 <= pos < all.len() && all[pos] == entry;
    lemma_first_index_found(all, lists_class(name));
    match first_index(all, lists_class(name)) {
        Some(i) => {
            lemma_flat_member(parts, i);
            let (j2, a2) = choose|j2: int, a2: int| 0 <= j2 < parts.len() && 0 <= a2 < parts[j2].len() && #[trigger] parts[j2][a2] == flat(parts)[i];
            assert(parts[j2] == m.jars()[j2].1.artifacts_view());
            assert(m.jars()[j2].1.artifacts_view()[a2] == all[i]);
        },
        None => {
            assert(!lists_class(name)(all[pos]));
        },
    }
}

} // verus!
