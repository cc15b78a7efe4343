use std::collections::{HashMap, HashSet};

use depgraph::dataflow::{CFlow, Flow, FlowGraph};
use depgraph::dl_relation::{add_edge_to_graph, read_simple_lib_pair, LibPairRelation, RelKind, SimpleLibPair};
use depgraph::dot_graph::{satisfy_dot_id, DotGraph, DotStyle};
use depgraph::jar_class_map::{Jar, MvnModule};
use depgraph::lib_edges::{add_lib_edges, search_artifact};
use depgraph::mvn_reactor::{module_locations, MvnReactor};
use depgraph::pomdep::{GraphNode, MvnCoord, MvnPkgType, MvnScope, PomDepEdge, PomGraph, Resolution};
use depgraph::rank_api::group_api_by_file;
use depgraph::sarif::sarif::{
    merge_paths, CodeFlow, ResultMsg, Sarif, SarifArtifactLocation, SarifLocation, SarifLocationMap,
    SarifLocationRegion, SarifPhysicalLocation, SarifResult, SarifRuns, ThreadFlow,
};
use depgraph::utils::dl_utils::{coord_rows_text, ToDatalogFact};
use depgraph::utils::err::{DepError, ErrorKind};
use depgraph::utils::existing_data_utils::{clone_limit_reached, RepoAtVer};
use depgraph::utils::mvn_repo_util::{
    artifact_url, coord_of_list_line, is_list_line_readable, jar_name, jar_store_dir_name, maven_central_url,
    repo_path_segments, source_jar_name, test_source_jar_name, tests_jar_name, JarKind,
};
use depgraph::utils::utils::{cslicer_config_text, sort_kvmap_by_vsize};

fn s(x: &str) -> String {
    String::from(x)
}

fn flow(sm: &str, sc: &str, dm: &str, dc: &str) -> Flow {
    Flow::new(s(sm), s(sc), s(dm), s(dc))
}

fn node(id: &str, nid: u32, g: &str, a: &str, v: &str, scopes: Vec<MvnScope>) -> GraphNode {
    GraphNode::new(s(id), nid, MvnCoord::new(g, a, v), false, None, scopes, vec![MvnPkgType::Jar])
}

fn edge(from: &str, to: &str, nf: u32, nt: u32, r: Resolution, v: Option<&str>) -> PomDepEdge {
    PomDepEdge::new(s(from), s(to), nf, nt, r, v.map(s))
}

fn small_graph() -> PomGraph {
    PomGraph::new(
        s("demo"),
        vec![
            node("g:app:jar", 1, "g", "app", "1.0", vec![MvnScope::Compile]),
            node("g:lib:jar", 2, "g", "lib", "2.0", vec![MvnScope::Test, MvnScope::Runtime]),
            node("h:util:jar", 3, "h", "util", "3.1", vec![]),
        ],
        vec![
            edge("g:app:jar", "g:lib:jar", 0, 1, Resolution::Included, None),
            edge("g:app:jar", "h:util:jar", 0, 2, Resolution::OmittedForConflict, Some("3.0")),
            edge("g:lib:jar", "h:util:jar", 1, 2, Resolution::OmittedForDuplicate, None),
        ],
    )
}

// ----- coordinates -----

#[test]
fn coord_texts() {
    let c = MvnCoord::new("org.slf4j", "slf4j-api", "1.7.30");
    assert_eq!(c.to_string(), "org.slf4j:slf4j-api:1.7.30");
    assert_eq!(c.to_dl_string(), "org.slf4j\tslf4j-api\t1.7.30");
    assert_eq!(c.display_string(), "G: org.slf4j\tA:slf4j-api\tV:\t1.7.30");
    assert_eq!(c.to_fact(), "org.slf4j\tslf4j-api\t1.7.30");
    assert!(c.is_all_set());
    assert!(!MvnCoord::new("g", "", "v").is_all_set());
}

#[test]
fn coord_default_and_setters() {
    let mut c = MvnCoord::default();
    assert_eq!(c.to_string(), "DEFAULT_group:DEFAULT_artifact:DEFAULT_version");
    c.set_group_id(s("a.b"));
    c.set_artifact_id(s("c"));
    c.set_version_id(s("9"));
    assert_eq!(c.group_id(), "a.b");
    assert_eq!(c.artifact_id(), "c");
    assert_eq!(c.version_id(), "9");
}

#[test]
fn coord_id_list_splits_and_renames() {
    let c = MvnCoord::new("com.fasterxml.jackson-core", "jackson-databind", "2.0");
    assert_eq!(c.build_id_list(), vec![s("com"), s("fasterxml"), s("jackson_core"), s("jackson_databind")]);
}

#[test]
fn coord_read_back_from_one_string() {
    let c = MvnCoord::new("org.jsoup", "jsoup", "1.14.1");
    let back = MvnCoord::from_one_string(&c.to_string()).unwrap();
    assert!(back == c);
    assert!(MvnCoord::from_one_string("org.jsoup:jsoup").is_none());
    assert!(MvnCoord::from_one_string("a:b:c:d").is_none());
}

// ----- jar names and URLs -----

#[test]
fn jar_file_names() {
    let c = MvnCoord::new("org.assertj", "assertj-core", "3.20.2");
    assert_eq!(jar_name(&c), "assertj-core-3.20.2.jar");
    assert_eq!(tests_jar_name(&c), "assertj-core-3.20.2-tests.jar");
    assert_eq!(source_jar_name(&c), "assertj-core-3.20.2-sources.jar");
    assert_eq!(test_source_jar_name(&c), "assertj-core-3.20.2-test-sources.jar");
    assert_eq!(
        repo_path_segments(&c, JarKind::Tests),
        "org/assertj/assertj-core/3.20.2/assertj-core-3.20.2-tests.jar"
    );
    assert_eq!(jar_store_dir_name(&c), "org.assertj--assertj-core--3.20.2");
}

#[test]
fn central_urls() {
    let c = MvnCoord::new("org.assertj", "assertj-core", "3.20.2");
    assert_eq!(
        artifact_url(&c, JarKind::Tests).unwrap(),
        "https://repo1.maven.org/maven2/org/assertj/assertj-core/3.20.2/assertj-core-3.20.2-tests.jar"
    );
    assert_eq!(maven_central_url("a/b.jar").unwrap(), "https://repo1.maven.org/maven2/a/b.jar");
    // An absolute URL replaces the base.
    assert_eq!(maven_central_url("https://example.org/x").unwrap(), "https://example.org/x");
}

#[test]
fn central_url_parse_error() {
    let e = maven_central_url("http://[::1").unwrap_err();
    assert!(matches!(e.kind(), ErrorKind::UrlParseErr(_)));
    assert!(e.message().starts_with("Error by url: "));
}

#[test]
fn coordinate_list_lines() {
    assert_eq!(coord_of_list_line("# comment"), None);
    assert_eq!(coord_of_list_line("   \t"), None);
    assert_eq!(coord_of_list_line(""), None);
    assert_eq!(coord_of_list_line("org.jsoup:jsoup:1.14.1"), Some(s("org.jsoup:jsoup:1.14.1")));
    assert_eq!(
        coord_of_list_line("implementation 'com.google.guava:guava:31.0-jre'"),
        Some(s("com.google.guava:guava:31.0-jre"))
    );
    assert_eq!(coord_of_list_line("  api   \"a:b:c\"  "), Some(s("a:b:c")));
    assert!(is_list_line_readable("implementation 'a:b:c'"));
    assert!(!is_list_line_readable("only-one-word "));
    assert!(!is_list_line_readable("implementation x"));
    assert!(is_list_line_readable("# any comment at all"));
}

// ----- errors -----

#[test]
fn error_messages() {
    assert_eq!(ErrorKind::PathNotExist(s("/x")).message(), "Path /x does not exist");
    assert_eq!(ErrorKind::ObjConstructErr(s("m")).message(), "Error when constructing object: m");
    assert_eq!(ErrorKind::CallToExtCommandErr(s("mvn")).message(), "Call to external command mvn failed");
    assert_eq!(ErrorKind::ExtCommandFailure(s("mvn")).message(), "External command mvn exited with failure");
    assert_eq!(ErrorKind::Others(s("boom")).message(), "Error: boom");
    let e = DepError::new(ErrorKind::Others(s("x")));
    assert_eq!(e.message(), "Error: x");
    let io = DepError::from(std::io::Error::new(std::io::ErrorKind::Other, "disk"));
    assert!(matches!(io.kind(), ErrorKind::IOErr(_)));
    assert!(io.message().starts_with("Error during IO: "));
}

// ----- dot styles -----

#[test]
fn dot_style_declarations() {
    let ss = DotStyle::new(Some(s("ellipse")), None, None, Some(s("9")));
    assert_eq!(ss.indent(), 2);
    assert_eq!(ss.create_style_sheet(), vec![s("shape=\"ellipse\""), s("fontsize=\"9\"")]);
    assert_eq!(ss.node_style_decl(), "node [shape=\"ellipse\",fontsize=\"9\"]");
    assert_eq!(ss.edge_style_decl(), "edge [fontsize=\"9\"]");
    let empty = DotStyle::new(None, None, None, None);
    assert_eq!(empty.node_style_decl(), "node []");
    assert_eq!(empty.edge_style_decl(), "edge []");
    let d = DotStyle::default();
    assert_eq!(d.fontname().as_deref(), Some("Helvetica"));
    assert_eq!(d.shape().as_deref(), Some("box"));
}

#[test]
fn dot_ids() {
    assert_eq!(satisfy_dot_id("a.b<init>"), "a_b__init__");
    assert_eq!(satisfy_dot_id("plain"), "plain");
    assert_eq!(DotGraph::node_ident(12), "N12");
}

// ----- data flows -----

#[test]
fn class_flows_are_distinct_in_first_order() {
    let g = FlowGraph::from_flows(vec![
        flow("m1", "B", "m2", "A"),
        flow("m3", "B", "m4", "A"),
        flow("m5", "A", "m6", "C"),
    ]);
    let cf: Vec<(String, String)> = g.get_class_flows().iter().map(|c| (s(c.s()), s(c.d()))).collect();
    assert_eq!(cf, vec![(s("B"), s("A")), (s("A"), s("C"))]);
    assert_eq!(g.all_nodes_sorted(), vec!["A", "B", "C"]);
    assert_eq!(g.to_datalog(), "m1\tB\tm2\tA\nm3\tB\tm4\tA\nm5\tA\tm6\tC\n");
}

#[test]
fn flow_filters() {
    let flows = || {
        vec![
            flow("a", "org.x.A", "b", "com.y.B"),
            flow("c", "org.x.C", "d", "org.x.D"),
            flow("e", "net.z.E", "f", "net.z.F"),
        ]
    };
    let inc = Some(vec![s("org.")]);
    let exc = Some(vec![s("com.")]);
    let g = FlowGraph::from_flows_with_filter(flows(), &inc, &None);
    assert_eq!(g.get_class_flows().len(), 2);
    let g = FlowGraph::from_flows_with_filter(flows(), &inc, &exc);
    let cf: Vec<(String, String)> = g.get_class_flows().iter().map(|c| (s(c.s()), s(c.d()))).collect();
    assert_eq!(cf, vec![(s("org.x.C"), s("org.x.D"))]);
    let g = FlowGraph::from_flows_with_filter(flows(), &None, &None);
    assert_eq!(g.get_class_flows().len(), 3);
    // A pattern matches anywhere in a class name, not only at its start.
    let g = FlowGraph::from_flows_with_filter(flows(), &Some(vec![s("x.")]), &None);
    assert_eq!(g.get_class_flows().len(), 2);
    let g = FlowGraph::from_flows_with_filter(flows(), &None, &Some(vec![s(".z.")]));
    assert_eq!(g.to_datalog(), "a\torg.x.A\tb\tcom.y.B\nc\torg.x.C\td\torg.x.D\n");
}

#[test]
fn cflow_accessors() {
    let c = CFlow::from_flow(flow("m", "S", "n", "D"));
    assert_eq!((c.s(), c.d()), ("S", "D"));
    let f = flow("m", "S", "n", "D");
    assert_eq!((f.src_method(), f.src_class(), f.dst_method(), f.dst_class()), ("m", "S", "n", "D"));
}

#[test]
fn dot_graph_of_flows() {
    let g = FlowGraph::from_flows(vec![flow("m1", "Z", "m2", "A"), flow("m3", "A", "m4", "Z")]);
    let d = DotGraph::from_flow_graph(&g);
    assert_eq!(d.name(), "test");
    assert_eq!(d.nodes(), &vec![s("A"), s("Z")]);
    assert_eq!(d.edges(), &vec![(1, 0), (0, 1)]);
    assert_eq!(d.labelled_nodes(), vec![(0, s("A")), (1, s("Z"))]);
    assert_eq!(d.labelled_edges(), vec![((1, s("Z")), (0, s("A"))), ((0, s("A")), (1, s("Z")))]);
}

// ----- POM graphs -----

#[test]
fn pom_degrees_and_origins() {
    let g = small_graph();
    assert!(g.is_numbered_from_one());
    let ins: HashMap<u32, u32> = [(0, 0), (1, 1), (2, 2)].into_iter().collect();
    let outs: HashMap<u32, u32> = [(0, 2), (1, 1), (2, 0)].into_iter().collect();
    assert_eq!(g.count_in_degree(), ins);
    assert_eq!(g.count_out_degree(), outs);
    assert_eq!(g.find_origins_id(), [0].into_iter().collect::<HashSet<u32>>());
    let origins: Vec<String> = g.find_origins_coord().iter().map(|c| c.to_string()).collect();
    assert_eq!(origins, vec![s("g:app:1.0")]);
    let direct: Vec<String> = g.find_direct_dep().iter().map(|c| c.to_string()).collect();
    assert_eq!(direct, vec![s("g:lib:2.0"), s("h:util:3.1")]);
}

#[test]
fn pom_standalone_node_is_an_origin() {
    let g = PomGraph::new(
        s("lonely"),
        vec![node("x:y:jar", 7, "x", "y", "1", vec![])],
        vec![edge("a", "b", 0, 1, Resolution::Included, None)],
    );
    assert_eq!(g.find_origins_id(), [0, 6].into_iter().collect::<HashSet<u32>>());
    assert_eq!(g.count_in_degree().get(&6), Some(&0));
}

#[test]
fn pom_node_lookup() {
    let g = small_graph();
    assert_eq!(g.get_node_id(&MvnCoord::new("g", "lib", "2.0")), Some(s("g:lib:jar")));
    // No exact match: the first node with the same artifact.
    assert_eq!(g.get_node_id(&MvnCoord::new("other", "util", "0")), Some(s("h:util:jar")));
    assert_eq!(g.get_node_id(&MvnCoord::new("g", "none", "1")), None);
    let m = g.build_nodes_hashmap();
    assert_eq!(m.len(), 3);
    assert_eq!(m.get(&2).unwrap().id(), "g:lib:jar");
}

#[test]
fn pom_datalog_rows() {
    let g = small_graph();
    assert_eq!(
        g.to_datalog(),
        "g\tapp\t1.0\tg\tlib\t2.0\tIncluded\n\
         g\tapp\t1.0\th\tutil\t3.1\tOmittedForConflict\n\
         g\tlib\t2.0\th\tutil\t3.1\tOmittedForDuplicate\n"
    );
    assert_eq!(g.write_souffle(), g.to_datalog());
}

#[test]
fn pom_datalog_unknown_end_uses_default() {
    let g = PomGraph::new(s("n"), vec![], vec![edge("a", "b", 0, 1, Resolution::Included, None)]);
    assert_eq!(
        g.to_datalog(),
        "DEFAULT_group\tDEFAULT_artifact\tDEFAULT_version\tDEFAULT_group\tDEFAULT_artifact\tDEFAULT_version\tIncluded\n"
    );
}

#[test]
fn pom_dot_text() {
    let g = small_graph();
    let ss = DotStyle::create_with_all("box", "rounded", "Avenir", "14", 2);
    let expected = [
        "digraph \"demo\" {\n",
        "  node [shape=\"box\",style=\"rounded\",fontname=\"Avenir\",fontsize=\"14\"]\n",
        "  edge [fontname=\"Avenir\",fontsize=\"14\"]\n",
        "  // Node Definitions:\n",
        "  \"g:app:jar\"[label=<<font point-size=\"10\">g</font><br/>app<font point-size=\"10\"><br/>1.0</font>>]\n",
        "  \"g:lib:jar\"[label=<<font point-size=\"10\">g</font><br/>lib<font point-size=\"10\"><br/>2.0</font><font point-size=\"10\"><br/>(Test/Runtime)</font>>]\n",
        "  \"h:util:jar\"[label=<<font point-size=\"10\">h</font><br/>util<font point-size=\"10\"><br/>3.1</font>>]\n",
        "  // Edge Definitions:\n",
        "  \"g:app:jar\" -> \"g:lib:jar\"\n",
        "  \"g:app:jar\" -> \"h:util:jar\"[style=\"dashed\",color=\"red\",fontcolor=\"red\",label=\"3.0\"]\n",
        "  \"g:lib:jar\" -> \"h:util:jar\"[style=\"dotted\"]\n",
        "}\n",
    ]
    .concat();
    assert_eq!(g.to_dot(&ss), expected);
    assert_eq!(
        g.write_dot_preamble(&ss) + &g.to_dot_nodes(&ss) + &g.to_dot_edges(&ss) + "}\n",
        expected
    );
}

#[test]
fn pom_output_formats() {
    let g = small_graph();
    assert_eq!(g.output_for_format("souffle"), Some(g.to_datalog()));
    assert_eq!(g.output_for_format("dot"), Some(g.write_dot()));
    assert!(g.write_dot().contains("fontname=\"Helvetica\""));
    assert_eq!(g.output_for_format("json"), None);
}

#[test]
fn default_node() {
    let n = GraphNode::default();
    assert_eq!((n.id(), n.numeric_id(), n.optional()), ("DefaultNode", 0, false));
    assert_eq!(n.mvn_coord().to_string(), "DEFAULT_group:DEFAULT_artifact:DEFAULT_version");
    assert!(n.scopes().is_empty() && n.packaging().is_empty() && n.classifiers().is_none());
}

#[test]
fn enum_names() {
    assert_eq!(MvnScope::Provided.to_string(), "Provided");
    assert_eq!(MvnPkgType::MavenPlugin.to_string(), "MavenPlugin");
    assert_eq!(Resolution::OmittedForDuplicate.to_string(), "OmittedForDuplicate");
}

// ----- relations -----

#[test]
fn relation_kinds() {
    assert_eq!(RelKind::from_str("PomDepDataFlowRLib"), RelKind::PomDepDataFlowRLib);
    assert_eq!(RelKind::from_str("nonsense"), RelKind::Default);
    assert_eq!(RelKind::SameGroupDataFlowLib.to_string(), "SameGroupDataFlowLib");
    assert_eq!(RelKind::rel_kinds(), vec![s("PomDepDataFlowLLib"), s("PomDepDataFlowRLib"), s("SameGroupDataFlowLib")]);
}

#[test]
fn lib_pair_conversion() {
    let p = SimpleLibPair::try_from(vec![s("g1"), s("a1"), s("g2"), s("a2")]).unwrap();
    assert_eq!((p.group_x(), p.artifact_x(), p.group_y(), p.artifact_y()), ("g1", "a1", "g2", "a2"));
    assert_eq!(p.kind(), RelKind::Default);
    let q = SimpleLibPair::try_from(vec![s("g"), s("a1"), s("a2")]).unwrap();
    assert_eq!((q.group_x(), q.group_y()), ("g", "g"));
    assert_eq!(q.to_id_pair(), (s("g:a1:jar"), s("g:a2:jar")));
    let e = SimpleLibPair::try_from(vec![s("x"), s("y")]).unwrap_err();
    match e.kind() {
        ErrorKind::ObjConstructErr(m) => assert_eq!(m, "Cannot convert xy to a SimpleLibPair"),
        _ => panic!("wrong error kind"),
    }
    let mut r = SimpleLibPair::new(RelKind::Default, "g", "a", "h", "b");
    r.set_kind(RelKind::PomDepDataFlowLLib);
    assert_eq!(r.display_string(), "[PomDepDataFlowLLib]\tg:a -> h:b");
}

#[test]
fn read_pairs_from_text() {
    let pairs = read_simple_lib_pair("g1\ta1\tg2\ta2\ng\tb1\tg\tb2\n", RelKind::SameGroupDataFlowLib).unwrap();
    assert_eq!(pairs.len(), 2);
    assert_eq!(pairs[1].to_id_pair(), (s("g:b1:jar"), s("g:b2:jar")));
    let three = read_simple_lib_pair("g\ta\tb\n", RelKind::Default).unwrap();
    assert_eq!(three[0].to_id_pair(), (s("g:a:jar"), s("g:b:jar")));
    assert!(pairs.iter().all(|p| p.kind() == RelKind::SameGroupDataFlowLib));
    assert_eq!(
        add_edge_to_graph(&pairs),
        "  \"g1:a1:jar\" -> \"g2:a2:jar\"[style=\"dashed\",color=\"blue\"]\n  \"g:b1:jar\" -> \"g:b2:jar\"[style=\"dashed\",color=\"blue\"]\n"
    );
}

#[test]
fn read_pairs_reports_bad_width() {
    let e = read_simple_lib_pair("a\tb\n", RelKind::Default).unwrap_err();
    assert!(matches!(e.kind(), ErrorKind::ObjConstructErr(_)));
}

#[test]
fn read_pairs_reports_csv_error() {
    // Records of unequal length are a CSV error.
    let e = read_simple_lib_pair("a\tb\tc\td\ne\tf\tg\n", RelKind::Default).unwrap_err();
    assert!(matches!(e.kind(), ErrorKind::CSVErr(_)));
    assert!(e.message().starts_with("Error from handling CSV: "));
}

#[test]
fn added_edge_styles() {
    let pairs = vec![
        SimpleLibPair::new(RelKind::PomDepDataFlowLLib, "a", "b", "c", "d"),
        SimpleLibPair::new(RelKind::PomDepDataFlowRLib, "a", "b", "c", "d"),
        SimpleLibPair::new(RelKind::Default, "a", "b", "c", "d"),
    ];
    assert_eq!(
        add_edge_to_graph(&pairs),
        "  \"a:b:jar\" -> \"c:d:jar\"[style=\"dashed\",color=\"brown\"]\n  \"a:b:jar\" -> \"c:d:jar\"[style=\"dashed\",color=\"darkorange\"]\n  \"a:b:jar\" -> \"c:d:jar\"\n"
    );
}

// ----- jars and classes -----

#[test]
fn pom_properties_and_manifest() {
    let lines = vec![s("#Generated"), s("version=1.2"), s("groupId=org.a"), s("artifactId=b-c"), s("other=x")];
    assert_eq!(Jar::read_pom_properties(&lines).to_string(), "org.a:b-c:1.2");
    let m = vec![s("Manifest-Version: 1.0"), s("Implementation-Title: thing")];
    assert_eq!(Jar::read_manifest(&m).to_string(), "DEFAULT_group:thing:DEFAULT_version");
    assert_eq!(Jar::read_pom_properties(&vec![]).to_string(), "DEFAULT_group:DEFAULT_artifact:DEFAULT_version");
}

#[test]
fn class_assignment() {
    let cands = vec![MvnCoord::new("org.a", "core", "1"), MvnCoord::new("org.b", "util", "1")];
    let best = Jar::match_coord(&cands, "org/b/util/X.class").unwrap();
    assert_eq!(best.artifact_id(), "util");
    // On a tie, the last candidate wins.
    let tie = Jar::match_coord(&cands, "zzz/Y.class").unwrap();
    assert_eq!(tie.artifact_id(), "util");
    assert!(Jar::match_coord(&vec![], "a/B.class").is_none());
    let table = Jar::assign_classes(&cands, &vec![s("org/a/core/P.class"), s("org/b/util/Q.class"), s("org/a/core/R.class")]);
    let shown: Vec<(String, Vec<String>)> = table.iter().map(|(c, v)| (c.to_string(), v.clone())).collect();
    assert_eq!(
        shown,
        vec![
            (s("org.a:core:1"), vec![s("org.a.core.P"), s("org.a.core.R")]),
            (s("org.b:util:1"), vec![s("org.b.util.Q")]),
        ]
    );
}

fn demo_module() -> MvnModule {
    let jar = Jar::new(
        s("lib-2.0"),
        &vec![MvnCoord::new("p", "lib", "2.0"), MvnCoord::new("q", "util", "3.1")],
        &vec![s("p/Lib.class"), s("q/Util.class")],
    );
    MvnModule::from_jars("app", vec![(s("lib-2.0.jar"), jar)])
}

#[test]
fn module_accessors_and_search() {
    let m = demo_module();
    assert_eq!(m.name(), "app");
    assert_eq!(m.jar_map().len(), 1);
    assert_eq!(m.jar_map()[0].1.name(), "lib-2.0");
    let table: Vec<(String, Vec<String>)> =
        m.jar_map()[0].1.artifacts().iter().map(|(c, v)| (c.to_string(), v.clone())).collect();
    assert_eq!(table, vec![(s("p:lib:2.0"), vec![s("p.Lib")]), (s("q:util:3.1"), vec![s("q.Util")])]);
    assert_eq!(search_artifact("q.Util", &m).map(|c| c.to_string()), Some(s("q:util:3.1")));
    assert!(search_artifact("missing.Class", &m).is_none());
}

#[test]
fn lib_edges_from_flows() {
    let g = small_graph();
    let m = demo_module();
    let flows = FlowGraph::from_flows(vec![
        flow("a", "p.Lib", "b", "q.Util"),
        flow("c", "p.Lib", "d", "q.Util"),
        flow("e", "p.Lib", "f", "no.Such"),
        flow("g", "com.github.dockerjava.X", "h", "q.Util"),
    ]);
    assert_eq!(add_lib_edges(&flows, &g, &m), vec![(s("g:lib:jar"), s("h:util:jar"))]);
}

// ----- reactor -----

#[test]
fn reactor_module_listing() {
    let out = "/home/u/proj\n/home/u/proj/core\nnoise\n";
    assert_eq!(
        module_locations(out),
        vec![(s("/home/u"), s("/home/u/proj")), (s("/home/u/proj"), s("/home/u/proj/core"))]
    );
    let r = MvnReactor::from_modules("proj", "/home/u/proj", vec![demo_module()]);
    assert_eq!((r.name(), r.path(), r.modules().len()), ("proj", "/home/u/proj", 1));
}

// ----- sarif -----

fn loc(uri: &str, line: u32, msg: Option<&str>) -> SarifLocation {
    SarifLocation::new(
        SarifPhysicalLocation::new(
            SarifArtifactLocation::new(s(uri), s("%SRCROOT%"), 0),
            SarifLocationRegion::new(line, 1, 5),
        ),
        msg.map(|m| ResultMsg::new(s(m))),
    )
}

fn result(msg: &str, locs: Vec<SarifLocation>, flows: Vec<CodeFlow>) -> SarifResult {
    SarifResult::new(s("rule"), 0, serde_json::Value::Null, ResultMsg::new(s(msg)), locs, flows, HashMap::new())
}

#[test]
fn sarif_paths_and_locations() {
    let tf = ThreadFlow::new(vec![
        SarifLocationMap::new(loc("A.java", 3, Some("source"))),
        SarifLocationMap::new(loc("B.java", 4, None)),
    ]);
    assert_eq!(tf.get_msg_seq(), vec![Some(s("source")), None]);
    let r1 = result("api", vec![loc("A.java", 3, None)], vec![CodeFlow::new(vec![tf])]);
    let r2 = result("api", vec![loc("A.java", 3, Some("other"))], vec![]);
    let r3 = result("api", vec![loc("A.java", 9, None)], vec![]);
    assert!(r1.is_same_msg_and_region(&r2));
    assert!(!r1.is_same_msg_and_region(&r3));
    assert_eq!(r1.get_nth_loc_region(0), Some(&SarifLocationRegion::new(3, 1, 5)));
    assert!(r1.get_nth_loc_region(1).is_none());
    assert!(r1.get_nth_loc_artifact_loc(3).is_none());
    let run = SarifRuns::new(serde_json::Value::Null, serde_json::Value::Null, vec![r1, r2], s("utf16CodeUnits"), serde_json::Value::Null);
    let sarif = Sarif::new(s("schema"), s("2.1.0"), vec![run]);
    assert_eq!((sarif.schema(), sarif.version()), ("schema", "2.1.0"));
    assert_eq!(merge_paths(&vec![sarif]), vec![s("source"), s("")]);
}

// ----- ranking -----

#[test]
fn api_tally_and_ranking() {
    let files = vec![
        (s("f1"), vec![s("a"), s("b"), s("a")]),
        (s("f2"), vec![s("b")]),
        (s("f3"), vec![s("b"), s("c")]),
    ];
    let tally = group_api_by_file(&files);
    let as_sets: HashMap<String, HashSet<String>> =
        tally.iter().map(|(k, v)| (k.clone(), v.iter().cloned().collect())).collect();
    assert_eq!(as_sets.len(), 3);
    assert_eq!(as_sets["a"], [s("f1")].into_iter().collect());
    assert_eq!(as_sets["b"], [s("f1"), s("f2"), s("f3")].into_iter().collect());
    assert_eq!(as_sets["c"], [s("f3")].into_iter().collect());
    assert!(tally.iter().all(|(_, v)| v.iter().collect::<HashSet<_>>().len() == v.len()));
    let ranked = sort_kvmap_by_vsize(tally);
    assert_eq!(ranked[0].0, "b");
    assert!(ranked.windows(2).all(|w| w[0].1.len() >= w[1].1.len()));
}

#[test]
fn sort_by_size_is_stable() {
    let kv = vec![(1, vec!['x']), (2, vec!['x', 'y']), (3, vec!['z']), (4, vec![])];
    let sorted: Vec<i32> = sort_kvmap_by_vsize(kv).into_iter().map(|(k, _)| k).collect();
    assert_eq!(sorted, vec![2, 1, 3, 4]);
}

// ----- misc -----

#[test]
fn cslicer_configuration() {
    assert_eq!(
        cslicer_config_text("/r/.git", "/r/m", Some("abc")),
        "repoPath = /r/.git\nclassRoot = /r/m/target/temp/unpack\nendCommit = abc\n"
    );
    assert_eq!(
        cslicer_config_text("/r/.git", "/r/m/", None),
        "repoPath = /r/.git\nclassRoot = /r/m/target/temp/unpack\n"
    );
    assert_eq!(cslicer_config_text("g", "", None), "repoPath = g\nclassRoot = target/temp/unpack\n");
}

#[test]
fn repo_records_and_limits() {
    let r = RepoAtVer::new(s("rtree"), s("7c6f"), s("https://github.com/davidmoten/rtree"), s("0.8.6"));
    assert_eq!((r.name(), r.sha(), r.url(), r.tag()), ("rtree", "7c6f", "https://github.com/davidmoten/rtree", "0.8.6"));
    assert!(!clone_limit_reached(0, 100));
    assert!(!clone_limit_reached(3, 2));
    assert!(clone_limit_reached(3, 3));
}

#[test]
fn jar_candidates_and_class_files() {
    let poms = vec![MvnCoord::new("g", "a", "1"), MvnCoord::new("g", "a", "1"), MvnCoord::new("g", "b", "1")];
    let mans = vec![MvnCoord::new("x", "m", "2")];
    let shown = |v: Vec<MvnCoord>| v.iter().map(|c| c.to_string()).collect::<Vec<String>>();
    assert_eq!(shown(Jar::candidate_coords(false, "plain-1.0", &poms, &mans)), vec![s(":plain-1.0:")]);
    assert_eq!(shown(Jar::candidate_coords(true, "j", &poms, &mans)), vec![s("g:a:1"), s("g:b:1")]);
    assert_eq!(shown(Jar::candidate_coords(true, "j", &vec![], &mans)), vec![s("x:m:2")]);
    assert!(Jar::candidate_coords(true, "j", &vec![], &vec![]).is_empty());
    let paths = vec![s("META-INF/MANIFEST.MF"), s("a/B.class"), s("a/Xclass"), s("c")];
    assert_eq!(Jar::class_file_paths(&paths), vec![s("a/B.class"), s("a/Xclass")]);
    assert!(Jar::is_class_file_path("a/B.class"));
    assert!(!Jar::is_class_file_path("a/Xclass"));
    // Without candidates, paths that are not class paths are simply skipped.
    assert!(Jar::assign_classes(&vec![], &vec![s("a/Xclass")]).is_empty());
}

#[test]
fn plugin_goal_and_fact_rows() {
    assert_eq!(PomGraph::depgraph_plugin_goal("aggregate"), "com.github.ferstl:depgraph-maven-plugin:aggregate");
    assert_eq!(PomGraph::depgraph_plugin_goal("anything"), "com.github.ferstl:depgraph-maven-plugin:graph");
    let coords = vec![MvnCoord::new("g", "a", "1"), MvnCoord::new("h", "b", "2")];
    assert_eq!(coord_rows_text(&coords), "g\ta\t1\nh\tb\t2\n");
    assert_eq!(coord_rows_text(&vec![]), "");
}

#[test]
fn repeated_nodes_and_jars_are_kept_once() {
    let g = PomGraph::new(
        s("dup"),
        vec![
            node("a:b:jar", 1, "a", "b", "1", vec![]),
            node("a:b:jar", 1, "a", "b", "1", vec![]),
            node("a:b:jar", 2, "a", "b", "1", vec![]),
        ],
        vec![],
    );
    assert_eq!(g.artifacts().len(), 2);
    assert_eq!(g.to_dot_nodes(&DotStyle::default()).matches("\"a:b:jar\"").count(), 2);
    let j1 = Jar::new(s("first"), &vec![], &vec![]);
    let j2 = Jar::new(s("second"), &vec![], &vec![]);
    let j3 = Jar::new(s("other"), &vec![], &vec![]);
    let m = MvnModule::from_jars("m", vec![(s("x.jar"), j1), (s("y.jar"), j3), (s("x.jar"), j2)]);
    let names: Vec<(String, String)> = m.jar_map().iter().map(|(n, j)| (n.clone(), j.name().to_string())).collect();
    assert_eq!(names, vec![(s("x.jar"), s("second")), (s("y.jar"), s("other"))]);
}

#[test]
fn classes_go_to_best_overlap() {
    let cands = vec![MvnCoord::new("org.a", "core", "1"), MvnCoord::new("org.a.core", "extra", "1")];
    let j = Jar::new(s("j"), &cands, &vec![s("org/a/core/extra/X.class"), s("org/a/Y.class")]);
    let table: Vec<(String, Vec<String>)> =
        j.artifacts().iter().map(|(c, v)| (c.to_string(), v.clone())).collect();
    // X overlaps the second coordinate in four elements, the first in three;
    // Y overlaps both in two, and a tie goes to the later one.
    assert_eq!(table, vec![(s("org.a.core:extra:1"), vec![s("org.a.core.extra.X"), s("org.a.Y")])]);
}
