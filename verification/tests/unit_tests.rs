use std::collections::{HashMap, HashSet};

use depgraph::dl_relation::{read_simple_lib_pair, RelKind};
use depgraph::dot_graph::DotStyle;
use depgraph::pomdep::{PomDepEdge, PomGraph, Resolution};

fn mock_edge(from: u32, to: u32) -> PomDepEdge {
    PomDepEdge::new(String::default(), String::default(), from, to, Resolution::Included, None)
}

#[test]
pub fn test_read_csv() {
    let csv_in = "org.slf4j\tslf4j-api\tch.qos.logback\tlogback-classic\n\
                  com.google.guava\tguava\tcom.google.code.findbugs\tjsr305\n";
    assert!(read_simple_lib_pair(csv_in, RelKind::PomDepDataFlowLLib).is_ok());
}

#[test]
fn test_node_style_decl() {
    let ss = DotStyle::create_with_all("box", "rounded", "Avenir", "14", 2);
    assert_eq!(ss.node_style_decl(), "node [shape=\"box\",style=\"rounded\",fontname=\"Avenir\",fontsize=\"14\"]");
}

#[test]
fn test_edge_style_decl() {
    let ss = DotStyle::create_with_all("box", "rounded", "Avenir", "14", 2);
    assert_eq!(ss.edge_style_decl(), "edge [fontname=\"Avenir\",fontsize=\"14\"]");
}

#[test]
pub fn test_get_origins() {
    let g: PomGraph = PomGraph::new(
        String::from("test"),
        Vec::new(),
        vec![mock_edge(1, 2), mock_edge(2, 3), mock_edge(4, 3), mock_edge(1, 5), mock_edge(2, 4), mock_edge(3, 5)],
    );
    let origins: HashSet<u32> = [1].into_iter().collect();
    let in_degree: HashMap<u32, u32> = [(1, 0), (2, 1), (3, 2), (4, 1), (5, 2)].into_iter().collect();
    let out_degree: HashMap<u32, u32> = [(1, 2), (2, 2), (3, 1), (4, 1), (5, 0)].into_iter().collect();

    assert_eq!(g.count_in_degree(), in_degree);
    assert_eq!(g.count_out_degree(), out_degree);
    assert_eq!(g.find_origins_id(), origins);
}
