//! The inclusion graphs of a diagnostic, as markdown and as paths.

use crate::diag;
use crate::diag::grapher::{graph_of, GraphNode, InclusionGrapher, Tree};
use crate::diag::paths::{path_values, paths_from, DependencyPath, Path};
use crate::diag::tree_text::{rendered, write_compact_graph_as_text};
use crate::krate_graph::{Kid, KrateGraph};
use crate::small::{kids_of, Kids};
use crate::text::{decimal, push_decimal};
use vstd::prelude::*;

verus! {

/// How deep features are followed.
pub open spec fn depth(feature_depth: u32, with_features: bool) -> nat {
    if with_features {
        feature_depth as nat
    } else {
        0
    }
}

/// How deep features are followed.
pub(crate) fn depth_of(feature_depth: u32, with_features: bool) -> (n: usize)
    ensures
        n == depth(feature_depth, with_features),
{
    if with_features {
        feature_depth as usize
    } else {
        0
    }
}

/// The crates that some nodes belong to.
pub open spec fn node_kids(nodes: Seq<diag::GraphNode>) -> Seq<Kid> {
    Seq::new(nodes.len(), |i: int| nodes[i].kid)
}

/// The crates that some nodes belong to.
pub(crate) fn kids_of_nodes(nodes: &Vec<diag::GraphNode>) -> (kids: Kids)
    ensures
        kids_of(kids) == node_kids(nodes@),
{
    let mut kids = Kids::new();
    let mut i: usize = 0;
    while i < nodes.len()
        invariant
            i <= nodes.len(),
            kids_of(kids) == node_kids(nodes@).take(i as int),
        decreases nodes.len() - i,
    {
        kids.push(nodes[i].kid.clone());
        i += 1;
        assert(kids_of(kids) =~= node_kids(nodes@).take(i as int));
    }
    assert(kids_of(kids) =~= node_kids(nodes@));
    kids
}

/// The graph that is rooted at a node.
pub open spec fn node_graph(g: KrateGraph, node: diag::GraphNode, max: nat) -> Option<Tree> {
    graph_of(g, node.kid, node.feature_text(), max)
}

/// The graphs that are rooted at those of the nodes that exist.
pub open spec fn graphs_of(g: KrateGraph, nodes: Seq<diag::GraphNode>, max: nat) -> Seq<Tree>
    decreases nodes.len(),
{
    if nodes.len() == 0 {
        Seq::empty()
    } else {
        let before = graphs_of(g, nodes.drop_last(), max);
        match node_graph(g, nodes.last(), max) {
            Some(tree) => before.push(tree),
            None => before,
        }
    }
}

/// The paths from the project to the roots of some graphs.
pub open spec fn graph_paths(graphs: Seq<Tree>) -> Seq<Path>
    decreases graphs.len(),
{
    if graphs.len() == 0 {
        Seq::empty()
    } else {
        graph_paths(graphs.drop_last()) + paths_from(graphs.last(), Seq::empty())
    }
}

/// The values in a list of graphs.
pub open spec fn trees_of(graphs: Seq<GraphNode>) -> Seq<Tree> {
    Seq::new(graphs.len(), |i: int| graphs[i]@)
}

/// Moves the paths of a graph to the end of a list.
pub(crate) fn add_paths(all_paths: &mut Vec<DependencyPath>, graph: &GraphNode)
    ensures
        path_values(final(all_paths)@) == path_values(old(all_paths)@) + paths_from(
            graph@,
            Seq::empty(),
        ),
{
    let mut paths = graph.collect_project_paths();
    all_paths.append(&mut paths);
    assert(path_values(all_paths@) =~= path_values(old(all_paths)@) + paths_from(
        graph@,
        Seq::empty(),
    ));
}

/// Builds the graphs of some nodes, and finds the paths to their roots.
pub(crate) fn build_graphs(
    grapher: &InclusionGrapher<'_>,
    nodes: &Vec<diag::GraphNode>,
    max_feature_depth: usize,
) -> (r: (Vec<GraphNode>, Vec<DependencyPath>))
    requires
        grapher.krates.wf(),
    ensures
        trees_of(r.0@) == graphs_of(*grapher.krates, nodes@, max_feature_depth as nat),
        path_values(r.1@) == graph_paths(trees_of(r.0@)),
{
    let mut graphs: Vec<GraphNode> = Vec::new();
    let mut all_paths: Vec<DependencyPath> = Vec::new();
    let ghost max = max_feature_depth as nat;
    let mut i: usize = 0;
    assert(trees_of(graphs@) =~= graphs_of(*grapher.krates, nodes@.take(0), max));
    assert(path_values(all_paths@) =~= graph_paths(trees_of(graphs@)));
    while i < nodes.len()
        invariant
            i <= nodes.len(),
            grapher.krates.wf(),
            max == max_feature_depth,
            trees_of(graphs@) == graphs_of(*grapher.krates, nodes@.take(i as int), max),
            path_values(all_paths@) == graph_paths(trees_of(graphs@)),
        decreases nodes.len() - i,
    {
        assert(nodes@.take(i + 1).drop_last() =~= nodes@.take(i as int));
        if let Ok(graph) = grapher.build_graph(&nodes[i], max_feature_depth) {
            let ghost before = trees_of(graphs@);
            let ghost tree = graph@;
            add_paths(&mut all_paths, &graph);
            graphs.push(graph);
            assert(trees_of(graphs@) =~= before.push(tree));
            assert(before.push(tree).drop_last() =~= before);
        }
        i += 1;
    }
    assert(nodes@.take(i as int) =~= nodes@);
    (graphs, all_paths)
}

/// The texts around a graph.
#[derive(Clone, Copy)]
pub struct GraphStyle {
    pub before: &'static str,
    pub after: &'static str,
}

/// A graph, cut off above the crates of the project.
pub open spec fn graph_text(style: GraphStyle, tree: Tree) -> Seq<char> {
    style.before@ + rendered(tree, Seq::empty(), true) + style.after@
}

/// A graph, cut off above the crates of the project.
pub(crate) fn graph_markdown(style: GraphStyle, graph: &GraphNode) -> (md: String)
    ensures
        md@ == graph_text(style, graph@),
{
    let text = write_compact_graph_as_text(graph);
    let mut md = style.before.to_owned();
    md.append(text.as_str());
    md.append(style.after);
    md
}

/// A text with a gap behind it, unless it is empty.
pub open spec fn gapped(md: Seq<char>, gap: Seq<char>) -> Seq<char> {
    if md.len() == 0 {
        md
    } else {
        md + gap
    }
}

/// Appends a gap to a text that is not empty.
pub(crate) fn push_gap(md: &mut String, gap: &str)
    ensures
        final(md)@ == gapped(old(md)@, gap@),
{
    if !md.as_str().is_empty() {
        md.append(gap);
    }
}

/// The texts around the number of a graph and around the graph.
#[derive(Clone, Copy)]
pub struct NumberedStyle {
    pub before_number: &'static str,
    pub after_number: &'static str,
    pub graph: GraphStyle,
}

/// A message, followed by the graph of each node that exists, under its number.
pub open spec fn numbered_graphs(
    style: NumberedStyle,
    message: Seq<char>,
    g: KrateGraph,
    nodes: Seq<diag::GraphNode>,
    max: nat,
) -> Seq<char>
    decreases nodes.len(),
{
    if nodes.len() == 0 {
        message
    } else {
        let before = numbered_graphs(style, message, g, nodes.drop_last(), max);
        match node_graph(g, nodes.last(), max) {
            Some(tree) => gapped(before, "\n\n"@) + style.before_number@ + decimal(nodes.len())
                + style.after_number@ + graph_text(style.graph, tree),
            None => before,
        }
    }
}

/// Appends a graph under its number.
pub(crate) fn push_numbered(md: &mut String, style: NumberedStyle, number: u64, graph: &GraphNode)
    ensures
        final(md)@ == gapped(old(md)@, "\n\n"@) + style.before_number@ + decimal(number as nat)
            + style.after_number@ + graph_text(style.graph, graph@),
{
    let text = graph_markdown(style.graph, graph);
    push_gap(md, "\n\n");
    md.append(style.before_number);
    push_decimal(md, number);
    md.append(style.after_number);
    md.append(text.as_str());
}

/// Writes a message, followed by the graph of each node that exists.
pub(crate) fn write_numbered(
    style: NumberedStyle,
    message: &str,
    grapher: &InclusionGrapher<'_>,
    nodes: &Vec<diag::GraphNode>,
    max_feature_depth: usize,
) -> (md: String)
    requires
        grapher.krates.wf(),
    ensures
        md@ == numbered_graphs(
            style,
            message@,
            *grapher.krates,
            nodes@,
            max_feature_depth as nat,
        ),
{
    let mut md = message.to_owned();
    let ghost max = max_feature_depth as nat;
    let mut i: usize = 0;
    while i < nodes.len()
        invariant
            i <= nodes.len(),
            grapher.krates.wf(),
            max == max_feature_depth,
            md@ == numbered_graphs(style, message@, *grapher.krates, nodes@.take(i as int), max),
        decreases nodes.len() - i,
    {
        assert(nodes@.take(i + 1).drop_last() =~= nodes@.take(i as int));
        if let Ok(graph) = grapher.build_graph(&nodes[i], max_feature_depth) {
            push_numbered(&mut md, style, (i + 1) as u64, &graph);
        }
        i += 1;
    }
    assert(nodes@.take(i as int) =~= nodes@);
    md
}

} // verus!
