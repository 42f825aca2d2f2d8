use adroit::adr::{Adr, Number, Status};
use adroit::format::parse_markdown;
use adroit::naming::{AdrRef, NamingScheme};
use adroit::query::{graph, graph_tree, GraphEdge, GraphNode, Graph, linked_refs, EdgeKind, Filter, QueryError, Sort};

#[test]
fn linked_refs_parses_forms() {
    assert_eq!(
        linked_refs("see [x](../accepted/0006-foo.md) and [y](0012-bar.md)", NamingScheme::Sequential),
        vec![AdrRef::Number(6), AdrRef::Number(12)]
    );
    assert_eq!(linked_refs("no links here", NamingScheme::Sequential), Vec::<AdrRef>::new());
    assert_eq!(
        linked_refs("[x](../accepted/20260601-foo.md)", NamingScheme::Date),
        vec![AdrRef::Slug("20260601-foo".into())]
    );
}

#[test]
fn linked_refs_keeps_first_seen_order_without_repeats() {
    let body = "[a](0003-c.md) then [b](0001-a.md) and again [c](../x/0003-c.md) [not](http://e.com)";
    assert_eq!(linked_refs(body, NamingScheme::Sequential), vec![AdrRef::Number(3), AdrRef::Number(1)]);
}

#[test]
fn filter_defaults_keep_everything_in_number_order() {
    let f = Filter::default();
    assert_eq!(f.sort, Sort::NumberAsc);
    assert!(f.keeps(Status::Rejected));
    let only = Filter { status: Some(Status::Proposed), sort: Sort::TitleAsc };
    assert!(only.keeps(Status::Proposed));
    assert!(!only.keeps(Status::Accepted));
}

#[test]
fn query_error_messages() {
    assert_eq!(QueryError::Io("a.md".into()).message(), "could not read a.md");
}

fn md(doc: &str, dir: Status) -> Adr {
    parse_markdown(doc, Some(dir), NamingScheme::Sequential).unwrap()
}

fn seed() -> Vec<Adr> {
    vec![
        md("# ADR-0001: Use Postgres\n\n## Status\n\nAccepted\n\n## Context\n\nWe need a database.\n", Status::Accepted),
        md("# ADR-0002: Use Redis\n\n## Status\n\nProposed\n\n## Context\n\nWe need a cache for sessions.\n", Status::Proposed),
        md(
            "# ADR-0003: Adopt GraphQL\n\n## Status\n\nProposed\n\n## Context\n\nSee [ADR-0001](../accepted/0001-use-postgres.md).\n",
            Status::Proposed,
        ),
    ]
}

#[test]
fn graph_derives_supersedes_edge_from_markdown() {
    let adrs = vec![
        md(
            "# ADR-0001: Old decision\n\n## Status\n\nSuperseded by [ADR-0002](../accepted/0002-new-decision.md)\n",
            Status::Superseded,
        ),
        md("# ADR-0002: New decision\n\n## Status\n\nAccepted\n", Status::Accepted),
    ];
    let g = graph(&adrs, NamingScheme::Sequential);
    assert_eq!(g.nodes.len(), 2);
    let supersedes: Vec<_> = g.edges.iter().filter(|e| e.kind == EdgeKind::Supersedes).collect();
    assert_eq!(supersedes.len(), 1);
    assert_eq!(supersedes[0].from, "ADR-0002");
    assert_eq!(supersedes[0].to, "ADR-0001");
}

#[test]
fn graph_emits_forward_supersedes_edge_and_dedupes_reciprocal() {
    let adrs = vec![
        md(
            "# ADR-0002: Adopt ADRs\n\n## Status\n\nSuperseded by [ADR-0006](../accepted/0006-adopt-adrs.md)\n",
            Status::Superseded,
        ),
        md(
            "# ADR-0006: Adopt ADRs\n\n## Status\n\nAccepted\n\nSupersedes [ADR-0002](../superseded/0002-adopt-adrs.md)\n",
            Status::Accepted,
        ),
    ];
    let g = graph(&adrs, NamingScheme::Sequential);
    let supersedes: Vec<_> = g.edges.iter().filter(|e| e.kind == EdgeKind::Supersedes).collect();
    assert_eq!(supersedes.len(), 1, "one logical supersession -> one edge");
    assert_eq!(supersedes[0].from, "ADR-0006");
    assert_eq!(supersedes[0].to, "ADR-0002");
}

#[test]
fn graph_derives_related_edges_from_body_links() {
    let g = graph(&seed(), NamingScheme::Sequential);
    let related: Vec<_> = g.edges.iter().filter(|e| e.kind == EdgeKind::Related).collect();
    assert_eq!(related.len(), 1);
    assert_eq!(related[0].from, "ADR-0003");
    assert_eq!(related[0].to, "ADR-0001");
}

#[test]
fn graph_emits_typed_link_edges() {
    let mut base = Adr::new("Base").unwrap();
    base.number = Some(Number::new(1));
    let mut dependent = Adr::new("Dependent").unwrap();
    dependent.number = Some(Number::new(2));
    dependent.depends_on = vec![AdrRef::Number(1)];
    let g = graph(&vec![base, dependent], NamingScheme::Sequential);
    let deps: Vec<_> = g.edges.iter().filter(|e| e.kind == EdgeKind::DependsOn).collect();
    assert_eq!(deps.len(), 1, "one depends_on edge");
    assert_eq!(deps[0].from, "ADR-0002");
    assert_eq!(deps[0].to, "ADR-0001");
}

#[test]
fn graph_nodes_carry_reference_address_title_and_status() {
    let mut loose = Adr::new("No identity yet").unwrap();
    loose.status = Status::Rejected;
    let mut adrs = seed();
    adrs.push(loose);
    let g = graph(&adrs, NamingScheme::Sequential);
    assert_eq!(g.nodes.len(), 4);
    assert_eq!(g.nodes[0].reference, "ADR-0001");
    assert_eq!(g.nodes[0].address.as_deref(), Some("1"));
    assert_eq!(g.nodes[0].title, "Use Postgres");
    assert_eq!(g.nodes[0].status, Status::Accepted);
    assert_eq!(g.nodes[3].reference, "ADR-0000");
    assert_eq!(g.nodes[3].address, None);
    assert_eq!(g.nodes[3].status, Status::Rejected);
}

#[test]
fn graph_body_link_to_self_or_superseded_pair_adds_no_related_edge() {
    let adrs = vec![
        md(
            "# ADR-0004: Self\n\n## Status\n\nAccepted\n\nSupersedes [ADR-0001](0001-a.md)\n\nSee [me](0004-self.md) and [old](0001-a.md).\n",
            Status::Accepted,
        ),
        md("# ADR-0001: A\n\n## Status\n\nSuperseded\n", Status::Superseded),
    ];
    let g = graph(&adrs, NamingScheme::Sequential);
    assert!(g.edges.iter().all(|e| e.kind != EdgeKind::Related));
    assert_eq!(g.edges.len(), 1);
}

fn gnode(r: &str) -> GraphNode {
    GraphNode { reference: r.to_string(), address: None, title: format!("T{r}"), status: Status::Proposed }
}

fn gedge(f: &str, t: &str, kind: EdgeKind) -> GraphEdge {
    GraphEdge { from: f.to_string(), to: t.to_string(), kind }
}

#[test]
fn graph_tree_groups_edges_by_sorted_source_and_lists_isolated_nodes() {
    let g = Graph {
        nodes: vec![gnode("ADR-0001"), gnode("ADR-0002"), gnode("ADR-0003"), gnode("ADR-0004")],
        edges: vec![
            gedge("ADR-0003", "ADR-0001", EdgeKind::Supersedes),
            gedge("ADR-0002", "ADR-0001", EdgeKind::DependsOn),
            gedge("ADR-0003", "ADR-0002", EdgeKind::Related),
        ],
    };
    let t = graph_tree(&g);
    let froms: Vec<&str> = t.groups.iter().map(|g| g.from.as_str()).collect();
    assert_eq!(froms, vec!["ADR-0002", "ADR-0003"]);
    assert_eq!(t.groups[0].edges, vec![1]);
    assert_eq!(t.groups[1].edges, vec![0, 2]);
    assert_eq!(t.isolated, vec![3]);
}
