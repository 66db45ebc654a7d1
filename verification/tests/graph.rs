use nodi::errors::ResolveError;
use nodi::index::{build_index, Edge, MarkdownFile};
use nodi::rebuild::Rebuild;
use nodi::registry::{is_markdown_path, Registry};

fn file(path: &str, references: &[&str]) -> MarkdownFile {
    MarkdownFile {
        path: path.to_string(),
        hash: "0123456789abcdef0123456789abcdef".to_string(),
        references: references.iter().map(|r| r.to_string()).collect(),
    }
}

#[test]
fn registry_assigns_sequential_ids() {
    let mut reg = Registry::new();
    let a = reg.register("root/a.md".to_string(), "00".to_string());
    let b = reg.register("root/b.md".to_string(), "11".to_string());
    assert_eq!(a, 1);
    assert_eq!(b, 2);
}

#[test]
fn resolve_name_finds_unique_stem() {
    let mut reg = Registry::new();
    reg.register("root/a.md".to_string(), "00".to_string());
    let b = reg.register("root/b.md".to_string(), "11".to_string());
    assert_eq!(reg.resolve_name("b"), Ok(b));
}

#[test]
fn resolve_name_matches_path_suffix() {
    let mut reg = Registry::new();
    let id = reg.register("root/foo/bar.md".to_string(), "00".to_string());
    assert_eq!(reg.resolve_name("foo/bar"), Ok(id));
    assert_eq!(reg.resolve_name("bar"), Ok(id));
}

#[test]
fn resolve_name_not_found() {
    let mut reg = Registry::new();
    reg.register("root/a.md".to_string(), "00".to_string());
    assert_eq!(reg.resolve_name("missing"), Err(ResolveError::ResolutionNotFound));
}

#[test]
fn resolve_name_ambiguous() {
    let mut reg = Registry::new();
    reg.register("one/note.md".to_string(), "00".to_string());
    reg.register("two/note.md".to_string(), "11".to_string());
    assert_eq!(reg.resolve_name("note"), Err(ResolveError::ResolutionAmbiguous));
}

#[test]
fn resolve_name_needs_separator_before_stem() {
    let mut reg = Registry::new();
    reg.register("root/za.md".to_string(), "00".to_string());
    assert_eq!(reg.resolve_name("a"), Err(ResolveError::ResolutionNotFound));
}

#[test]
fn round_trip_single_edge() {
    let files = vec![file("root/a.md", &["b"]), file("root/b.md", &[])];
    let ix = build_index(files).unwrap();
    assert_eq!(ix.documents.len(), 2);
    assert_eq!(ix.documents[0].id, 1);
    assert_eq!(ix.documents[0].path, "root/a.md");
    assert_eq!(ix.documents[1].id, 2);
    assert_eq!(ix.documents[1].path, "root/b.md");
    assert_eq!(ix.edges, vec![Edge { src: 1, dst: 2 }]);
}

#[test]
fn edges_keep_token_order_and_duplicates() {
    let files = vec![
        file("r/a.md", &["c", "b", "c"]),
        file("r/b.md", &["a"]),
        file("r/c.md", &[]),
    ];
    let ix = build_index(files).unwrap();
    assert_eq!(
        ix.edges,
        vec![
            Edge { src: 1, dst: 3 },
            Edge { src: 1, dst: 2 },
            Edge { src: 1, dst: 3 },
            Edge { src: 2, dst: 1 },
        ]
    );
}

#[test]
fn forward_reference_resolves() {
    let files = vec![file("r/early.md", &["late"]), file("r/late.md", &[])];
    let ix = build_index(files).unwrap();
    assert_eq!(ix.edges, vec![Edge { src: 1, dst: 2 }]);
}

#[test]
fn self_reference_resolves() {
    let files = vec![file("r/solo.md", &["solo"])];
    let ix = build_index(files).unwrap();
    assert_eq!(ix.edges, vec![Edge { src: 1, dst: 1 }]);
}

#[test]
fn build_index_not_found_aborts() {
    let files = vec![file("r/a.md", &["ghost"])];
    assert!(matches!(build_index(files), Err(ResolveError::ResolutionNotFound)));
}

#[test]
fn build_index_ambiguous_aborts() {
    let files = vec![
        file("one/note.md", &[]),
        file("two/note.md", &[]),
        file("r/a.md", &["note"]),
    ];
    assert!(matches!(build_index(files), Err(ResolveError::ResolutionAmbiguous)));
}

#[test]
fn build_index_empty() {
    let ix = build_index(Vec::new()).unwrap();
    assert!(ix.documents.is_empty());
    assert!(ix.edges.is_empty());
}

#[test]
fn edge_endpoints_are_registered_ids() {
    let files = vec![
        file("r/a.md", &["b", "c"]),
        file("r/b.md", &["c"]),
        file("r/c.md", &[]),
    ];
    let ix = build_index(files).unwrap();
    let ids: Vec<i64> = ix.documents.iter().map(|d| d.id).collect();
    for e in &ix.edges {
        assert!(ids.contains(&e.src));
        assert!(ids.contains(&e.dst));
    }
}

fn run_once(ctrl: &mut Rebuild, files: Vec<MarkdownFile>) -> (Vec<(i64, String)>, Vec<Edge>) {
    ctrl.begin();
    for f in files {
        ctrl.record(f);
    }
    let ix = ctrl.finish().unwrap();
    let docs = ix.documents.iter().map(|d| (d.id, d.path.clone())).collect();
    (docs, ix.edges)
}

#[test]
fn rebuild_twice_is_idempotent() {
    let tree = || vec![file("root/a.md", &["b"]), file("root/b.md", &["a", "b"])];
    let mut ctrl = Rebuild::new();
    let first = run_once(&mut ctrl, tree());
    let second = run_once(&mut ctrl, tree());
    assert_eq!(first, second);
}

#[test]
fn rebuild_phases() {
    let mut ctrl = Rebuild::new();
    ctrl.begin();
    ctrl.record(file("r/a.md", &[]));
    assert!(ctrl.finish().is_ok());

    ctrl.begin();
    ctrl.record(file("r/a.md", &["ghost"]));
    assert!(ctrl.finish().is_err());

    ctrl.begin();
    ctrl.record(file("r/a.md", &["ghost"]));
    ctrl.fail();
    ctrl.begin();
    ctrl.record(file("r/a.md", &[]));
    let ix = ctrl.finish().unwrap();
    assert_eq!(ix.documents.len(), 1);
    assert!(ix.edges.is_empty());
}

#[test]
fn rebuild_discards_prior_run_documents() {
    let mut ctrl = Rebuild::new();
    ctrl.begin();
    ctrl.record(file("r/old.md", &[]));
    ctrl.finish().unwrap();
    ctrl.begin();
    ctrl.record(file("r/new.md", &[]));
    let ix = ctrl.finish().unwrap();
    assert_eq!(ix.documents.len(), 1);
    assert_eq!(ix.documents[0].path, "r/new.md");
}

#[test]
fn markdown_path_filter() {
    assert!(is_markdown_path("root/a.md"));
    assert!(is_markdown_path("a.md"));
    assert!(!is_markdown_path("root/a.txt"));
    assert!(!is_markdown_path("md"));
    assert!(!is_markdown_path(""));
}
