use content_tree::error::{BuildError, BuildErrorKind};
use content_tree::generator::{
    generate_content_tree, process_subtree_elements, process_tree_element, ContentTree,
};
use content_tree::manifest::{Element, Options};
use content_tree::pipeline::{construct_trees, pandoc_compile_html, plan_jobs};
use content_tree::results::{collect, Collector, Completion, ResultMap};
use content_tree::tree::{EntryPath, FsTree, RawEntry, TreeElement};

fn b_path(full: &str) -> EntryPath {
    EntryPath::new(full.to_string())
}

fn b_file(full: &str) -> RawEntry {
    RawEntry::File(b_path(full))
}

fn b_dir(full: &str, entries: Vec<RawEntry>) -> RawEntry {
    RawEntry::Dir(b_path(full), entries)
}

fn b_compile(path: &str, route: Option<&str>) -> Element {
    Element::CompileFromPath { path: path.to_string(), route: route.map(|r| r.to_string()) }
}

fn b_special(kind: &str) -> Element {
    Element::Special { kind: kind.to_string() }
}

fn b_options(content: Vec<Element>) -> Options {
    Options {
        mod_name: "site".to_string(),
        tree_name: "TREE".to_string(),
        content,
        pandoc_options: vec![],
        nproc: 1,
    }
}

fn b_conv(path: &str) -> String {
    format!("<p>{}</p>", path)
}

fn b_done(path: &str) -> Completion {
    Completion { path: path.to_string(), outcome: Ok(b_conv(path)) }
}

fn b_failed(path: &str, message: &str) -> Completion {
    Completion { path: path.to_string(), outcome: Err(message.to_string()) }
}

fn b_doc(full: &str, route: Option<&str>) -> ContentTree {
    ContentTree::Document {
        name: b_path(full).name().clone(),
        content: b_conv(full),
        route: route.map(|r| r.to_string()),
    }
}

fn b_folder(name: &str, children: Vec<ContentTree>, route: Option<&str>) -> ContentTree {
    ContentTree::Directory { name: name.to_string(), children, route: route.map(|r| r.to_string()) }
}

fn b_internal(path: &str, message: &str) -> BuildError {
    BuildError {
        kind: BuildErrorKind::InternalConsistency,
        path: path.to_string(),
        message: message.to_string(),
    }
}

fn b_docs() -> RawEntry {
    b_dir("docs", vec![b_dir("docs/sub", vec![b_file("docs/sub/b.md")]), b_file("docs/a.md")])
}

fn b_scenario() -> Options {
    b_options(vec![b_compile("docs", Some("guide")), b_special("index")])
}

fn b_artifact() -> ContentTree {
    b_folder(
        "ROOT",
        vec![
            b_folder(
                "docs",
                vec![
                    b_doc("docs/a.md", None),
                    b_folder("sub", vec![b_doc("docs/sub/b.md", None)], None),
                ],
                Some("guide"),
            ),
            ContentTree::Special { kind: "index".to_string() },
        ],
        None,
    )
}

fn b_table(paths: &[&str]) -> ResultMap {
    let mut table = ResultMap::new();
    for p in paths {
        table.insert(p.to_string(), b_conv(p));
    }
    table
}

fn b_routes(tree: &ContentTree, out: &mut Vec<Option<String>>) {
    match tree {
        ContentTree::Special { .. } => {}
        ContentTree::Document { route, .. } => out.push(route.clone()),
        ContentTree::Directory { children, route, .. } => {
            out.push(route.clone());
            for c in children {
                b_routes(c, out);
            }
        }
    }
}

fn b_documents(tree: &ContentTree, out: &mut Vec<(String, String)>) {
    match tree {
        ContentTree::Special { .. } => {}
        ContentTree::Document { name, content, .. } => out.push((name.clone(), content.clone())),
        ContentTree::Directory { children, .. } => {
            for c in children {
                b_documents(c, out);
            }
        }
    }
}

#[test]
fn scenario_docs_and_index() {
    let reports = vec![b_done("docs/a.md"), b_done("docs/sub/b.md")];
    let got = pandoc_compile_html(&b_scenario(), &vec![b_docs()], reports).unwrap();
    assert_eq!(got, b_artifact());
}

#[test]
fn arrival_order_does_not_change_the_artifact() {
    let forward = vec![b_done("docs/a.md"), b_done("docs/sub/b.md")];
    let backward = vec![b_done("docs/sub/b.md"), b_done("docs/a.md")];
    let one = pandoc_compile_html(&b_scenario(), &vec![b_docs()], forward).unwrap();
    let two = pandoc_compile_html(&b_scenario(), &vec![b_docs()], backward).unwrap();
    assert_eq!(one, two);
    assert_eq!(format!("{:?}", one).into_bytes(), format!("{:?}", two).into_bytes());
    let paths = ["d/1", "d/2", "d/3", "d/4"];
    let root = b_dir("d", paths.iter().map(|p| b_file(p)).collect());
    let options = b_options(vec![b_compile("d", None)]);
    let expected = pandoc_compile_html(&options, &vec![b_dir("d", paths.iter().map(|p| b_file(p)).collect())], paths.iter().map(|p| b_done(p)).collect()).unwrap();
    for rotation in 0..4 {
        for reverse in [false, true] {
            let mut order: Vec<&str> = paths.to_vec();
            order.rotate_left(rotation);
            if reverse {
                order.reverse();
            }
            let reports = order.iter().map(|p| b_done(p)).collect();
            let roots = vec![b_dir("d", paths.iter().map(|p| b_file(p)).collect())];
            assert_eq!(pandoc_compile_html(&options, &roots, reports).unwrap(), expected);
        }
    }
    assert_eq!(
        plan_jobs(&vec![FsTree::construct(&root, &None).unwrap()]),
        vec!["d/1", "d/2", "d/3", "d/4"]
    );
}

#[test]
fn one_failed_conversion_fails_the_build() {
    for position in 0..3 {
        let mut reports = vec![b_done("docs/a.md")];
        reports.insert(position.min(1), b_failed("docs/sub/b.md", "exit status 1"));
        reports.truncate(2);
        let err = pandoc_compile_html(&b_scenario(), &vec![b_docs()], reports).unwrap_err();
        assert_eq!(
            err,
            BuildError {
                kind: BuildErrorKind::Conversion,
                path: "docs/sub/b.md".to_string(),
                message: "exit status 1".to_string(),
            }
        );
        assert_eq!(err.message(), "Pandoc failed to convert the file docs/sub/b.md: exit status 1");
    }
}

#[test]
fn first_failure_to_arrive_is_reported_after_all_are_taken() {
    let reports = vec![b_failed("docs/sub/b.md", "first"), b_failed("docs/a.md", "second")];
    let err = pandoc_compile_html(&b_scenario(), &vec![b_docs()], reports).unwrap_err();
    assert_eq!(err.kind, BuildErrorKind::Conversion);
    assert_eq!(err.path, "docs/sub/b.md");
    assert_eq!(err.message, "first");
    let mut barrier = Collector::new(2);
    barrier.record(b_failed("x", "boom"));
    assert!(!barrier.is_complete());
    barrier.record(b_done("y"));
    assert!(barrier.is_complete());
    let err = barrier.finish().err().unwrap();
    assert_eq!(err.kind, BuildErrorKind::Conversion);
    assert_eq!(err.path, "x");
}

#[test]
fn unreadable_directory_fails_the_build() {
    let root = b_dir(
        "docs",
        vec![b_file("docs/a.md"), RawEntry::Failed("docs/sub".to_string(), "denied".to_string())],
    );
    let err = pandoc_compile_html(&b_scenario(), &vec![root], vec![b_done("docs/a.md")]).unwrap_err();
    assert_eq!(
        err,
        BuildError {
            kind: BuildErrorKind::Filesystem,
            path: "docs/sub".to_string(),
            message: "denied".to_string(),
        }
    );
}

#[test]
fn missing_result_is_an_internal_error() {
    let reports = vec![b_done("docs/a.md"), b_done("docs/other.md")];
    let err = pandoc_compile_html(&b_scenario(), &vec![b_docs()], reports).unwrap_err();
    assert_eq!(err, b_internal("docs/sub/b.md", ""));
    assert_ne!(err.kind, BuildErrorKind::Conversion);
    assert_eq!(err.message(), "No conversion result was collected for docs/sub/b.md: ");
}

#[test]
fn outstanding_results_are_an_internal_error() {
    let err = pandoc_compile_html(&b_scenario(), &vec![b_docs()], vec![b_done("docs/a.md")]).unwrap_err();
    assert_eq!(err, b_internal("", "results are outstanding"));
    let err = pandoc_compile_html(&b_scenario(), &vec![b_docs()], vec![]).unwrap_err();
    assert_eq!(err, b_internal("", "results are outstanding"));
}

#[test]
fn surplus_result_is_an_internal_error() {
    let reports = vec![b_done("docs/a.md"), b_done("docs/sub/b.md"), b_done("docs/c.md")];
    let err = pandoc_compile_html(&b_scenario(), &vec![b_docs()], reports).unwrap_err();
    assert_eq!(err, b_internal("docs/c.md", "a result arrived that no job was submitted for"));
}

#[test]
fn second_result_for_one_document_is_an_internal_error() {
    let reports = vec![b_done("docs/a.md"), b_done("docs/a.md")];
    let err = pandoc_compile_html(&b_scenario(), &vec![b_docs()], reports).unwrap_err();
    assert_eq!(err, b_internal("docs/a.md", "a second result arrived for one document"));
}

#[test]
fn roots_must_match_the_subtree_elements() {
    let err = pandoc_compile_html(&b_scenario(), &vec![], vec![]).unwrap_err();
    assert_eq!(err, b_internal("", "the roots do not match the content elements"));
    let err = pandoc_compile_html(&b_scenario(), &vec![b_docs(), b_docs()], vec![]).unwrap_err();
    assert_eq!(err.kind, BuildErrorKind::InternalConsistency);
    let only = b_options(vec![b_special("a"), b_special("b")]);
    let got = pandoc_compile_html(&only, &vec![], vec![]).unwrap();
    assert_eq!(
        got,
        b_folder(
            "ROOT",
            vec![
                ContentTree::Special { kind: "a".to_string() },
                ContentTree::Special { kind: "b".to_string() }
            ],
            None
        )
    );
}

#[test]
fn elements_keep_the_order_of_the_manifest() {
    let options = b_options(vec![
        b_special("top"),
        b_compile("b", Some("second")),
        b_special("middle"),
        b_compile("a.md", None),
        b_special("end"),
    ]);
    let roots = vec![b_dir("b", vec![b_file("b/y"), b_file("b/x")]), b_file("a.md")];
    let reports = vec![b_done("a.md"), b_done("b/y"), b_done("b/x")];
    let got = pandoc_compile_html(&options, &roots, reports).unwrap();
    assert_eq!(
        got,
        b_folder(
            "ROOT",
            vec![
                ContentTree::Special { kind: "top".to_string() },
                b_folder("b", vec![b_doc("b/x", None), b_doc("b/y", None)], Some("second")),
                ContentTree::Special { kind: "middle".to_string() },
                b_doc("a.md", None),
                ContentTree::Special { kind: "end".to_string() },
            ],
            None
        )
    );
}

#[test]
fn root_file_carries_the_route() {
    let options = b_options(vec![b_compile("notes/readme.md", Some("home"))]);
    let got = pandoc_compile_html(&options, &vec![b_file("notes/readme.md")], vec![b_done("notes/readme.md")]).unwrap();
    assert_eq!(got, b_folder("ROOT", vec![b_doc("notes/readme.md", Some("home"))], None));
}

#[test]
fn route_stays_at_the_top_of_a_deep_subtree() {
    let deep = b_dir(
        "r",
        vec![
            b_file("r/f"),
            b_dir("r/1", vec![b_file("r/1/f"), b_dir("r/1/2", vec![b_dir("r/1/2/3", vec![b_file("r/1/2/3/f")])])]),
        ],
    );
    let options = b_options(vec![b_compile("r", Some("route")), b_compile("r", None)]);
    let reports = vec![b_done("r/f"), b_done("r/1/f"), b_done("r/1/2/3/f")];
    let deep_again = b_dir(
        "r",
        vec![
            b_file("r/f"),
            b_dir("r/1", vec![b_file("r/1/f"), b_dir("r/1/2", vec![b_dir("r/1/2/3", vec![b_file("r/1/2/3/f")])])]),
        ],
    );
    let got = pandoc_compile_html(&options, &vec![deep, deep_again], reports).unwrap();
    let mut routes = Vec::new();
    b_routes(&got, &mut routes);
    let mut expected = vec![None; 15];
    expected[1] = Some("route".to_string());
    assert_eq!(routes, expected);
}

#[test]
fn documents_are_the_discovered_files() {
    let root = b_dir(
        "s",
        vec![b_file("s/c"), b_dir("s/d", vec![b_file("s/d/b"), b_file("s/d/a")]), b_file("s/a")],
    );
    let tree = FsTree::construct(&root, &Some("x".to_string())).unwrap();
    let files = tree.get_all_src_files();
    assert_eq!(files, vec!["s/a", "s/c", "s/d/a", "s/d/b"]);
    let table = b_table(&["s/a", "s/c", "s/d/a", "s/d/b", "s/unrelated"]);
    let node = process_tree_element(&tree.tree, &table, &tree.route).unwrap();
    let mut documents = Vec::new();
    b_documents(&node, &mut documents);
    let expected: Vec<(String, String)> = files
        .iter()
        .map(|f| (f.rsplit('/').next().unwrap().to_string(), b_conv(f)))
        .collect();
    assert_eq!(documents, expected);
}

#[test]
fn each_discovered_file_is_planned_once() {
    let one = FsTree::construct(&b_docs(), &None).unwrap();
    let two = FsTree::construct(&b_docs(), &Some("again".to_string())).unwrap();
    let three = FsTree::construct(&b_file("docs/a.md"), &None).unwrap();
    let four = FsTree::construct(&b_file("other.md"), &None).unwrap();
    assert_eq!(plan_jobs(&vec![one, two, three, four]), vec!["docs/a.md", "docs/sub/b.md", "other.md"]);
    assert_eq!(plan_jobs(&vec![]), Vec::<String>::new());
    let options = b_options(vec![b_compile("docs", Some("one")), b_compile("docs", Some("two"))]);
    let reports = vec![b_done("docs/sub/b.md"), b_done("docs/a.md")];
    let got = pandoc_compile_html(&options, &vec![b_docs(), b_docs()], reports).unwrap();
    let inner = vec![b_doc("docs/a.md", None), b_folder("sub", vec![b_doc("docs/sub/b.md", None)], None)];
    let inner_again = vec![b_doc("docs/a.md", None), b_folder("sub", vec![b_doc("docs/sub/b.md", None)], None)];
    assert_eq!(
        got,
        b_folder(
            "ROOT",
            vec![b_folder("docs", inner, Some("one")), b_folder("docs", inner_again, Some("two"))],
            None
        )
    );
}

#[test]
fn trees_are_built_with_their_routes() {
    let routes = vec![Some("a".to_string()), None];
    let roots = vec![b_file("x"), b_dir("y", vec![])];
    let trees = construct_trees(&routes, &roots).unwrap();
    assert_eq!(
        trees,
        vec![
            FsTree { tree: TreeElement::File(b_path("x")), route: Some("a".to_string()) },
            FsTree { tree: TreeElement::Nested(b_path("y"), vec![]), route: None },
        ]
    );
    let roots = vec![b_file("x"), RawEntry::Failed("y".to_string(), "m".to_string())];
    assert_eq!(construct_trees(&routes, &roots).unwrap_err().path, "y");
}

#[test]
fn barrier_counts_down() {
    let mut barrier = Collector::new(2);
    assert!(!barrier.is_complete());
    barrier.record(b_done("a"));
    assert!(!barrier.is_complete());
    barrier.record(b_done("b"));
    assert!(barrier.is_complete());
    let table = barrier.finish().unwrap();
    assert_eq!(table.get(&"a".to_string()), Some(&b_conv("a")));
    assert_eq!(table.get(&"b".to_string()), Some(&b_conv("b")));
    assert_eq!(table.get(&"c".to_string()), None);
    assert!(Collector::new(0).is_complete());
    assert!(Collector::new(0).finish().unwrap().get(&"a".to_string()).is_none());
    assert_eq!(Collector::new(1).finish().err().unwrap(), b_internal("", "results are outstanding"));
}

#[test]
fn barrier_keeps_the_first_problem() {
    let mut barrier = Collector::new(3);
    barrier.record(b_done("a"));
    barrier.record(b_done("a"));
    barrier.record(b_failed("b", "late"));
    barrier.record(b_done("c"));
    assert_eq!(barrier.finish().err().unwrap(), b_internal("a", "a second result arrived for one document"));
    let err = collect(1, vec![b_done("a"), b_failed("b", "m")]).err().unwrap();
    assert_eq!(err, b_internal("b", "a result arrived that no job was submitted for"));
}

#[test]
fn collect_takes_reports_in_their_order() {
    let table = collect(3, vec![b_done("a"), b_done("b"), b_done("c")]).unwrap();
    for p in ["a", "b", "c"] {
        assert!(table.contains_key(&p.to_string()));
        assert_eq!(table.get(&p.to_string()), Some(&b_conv(p)));
    }
    let err = collect(3, vec![b_done("a"), b_failed("b", "one"), b_failed("c", "two")]).err().unwrap();
    assert_eq!(err.path, "b");
    assert_eq!(err.message, "one");
    let err = collect(3, vec![b_done("a"), b_failed("c", "two"), b_failed("b", "one")]).err().unwrap();
    assert_eq!(err.path, "c");
}

#[test]
fn table_is_written_once_per_path() {
    let mut table = ResultMap::new();
    assert!(!table.contains_key(&"k".to_string()));
    table.insert("k".to_string(), "one".to_string());
    if !table.contains_key(&"j".to_string()) {
        table.insert("j".to_string(), "other".to_string());
    }
    if !table.contains_key(&"k".to_string()) {
        table.insert("k".to_string(), "two".to_string());
    }
    assert_eq!(table.get(&"k".to_string()), Some(&"one".to_string()));
    assert_eq!(table.get(&"j".to_string()), Some(&"other".to_string()));
    assert_eq!(table.get(&"".to_string()), None);
    let mut barrier = Collector::new(2);
    barrier.record(Completion { path: "k".to_string(), outcome: Ok("one".to_string()) });
    barrier.record(Completion { path: "k".to_string(), outcome: Ok("two".to_string()) });
    assert_eq!(barrier.finish().err().unwrap().path, "k");
}

#[test]
fn subtree_elements_have_no_route() {
    let nodes = vec![
        TreeElement::File(b_path("d/a")),
        TreeElement::Nested(b_path("d/e"), vec![TreeElement::File(b_path("d/e/b"))]),
    ];
    let table = b_table(&["d/a", "d/e/b"]);
    let got = process_subtree_elements(&nodes, &table).unwrap();
    assert_eq!(got, vec![b_doc("d/a", None), b_folder("e", vec![b_doc("d/e/b", None)], None)]);
    let short = b_table(&["d/a"]);
    assert_eq!(process_subtree_elements(&nodes, &short).unwrap_err(), b_internal("d/e/b", ""));
    let none = ResultMap::new();
    assert_eq!(process_subtree_elements(&nodes, &none).unwrap_err(), b_internal("d/a", ""));
    assert_eq!(process_subtree_elements(&vec![], &none).unwrap(), vec![]);
}

#[test]
fn content_tree_from_trees_and_table() {
    let trees = vec![FsTree::construct(&b_docs(), &Some("guide".to_string())).unwrap()];
    let table = b_table(&["docs/a.md", "docs/sub/b.md"]);
    assert_eq!(generate_content_tree(&b_scenario(), &trees, &table).unwrap(), b_artifact());
    let other_route = vec![FsTree::construct(&b_docs(), &None).unwrap()];
    let got = generate_content_tree(&b_scenario(), &other_route, &table).unwrap();
    let mut routes = Vec::new();
    b_routes(&got, &mut routes);
    assert_eq!(routes, vec![None; 5]);
    let short = b_table(&["docs/sub/b.md"]);
    assert_eq!(generate_content_tree(&b_scenario(), &trees, &short).unwrap_err(), b_internal("docs/a.md", ""));
}

#[test]
fn build_errors_in_words() {
    let e = BuildError::new(BuildErrorKind::Filesystem, &"docs".to_string(), &"denied".to_string());
    assert_eq!(e.message(), "Failed to explore dir docs: denied");
    assert_eq!(e.duplicate(), e);
    assert_eq!(BuildError::missing(&"p".to_string()), b_internal("p", ""));
}
