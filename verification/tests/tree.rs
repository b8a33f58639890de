use content_tree::error::{BuildError, BuildErrorKind};
use content_tree::generator::get_name;
use content_tree::tree::{
    construct_element, final_component_of, insert_by_name, name_le, EntryPath, FsTree, RawEntry,
    TreeElement,
};

fn t_path(full: &str) -> EntryPath {
    EntryPath::new(full.to_string())
}

fn t_file(full: &str) -> RawEntry {
    RawEntry::File(t_path(full))
}

fn t_dir(full: &str, entries: Vec<RawEntry>) -> RawEntry {
    RawEntry::Dir(t_path(full), entries)
}

fn t_leaf(full: &str) -> TreeElement {
    TreeElement::File(t_path(full))
}

fn t_node(full: &str, children: Vec<TreeElement>) -> TreeElement {
    TreeElement::Nested(t_path(full), children)
}

fn t_names(nodes: &Vec<TreeElement>) -> Vec<String> {
    nodes.iter().map(|n| n.path().name().clone()).collect()
}

fn t_sorted() -> TreeElement {
    t_node(
        "docs",
        vec![
            t_leaf("docs/a.md"),
            t_leaf("docs/b.md"),
            t_node("docs/sub", vec![t_leaf("docs/sub/x.md"), t_leaf("docs/sub/y.md")]),
            t_leaf("docs/z.md"),
        ],
    )
}

#[test]
fn root_that_is_a_file_is_a_bare_file() {
    let got = FsTree::construct(&t_file("notes/readme.md"), &None).unwrap();
    assert_eq!(got, FsTree { tree: t_leaf("notes/readme.md"), route: None });
}

#[test]
fn construct_keeps_the_route() {
    let route = Some("guide".to_string());
    let got = FsTree::construct(&t_dir("docs", vec![]), &route).unwrap();
    assert_eq!(got, FsTree { tree: t_node("docs", vec![]), route });
}

#[test]
fn siblings_are_sorted_at_every_depth() {
    let raw = t_dir(
        "docs",
        vec![
            t_file("docs/z.md"),
            t_dir("docs/sub", vec![t_file("docs/sub/y.md"), t_file("docs/sub/x.md")]),
            t_file("docs/b.md"),
            t_file("docs/a.md"),
        ],
    );
    assert_eq!(construct_element(&raw).unwrap(), t_sorted());
}

#[test]
fn every_enumeration_order_gives_the_same_tree() {
    let entry = |i: usize, flip: bool| -> RawEntry {
        match i {
            0 => t_file("docs/a.md"),
            1 => t_file("docs/b.md"),
            2 => {
                let mut inner = vec![t_file("docs/sub/x.md"), t_file("docs/sub/y.md")];
                if flip {
                    inner.reverse();
                }
                t_dir("docs/sub", inner)
            }
            _ => t_file("docs/z.md"),
        }
    };
    let orders = [
        [0, 1, 2, 3],
        [0, 1, 3, 2],
        [0, 2, 1, 3],
        [0, 2, 3, 1],
        [0, 3, 1, 2],
        [0, 3, 2, 1],
        [1, 0, 2, 3],
        [1, 0, 3, 2],
        [1, 2, 0, 3],
        [1, 2, 3, 0],
        [1, 3, 0, 2],
        [1, 3, 2, 0],
        [2, 0, 1, 3],
        [2, 0, 3, 1],
        [2, 1, 0, 3],
        [2, 1, 3, 0],
        [2, 3, 0, 1],
        [2, 3, 1, 0],
        [3, 0, 1, 2],
        [3, 0, 2, 1],
        [3, 1, 0, 2],
        [3, 1, 2, 0],
        [3, 2, 0, 1],
        [3, 2, 1, 0],
    ];
    for order in orders {
        for flip in [false, true] {
            let raw = t_dir("docs", order.iter().map(|i| entry(*i, flip)).collect());
            let once = FsTree::construct(&raw, &None).unwrap();
            let again = FsTree::construct(&raw, &None).unwrap();
            assert_eq!(once, again);
            assert_eq!(once.tree, t_sorted());
        }
    }
}

#[test]
fn order_is_that_of_the_bytes() {
    let raw = vec![
        t_file("d/b"),
        t_file("d/a"),
        t_file("d/B"),
        t_file("d/ab"),
        t_file("d/_"),
        t_file("d/10"),
        t_file("d/9"),
        t_file("d/\u{e9}"),
        t_file("d/z"),
        t_file("d/\u{10348}"),
        t_file("d/\u{ffff}"),
        t_file("d/a.md"),
        t_file("d/a-b"),
    ];
    let got = FsTree::make_tree(&raw).unwrap();
    let mut expected: Vec<String> = vec!["b", "a", "B", "ab", "_", "10", "9", "\u{e9}", "z", "\u{10348}", "\u{ffff}", "a.md", "a-b"]
        .into_iter()
        .map(|s| s.to_string())
        .collect();
    expected.sort();
    assert_eq!(t_names(&got), expected);
    assert_eq!(
        t_names(&got),
        vec!["10", "9", "B", "_", "a", "a-b", "a.md", "ab", "b", "z", "\u{e9}", "\u{ffff}", "\u{10348}"]
    );
}

#[test]
fn names_compare_as_bytes() {
    let le = |a: &str, b: &str| name_le(&a.to_string(), &b.to_string());
    assert!(le("", ""));
    assert!(le("", "a"));
    assert!(!le("a", ""));
    assert!(le("a", "a"));
    assert!(le("a", "ab"));
    assert!(!le("ab", "a"));
    assert!(le("ab", "b"));
    assert!(!le("b", "ab"));
    assert!(le("Z", "a"));
    assert!(!le("a", "Z"));
    assert!(le("z", "\u{e9}"));
    assert!(!le("\u{e9}", "z"));
    assert!(le("\u{ffff}", "\u{10000}"));
}

#[test]
fn equal_names_keep_their_order() {
    let first = t_path("one/x");
    let second = t_path("two/x");
    let third = t_path("three/w");
    let raw = vec![
        RawEntry::File(first.duplicate()),
        RawEntry::File(third.duplicate()),
        RawEntry::File(second.duplicate()),
    ];
    let got = FsTree::make_tree(&raw).unwrap();
    assert_eq!(
        got,
        vec![TreeElement::File(third), TreeElement::File(first), TreeElement::File(second)]
    );
}

#[test]
fn insertion_into_a_sorted_run() {
    let mut run: Vec<TreeElement> = Vec::new();
    for name in ["m", "a", "z", "n", "b"] {
        insert_by_name(&mut run, t_leaf(name));
    }
    assert_eq!(t_names(&run), vec!["a", "b", "m", "n", "z"]);
}

#[test]
fn unreadable_path_fails_the_tree() {
    let raw = t_dir(
        "docs",
        vec![
            t_file("docs/a.md"),
            t_dir(
                "docs/sub",
                vec![
                    t_file("docs/sub/b.md"),
                    RawEntry::Failed("docs/sub/locked".to_string(), "permission denied".to_string()),
                ],
            ),
            RawEntry::Failed("docs/later".to_string(), "gone".to_string()),
        ],
    );
    let err = FsTree::construct(&raw, &Some("r".to_string())).unwrap_err();
    assert_eq!(
        err,
        BuildError {
            kind: BuildErrorKind::Filesystem,
            path: "docs/sub/locked".to_string(),
            message: "permission denied".to_string(),
        }
    );
    assert_eq!(err.message(), "Failed to explore dir docs/sub/locked: permission denied");
}

#[test]
fn unreadable_root_fails_the_tree() {
    let raw = RawEntry::Failed("missing".to_string(), "No such file or directory".to_string());
    let err = FsTree::construct(&raw, &None).unwrap_err();
    assert_eq!(err.kind, BuildErrorKind::Filesystem);
    assert_eq!(err.path, "missing");
}

#[test]
fn first_failure_in_enumeration_order_is_reported() {
    let raw = vec![
        t_file("d/z"),
        RawEntry::Failed("d/second".to_string(), "two".to_string()),
        RawEntry::Failed("d/first".to_string(), "one".to_string()),
    ];
    assert_eq!(FsTree::make_tree(&raw).unwrap_err().path, "d/second");
}

#[test]
fn files_are_listed_in_walking_order() {
    let tree = FsTree { tree: t_sorted(), route: None };
    assert_eq!(
        tree.get_all_src_files(),
        vec!["docs/a.md", "docs/b.md", "docs/sub/x.md", "docs/sub/y.md", "docs/z.md"]
    );
    let single = FsTree { tree: t_leaf("one.md"), route: None };
    assert_eq!(single.get_all_src_files(), vec!["one.md"]);
    let empty = FsTree { tree: t_node("docs", vec![t_node("docs/e", vec![])]), route: None };
    assert_eq!(empty.get_all_src_files(), Vec::<String>::new());
}

#[test]
fn list_files_appends() {
    let mut list = vec!["before".to_string()];
    let nodes = vec![t_node("d", vec![t_leaf("d/1"), t_node("d/e", vec![t_leaf("d/e/2")])]), t_leaf("3")];
    FsTree::list_files(&nodes, &mut list);
    assert_eq!(list, vec!["before", "d/1", "d/e/2", "3"]);
}

#[test]
fn name_is_the_final_component() {
    assert_eq!(get_name(&t_path("docs/sub/b.md")), "b.md");
    assert_eq!(get_name(&t_path("docs")), "docs");
    assert_eq!(get_name(&t_path("/abs/file.txt")), "file.txt");
    assert_eq!(get_name(&t_path("a/b.c/d")), "d");
    assert_eq!(get_name(&t_path("r\u{e9}pertoire/\u{e9}t\u{e9}.md")), "\u{e9}t\u{e9}.md");
    assert_eq!(get_name(&t_path("docs/")), "");
    assert_eq!(get_name(&t_path("/")), "");
    assert_eq!(get_name(&t_path("")), "");
    assert_eq!(t_leaf("docs/a.md").path(), &t_path("docs/a.md"));
}

#[test]
fn entry_path_holds_path_and_name() {
    let p = EntryPath::new("docs/sub/b.md".to_string());
    assert_eq!(p.full(), "docs/sub/b.md");
    assert_eq!(p.name(), "b.md");
    assert_eq!(p.duplicate(), p);
    assert_eq!(final_component_of("x/y/z"), "z");
    assert_eq!(final_component_of("z"), "z");
    assert_eq!(final_component_of("x//"), "");
    assert_eq!(final_component_of("a\\b/c\\d"), "c\\d");
}
