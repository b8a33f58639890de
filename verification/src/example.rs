//! A worked build: a subtree element whose root holds a file and a
//! subdirectory with one file, followed by a marker. The content tree is
//! derived from the definitions, for each order in which the root may be
//! enumerated and each order in which the two reports may arrive.

use crate::error::BuildErrorView;
use crate::generator::{
    root_name, spec_top_level, spec_translate, spec_translate_each, tree_index, ContentView,
};
use crate::laws::lemma_barrier_state;
use crate::manifest::ElementView;
use crate::order::lemma_key_le_antisymmetric;
use crate::pipeline::{
    all_files, compile_routes, spec_build, spec_distinct, spec_jobs, spec_tree_each,
};
use crate::results::{spec_collect, CompletionView};
use crate::tree::{
    bytes_le, bytes_le_from, full_paths, insert_sorted, key_le, last_separator, sort_siblings,
    spec_construct, spec_construct_each, spec_file_entries, spec_file_entries_of, spec_gather,
    spec_make_tree, EntryPathView, FsTreeView, RawView, TreeView,
};
use vstd::prelude::*;
use vstd::utf8::{encode_utf8, is_ascii_chars, is_ascii_chars_encode_utf8};

verus! {

/// Gathering one value gives that value.
pub proof fn lemma_gather_one<T, E>(rs: Seq<Result<T, E>>, x: T)
    requires
        rs.len() == 1,
        rs[0] == Ok::<T, E>(x),
    ensures
        spec_gather(rs, 0) == Ok::<Seq<T>, E>(seq![x]),
{
    reveal_with_fuel(spec_gather, 2);
    assert(seq![x] + Seq::<T>::empty() =~= seq![x]);
}

/// Gathering two values gives them in order.
pub proof fn lemma_gather_two<T, E>(rs: Seq<Result<T, E>>, x: T, y: T)
    requires
        rs.len() == 2,
        rs[0] == Ok::<T, E>(x),
        rs[1] == Ok::<T, E>(y),
    ensures
        spec_gather(rs, 0) == Ok::<Seq<T>, E>(seq![x, y]),
{
    reveal_with_fuel(spec_gather, 3);
    assert(seq![y] + Seq::<T>::empty() =~= seq![y]);
    assert(seq![x] + seq![y] =~= seq![x, y]);
}

/// One node is sorted as it stands.
pub proof fn lemma_sort_one(x: TreeView)
    ensures
        sort_siblings(seq![x]) == seq![x],
{
    reveal_with_fuel(sort_siblings, 2);
    assert(seq![x].drop_last() =~= Seq::<TreeView>::empty());
    assert(seq![x].last() == x);
}

/// Two nodes of different names sort to the one order, whichever came first.
pub proof fn lemma_sort_two(x: TreeView, y: TreeView)
    requires
        key_le(x, y),
        x.path().name != y.path().name,
    ensures
        sort_siblings(seq![x, y]) == seq![x, y],
        sort_siblings(seq![y, x]) == seq![x, y],
{
    lemma_sort_one(x);
    lemma_sort_one(y);
    assert(seq![x, y].drop_last() =~= seq![x]);
    assert(seq![x, y].last() == y);
    assert(seq![x].last() == x);
    assert(seq![x].push(y) =~= seq![x, y]);
    assert(seq![y, x].drop_last() =~= seq![y]);
    assert(seq![y, x].last() == x);
    assert(seq![y].last() == y);
    assert(seq![y].drop_last() =~= Seq::<TreeView>::empty());
    if key_le(y, x) {
        lemma_key_le_antisymmetric(x, y);
    }
    reveal_with_fuel(insert_sorted, 2);
    assert(insert_sorted(Seq::<TreeView>::empty(), x) =~= seq![x]);
    assert(seq![x].push(y) =~= seq![x, y]);
}

/// The root of the worked build as the walk finds it: the file first, or the
/// subdirectory first.
pub open spec fn worked_root(
    docs: EntryPathView,
    a: EntryPathView,
    sub: EntryPathView,
    b: EntryPathView,
    file_first: bool,
) -> RawView {
    let file = RawView::File(a);
    let dir = RawView::Dir(sub, seq![RawView::File(b)]);
    RawView::Dir(
        docs,
        if file_first {
            seq![file, dir]
        } else {
            seq![dir, file]
        },
    )
}

/// The ordered tree of the worked build.
pub open spec fn worked_tree(
    docs: EntryPathView,
    a: EntryPathView,
    sub: EntryPathView,
    b: EntryPathView,
) -> TreeView {
    TreeView::Nested(
        docs,
        seq![TreeView::File(a), TreeView::Nested(sub, seq![TreeView::File(b)])],
    )
}

/// The two reports of the worked build in an order of arrival.
pub open spec fn worked_reports(
    a: EntryPathView,
    b: EntryPathView,
    text_a: Seq<char>,
    text_b: Seq<char>,
    a_first: bool,
) -> Seq<CompletionView> {
    let ra = CompletionView { path: a.full, outcome: Ok(text_a) };
    let rb = CompletionView { path: b.full, outcome: Ok(text_b) };
    if a_first {
        seq![ra, rb]
    } else {
        seq![rb, ra]
    }
}

/// The content tree of the worked build.
pub open spec fn worked_artifact(
    docs: EntryPathView,
    a: EntryPathView,
    sub: EntryPathView,
    b: EntryPathView,
    route: Option<Seq<char>>,
    kind: Seq<char>,
    text_a: Seq<char>,
    text_b: Seq<char>,
) -> ContentView {
    ContentView::Directory {
        name: root_name(),
        children: seq![
            ContentView::Directory {
                name: docs.name,
                children: seq![
                    ContentView::Document { name: a.name, content: text_a, route: None },
                    ContentView::Directory {
                        name: sub.name,
                        children: seq![
                            ContentView::Document { name: b.name, content: text_b, route: None },
                        ],
                        route: None,
                    },
                ],
                route,
            },
            ContentView::Special { kind },
        ],
        route: None,
    }
}

/// The tree that is built for the root of the worked build, in either order
/// of enumeration.
pub proof fn lemma_worked_tree(
    docs: EntryPathView,
    a: EntryPathView,
    sub: EntryPathView,
    b: EntryPathView,
    file_first: bool,
)
    requires
        bytes_le(encode_utf8(a.name), encode_utf8(sub.name)),
        a.name != sub.name,
    ensures
        spec_construct(worked_root(docs, a, sub, b, file_first)) == Ok::<TreeView, BuildErrorView>(
            worked_tree(docs, a, sub, b),
        ),
{
    let inner = seq![RawView::File(b)];
    let inner_each = spec_construct_each(inner);
    assert(inner_each[0] == Ok::<TreeView, BuildErrorView>(TreeView::File(b)));
    lemma_gather_one(inner_each, TreeView::File(b));
    lemma_sort_one(TreeView::File(b));
    let dir = RawView::Dir(sub, inner);
    let dir_node = TreeView::Nested(sub, seq![TreeView::File(b)]);
    assert(spec_make_tree(inner) == Ok::<Seq<TreeView>, BuildErrorView>(seq![TreeView::File(b)]));
    assert(spec_construct(dir) == Ok::<TreeView, BuildErrorView>(dir_node));
    let file = RawView::File(a);
    let file_node = TreeView::File(a);
    lemma_sort_two(file_node, dir_node);
    let entries = if file_first {
        seq![file, dir]
    } else {
        seq![dir, file]
    };
    let each = spec_construct_each(entries);
    if file_first {
        assert(each[0] == Ok::<TreeView, BuildErrorView>(file_node));
        assert(each[1] == Ok::<TreeView, BuildErrorView>(dir_node));
        lemma_gather_two(each, file_node, dir_node);
    } else {
        assert(each[0] == Ok::<TreeView, BuildErrorView>(dir_node));
        assert(each[1] == Ok::<TreeView, BuildErrorView>(file_node));
        lemma_gather_two(each, dir_node, file_node);
    }
    assert(spec_make_tree(entries) == Ok::<Seq<TreeView>, BuildErrorView>(
        seq![file_node, dir_node],
    ));
}

/// What the ordered tree of the worked build becomes, given a table that
/// holds the two texts.
pub proof fn lemma_worked_subtree(
    docs: EntryPathView,
    a: EntryPathView,
    sub: EntryPathView,
    b: EntryPathView,
    route: Option<Seq<char>>,
    outputs: Map<Seq<char>, Seq<char>>,
)
    requires
        outputs.contains_key(a.full),
        outputs.contains_key(b.full),
    ensures
        spec_translate(worked_tree(docs, a, sub, b), outputs, route) == Ok::<
            ContentView,
            BuildErrorView,
        >(
            ContentView::Directory {
                name: docs.name,
                children: seq![
                    ContentView::Document { name: a.name, content: outputs[a.full], route: None },
                    ContentView::Directory {
                        name: sub.name,
                        children: seq![
                            ContentView::Document {
                                name: b.name,
                                content: outputs[b.full],
                                route: None,
                            },
                        ],
                        route: None,
                    },
                ],
                route,
            },
        ),
{
    let doc_b = ContentView::Document { name: b.name, content: outputs[b.full], route: None };
    let inner = seq![TreeView::File(b)];
    let inner_each = spec_translate_each(inner, outputs);
    assert(inner_each[0] == Ok::<ContentView, BuildErrorView>(doc_b));
    lemma_gather_one(inner_each, doc_b);
    let dir_node = TreeView::Nested(sub, inner);
    let dir_b = ContentView::Directory { name: sub.name, children: seq![doc_b], route: None };
    assert(spec_translate(dir_node, outputs, None) == Ok::<ContentView, BuildErrorView>(dir_b));
    let doc_a = ContentView::Document { name: a.name, content: outputs[a.full], route: None };
    let children = seq![TreeView::File(a), dir_node];
    let each = spec_translate_each(children, outputs);
    assert(each[0] == Ok::<ContentView, BuildErrorView>(doc_a));
    assert(each[1] == Ok::<ContentView, BuildErrorView>(dir_b));
    lemma_gather_two(each, doc_a, dir_b);
}

/// The worked build: for a root that holds a file and a subdirectory with one
/// file, where the file's name comes before the subdirectory's, followed by a
/// marker, the content tree is a root directory without a route that holds
/// the subtree and the marker. The subtree carries the route at its top and
/// nowhere below, its children are the file and then the subdirectory, and
/// each document holds the text that was reported for its file. This is so
/// whichever way the root was enumerated and in whichever order the two
/// reports arrived.
pub proof fn law_worked_build(
    path: Seq<char>,
    docs: EntryPathView,
    a: EntryPathView,
    sub: EntryPathView,
    b: EntryPathView,
    route: Option<Seq<char>>,
    kind: Seq<char>,
    text_a: Seq<char>,
    text_b: Seq<char>,
    file_first: bool,
    a_first: bool,
)
    requires
        a.full != b.full,
        bytes_le(encode_utf8(a.name), encode_utf8(sub.name)),
        a.name != sub.name,
    ensures
        spec_build(
            seq![ElementView::CompileFromPath { path, route }, ElementView::Special { kind }],
            seq![worked_root(docs, a, sub, b, file_first)],
            worked_reports(a, b, text_a, text_b, a_first),
        ) == Ok::<ContentView, BuildErrorView>(
            worked_artifact(docs, a, sub, b, route, kind, text_a, text_b),
        ),
{
    let content = seq![ElementView::CompileFromPath { path, route }, ElementView::Special { kind }];
    let root = worked_root(docs, a, sub, b, file_first);
    let roots = seq![root];
    let reports = worked_reports(a, b, text_a, text_b, a_first);
    let tree = worked_tree(docs, a, sub, b);

    // The routes of the subtree elements.
    reveal_with_fuel(compile_routes, 3);
    assert(content.drop_last() =~= seq![ElementView::CompileFromPath { path, route }]);
    assert(content.drop_last().drop_last() =~= Seq::<ElementView>::empty());
    let routes = compile_routes(content);
    assert(routes =~= seq![route]);

    // The ordered tree.
    lemma_worked_tree(docs, a, sub, b, file_first);
    let each = spec_tree_each(routes, roots);
    let fs_tree = FsTreeView { tree, route };
    assert(each[0] == Ok::<FsTreeView, BuildErrorView>(fs_tree));
    lemma_gather_one(each, fs_tree);
    let trees = seq![fs_tree];

    // The jobs.
    reveal_with_fuel(all_files, 2);
    reveal_with_fuel(spec_file_entries_of, 3);
    reveal_with_fuel(spec_file_entries, 3);
    assert(trees.drop_last() =~= Seq::<FsTreeView>::empty());
    let children = seq![TreeView::File(a), TreeView::Nested(sub, seq![TreeView::File(b)])];
    assert(children.drop_last() =~= seq![TreeView::File(a)]);
    assert(seq![TreeView::File(a)].drop_last() =~= Seq::<TreeView>::empty());
    assert(seq![TreeView::File(b)].drop_last() =~= Seq::<TreeView>::empty());
    assert(spec_file_entries_of(seq![TreeView::File(b)]) =~= seq![b]);
    assert(spec_file_entries_of(seq![TreeView::File(a)]) =~= seq![a]);
    assert(spec_file_entries(tree) =~= seq![a, b]);
    let files = seq![a.full, b.full];
    assert(full_paths(seq![a, b]) =~= files);
    assert(all_files(trees) =~= files);
    reveal_with_fuel(spec_distinct, 3);
    assert(files.drop_last() =~= seq![a.full]);
    assert(seq![a.full].drop_last() =~= Seq::<Seq<char>>::empty());
    assert(spec_distinct(seq![a.full]) =~= seq![a.full]);
    assert(!seq![a.full].contains(b.full));
    assert(spec_distinct(files) =~= files);
    assert(spec_jobs(trees).len() == 2);

    // The table.
    lemma_barrier_state(2, reports);
    assert(reports[0].path != reports[1].path);
    let outputs = spec_collect(2, reports)->Ok_0;
    if a_first {
        assert(reports[0].path == a.full && reports[1].path == b.full);
    } else {
        assert(reports[1].path == a.full && reports[0].path == b.full);
    }
    assert(spec_collect(2, reports) is Ok);
    assert(outputs[a.full] == text_a);
    assert(outputs[b.full] == text_b);
    assert(outputs.contains_key(a.full));
    assert(outputs.contains_key(b.full));

    // The content tree.
    lemma_worked_subtree(docs, a, sub, b, route, outputs);
    reveal_with_fuel(tree_index, 2);
    let top = spec_top_level(content, trees, outputs);
    let subtree = spec_translate(tree, outputs, route)->Ok_0;
    assert(top[0] == Ok::<ContentView, BuildErrorView>(subtree));
    assert(top[1] == Ok::<ContentView, BuildErrorView>(ContentView::Special { kind }));
    lemma_gather_two(top, subtree, ContentView::Special { kind });
}

/// The worked build with its names written out: `docs` holds `a.md` and
/// `sub/b.md`, the element's route is `guide`, and the marker is `index`.
pub proof fn law_docs_and_index(
    text_a: Seq<char>,
    text_b: Seq<char>,
    file_first: bool,
    a_first: bool,
)
    ensures
        ({
            let docs = EntryPathView { full: "docs"@, name: "docs"@ };
            let a = EntryPathView { full: "docs/a.md"@, name: "a.md"@ };
            let sub = EntryPathView { full: "docs/sub"@, name: "sub"@ };
            let b = EntryPathView { full: "docs/sub/b.md"@, name: "b.md"@ };
            &&& docs.wf() && a.wf() && sub.wf() && b.wf()
            &&& spec_build(
                seq![
                    ElementView::CompileFromPath { path: "docs"@, route: Some("guide"@) },
                    ElementView::Special { kind: "index"@ },
                ],
                seq![worked_root(docs, a, sub, b, file_first)],
                worked_reports(a, b, text_a, text_b, a_first),
            ) == Ok::<ContentView, BuildErrorView>(
                worked_artifact(docs, a, sub, b, Some("guide"@), "index"@, text_a, text_b),
            )
        }),
{
    reveal_strlit("docs");
    reveal_strlit("docs/a.md");
    reveal_strlit("docs/sub");
    reveal_strlit("docs/sub/b.md");
    reveal_strlit("a.md");
    reveal_strlit("sub");
    reveal_strlit("b.md");
    let docs = EntryPathView { full: "docs"@, name: "docs"@ };
    let a = EntryPathView { full: "docs/a.md"@, name: "a.md"@ };
    let sub = EntryPathView { full: "docs/sub"@, name: "sub"@ };
    let b = EntryPathView { full: "docs/sub/b.md"@, name: "b.md"@ };
    assert(a.full.len() != b.full.len());
    assert(a.name.len() != sub.name.len());
    assert(is_ascii_chars(a.name));
    assert(is_ascii_chars(sub.name));
    is_ascii_chars_encode_utf8(a.name);
    is_ascii_chars_encode_utf8(sub.name);
    assert(a.name[0] == 'a');
    assert(sub.name[0] == 's');
    assert(encode_utf8(a.name)[0] == 'a' as u8);
    assert(encode_utf8(sub.name)[0] == 's' as u8);
    assert(bytes_le_from(encode_utf8(a.name), encode_utf8(sub.name), 0));
    lemma_worked_names(docs, a, sub, b);
    law_worked_build(
        "docs"@,
        docs,
        a,
        sub,
        b,
        Some("guide"@),
        "index"@,
        text_a,
        text_b,
        file_first,
        a_first,
    );
}

/// The names of the worked build are the final components of its paths.
pub proof fn lemma_worked_names(
    docs: EntryPathView,
    a: EntryPathView,
    sub: EntryPathView,
    b: EntryPathView,
)
    requires
        docs == (EntryPathView { full: "docs"@, name: "docs"@ }),
        a == (EntryPathView { full: "docs/a.md"@, name: "a.md"@ }),
        sub == (EntryPathView { full: "docs/sub"@, name: "sub"@ }),
        b == (EntryPathView { full: "docs/sub/b.md"@, name: "b.md"@ }),
    ensures
        docs.wf(),
        a.wf(),
        sub.wf(),
        b.wf(),
{
    reveal_strlit("docs");
    reveal_strlit("docs/a.md");
    reveal_strlit("docs/sub");
    reveal_strlit("docs/sub/b.md");
    reveal_strlit("a.md");
    reveal_strlit("sub");
    reveal_strlit("b.md");
    lemma_final_component("docs"@, 0);
    lemma_final_component("docs/a.md"@, 5);
    lemma_final_component("docs/sub"@, 5);
    lemma_final_component("docs/sub/b.md"@, 9);
    assert("docs"@.skip(0) =~= "docs"@);
    assert("docs/a.md"@.skip(5) =~= "a.md"@);
    assert("docs/sub"@.skip(5) =~= "sub"@);
    assert("docs/sub/b.md"@.skip(9) =~= "b.md"@);
}

/// The final component of `s` starts at `k`, where `k` is 0 or stands behind
/// a `/` and no `/` stands behind `k`.
pub proof fn lemma_final_component(s: Seq<char>, k: int)
    requires
        0 <= k <= s.len(),
        k > 0 ==> s[k - 1] == '/',
        forall|i: int| k <= i < s.len() ==> s[i] != '/',
    ensures
        last_separator(s) == k,
    decreases s.len(),
{
    if s.len() > k {
        let front = s.drop_last();
        assert(forall|i: int| k <= i < front.len() ==> front[i] == s[i]);
        if k > 0 {
            assert(front[k - 1] == s[k - 1]);
        }
        lemma_final_component(front, k);
    }
}

} // verus!
