//! What holds of every build, stated over the functions that the contracts of
//! this crate use, and proved.

use crate::arg::{spec_decode_all, spec_option_list, spec_parse_options, spec_parses_to};
use crate::error::{BuildErrorKind, BuildErrorView, ParseErrorView};
use crate::generator::{
    root_name, spec_top_level, spec_translate, spec_translate_each, tree_index, ContentView,
};
use crate::manifest::{group_at, ident_at, spec_manifest, ElementView};
use crate::options::ConverterOptionView;
use crate::pipeline::{
    compile_routes, lemma_routes_count, spec_build, spec_distinct, spec_jobs, spec_tree_each,
};
use crate::results::{
    spec_collect, spec_record, spec_record_all, spec_start, CollectorView, CompletionView,
};
use crate::token::{
    lemma_decoded_tokens_stay, spec_all_decoded, spec_decodes_all, Delim, TokenView,
};
use crate::tree::{
    spec_construct, spec_construct_each, spec_file_entries, spec_file_entries_of, spec_gather,
    EntryPathView, FsTreeView, RawView, TreeView,
};
use vstd::prelude::*;
use vstd::seq_lib::{to_multiset_contains, to_multiset_len};

verus! {

/// Whether every result from `pos` on is a value.
pub open spec fn all_ok_from<T, E>(rs: Seq<Result<T, E>>, pos: int) -> bool {
    forall|k: int| pos <= k < rs.len() ==> (#[trigger] rs[k]) is Ok
}

/// What gathering yields: the values one for one where all results are
/// values, and else the first error.
pub proof fn lemma_gather<T, E>(rs: Seq<Result<T, E>>, pos: int)
    requires
        0 <= pos <= rs.len(),
    ensures
        match spec_gather(rs, pos) {
            Ok(values) => all_ok_from(rs, pos) && values.len() == rs.len() - pos && forall|k: int|
                0 <= k < values.len() ==> rs[pos + k] == Ok::<T, E>(#[trigger] values[k]),
            Err(e) => exists|k: int|
                pos <= k < rs.len() && #[trigger] rs[k] == Err::<T, E>(e) && forall|j: int|
                    pos <= j < k ==> (#[trigger] rs[j]) is Ok,
        },
    decreases rs.len() - pos,
{
    if pos < rs.len() {
        lemma_gather(rs, pos + 1);
        match rs[pos] {
            Err(e) => {
                assert(rs[pos] == Err::<T, E>(e));
            },
            Ok(x) => {
                match spec_gather(rs, pos + 1) {
                    Ok(rest) => {
                        let values = seq![x] + rest;
                        assert forall|k: int| 0 <= k < values.len() implies rs[pos + k] == Ok::<
                            T,
                            E,
                        >(#[trigger] values[k]) by {
                            if k > 0 {
                                assert(values[k] == rest[k - 1]);
                            }
                        }
                    },
                    Err(e) => {
                        let k = choose|k: int|
                            pos + 1 <= k < rs.len() && #[trigger] rs[k] == Err::<T, E>(e)
                                && forall|j: int| pos + 1 <= j < k ==> (#[trigger] rs[j]) is Ok;
                        assert(rs[k] == Err::<T, E>(e));
                        assert forall|j: int| pos <= j < k implies (#[trigger] rs[j]) is Ok by {
                            if j > pos {
                            }
                        }
                    },
                }
            },
        }
    }
}

/// The route of a node of the content tree; a marker has none.
pub open spec fn node_route(node: ContentView) -> Option<Seq<char>> {
    match node {
        ContentView::Special { .. } => None,
        ContentView::Document { route, .. } => route,
        ContentView::Directory { route, .. } => route,
    }
}

/// Whether no node below `node`, at any depth, has a route.
pub open spec fn no_route_below(node: ContentView) -> bool
    decreases node,
{
    match node {
        ContentView::Directory { children, .. } => forall|i: int|
            0 <= i < children.len() ==> node_route(#[trigger] children[i]) is None
                && no_route_below(children[i]),
        _ => true,
    }
}

/// Route scoping within a subtree: the node that a tree becomes carries the
/// route handed in, and no node below it carries any.
pub proof fn law_route_at_top_only(
    tree: TreeView,
    outputs: Map<Seq<char>, Seq<char>>,
    route: Option<Seq<char>>,
)
    ensures
        spec_translate(tree, outputs, route) matches Ok(node) ==> node_route(node) == route
            && no_route_below(node),
    decreases tree,
{
    match tree {
        TreeView::File(_) => {},
        TreeView::Nested(p, children) => {
            let rs = spec_translate_each(children, outputs);
            lemma_gather(rs, 0);
            if let Ok(nodes) = spec_gather(rs, 0) {
                assert forall|i: int| 0 <= i < nodes.len() implies node_route(#[trigger] nodes[i])
                    is None && no_route_below(nodes[i]) by {
                    law_route_at_top_only(children[i], outputs, None);
                    assert(rs[0 + i] == Ok::<ContentView, BuildErrorView>(nodes[i]));
                }
            }
        },
    }
}

/// The route that the manifest gives the element at `i`, where it is a subtree
/// element, is the one that stands at the place of its tree among the routes.
pub proof fn lemma_route_of_element(content: Seq<ElementView>, i: int)
    requires
        0 <= i < content.len(),
        content[i] is CompileFromPath,
    ensures
        tree_index(content, i) < compile_routes(content).len(),
        compile_routes(content)[tree_index(content, i) as int] == content[i]->route,
    decreases content.len(),
{
    let front = content.drop_last();
    if i == content.len() - 1 {
        lemma_routes_count(content, i);
        assert(content.take(i) =~= front);
    } else {
        lemma_route_of_element(front, i);
        lemma_tree_index_prefix(content, i);
    }
}

/// The count of subtree elements before `i` does not look past `i`.
pub proof fn lemma_tree_index_prefix(content: Seq<ElementView>, i: int)
    requires
        0 <= i < content.len(),
    ensures
        tree_index(content.drop_last(), i) == tree_index(content, i),
    decreases i,
{
    if i > 0 {
        lemma_tree_index_prefix(content, i - 1);
    }
}

/// Route scoping in a build: the root has no route; a marker element becomes
/// that marker; and of each subtree element the top node carries the route
/// that the manifest configures for it, while no node below carries any.
pub proof fn law_route_scoping(
    content: Seq<ElementView>,
    roots: Seq<RawView>,
    reports: Seq<CompletionView>,
)
    ensures
        spec_build(content, roots, reports) matches Ok(root) ==> {
            &&& root matches ContentView::Directory { name, children, route }
            &&& name == root_name()
            &&& route is None
            &&& children.len() == content.len()
            &&& forall|i: int|
                0 <= i < content.len() ==> match content[i] {
                    ElementView::Special { kind } => #[trigger] children[i]
                        == (ContentView::Special { kind }),
                    ElementView::CompileFromPath { route, .. } => node_route(children[i]) == route
                        && no_route_below(children[i]),
                }
        },
{
    if let Ok(root) = spec_build(content, roots, reports) {
        let routes = compile_routes(content);
        let each = spec_tree_each(routes, roots);
        lemma_gather(each, 0);
        let trees = spec_gather(each, 0)->Ok_0;
        let outputs = spec_collect(spec_jobs(trees).len(), reports)->Ok_0;
        let rs = spec_top_level(content, trees, outputs);
        lemma_gather(rs, 0);
        let children = spec_gather(rs, 0)->Ok_0;
        assert forall|i: int| 0 <= i < content.len() implies match content[i] {
            ElementView::Special { kind } => #[trigger] children[i] == (ContentView::Special {
                kind,
            }),
            ElementView::CompileFromPath { route, .. } => node_route(children[i]) == route
                && no_route_below(children[i]),
        } by {
            assert(rs[0 + i] == Ok::<ContentView, BuildErrorView>(children[i]));
            if content[i] is CompileFromPath {
                lemma_route_of_element(content, i);
                let k = tree_index(content, i) as int;
                assert(each[0 + k] == Ok::<FsTreeView, BuildErrorView>(trees[k]));
                law_route_at_top_only(trees[k].tree, outputs, trees[k].route);
            }
        }
    }
}

/// The documents of a content node, by name and text, in the order of a walk
/// that visits children first to last.
pub open spec fn spec_documents(node: ContentView) -> Seq<(Seq<char>, Seq<char>)>
    decreases node,
{
    match node {
        ContentView::Special { .. } => Seq::empty(),
        ContentView::Document { name, content, .. } => seq![(name, content)],
        ContentView::Directory { children, .. } => spec_documents_of(children),
    }
}

/// The documents of a run of content nodes, node after node.
pub open spec fn spec_documents_of(nodes: Seq<ContentView>) -> Seq<(Seq<char>, Seq<char>)>
    decreases nodes,
{
    if nodes.len() == 0 {
        Seq::empty()
    } else {
        spec_documents_of(nodes.drop_last()) + spec_documents(nodes.last())
    }
}

/// The document that a file becomes: its name, and the text collected under
/// its whole path.
pub open spec fn document_of(outputs: Map<Seq<char>, Seq<char>>, e: EntryPathView) -> (
    Seq<char>,
    Seq<char>,
) {
    (e.name, outputs[e.full])
}

/// The documents that a run of files becomes, one for one.
pub open spec fn documents_for(outputs: Map<Seq<char>, Seq<char>>, files: Seq<EntryPathView>)
    -> Seq<(Seq<char>, Seq<char>)> {
    files.map_values(|e: EntryPathView| document_of(outputs, e))
}

/// Whether the table has a text for each of the files.
pub open spec fn covers(outputs: Map<Seq<char>, Seq<char>>, files: Seq<EntryPathView>) -> bool {
    forall|i: int| 0 <= i < files.len() ==> outputs.contains_key((#[trigger] files[i]).full)
}

/// Completeness of a subtree: it is assembled exactly when the table covers
/// its files, and then its documents are its files, one for one and in
/// walking order, each with the text collected for it. Where the table lacks
/// a file, the error is the consistency error for the first such file.
pub proof fn law_documents_are_the_files(
    tree: TreeView,
    outputs: Map<Seq<char>, Seq<char>>,
    route: Option<Seq<char>>,
)
    ensures
        match spec_translate(tree, outputs, route) {
            Ok(node) => covers(outputs, spec_file_entries(tree)) && spec_documents(node)
                == documents_for(outputs, spec_file_entries(tree)),
            Err(e) => !covers(outputs, spec_file_entries(tree)) && e.kind
                == BuildErrorKind::InternalConsistency && exists|i: int|
                0 <= i < spec_file_entries(tree).len() && e.path == (#[trigger] spec_file_entries(
                    tree,
                )[i]).full && !outputs.contains_key(e.path) && covers(
                    outputs,
                    spec_file_entries(tree).take(i),
                ),
        },
    decreases tree, 0int,
{
    match tree {
        TreeView::File(p) => {
            let files = spec_file_entries(tree);
            assert(files[0] == p);
            if outputs.contains_key(p.full) {
                assert(documents_for(outputs, files) =~= seq![(p.name, outputs[p.full])]);
            } else {
                assert(files.take(0) =~= Seq::<EntryPathView>::empty());
            }
        },
        TreeView::Nested(p, children) => {
            lemma_documents_upto(children, outputs, children.len() as int);
            assert(children.take(children.len() as int) =~= children);
            let rs = spec_translate_each(children, outputs);
            lemma_gather(rs, 0);
            lemma_gather_prefix(rs, children.len() as int);
        },
    }
}

/// Gathering all of `rs` is gathering its first `n` results where `n` is its
/// length.
pub proof fn lemma_gather_prefix<T, E>(rs: Seq<Result<T, E>>, n: int)
    requires
        n == rs.len(),
    ensures
        spec_gather(rs.take(n), 0) == spec_gather(rs, 0),
{
    assert(rs.take(n) =~= rs);
}

/// Gathering one result more: the values so far and the new value, or the
/// first error.
pub proof fn lemma_gather_push<T, E>(rs: Seq<Result<T, E>>, pos: int)
    requires
        0 <= pos <= rs.len(),
        rs.len() > 0,
    ensures
        spec_gather(rs, pos) == match spec_gather(rs.drop_last(), pos) {
            Err(e) => Err(e),
            Ok(values) => if pos == rs.len() {
                Ok(values)
            } else {
                match rs.last() {
                    Ok(x) => Ok(values.push(x)),
                    Err(e) => Err(e),
                }
            },
        },
    decreases rs.len() - pos,
{
    let front = rs.drop_last();
    if pos == rs.len() {
    } else if pos == rs.len() - 1 {
        assert(spec_gather(rs, pos + 1) == Ok::<Seq<T>, E>(Seq::empty()));
        assert(spec_gather(front, pos) == Ok::<Seq<T>, E>(Seq::empty()));
        if let Ok(x) = rs.last() {
            assert(seq![x] + Seq::<T>::empty() =~= Seq::<T>::empty().push(x));
        }
    } else {
        lemma_gather_push(rs, pos + 1);
        assert(front[pos] == rs[pos]);
        if let Ok(x) = rs[pos] {
            if let Ok(values) = spec_gather(front, pos + 1) {
                if let Ok(y) = rs.last() {
                    assert(seq![x] + values.push(y) =~= (seq![x] + values).push(y));
                }
            }
        }
    }
}

/// Completeness for the first `n` children of a directory.
pub proof fn lemma_documents_upto(
    children: Seq<TreeView>,
    outputs: Map<Seq<char>, Seq<char>>,
    n: int,
)
    requires
        0 <= n <= children.len(),
    ensures
        match spec_gather(spec_translate_each(children, outputs).take(n), 0) {
            Ok(nodes) => covers(outputs, spec_file_entries_of(children.take(n)))
                && spec_documents_of(nodes) == documents_for(
                outputs,
                spec_file_entries_of(children.take(n)),
            ),
            Err(e) => !covers(outputs, spec_file_entries_of(children.take(n))) && e.kind
                == BuildErrorKind::InternalConsistency && exists|i: int|
                0 <= i < spec_file_entries_of(children.take(n)).len() && e.path
                    == (#[trigger] spec_file_entries_of(children.take(n))[i]).full
                    && !outputs.contains_key(e.path) && covers(
                    outputs,
                    spec_file_entries_of(children.take(n)).take(i),
                ),
        },
    decreases children, 1int, n,
{
    let rs = spec_translate_each(children, outputs);
    let files = spec_file_entries_of(children.take(n));
    if n == 0 {
        assert(rs.take(0) =~= Seq::<Result<ContentView, BuildErrorView>>::empty());
        assert(children.take(0) =~= Seq::<TreeView>::empty());
        assert(documents_for(outputs, files) =~= Seq::<(Seq<char>, Seq<char>)>::empty());
    } else {
        lemma_documents_upto(children, outputs, n - 1);
        law_documents_are_the_files(children[n - 1], outputs, None);
        let head = rs.take(n);
        assert(head.drop_last() =~= rs.take(n - 1));
        assert(head.last() == rs[n - 1]);
        lemma_gather_push(head, 0);
        assert(children.take(n).drop_last() =~= children.take(n - 1));
        assert(children.take(n).last() == children[n - 1]);
        let before = spec_file_entries_of(children.take(n - 1));
        let here = spec_file_entries(children[n - 1]);
        assert(files == before + here);
        match spec_gather(rs.take(n - 1), 0) {
            Err(e) => {
                let i = choose|i: int|
                    0 <= i < before.len() && e.path == (#[trigger] before[i]).full
                        && !outputs.contains_key(e.path) && covers(outputs, before.take(i));
                assert(files[i] == before[i]);
                assert(files.take(i) =~= before.take(i));
            },
            Ok(nodes) => {
                match rs[n - 1] {
                    Ok(node) => {
                        let grown = nodes.push(node);
                        assert(grown.drop_last() =~= nodes);
                        assert(grown.last() == node);
                        assert(documents_for(outputs, before + here) =~= documents_for(
                            outputs,
                            before,
                        ) + documents_for(outputs, here));
                        assert forall|i: int| 0 <= i < files.len() implies outputs.contains_key(
                            (#[trigger] files[i]).full,
                        ) by {
                            if i < before.len() {
                                assert(files[i] == before[i]);
                            } else {
                                assert(files[i] == here[i - before.len()]);
                            }
                        }
                    },
                    Err(e) => {
                        let i = choose|i: int|
                            0 <= i < here.len() && e.path == (#[trigger] here[i]).full
                                && !outputs.contains_key(e.path) && covers(outputs, here.take(i));
                        let at = before.len() + i;
                        assert(files[at] == here[i]);
                        assert forall|j: int| 0 <= j < files.take(at).len() implies outputs.contains_key(
                            (#[trigger] files.take(at)[j]).full,
                        ) by {
                            if j < before.len() {
                                assert(files.take(at)[j] == before[j]);
                            } else {
                                assert(files.take(at)[j] == here.take(i)[j - before.len()]);
                            }
                        }
                    },
                }
            },
        }
    }
}

/// Whether some path under `raw`, at any depth, could not be read.
pub open spec fn has_unreadable(raw: RawView) -> bool
    decreases raw,
{
    match raw {
        RawView::File(_) => false,
        RawView::Failed(_, _) => true,
        RawView::Dir(_, entries) => exists|i: int|
            0 <= i < entries.len() && has_unreadable(#[trigger] entries[i]),
    }
}

/// Failure propagation in the walk: a tree is built exactly when every path
/// under its root could be read, and else the error is a file system error.
pub proof fn law_unreadable_path_fails_the_tree(raw: RawView)
    ensures
        spec_construct(raw) is Err <==> has_unreadable(raw),
        spec_construct(raw) matches Err(e) ==> e.kind == BuildErrorKind::Filesystem,
    decreases raw,
{
    match raw {
        RawView::Dir(_, entries) => {
            let rs = spec_construct_each(entries);
            lemma_gather(rs, 0);
            assert forall|i: int| 0 <= i < entries.len() implies (spec_construct(
                #[trigger] entries[i],
            ) is Err <==> has_unreadable(entries[i])) && (spec_construct(entries[i]) matches Err(
                e,
            ) ==> e.kind == BuildErrorKind::Filesystem) by {
                law_unreadable_path_fails_the_tree(entries[i]);
            }
            if has_unreadable(raw) {
                let i = choose|i: int|
                    0 <= i < entries.len() && has_unreadable(#[trigger] entries[i]);
                assert(rs[i] is Err);
            } else {
                assert forall|k: int| 0 <= k < rs.len() implies (#[trigger] rs[k]) is Ok by {
                    assert(!has_unreadable(entries[k]));
                }
            }
            if let Err(e) = spec_gather(rs, 0) {
                let k = choose|k: int|
                    0 <= k < rs.len() && #[trigger] rs[k] == Err::<TreeView, BuildErrorView>(e);
                assert(spec_construct(entries[k]) is Err);
                assert(has_unreadable(entries[k]));
            }
        },
        _ => {},
    }
}

/// Once the barrier has kept a problem, it keeps that problem.
pub proof fn lemma_failure_is_kept(st: CollectorView, cs: Seq<CompletionView>)
    requires
        st.failure is Some,
    ensures
        spec_record_all(st, cs).failure == st.failure,
    decreases cs.len(),
{
    if cs.len() > 0 {
        lemma_failure_is_kept(st, cs.drop_last());
    }
}

/// Taking the reports `a` and then the reports `b` is taking `a + b`.
pub proof fn lemma_record_all_concat(
    st: CollectorView,
    a: Seq<CompletionView>,
    b: Seq<CompletionView>,
)
    ensures
        spec_record_all(st, a + b) == spec_record_all(spec_record_all(st, a), b),
    decreases b.len(),
{
    if b.len() == 0 {
        assert(a + b =~= a);
    } else {
        lemma_record_all_concat(st, a, b.drop_last());
        assert((a + b).drop_last() =~= a + b.drop_last());
        assert((a + b).last() == b.last());
    }
}

/// Failure propagation in the barrier: if any report tells of a failed
/// conversion, the barrier hands out no table, whatever the order of arrival
/// and however many jobs were submitted.
pub proof fn law_failed_report_fails_the_collection(
    expected: nat,
    reports: Seq<CompletionView>,
    i: int,
)
    requires
        0 <= i < reports.len(),
        reports[i].outcome is Err,
    ensures
        spec_collect(expected, reports) is Err,
{
    let before = reports.take(i);
    let after = reports.skip(i + 1);
    let upto = reports.take(i + 1);
    assert(upto.drop_last() =~= before);
    assert(upto.last() == reports[i]);
    assert(upto + after =~= reports);
    let start = spec_start(expected);
    lemma_record_all_concat(start, upto, after);
    let st = spec_record_all(start, before);
    let hit = spec_record(st, reports[i]);
    assert(hit.failure is Some);
    lemma_failure_is_kept(hit, after);
}

/// Failure propagation in a build: if any report tells of a failed
/// conversion, or any path under a root could not be read, the build yields
/// no content tree.
pub proof fn law_failure_propagates(
    content: Seq<ElementView>,
    roots: Seq<RawView>,
    reports: Seq<CompletionView>,
)
    requires
        (exists|i: int| 0 <= i < reports.len() && (#[trigger] reports[i]).outcome is Err) || (
        exists|k: int| 0 <= k < roots.len() && has_unreadable(#[trigger] roots[k])),
    ensures
        spec_build(content, roots, reports) is Err,
{
    let routes = compile_routes(content);
    if routes.len() == roots.len() {
        let each = spec_tree_each(routes, roots);
        lemma_gather(each, 0);
        if exists|k: int| 0 <= k < roots.len() && has_unreadable(#[trigger] roots[k]) {
            let k = choose|k: int| 0 <= k < roots.len() && has_unreadable(#[trigger] roots[k]);
            law_unreadable_path_fails_the_tree(roots[k]);
            assert(each[k] is Err);
        } else {
            let i = choose|i: int| 0 <= i < reports.len() && (#[trigger] reports[i]).outcome is Err;
            if let Ok(trees) = spec_gather(each, 0) {
                law_failed_report_fails_the_collection(spec_jobs(trees).len(), reports, i);
            }
        }
    }
}

/// Whether every report tells of a conversion that succeeded.
pub open spec fn all_succeeded(cs: Seq<CompletionView>) -> bool {
    forall|i: int| 0 <= i < cs.len() ==> (#[trigger] cs[i]).outcome is Ok
}

/// Whether no two reports are about one document.
pub open spec fn distinct_paths(cs: Seq<CompletionView>) -> bool {
    forall|i: int, j: int|
        0 <= i < j < cs.len() ==> (#[trigger] cs[i]).path != (#[trigger] cs[j]).path
}

/// Whether some report is about the document at `path`.
pub open spec fn reported(cs: Seq<CompletionView>, path: Seq<char>) -> bool {
    exists|i: int| 0 <= i < cs.len() && (#[trigger] cs[i]).path == path
}

/// The state of a barrier for `expected` jobs after the reports `cs`: it has
/// kept no problem exactly when the reports are no more than the jobs, all
/// tell of success and no two are about one document; its table then holds
/// the text of each report under the report's path, and nothing else.
pub proof fn lemma_barrier_state(expected: nat, cs: Seq<CompletionView>)
    ensures
        ({
            let st = spec_record_all(spec_start(expected), cs);
            &&& st.remaining == if cs.len() <= expected {
                expected - cs.len()
            } else {
                0
            }
            &&& st.failure is None <==> cs.len() <= expected && all_succeeded(cs)
                && distinct_paths(cs)
            &&& st.failure is None ==> forall|p: Seq<char>| #[trigger]
                st.outputs.contains_key(p) <==> reported(cs, p)
            &&& st.failure is None ==> forall|i: int|
                0 <= i < cs.len() ==> st.outputs[(#[trigger] cs[i]).path] == cs[i].outcome->Ok_0
        }),
    decreases cs.len(),
{
    if cs.len() > 0 {
        let front = cs.drop_last();
        let c = cs.last();
        lemma_barrier_state(expected, front);
        let before = spec_record_all(spec_start(expected), front);
        let st = spec_record(before, c);
        assert(forall|i: int| 0 <= i < front.len() ==> front[i] == cs[i]);
        if before.failure is None {
            assert(before.outputs.contains_key(c.path) <==> reported(front, c.path));
            if st.failure is None {
                assert forall|i: int, j: int| 0 <= i < j < cs.len() implies (#[trigger] cs[i]).path
                    != (#[trigger] cs[j]).path by {
                    if j == cs.len() - 1 {
                        assert(front[i].path == cs[i].path);
                    } else {
                        assert(front[i].path != front[j].path);
                    }
                }
                assert forall|p: Seq<char>| #[trigger]
                    st.outputs.contains_key(p) <==> reported(cs, p) by {
                    if reported(cs, p) {
                        let i = choose|i: int| 0 <= i < cs.len() && (#[trigger] cs[i]).path == p;
                        if i < front.len() {
                            assert(front[i].path == p);
                        }
                    }
                    if before.outputs.contains_key(p) {
                        let i = choose|i: int|
                            0 <= i < front.len() && (#[trigger] front[i]).path == p;
                        assert(cs[i].path == p);
                    }
                    if p == c.path {
                        assert(cs[cs.len() - 1].path == p);
                    }
                }
                assert forall|i: int| 0 <= i < cs.len() implies st.outputs[(#[trigger] cs[i]).path]
                    == cs[i].outcome->Ok_0 by {
                    if i < front.len() {
                        assert(front[i].path != c.path);
                    }
                }
            } else {
                if cs.len() <= expected && all_succeeded(cs) && distinct_paths(cs) {
                    assert(cs[cs.len() - 1].outcome is Ok);
                    let i = choose|i: int|
                        0 <= i < front.len() && (#[trigger] front[i]).path == c.path;
                    assert(cs[i].path == cs[cs.len() - 1].path);
                }
            }
        } else {
            if cs.len() <= expected && all_succeeded(cs) && distinct_paths(cs) {
                assert forall|i: int| 0 <= i < front.len() implies (#[trigger] front[i]).outcome
                    is Ok by {
                    assert(cs[i].outcome is Ok);
                }
                assert forall|i: int, j: int| 0 <= i < j < front.len() implies (
                #[trigger] front[i]).path != (#[trigger] front[j]).path by {
                    assert(cs[i].path != cs[j].path);
                }
            }
        }
    }
}

/// Each report of `b` is a report of `a`, where the two hold the same reports.
pub proof fn lemma_same_reports(a: Seq<CompletionView>, b: Seq<CompletionView>, j: int)
    requires
        a.to_multiset() == b.to_multiset(),
        0 <= j < b.len(),
    ensures
        exists|i: int| 0 <= i < a.len() && a[i] == b[j],
{
    to_multiset_contains(a, b[j]);
    to_multiset_contains(b, b[j]);
    assert(b.contains(b[j]));
    let i = choose|i: int| 0 <= i < a.len() && a[i] == b[j];
    assert(a[i] == b[j]);
}

/// Concurrency invariance in the barrier: where the barrier hands out a table
/// for the reports in one order of arrival, it hands out the same table for
/// them in any other order.
pub proof fn law_arrival_order_is_immaterial(
    expected: nat,
    a: Seq<CompletionView>,
    b: Seq<CompletionView>,
)
    requires
        a.to_multiset() == b.to_multiset(),
        spec_collect(expected, a) is Ok,
    ensures
        spec_collect(expected, b) == spec_collect(expected, a),
{
    lemma_barrier_state(expected, a);
    lemma_barrier_state(expected, b);
    to_multiset_len(a);
    to_multiset_len(b);
    assert forall|j: int| 0 <= j < b.len() implies (#[trigger] b[j]).outcome is Ok by {
        lemma_same_reports(a, b, j);
    }
    assert(a.no_duplicates()) by {
        assert forall|i: int, j: int| 0 <= i < a.len() && 0 <= j < a.len() && i != j implies a[i]
            != a[j] by {
            if i < j {
                assert(a[i].path != a[j].path);
            } else {
                assert(a[j].path != a[i].path);
            }
        }
    }
    a.lemma_multiset_has_no_duplicates();
    b.lemma_multiset_has_no_duplicates_conv();
    assert forall|i: int, j: int| 0 <= i < j < b.len() implies (#[trigger] b[i]).path != (
    #[trigger] b[j]).path by {
        lemma_same_reports(a, b, i);
        lemma_same_reports(a, b, j);
        let x = choose|x: int| 0 <= x < a.len() && a[x] == b[i];
        let y = choose|y: int| 0 <= y < a.len() && a[y] == b[j];
        assert(b[i] != b[j]);
        if x < y {
            assert(a[x].path != a[y].path);
        } else {
            assert(a[y].path != a[x].path);
        }
    }
    let ma = spec_collect(expected, a)->Ok_0;
    let mb = spec_collect(expected, b)->Ok_0;
    assert forall|p: Seq<char>| ma.contains_key(p) <==> mb.contains_key(p) by {
        if reported(a, p) {
            let i = choose|i: int| 0 <= i < a.len() && (#[trigger] a[i]).path == p;
            lemma_same_reports(b, a, i);
            let j = choose|j: int| 0 <= j < b.len() && b[j] == a[i];
            assert(b[j].path == p);
        }
        if reported(b, p) {
            let j = choose|j: int| 0 <= j < b.len() && (#[trigger] b[j]).path == p;
            lemma_same_reports(a, b, j);
            let i = choose|i: int| 0 <= i < a.len() && a[i] == b[j];
            assert(a[i].path == p);
        }
    }
    assert forall|p: Seq<char>| ma.contains_key(p) implies ma[p] == mb[p] by {
        let i = choose|i: int| 0 <= i < a.len() && (#[trigger] a[i]).path == p;
        lemma_same_reports(b, a, i);
        let j = choose|j: int| 0 <= j < b.len() && b[j] == a[i];
        assert(ma[a[i].path] == a[i].outcome->Ok_0);
        assert(mb[b[j].path] == b[j].outcome->Ok_0);
    }
    assert(ma =~= mb);
}

/// Concurrency invariance in a build: the content tree is a function of the
/// manifest's elements, of what the walk found, and of the reports as a
/// collection. However many conversions ran at once and in whatever order
/// they ended, a build that yields a tree yields the same tree.
pub proof fn law_concurrency_invariance(
    content: Seq<ElementView>,
    roots: Seq<RawView>,
    a: Seq<CompletionView>,
    b: Seq<CompletionView>,
)
    requires
        a.to_multiset() == b.to_multiset(),
        spec_build(content, roots, a) is Ok,
    ensures
        spec_build(content, roots, b) == spec_build(content, roots, a),
{
    let trees = spec_gather(spec_tree_each(compile_routes(content), roots), 0)->Ok_0;
    law_arrival_order_is_immaterial(spec_jobs(trees).len(), a, b);
}

/// Completeness of a build: under each subtree element, the documents of the
/// content tree are the files that the walk discovered under the element's
/// root, one for one and in walking order, each under its name; and the text
/// of each is the text that the report about its file gave.
pub proof fn law_build_is_complete(
    content: Seq<ElementView>,
    roots: Seq<RawView>,
    reports: Seq<CompletionView>,
    i: int,
)
    requires
        spec_build(content, roots, reports) is Ok,
        0 <= i < content.len(),
        content[i] is CompileFromPath,
    ensures
        ({
            let trees = spec_gather(spec_tree_each(compile_routes(content), roots), 0)->Ok_0;
            let outputs = spec_collect(spec_jobs(trees).len(), reports)->Ok_0;
            let k = tree_index(content, i) as int;
            let files = spec_file_entries(trees[k].tree);
            let node = spec_build(content, roots, reports)->Ok_0->Directory_children[i];
            &&& 0 <= k < roots.len()
            &&& spec_construct(roots[k]) == Ok::<TreeView, BuildErrorView>(trees[k].tree)
            &&& spec_documents(node) == documents_for(outputs, files)
            &&& forall|f: int|
                #![trigger files[f]]
                0 <= f < files.len() ==> exists|r: int|
                    0 <= r < reports.len() && (#[trigger] reports[r]).path == files[f].full
                        && reports[r].outcome == Ok::<Seq<char>, Seq<char>>(
                        outputs[files[f].full],
                    )
        }),
{
    let routes = compile_routes(content);
    let each = spec_tree_each(routes, roots);
    lemma_gather(each, 0);
    let trees = spec_gather(each, 0)->Ok_0;
    let expected = spec_jobs(trees).len();
    let outputs = spec_collect(expected, reports)->Ok_0;
    let rs = spec_top_level(content, trees, outputs);
    lemma_gather(rs, 0);
    let children = spec_gather(rs, 0)->Ok_0;
    lemma_route_of_element(content, i);
    let k = tree_index(content, i) as int;
    assert(each[0 + k] == Ok::<FsTreeView, BuildErrorView>(trees[k]));
    assert(rs[0 + i] == Ok::<ContentView, BuildErrorView>(children[i]));
    law_documents_are_the_files(trees[k].tree, outputs, trees[k].route);
    lemma_barrier_state(expected, reports);
    let files = spec_file_entries(trees[k].tree);
    assert forall|f: int| #![trigger files[f]] 0 <= f < files.len() implies exists|r: int|
        0 <= r < reports.len() && (#[trigger] reports[r]).path == files[f].full
            && reports[r].outcome == Ok::<Seq<char>, Seq<char>>(outputs[files[f].full]) by {
        assert(outputs.contains_key(files[f].full));
        assert(reported(reports, files[f].full));
        let r = choose|r: int| 0 <= r < reports.len() && (#[trigger] reports[r]).path == files[f].full;
        assert(reports[r].outcome is Ok);
        assert(outputs[reports[r].path] == reports[r].outcome->Ok_0);
    }
}

/// Every document is converted once: the jobs hold no path twice, and a path
/// is among the jobs exactly when it is among the discovered files.
pub proof fn law_each_file_is_planned_once(paths: Seq<Seq<char>>)
    ensures
        spec_distinct(paths).no_duplicates(),
        forall|p: Seq<char>| #[trigger] spec_distinct(paths).contains(p) <==> paths.contains(p),
    decreases paths.len(),
{
    let jobs = spec_distinct(paths);
    if paths.len() > 0 {
        let front = paths.drop_last();
        let last = paths.last();
        let before = spec_distinct(front);
        law_each_file_is_planned_once(front);
        assert forall|p: Seq<char>| #[trigger] jobs.contains(p) <==> paths.contains(p) by {
            if paths.contains(p) {
                let i = choose|i: int| 0 <= i < paths.len() && paths[i] == p;
                if i < front.len() {
                    assert(front[i] == p);
                    assert(before.contains(p));
                    let k = choose|k: int| 0 <= k < before.len() && before[k] == p;
                    assert(jobs[k] == p);
                } else if before.contains(last) {
                } else {
                    assert(jobs[before.len() as int] == p);
                }
            }
            if jobs.contains(p) {
                let k = choose|k: int| 0 <= k < jobs.len() && jobs[k] == p;
                if k < before.len() {
                    assert(before[k] == p);
                    assert(before.contains(p));
                    let i = choose|i: int| 0 <= i < front.len() && front[i] == p;
                    assert(paths[i] == p);
                } else {
                    assert(paths[paths.len() - 1] == p);
                }
            }
        }
        if !before.contains(last) {
            assert forall|i: int, j: int|
                0 <= i < jobs.len() && 0 <= j < jobs.len() && i != j implies jobs[i] != jobs[j] by {
                if i < before.len() && j < before.len() {
                    assert(before[i] != before[j]);
                } else if i < before.len() {
                    assert(before[i] == jobs[i]);
                } else {
                    assert(before[j] == jobs[j]);
                }
            }
        }
    }
}

/// The tokens of the option list of a manifest; none where it has no list.
pub open spec fn spec_option_tokens(ts: Seq<TokenView>) -> Seq<TokenView> {
    if ident_at(ts, 12, "options"@) {
        match group_at(ts, 14, Delim::Bracket) {
            Some(inner) => inner,
            None => Seq::empty(),
        }
    } else {
        Seq::empty()
    }
}

/// The options of a manifest are what its option list decodes to, whatever
/// else the manifest holds: its names, its content and its concurrency degree
/// have no part in them.
pub proof fn law_options_depend_on_their_list_alone(ts: Seq<TokenView>)
    ensures
        spec_manifest(ts) matches Ok(o) ==> spec_parse_options(spec_option_tokens(ts)) == Ok::<
            Seq<ConverterOptionView>,
            ParseErrorView,
        >(o.pandoc_options),
{
    if spec_manifest(ts) is Ok {
        if !ident_at(ts, 12, "options"@) {
            reveal_with_fuel(spec_option_list, 2);
            reveal_with_fuel(spec_decode_all, 2);
        }
    }
}

/// Two manifests that hold the same option list, token for token, have equal
/// options.
pub proof fn law_equal_lists_decode_equally(a: Seq<TokenView>, b: Seq<TokenView>)
    requires
        spec_option_tokens(a) == spec_option_tokens(b),
        spec_manifest(a) is Ok,
        spec_manifest(b) is Ok,
    ensures
        spec_manifest(a)->Ok_0.pandoc_options == spec_manifest(b)->Ok_0.pandoc_options,
{
    law_options_depend_on_their_list_alone(a);
    law_options_depend_on_their_list_alone(b);
}

/// Decoding the same option list twice gives equal results, where the list
/// holds no literal that is yet to be decoded: whatever two calls of the
/// decoder return on it, options or an error, the two returns have the same
/// value, which is that of the list as it stands.
pub proof fn law_decoding_twice_gives_equal_options(
    tokens: Seq<TokenView>,
    first: Result<Seq<ConverterOptionView>, ParseErrorView>,
    second: Result<Seq<ConverterOptionView>, ParseErrorView>,
)
    requires
        spec_all_decoded(tokens),
        spec_parses_to(tokens, first),
        spec_parses_to(tokens, second),
    ensures
        first == second,
        first == spec_parse_options(tokens),
{
    let a = choose|d: Seq<TokenView>|
        #[trigger] spec_decodes_all(tokens, d) && spec_parse_options(d) == first;
    let b = choose|d: Seq<TokenView>|
        #[trigger] spec_decodes_all(tokens, d) && spec_parse_options(d) == second;
    lemma_decoded_tokens_stay(tokens, a);
    lemma_decoded_tokens_stay(tokens, b);
}

} // verus!
