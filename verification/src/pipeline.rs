//! The build from a parsed manifest to the content tree.
//!
//! The caller walks the file system and runs the converter; the decisions are
//! made here: which documents to convert, whether the reports cover them, and
//! what the content tree is.

use crate::error::{BuildError, BuildErrorKind, BuildErrorView};
use crate::generator::{
    compile_count, generate_content_tree, spec_generate, tree_index, ContentTree, ContentView,
};
use crate::manifest::{element_views, Element, ElementView, Options};
use crate::results::{
    collect, completion_views, misplaced, spec_collect, Completion, CompletionView,
};
use crate::text::{optional_text, owned};
use crate::tree::{
    fs_tree_views, full_paths, lemma_raw_views_index, raw_views, spec_construct, spec_file_entries,
    spec_gather, texts, FsTree, FsTreeView, RawEntry, RawView,
};
use vstd::prelude::*;

verus! {

/// The texts of a run of optional routes, one for one.
pub open spec fn route_texts(routes: Seq<Option<String>>) -> Seq<Option<Seq<char>>> {
    routes.map_values(|o: Option<String>| optional_text(o))
}

/// The routes of the subtree elements of a manifest, in order.
pub open spec fn compile_routes(content: Seq<ElementView>) -> Seq<Option<Seq<char>>>
    decreases content.len(),
{
    if content.len() == 0 {
        Seq::empty()
    } else {
        match content.last() {
            ElementView::CompileFromPath { route, .. } => compile_routes(content.drop_last()).push(
                route,
            ),
            ElementView::Special { .. } => compile_routes(content.drop_last()),
        }
    }
}

/// The ordered tree of each root, with the route that stands at its place in
/// `routes`.
pub open spec fn spec_tree_each(routes: Seq<Option<Seq<char>>>, roots: Seq<RawView>) -> Seq<
    Result<FsTreeView, BuildErrorView>,
> {
    Seq::new(
        roots.len(),
        |k: int|
            match spec_construct(roots[k]) {
                Ok(tree) => Ok(FsTreeView { tree, route: routes[k] }),
                Err(e) => Err(e),
            },
    )
}

/// The whole paths of the files of a run of trees, tree after tree.
pub open spec fn all_files(trees: Seq<FsTreeView>) -> Seq<Seq<char>>
    decreases trees.len(),
{
    if trees.len() == 0 {
        Seq::empty()
    } else {
        all_files(trees.drop_last()) + full_paths(spec_file_entries(trees.last().tree))
    }
}

/// The paths of `paths` without repetition, each at the place of its first
/// occurrence.
pub open spec fn spec_distinct(paths: Seq<Seq<char>>) -> Seq<Seq<char>>
    decreases paths.len(),
{
    if paths.len() == 0 {
        Seq::empty()
    } else if spec_distinct(paths.drop_last()).contains(paths.last()) {
        spec_distinct(paths.drop_last())
    } else {
        spec_distinct(paths.drop_last()).push(paths.last())
    }
}

/// The conversion jobs of a build: every discovered file once.
pub open spec fn spec_jobs(trees: Seq<FsTreeView>) -> Seq<Seq<char>> {
    spec_distinct(all_files(trees))
}

/// The error of a build whose roots do not match its subtree elements.
pub open spec fn roots_mismatch() -> BuildErrorView {
    misplaced(Seq::empty(), "the roots do not match the content elements"@)
}

/// The content tree that a build yields from the elements of its manifest,
/// what the walk found under the root of each subtree element, and the
/// reports of the conversion jobs in the order of their arrival.
///
/// The build fails with the first path that could not be read; else with
/// what the collection barrier objects to; else with the first file that has
/// no result.
pub open spec fn spec_build(
    content: Seq<ElementView>,
    roots: Seq<RawView>,
    reports: Seq<CompletionView>,
) -> Result<ContentView, BuildErrorView> {
    if compile_routes(content).len() != roots.len() {
        Err(roots_mismatch())
    } else {
        match spec_gather(spec_tree_each(compile_routes(content), roots), 0) {
            Err(e) => Err(e),
            Ok(trees) => match spec_collect(spec_jobs(trees).len(), reports) {
                Err(e) => Err(e),
                Ok(outputs) => spec_generate(content, trees, outputs),
            },
        }
    }
}

/// There are as many routes of subtree elements among the first `i` elements
/// as the count of subtree elements before `i` says.
pub proof fn lemma_routes_count(content: Seq<ElementView>, i: int)
    requires
        0 <= i <= content.len(),
    ensures
        compile_routes(content.take(i)).len() == tree_index(content, i),
    decreases i,
{
    if i > 0 {
        lemma_routes_count(content, i - 1);
        assert(content.take(i).drop_last() =~= content.take(i - 1));
        assert(content.take(i).last() == content[i - 1]);
    }
}

/// There are as many routes as subtree elements.
pub proof fn lemma_routes_len(content: Seq<ElementView>)
    ensures
        compile_routes(content).len() == compile_count(content),
{
    lemma_routes_count(content, content.len() as int);
    assert(content.take(content.len() as int) =~= content);
}

fn contains_text(list: &Vec<String>, s: &String) -> (r: bool)
    ensures
        r == texts(list@).contains(s@),
{
    let mut i: usize = 0;
    while i < list.len()
        invariant
            i <= list.len(),
            forall|k: int| 0 <= k < i ==> texts(list@)[k] != s@,
        decreases list.len() - i,
    {
        if list[i] == *s {
            assert(texts(list@)[i as int] == s@);
            return true;
        }
        i += 1;
    }
    false
}

fn routes_of(content: &Vec<Element>) -> (r: Vec<Option<String>>)
    ensures
        route_texts(r@) == compile_routes(
            element_views(content@),
        ),
{
    let ghost cv = element_views(content@);
    let mut out: Vec<Option<String>> = Vec::new();
    let mut i: usize = 0;
    assert(cv.take(0) =~= Seq::<ElementView>::empty());
    while i < content.len()
        invariant
            i <= content.len(),
            cv == element_views(content@),
            route_texts(out@) == compile_routes(cv.take(i as int)),
        decreases content.len() - i,
    {
        proof {
            assert(cv.take(i + 1).drop_last() =~= cv.take(i as int));
            assert(cv.take(i + 1).last() == content@[i as int]@);
        }
        match &content[i] {
            Element::CompileFromPath { route, .. } => {
                let copy = match route {
                    Some(r) => Some(r.clone()),
                    None => None,
                };
                let ghost before = route_texts(out@);
                out.push(copy);
                proof {
                    assert(route_texts(out@) =~= before.push(
                        optional_text(*route),
                    ));
                }
            },
            Element::Special { .. } => {},
        }
        i += 1;
    }
    proof {
        assert(cv.take(content.len() as int) =~= cv);
    }
    out
}

/// Lists the documents to convert: the whole path of every file of `trees`,
/// each once, in the order of discovery.
pub fn plan_jobs(trees: &Vec<FsTree>) -> (r: Vec<String>)
    ensures
        texts(r@) == spec_jobs(fs_tree_views(trees@)),
{
    let ghost tv = fs_tree_views(trees@);
    let mut jobs: Vec<String> = Vec::new();
    let mut k: usize = 0;
    assert(tv.take(0) =~= Seq::<FsTreeView>::empty());
    assert(texts(jobs@) =~= Seq::<Seq<char>>::empty());
    while k < trees.len()
        invariant
            k <= trees.len(),
            tv == fs_tree_views(trees@),
            texts(jobs@) == spec_distinct(all_files(tv.take(k as int))),
        decreases trees.len() - k,
    {
        let files = trees[k].get_all_src_files();
        let ghost base = all_files(tv.take(k as int));
        let ghost found = texts(files@);
        proof {
            assert(tv.take(k + 1).drop_last() =~= tv.take(k as int));
            assert(tv.take(k + 1).last() == trees@[k as int]@);
            assert(all_files(tv.take(k + 1)) == base + found);
            assert(base + found.take(0) =~= base);
        }
        let mut j: usize = 0;
        while j < files.len()
            invariant
                j <= files.len(),
                found == texts(files@),
                texts(jobs@) == spec_distinct(base + found.take(j as int)),
            decreases files.len() - j,
        {
            proof {
                let grown = base + found.take(j + 1);
                assert(grown.drop_last() =~= base + found.take(j as int));
                assert(grown.last() == files@[j as int]@);
            }
            if !contains_text(&jobs, &files[j]) {
                let ghost before = texts(jobs@);
                jobs.push(files[j].clone());
                proof {
                    assert(texts(jobs@) =~= before.push(files@[j as int]@));
                }
            }
            j += 1;
        }
        proof {
            assert(found.take(files.len() as int) =~= found);
        }
        k += 1;
    }
    proof {
        assert(tv.take(trees.len() as int) =~= tv);
    }
    jobs
}

/// Builds the ordered tree of each root, the `k`-th with the `k`-th route;
/// stops at the first path that could not be read.
pub fn construct_trees(routes: &Vec<Option<String>>, roots: &Vec<RawEntry>) -> (r: Result<
    Vec<FsTree>,
    BuildError,
>)
    requires
        routes.len() == roots.len(),
    ensures
        match r {
            Ok(trees) => spec_gather(
                spec_tree_each(
                    route_texts(routes@),
                    raw_views(roots@),
                ),
                0,
            ) == Ok::<Seq<FsTreeView>, BuildErrorView>(fs_tree_views(trees@)),
            Err(e) => spec_gather(
                spec_tree_each(
                    route_texts(routes@),
                    raw_views(roots@),
                ),
                0,
            ) == Err::<Seq<FsTreeView>, BuildErrorView>(e@),
        },
        r matches Ok(trees) ==> trees.len() == roots.len(),
{
    let ghost rs = spec_tree_each(
        route_texts(routes@),
        raw_views(roots@),
    );
    let mut trees: Vec<FsTree> = Vec::new();
    let mut k: usize = 0;
    assert(fs_tree_views(trees@) =~= Seq::<FsTreeView>::empty());
    while k < roots.len()
        invariant
            k <= roots.len(),
            trees.len() == k,
            routes.len() == roots.len(),
            rs == spec_tree_each(
                route_texts(routes@),
                raw_views(roots@),
            ),
            rs.len() == roots.len(),
            spec_gather(rs, 0) == match spec_gather(rs, k as int) {
                Ok(rest) => Ok::<Seq<FsTreeView>, BuildErrorView>(fs_tree_views(trees@) + rest),
                Err(e) => Err(e),
            },
        decreases roots.len() - k,
    {
        proof {
            lemma_raw_views_index(roots@, k as int);
        }
        match FsTree::construct(&roots[k], &routes[k]) {
            Err(e) => {
                return Err(e);
            },
            Ok(tree) => {
                proof {
                    let before = fs_tree_views(trees@);
                    let next = spec_gather(rs, k + 1);
                    assert(rs[k as int] == Ok::<FsTreeView, BuildErrorView>(tree@));
                    assert(fs_tree_views(trees@.push(tree)) =~= before.push(tree@));
                    if next is Ok {
                        assert(before + (seq![tree@] + next->Ok_0) =~= before.push(tree@)
                            + next->Ok_0);
                    }
                }
                trees.push(tree);
            },
        }
        k += 1;
    }
    proof {
        assert(fs_tree_views(trees@) + Seq::<FsTreeView>::empty() =~= fs_tree_views(trees@));
    }
    Ok(trees)
}

/// Runs a build from its parsed manifest: orders what the walk found under
/// each root, takes the reports of the conversion jobs through the collection
/// barrier, and assembles the content tree.
///
/// `roots` holds what the walk found under the path of each subtree element,
/// in the order of the elements; `reports` holds the reports of the jobs that
/// [`plan_jobs`] lists, in the order of their arrival.
pub fn pandoc_compile_html(options: &Options, roots: &Vec<RawEntry>, reports: Vec<Completion>) -> (r:
    Result<ContentTree, BuildError>)
    ensures
        match r {
            Ok(tree) => spec_build(options@.content, raw_views(roots@), completion_views(reports@))
                == Ok::<ContentView, BuildErrorView>(tree@),
            Err(e) => spec_build(options@.content, raw_views(roots@), completion_views(reports@))
                == Err::<ContentView, BuildErrorView>(e@),
        },
{
    let routes = routes_of(&options.content);
    if routes.len() != roots.len() {
        return Err(
            BuildError::new(
                BuildErrorKind::InternalConsistency,
                &String::new(),
                &owned("the roots do not match the content elements"),
            ),
        );
    }
    let trees = match construct_trees(&routes, roots) {
        Err(e) => {
            return Err(e);
        },
        Ok(trees) => trees,
    };
    let jobs = plan_jobs(&trees);
    let outputs = match collect(jobs.len(), reports) {
        Err(e) => {
            return Err(e);
        },
        Ok(outputs) => outputs,
    };
    proof {
        lemma_routes_len(options@.content);
    }
    generate_content_tree(options, &trees, &outputs)
}

} // verus!
