//! The content tree, and its assembly from the manifest's elements, the
//! ordered trees and the converted documents.
//!
//! A file becomes a document that holds the converted text found under the
//! file's whole path; a directory becomes a directory of what its children
//! become. The route of a content element is attached to the top node of its
//! subtree and to no node below it.

use crate::error::{missing_result, BuildError, BuildErrorView};
use crate::manifest::{Element, ElementView, Options};
use crate::results::ResultMap;
use crate::text::{optional_text, owned};
use crate::tree::{
    final_component, fs_tree_views, lemma_tree_views_index, spec_gather, tree_views, EntryPath,
    FsTree, FsTreeView,
    TreeElement, TreeView,
};
use vstd::prelude::*;

verus! {

/// A node of the finished content tree.
#[derive(Debug, PartialEq, Eq)]
pub enum ContentTree {
    /// A marker that no file stands behind.
    Special { kind: String },
    /// A converted document.
    Document { name: String, content: String, route: Option<String> },
    /// A directory and what its entries became, in order.
    Directory { name: String, children: Vec<ContentTree>, route: Option<String> },
}

/// The mathematical value of a [`ContentTree`].
pub ghost enum ContentView {
    Special { kind: Seq<char> },
    Document { name: Seq<char>, content: Seq<char>, route: Option<Seq<char>> },
    Directory { name: Seq<char>, children: Seq<ContentView>, route: Option<Seq<char>> },
}

/// The values of a run of content nodes, one for one.
pub open spec fn content_views(nodes: Seq<ContentTree>) -> Seq<ContentView>
    decreases nodes,
{
    Seq::new(
        nodes.len(),
        |i: int|
            if 0 <= i < nodes.len() {
                nodes[i].view()
            } else {
                ContentView::Special { kind: Seq::empty() }
            },
    )
}

impl ContentTree {
    pub open spec fn view(&self) -> ContentView
        decreases self,
    {
        match self {
            ContentTree::Special { kind } => ContentView::Special { kind: kind@ },
            ContentTree::Document { name, content, route } => ContentView::Document {
                name: name@,
                content: content@,
                route: optional_text(*route),
            },
            ContentTree::Directory { name, children, route } => ContentView::Directory {
                name: name@,
                children: content_views(children@),
                route: optional_text(*route),
            },
        }
    }
}

/// The name of the root of every content tree.
pub open spec fn root_name() -> Seq<char> {
    "ROOT"@
}

/// What the node `tree` becomes, with `route` attached to it: its documents
/// hold what `outputs` has under their whole paths, and every node below it
/// has no route. A file that `outputs` lacks is a consistency error with the
/// file's path; the first such file in walking order is reported.
pub open spec fn spec_translate(
    tree: TreeView,
    outputs: Map<Seq<char>, Seq<char>>,
    route: Option<Seq<char>>,
) -> Result<ContentView, BuildErrorView>
    decreases tree,
{
    match tree {
        TreeView::File(p) => if outputs.contains_key(p.full) {
            Ok(ContentView::Document { name: p.name, content: outputs[p.full], route })
        } else {
            Err(missing_result(p.full))
        },
        TreeView::Nested(p, children) => match spec_gather(
            spec_translate_each(children, outputs),
            0,
        ) {
            Ok(nodes) => Ok(ContentView::Directory { name: p.name, children: nodes, route }),
            Err(e) => Err(e),
        },
    }
}

/// What each child of a directory becomes: [`spec_translate`] without a
/// route.
pub open spec fn spec_translate_each(
    children: Seq<TreeView>,
    outputs: Map<Seq<char>, Seq<char>>,
) -> Seq<Result<ContentView, BuildErrorView>>
    decreases children,
{
    Seq::new(
        children.len(),
        |i: int|
            if 0 <= i < children.len() {
                spec_translate(children[i], outputs, None)
            } else {
                Ok(ContentView::Special { kind: Seq::empty() })
            },
    )
}

/// How many of the first `i` elements are subtrees to convert: the position,
/// among the trees, of the tree of a subtree element at `i`.
pub open spec fn tree_index(content: Seq<ElementView>, i: int) -> nat
    decreases i,
{
    if i <= 0 || i > content.len() {
        0
    } else {
        tree_index(content, i - 1) + if content[i - 1] is CompileFromPath {
            1nat
        } else {
            0nat
        }
    }
}

/// How many of the elements are subtrees to convert.
pub open spec fn compile_count(content: Seq<ElementView>) -> nat {
    tree_index(content, content.len() as int)
}

/// What each element of a manifest becomes: a marker stays a marker, and a
/// subtree element becomes what its tree becomes, with the tree's route.
pub open spec fn spec_top_level(
    content: Seq<ElementView>,
    trees: Seq<FsTreeView>,
    outputs: Map<Seq<char>, Seq<char>>,
) -> Seq<Result<ContentView, BuildErrorView>> {
    Seq::new(
        content.len(),
        |i: int|
            match content[i] {
                ElementView::Special { kind } => Ok(ContentView::Special { kind }),
                ElementView::CompileFromPath { .. } => spec_translate(
                    trees[tree_index(content, i) as int].tree,
                    outputs,
                    trees[tree_index(content, i) as int].route,
                ),
            },
    )
}

/// The content tree of a build: a root directory without a route whose
/// children are what the elements become, one for one and in order.
pub open spec fn spec_generate(
    content: Seq<ElementView>,
    trees: Seq<FsTreeView>,
    outputs: Map<Seq<char>, Seq<char>>,
) -> Result<ContentView, BuildErrorView> {
    match spec_gather(spec_top_level(content, trees, outputs), 0) {
        Ok(children) => Ok(ContentView::Directory { name: root_name(), children, route: None }),
        Err(e) => Err(e),
    }
}

/// The count of subtree elements grows with the position.
pub proof fn lemma_tree_index_monotone(content: Seq<ElementView>, i: int, j: int)
    requires
        0 <= i <= j <= content.len(),
    ensures
        tree_index(content, i) <= tree_index(content, j),
    decreases j - i,
{
    if i < j {
        lemma_tree_index_monotone(content, i, j - 1);
    }
}

/// The name under which the entry at `path` appears in its directory.
pub fn get_name(path: &EntryPath) -> (r: String)
    ensures
        r@ == path@.name,
        r@ == final_component(path@.full),
{
    path.name().clone()
}

fn copy_route(route: &Option<String>) -> (r: Option<String>)
    ensures
        optional_text(r) == optional_text(*route),
{
    match route {
        Some(s) => Some(s.clone()),
        None => None,
    }
}

/// Turns one node of an ordered tree into its content node, with `route`
/// attached to it and no route on any node below.
pub fn process_tree_element(tree: &TreeElement, outputs: &ResultMap, route: &Option<String>) -> (r:
    Result<ContentTree, BuildError>)
    ensures
        match r {
            Ok(node) => spec_translate(tree@, outputs@, optional_text(*route)) == Ok::<
                ContentView,
                BuildErrorView,
            >(node@),
            Err(e) => spec_translate(tree@, outputs@, optional_text(*route)) == Err::<
                ContentView,
                BuildErrorView,
            >(e@),
        },
    decreases tree,
{
    match tree {
        TreeElement::File(path) => {
            let name = get_name(path);
            match outputs.get(path.full()) {
                Some(content) => Ok(
                    ContentTree::Document {
                        name,
                        content: content.clone(),
                        route: copy_route(route),
                    },
                ),
                None => Err(BuildError::missing(path.full())),
            }
        },
        TreeElement::Nested(path, subtree) => {
            let name = get_name(path);
            match process_subtree_elements(subtree, outputs) {
                Ok(children) => Ok(
                    ContentTree::Directory { name, children, route: copy_route(route) },
                ),
                Err(e) => Err(e),
            }
        },
    }
}

/// Turns the children of a directory into their content nodes, none of them
/// with a route; stops at the first file without a result.
pub fn process_subtree_elements(tree: &Vec<TreeElement>, outputs: &ResultMap) -> (r: Result<
    Vec<ContentTree>,
    BuildError,
>)
    ensures
        match r {
            Ok(nodes) => spec_gather(spec_translate_each(tree_views(tree@), outputs@), 0) == Ok::<
                Seq<ContentView>,
                BuildErrorView,
            >(content_views(nodes@)),
            Err(e) => spec_gather(spec_translate_each(tree_views(tree@), outputs@), 0) == Err::<
                Seq<ContentView>,
                BuildErrorView,
            >(e@),
        },
    decreases tree,
{
    let ghost rs = spec_translate_each(tree_views(tree@), outputs@);
    let mut out: Vec<ContentTree> = Vec::new();
    let mut i: usize = 0;
    let none: Option<String> = None;
    assert(content_views(out@) =~= Seq::<ContentView>::empty());
    while i < tree.len()
        invariant
            i <= tree.len(),
            rs == spec_translate_each(tree_views(tree@), outputs@),
            rs.len() == tree.len(),
            none is None,
            spec_gather(rs, 0) == match spec_gather(rs, i as int) {
                Ok(rest) => Ok::<Seq<ContentView>, BuildErrorView>(content_views(out@) + rest),
                Err(e) => Err(e),
            },
        decreases tree.len() - i,
    {
        proof {
            lemma_tree_views_index(tree@, i as int);
        }
        match process_tree_element(&tree[i], outputs, &none) {
            Err(e) => {
                return Err(e);
            },
            Ok(node) => {
                proof {
                    let before = content_views(out@);
                    let next = spec_gather(rs, i + 1);
                    assert(content_views(out@.push(node)) =~= before.push(node@));
                    if next is Ok {
                        assert(before + (seq![node@] + next->Ok_0) =~= before.push(node@)
                            + next->Ok_0);
                    }
                }
                out.push(node);
            },
        }
        i += 1;
    }
    proof {
        assert(content_views(out@) + Seq::<ContentView>::empty() =~= content_views(out@));
    }
    Ok(out)
}

/// Assembles the content tree of a build.
///
/// `trees` holds the ordered tree of each subtree element of the manifest, in
/// the order of the elements; `outputs` holds the converted documents.
pub fn generate_content_tree(options: &Options, trees: &Vec<FsTree>, outputs: &ResultMap) -> (r:
    Result<ContentTree, BuildError>)
    requires
        compile_count(options@.content) == trees.len(),
    ensures
        match r {
            Ok(tree) => spec_generate(options@.content, fs_tree_views(trees@), outputs@) == Ok::<
                ContentView,
                BuildErrorView,
            >(tree@),
            Err(e) => spec_generate(options@.content, fs_tree_views(trees@), outputs@) == Err::<
                ContentView,
                BuildErrorView,
            >(e@),
        },
{
    let ghost content = options@.content;
    let ghost rs = spec_top_level(content, fs_tree_views(trees@), outputs@);
    let mut component: Vec<ContentTree> = Vec::new();
    let mut next_tree: usize = 0;
    let mut i: usize = 0;
    assert(content_views(component@) =~= Seq::<ContentView>::empty());
    while i < options.content.len()
        invariant
            i <= options.content.len(),
            content == options@.content,
            content.len() == options.content.len(),
            rs == spec_top_level(content, fs_tree_views(trees@), outputs@),
            compile_count(content) == trees.len(),
            next_tree == tree_index(content, i as int),
            spec_gather(rs, 0) == match spec_gather(rs, i as int) {
                Ok(rest) => Ok::<Seq<ContentView>, BuildErrorView>(content_views(component@) + rest),
                Err(e) => Err(e),
            },
        decreases options.content.len() - i,
    {
        proof {
            lemma_tree_index_monotone(content, i + 1, content.len() as int);
            assert(content[i as int] == options.content@[i as int]@);
        }
        let node = match &options.content[i] {
            Element::Special { kind } => ContentTree::Special { kind: kind.clone() },
            Element::CompileFromPath { .. } => {
                let tree = &trees[next_tree];
                next_tree = next_tree + 1;
                match process_tree_element(&tree.tree, outputs, &tree.route) {
                    Err(e) => {
                        return Err(e);
                    },
                    Ok(node) => node,
                }
            },
        };
        proof {
            let before = content_views(component@);
            let next = spec_gather(rs, i + 1);
            assert(rs[i as int] == Ok::<ContentView, BuildErrorView>(node@));
            assert(content_views(component@.push(node)) =~= before.push(node@));
            if next is Ok {
                assert(before + (seq![node@] + next->Ok_0) =~= before.push(node@) + next->Ok_0);
            }
        }
        component.push(node);
        i += 1;
    }
    proof {
        assert(content_views(component@) + Seq::<ContentView>::empty() =~= content_views(
            component@,
        ));
    }
    Ok(ContentTree::Directory { name: owned("ROOT"), children: component, route: None })
}

} // verus!
