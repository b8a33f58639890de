//! The tree of files and directories under a root, siblings in a fixed order.
//!
//! A walk of the file system hands the library what it found, in whatever
//! order the directories were enumerated ([`RawEntry`]). [`FsTree::construct`]
//! turns that into an [`FsTree`] whose siblings are sorted by the bytes of
//! their names, so that the tree does not depend on enumeration order.

use crate::error::{build_error, BuildError, BuildErrorKind, BuildErrorView};
use crate::text::optional_text;
use vstd::prelude::*;
use vstd::string::StringSliceAdditionalSpecFns;
use vstd::utf8::encode_utf8;

verus! {

/// Where the final component of the path `s` starts: behind its last `/`, or
/// at the start where it holds none.
pub open spec fn last_separator(s: Seq<char>) -> int
    decreases s.len(),
{
    if s.len() == 0 {
        0
    } else if s.last() == '/' {
        s.len() as int
    } else {
        last_separator(s.drop_last())
    }
}

/// The final component of the path `s`: what follows its last `/`, or all of
/// it where it holds none. A path that ends in `/` has the empty component.
pub open spec fn final_component(s: Seq<char>) -> Seq<char> {
    s.skip(last_separator(s))
}

/// A path as the walk found it, with `/` between its components, and its
/// final component. The two are tied: the name is always the final component
/// of the whole path.
#[derive(Debug, PartialEq, Eq)]
pub struct EntryPath {
    pub(crate) full: String,
    pub(crate) name: String,
}

/// The mathematical value of an [`EntryPath`].
pub ghost struct EntryPathView {
    pub full: Seq<char>,
    pub name: Seq<char>,
}

/// What a walk found at one path, before any ordering.
#[derive(Debug, PartialEq, Eq)]
pub enum RawEntry {
    /// A file.
    File(EntryPath),
    /// A directory and its entries, in the order of enumeration.
    Dir(EntryPath, Vec<RawEntry>),
    /// A path that could not be read, with the message of the failure.
    Failed(String, String),
}

/// The mathematical value of a [`RawEntry`].
pub ghost enum RawView {
    File(EntryPathView),
    Dir(EntryPathView, Seq<RawView>),
    Failed(Seq<char>, Seq<char>),
}

/// A node of the ordered tree: a file, or a directory with its children.
#[derive(Debug, PartialEq, Eq)]
pub enum TreeElement {
    File(EntryPath),
    Nested(EntryPath, Vec<TreeElement>),
}

/// The mathematical value of a [`TreeElement`].
pub ghost enum TreeView {
    File(EntryPathView),
    Nested(EntryPathView, Seq<TreeView>),
}

/// The ordered tree under one root, with the route of its content element.
#[derive(Debug, PartialEq, Eq)]
pub struct FsTree {
    pub tree: TreeElement,
    pub route: Option<String>,
}

/// The mathematical value of an [`FsTree`].
pub ghost struct FsTreeView {
    pub tree: TreeView,
    pub route: Option<Seq<char>>,
}

/// The texts of a run of strings, one for one.
pub open spec fn texts(v: Seq<String>) -> Seq<Seq<char>> {
    v.map_values(|s: String| s@)
}

impl EntryPathView {
    /// Whether the name is the final component of the whole path.
    pub open spec fn wf(self) -> bool {
        self.name == final_component(self.full)
    }
}

/// The final component of the path `full`.
pub fn final_component_of(full: &str) -> (r: String)
    ensures
        r@ == final_component(full@),
{
    let n = full.unicode_len();
    let mut i: usize = n;
    assert(full@.take(n as int) =~= full@);
    while i > 0 && full.get_char(i - 1) != '/'
        invariant
            i <= n,
            n == full@.len(),
            last_separator(full@) == last_separator(full@.take(i as int)),
        decreases i,
    {
        proof {
            let head = full@.take(i as int);
            assert(head.last() == full@[i - 1]);
            assert(head.drop_last() =~= full@.take(i - 1));
        }
        i -= 1;
    }
    proof {
        let head = full@.take(i as int);
        if i > 0 {
            assert(head.last() == full@[i - 1]);
        }
        assert(last_separator(head) == i);
        assert(full@.skip(i as int) =~= full@.subrange(i as int, n as int));
    }
    String::from_str(full.substring_char(i, n))
}

impl EntryPath {
    /// The whole path and its final component.
    pub closed spec fn view(&self) -> EntryPathView {
        EntryPathView { full: self.full@, name: self.name@ }
    }

    /// What holds of every entry path: its name is the final component of its
    /// whole path.
    #[verifier::type_invariant]
    pub closed spec fn tied(self) -> bool {
        self.name@ == final_component(self.full@)
    }

    /// The entry path for the whole path `full`.
    pub fn new(full: String) -> (r: Self)
        ensures
            r@.full == full@,
            r@.wf(),
    {
        let name = final_component_of(full.as_str());
        EntryPath { full, name }
    }

    /// The whole path: what a document is converted from and found by.
    pub fn full(&self) -> (r: &String)
        ensures
            r@ == self@.full,
    {
        &self.full
    }

    /// The final component of the path: the entry's name in its directory.
    pub fn name(&self) -> (r: &String)
        ensures
            r@ == self@.name,
            r@ == final_component(self@.full),
    {
        proof {
            use_type_invariant(self);
        }
        &self.name
    }

    /// A copy of this path.
    pub fn duplicate(&self) -> (r: Self)
        ensures
            r@ == self@,
            r@.wf(),
    {
        proof {
            use_type_invariant(self);
        }
        EntryPath { full: self.full.clone(), name: self.name.clone() }
    }
}

/// The values of a run of raw entries, one for one.
pub open spec fn raw_views(entries: Seq<RawEntry>) -> Seq<RawView>
    decreases entries,
{
    Seq::new(
        entries.len(),
        |i: int|
            if 0 <= i < entries.len() {
                entries[i].view()
            } else {
                RawView::Failed(Seq::empty(), Seq::empty())
            },
    )
}

impl RawEntry {
    pub open spec fn view(&self) -> RawView
        decreases self,
    {
        match self {
            RawEntry::File(p) => RawView::File(p@),
            RawEntry::Dir(p, entries) => RawView::Dir(p@, raw_views(entries@)),
            RawEntry::Failed(path, message) => RawView::Failed(path@, message@),
        }
    }
}

/// The values of a run of tree nodes, one for one.
pub open spec fn tree_views(nodes: Seq<TreeElement>) -> Seq<TreeView>
    decreases nodes,
{
    Seq::new(
        nodes.len(),
        |i: int|
            if 0 <= i < nodes.len() {
                nodes[i].view()
            } else {
                TreeView::Nested(EntryPathView { full: Seq::empty(), name: Seq::empty() }, Seq::empty())
            },
    )
}

impl TreeElement {
    pub open spec fn view(&self) -> TreeView
        decreases self,
    {
        match self {
            TreeElement::File(p) => TreeView::File(p@),
            TreeElement::Nested(p, children) => TreeView::Nested(p@, tree_views(children@)),
        }
    }

    /// The path of this node.
    pub fn path(&self) -> (r: &EntryPath)
        ensures
            r@ == self@.path(),
            r@.wf(),
    {
        let r = match self {
            TreeElement::File(p) => p,
            TreeElement::Nested(p, _) => p,
        };
        proof {
            use_type_invariant(r);
        }
        r
    }
}

impl TreeView {
    /// The path of this node.
    pub open spec fn path(self) -> EntryPathView {
        match self {
            TreeView::File(p) => p,
            TreeView::Nested(p, _) => p,
        }
    }
}

impl FsTree {
    pub open spec fn view(&self) -> FsTreeView {
        FsTreeView { tree: self.tree@, route: optional_text(self.route) }
    }
}

/// Whether every node of `t`, at any depth, is named by the final component of
/// its path.
pub open spec fn well_named(t: TreeView) -> bool
    decreases t,
{
    t.path().wf() && match t {
        TreeView::File(_) => true,
        TreeView::Nested(_, children) => all_well_named(children),
    }
}

/// [`well_named`] for each node of a run.
pub open spec fn all_well_named(nodes: Seq<TreeView>) -> bool
    decreases nodes,
{
    forall|i: int| #![trigger nodes[i]] 0 <= i < nodes.len() ==> well_named(nodes[i])
}

/// The values of a run of trees, one for one.
pub open spec fn fs_tree_views(trees: Seq<FsTree>) -> Seq<FsTreeView> {
    trees.map_values(|t: FsTree| t@)
}

/// Whether `a`, from position `i` on, comes no later than `b` in the order of
/// the dictionary on bytes, given that the two agree before `i`.
pub open spec fn bytes_le_from(a: Seq<u8>, b: Seq<u8>, i: int) -> bool
    decreases a.len() - i,
{
    if i < 0 || i >= a.len() {
        true
    } else if i >= b.len() {
        false
    } else if a[i] != b[i] {
        a[i] < b[i]
    } else {
        bytes_le_from(a, b, i + 1)
    }
}

/// Whether `a` comes no later than `b` in the order of the dictionary on
/// bytes: at the first position where they differ `a` holds the smaller byte,
/// or `a` ends there.
pub open spec fn bytes_le(a: Seq<u8>, b: Seq<u8>) -> bool {
    bytes_le_from(a, b, 0)
}

/// What siblings are ordered by: the bytes of the name.
pub open spec fn sort_key(t: TreeView) -> Seq<u8> {
    encode_utf8(t.path().name)
}

/// Whether `a` may stand before `b` among sorted siblings.
pub open spec fn key_le(a: TreeView, b: TreeView) -> bool {
    bytes_le(sort_key(a), sort_key(b))
}

/// `x` put into the sorted run `s`: behind every node that may stand before
/// it, so that nodes of equal name keep the order in which they came.
pub open spec fn insert_sorted(s: Seq<TreeView>, x: TreeView) -> Seq<TreeView>
    decreases s.len(),
{
    if s.len() == 0 {
        seq![x]
    } else if key_le(s.last(), x) {
        s.push(x)
    } else {
        insert_sorted(s.drop_last(), x).push(s.last())
    }
}

/// The nodes of `s` sorted by name, nodes of equal name in their given order.
pub open spec fn sort_siblings(s: Seq<TreeView>) -> Seq<TreeView>
    decreases s.len(),
{
    if s.len() == 0 {
        Seq::empty()
    } else {
        insert_sorted(sort_siblings(s.drop_last()), s.last())
    }
}

/// The values that the results from `pos` on hold, in order; the first error
/// among them, if there is one.
pub open spec fn spec_gather<T, E>(rs: Seq<Result<T, E>>, pos: int) -> Result<Seq<T>, E>
    decreases rs.len() - pos,
{
    if pos < 0 || pos >= rs.len() {
        Ok(Seq::empty())
    } else {
        match rs[pos] {
            Err(e) => Err(e),
            Ok(x) => match spec_gather(rs, pos + 1) {
                Ok(rest) => Ok(seq![x] + rest),
                Err(e) => Err(e),
            },
        }
    }
}

/// The ordered node for what a walk found at one path. A path that could not
/// be read, at any depth, is a file system error with that path.
pub open spec fn spec_construct(raw: RawView) -> Result<TreeView, BuildErrorView>
    decreases raw, 0int,
{
    match raw {
        RawView::File(p) => Ok(TreeView::File(p)),
        RawView::Failed(path, message) => Err(
            build_error(BuildErrorKind::Filesystem, path, message),
        ),
        RawView::Dir(p, entries) => match spec_make_tree(entries) {
            Ok(children) => Ok(TreeView::Nested(p, children)),
            Err(e) => Err(e),
        },
    }
}

/// [`spec_construct`] on each entry of a directory, in the order given.
pub open spec fn spec_construct_each(entries: Seq<RawView>) -> Seq<Result<TreeView, BuildErrorView>>
    decreases entries, 0int,
{
    Seq::new(
        entries.len(),
        |i: int|
            if 0 <= i < entries.len() {
                spec_construct(entries[i])
            } else {
                Ok(TreeView::Nested(EntryPathView { full: Seq::empty(), name: Seq::empty() }, Seq::empty()))
            },
    )
}

/// The ordered children for the entries of a directory: each entry's node,
/// sorted by name; the first failure in the order given, if there is one.
pub open spec fn spec_make_tree(entries: Seq<RawView>) -> Result<Seq<TreeView>, BuildErrorView>
    decreases entries, 1int,
{
    match spec_gather(spec_construct_each(entries), 0) {
        Ok(nodes) => Ok(sort_siblings(nodes)),
        Err(e) => Err(e),
    }
}

/// The files of a tree in the order of a walk that visits a directory's
/// children first to last.
pub open spec fn spec_file_entries(t: TreeView) -> Seq<EntryPathView>
    decreases t,
{
    match t {
        TreeView::File(p) => seq![p],
        TreeView::Nested(_, children) => spec_file_entries_of(children),
    }
}

/// The files of a run of trees, tree after tree.
pub open spec fn spec_file_entries_of(nodes: Seq<TreeView>) -> Seq<EntryPathView>
    decreases nodes,
{
    if nodes.len() == 0 {
        Seq::empty()
    } else {
        spec_file_entries_of(nodes.drop_last()) + spec_file_entries(nodes.last())
    }
}

/// The whole paths of a run of entries.
pub open spec fn full_paths(entries: Seq<EntryPathView>) -> Seq<Seq<char>> {
    entries.map_values(|e: EntryPathView| e.full)
}

/// The view of `nodes[k]` is the `k`-th of the views.
pub proof fn lemma_tree_views_index(nodes: Seq<TreeElement>, k: int)
    requires
        0 <= k < nodes.len(),
    ensures
        tree_views(nodes)[k] == nodes[k]@,
        tree_views(nodes).len() == nodes.len(),
{
}

/// The view of `entries[k]` is the `k`-th of the views.
pub proof fn lemma_raw_views_index(entries: Seq<RawEntry>, k: int)
    requires
        0 <= k < entries.len(),
    ensures
        raw_views(entries)[k] == entries[k]@,
        raw_views(entries).len() == entries.len(),
{
}

/// Whether the name `a` comes no later than the name `b` in the order of the
/// dictionary on their bytes.
pub fn name_le(a: &String, b: &String) -> (r: bool)
    ensures
        r == bytes_le(encode_utf8(a@), encode_utf8(b@)),
{
    let x = a.as_str().as_bytes();
    let y = b.as_str().as_bytes();
    let mut i: usize = 0;
    while i < x.len() && i < y.len() && x[i] == y[i]
        invariant
            i <= x.len(),
            i <= y.len(),
            bytes_le(x@, y@) == bytes_le_from(x@, y@, i as int),
        decreases x.len() - i,
    {
        i += 1;
    }
    if i >= x.len() {
        true
    } else if i >= y.len() {
        false
    } else {
        x[i] < y[i]
    }
}

/// Puts `x` into the sorted run `out`, behind every node whose name comes no
/// later than its own.
pub fn insert_by_name(out: &mut Vec<TreeElement>, x: TreeElement)
    ensures
        tree_views(final(out)@) == insert_sorted(tree_views(old(out)@), x@),
        well_named(x@) && all_well_named(tree_views(old(out)@)) ==> all_well_named(
            tree_views(final(out)@),
        ),
{
    let ghost s = tree_views(out@);
    let mut j: usize = out.len();
    proof {
        assert(s.take(s.len() as int) =~= s);
        assert(insert_sorted(s, x@) + Seq::<TreeView>::empty() =~= insert_sorted(s, x@));
        assert(s.skip(s.len() as int) =~= Seq::<TreeView>::empty());
    }
    while j > 0 && !name_le(&out[j - 1].path().name, &x.path().name)
        invariant
            j <= out.len(),
            s == tree_views(out@),
            insert_sorted(s, x@) == insert_sorted(s.take(j as int), x@) + s.skip(j as int),
        decreases j,
    {
        proof {
            lemma_tree_views_index(out@, j - 1);
            let head = s.take(j as int);
            assert(head.last() == s[j - 1]);
            assert(head.drop_last() =~= s.take(j - 1));
            assert(insert_sorted(s.take(j - 1), x@).push(s[j - 1]) + s.skip(j as int)
                =~= insert_sorted(s.take(j - 1), x@) + s.skip(j - 1));
        }
        j -= 1;
    }
    proof {
        let head = s.take(j as int);
        if j > 0 {
            lemma_tree_views_index(out@, j - 1);
            assert(head.last() == s[j - 1]);
        }
        assert(insert_sorted(head, x@) == head.push(x@));
        assert(head.push(x@) + s.skip(j as int) =~= s.insert(j as int, x@));
        assert(tree_views(out@.insert(j as int, x)) =~= s.insert(j as int, x@));
        if well_named(x@) && all_well_named(s) {
            let grown = s.insert(j as int, x@);
            assert forall|k: int| 0 <= k < grown.len() implies well_named(#[trigger] grown[k]) by {
                if k < j {
                    assert(grown[k] == s[k]);
                } else if k > j {
                    assert(grown[k] == s[k - 1]);
                }
            }
            assert(all_well_named(grown));
        }
    }
    out.insert(j, x);
}

/// Turns what a walk found at one path into an ordered node.
pub fn construct_element(raw: &RawEntry) -> (r: Result<TreeElement, BuildError>)
    ensures
        match r {
            Ok(t) => spec_construct(raw@) == Ok::<TreeView, BuildErrorView>(t@),
            Err(e) => spec_construct(raw@) == Err::<TreeView, BuildErrorView>(e@),
        },
        r matches Ok(t) ==> well_named(t@),
    decreases raw,
{
    match raw {
        RawEntry::File(p) => Ok(TreeElement::File(p.duplicate())),
        RawEntry::Failed(path, message) => Err(
            BuildError::new(BuildErrorKind::Filesystem, path, message),
        ),
        RawEntry::Dir(p, entries) => match FsTree::make_tree(entries) {
            Ok(children) => {
                let node = TreeElement::Nested(p.duplicate(), children);
                assert(well_named(node@));
                Ok(node)
            },
            Err(e) => Err(e),
        },
    }
}

impl FsTree {
    /// Builds the ordered tree for what a walk found under a root.
    ///
    /// A root that is a file gives a bare file node. Any path that could not
    /// be read makes the whole tree fail, with that path.
    pub fn construct(root: &RawEntry, route: &Option<String>) -> (r: Result<Self, BuildError>)
        ensures
            match r {
                Ok(t) => spec_construct(root@) == Ok::<TreeView, BuildErrorView>(t@.tree)
                    && t@.route == optional_text(*route) && well_named(t@.tree),
                Err(e) => spec_construct(root@) == Err::<TreeView, BuildErrorView>(e@),
            },
    {
        match construct_element(root) {
            Ok(tree) => {
                let route = match route {
                    Some(r) => Some(r.clone()),
                    None => None,
                };
                Ok(FsTree { tree, route })
            },
            Err(e) => Err(e),
        }
    }

    /// Builds the ordered children for the entries of one directory.
    pub fn make_tree(entries: &Vec<RawEntry>) -> (r: Result<Vec<TreeElement>, BuildError>)
        ensures
            match r {
                Ok(nodes) => spec_make_tree(raw_views(entries@)) == Ok::<
                    Seq<TreeView>,
                    BuildErrorView,
                >(tree_views(nodes@)),
                Err(e) => spec_make_tree(raw_views(entries@)) == Err::<
                    Seq<TreeView>,
                    BuildErrorView,
                >(e@),
            },
            r matches Ok(nodes) ==> all_well_named(tree_views(nodes@)),
        decreases entries,
    {
        let ghost rs = spec_construct_each(raw_views(entries@));
        let ghost mut done: Seq<TreeView> = Seq::empty();
        let mut out: Vec<TreeElement> = Vec::new();
        let mut i: usize = 0;
        assert(tree_views(out@) =~= sort_siblings(done));
        while i < entries.len()
            invariant
                i <= entries.len(),
                rs == spec_construct_each(raw_views(entries@)),
                rs.len() == entries.len(),
                done.len() == i,
                all_well_named(tree_views(out@)),
                tree_views(out@) == sort_siblings(done),
                spec_gather(rs, 0) == match spec_gather(rs, i as int) {
                    Ok(rest) => Ok::<Seq<TreeView>, BuildErrorView>(done + rest),
                    Err(e) => Err(e),
                },
            decreases entries.len() - i,
        {
            proof {
                lemma_raw_views_index(entries@, i as int);
            }
            match construct_element(&entries[i]) {
                Err(e) => {
                    return Err(e);
                },
                Ok(node) => {
                    proof {
                        let next = spec_gather(rs, i + 1);
                        let grown = done.push(node@);
                        assert(grown.drop_last() =~= done);
                        assert(grown.last() == node@);
                        if next is Ok {
                            assert(done + (seq![node@] + next->Ok_0) =~= grown + next->Ok_0);
                        }
                        done = grown;
                    }
                    insert_by_name(&mut out, node);
                },
            }
            i += 1;
        }
        proof {
            assert(done + Seq::<TreeView>::empty() =~= done);
        }
        Ok(out)
    }

    /// Appends to `list` the whole paths of the files under `components`, in
    /// the order of a walk that visits children first to last.
    pub fn list_files(components: &Vec<TreeElement>, list: &mut Vec<String>)
        ensures
            texts(final(list)@) == texts(old(list)@) + full_paths(
                spec_file_entries_of(tree_views(components@)),
            ),
        decreases components,
    {
        let ghost nodes = tree_views(components@);
        let ghost before = texts(list@);
        let mut i: usize = 0;
        assert(nodes.take(0) =~= Seq::<TreeView>::empty());
        assert(before + full_paths(spec_file_entries_of(nodes.take(0))) =~= before);
        while i < components.len()
            invariant
                i <= components.len(),
                nodes == tree_views(components@),
                texts(list@) == before + full_paths(spec_file_entries_of(nodes.take(i as int))),
            decreases components.len() - i,
        {
            let ghost so_far = spec_file_entries_of(nodes.take(i as int));
            proof {
                lemma_tree_views_index(components@, i as int);
                let grown = nodes.take(i + 1);
                assert(grown.drop_last() =~= nodes.take(i as int));
                assert(grown.last() == nodes[i as int]);
                assert(spec_file_entries_of(grown) == so_far + spec_file_entries(nodes[i as int]));
            }
            match &components[i] {
                TreeElement::File(p) => {
                    let ghost was = texts(list@);
                    list.push(p.full.clone());
                    proof {
                        assert(texts(list@) =~= was.push(p.full@));
                        assert(full_paths(so_far + seq![p@]) =~= full_paths(so_far).push(p.full@));
                        assert(before + full_paths(so_far).push(p.full@) =~= (before + full_paths(
                            so_far,
                        )).push(p.full@));
                    }
                },
                TreeElement::Nested(_, subtree) => {
                    Self::list_files(subtree, list);
                    proof {
                        let inner = spec_file_entries_of(tree_views(subtree@));
                        assert(full_paths(so_far + inner) =~= full_paths(so_far) + full_paths(
                            inner,
                        ));
                        assert(before + (full_paths(so_far) + full_paths(inner)) =~= (before
                            + full_paths(so_far)) + full_paths(inner));
                    }
                },
            }
            i += 1;
        }
        proof {
            assert(nodes.take(components.len() as int) =~= nodes);
        }
    }

    /// The whole paths of the files of this tree, in the order of a walk that
    /// visits children first to last.
    pub fn get_all_src_files(&self) -> (r: Vec<String>)
        ensures
            texts(r@) == full_paths(spec_file_entries(self@.tree)),
    {
        let mut list: Vec<String> = Vec::new();
        match &self.tree {
            TreeElement::File(p) => {
                list.push(p.full.clone());
                assert(texts(list@) =~= full_paths(seq![p@]));
            },
            TreeElement::Nested(_, components) => {
                assert(texts(list@) =~= Seq::<Seq<char>>::empty());
                Self::list_files(components, &mut list);
                assert(Seq::<Seq<char>>::empty() + full_paths(
                    spec_file_entries_of(tree_views(components@)),
                ) =~= full_paths(spec_file_entries_of(tree_views(components@))));
            },
        }
        list
    }
}

} // verus!
