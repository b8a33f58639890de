//! The order of siblings: that it is an order, that every tree built is in it,
//! and that it does not depend on the order in which a directory was
//! enumerated.


use crate::error::BuildErrorView;
use crate::laws::lemma_gather;
use crate::tree::{
    bytes_le_from, insert_sorted, key_le, sort_key, sort_siblings, spec_construct,
    spec_construct_each, spec_gather, spec_make_tree, EntryPathView, RawView, TreeView,
};
use vstd::prelude::*;
use vstd::seq_lib::{
    to_multiset_build, to_multiset_contains, to_multiset_len, to_multiset_remove,
};
use vstd::utf8::encode_utf8_decode_utf8;

verus! {

/// From any position on, of two runs of bytes one comes no later than the
/// other.
pub proof fn lemma_bytes_le_total(a: Seq<u8>, b: Seq<u8>, i: int)
    requires
        0 <= i,
    ensures
        bytes_le_from(a, b, i) || bytes_le_from(b, a, i),
    decreases a.len() - i,
{
    if i < a.len() && i < b.len() && a[i] == b[i] {
        lemma_bytes_le_total(a, b, i + 1);
    }
}

/// If `a` comes no later than `b` and `b` no later than `c`, then `a` comes no
/// later than `c`.
pub proof fn lemma_bytes_le_transitive(a: Seq<u8>, b: Seq<u8>, c: Seq<u8>, i: int)
    requires
        0 <= i,
        bytes_le_from(a, b, i),
        bytes_le_from(b, c, i),
    ensures
        bytes_le_from(a, c, i),
    decreases a.len() - i,
{
    if i < a.len() {
        if a[i] == b[i] && b[i] == c[i] {
            lemma_bytes_le_transitive(a, b, c, i + 1);
        }
    }
}

/// Two runs of bytes of which each comes no later than the other agree from
/// the position on, and have the same length.
pub proof fn lemma_bytes_le_antisymmetric(a: Seq<u8>, b: Seq<u8>, i: int)
    requires
        0 <= i <= a.len(),
        i <= b.len(),
        bytes_le_from(a, b, i),
        bytes_le_from(b, a, i),
    ensures
        a.len() == b.len(),
        forall|k: int| i <= k < a.len() ==> a[k] == b[k],
    decreases a.len() - i,
{
    if i < a.len() {
        lemma_bytes_le_antisymmetric(a, b, i + 1);
    }
}

/// Two nodes of which each may stand before the other have the same name.
pub proof fn lemma_key_le_antisymmetric(a: TreeView, b: TreeView)
    requires
        key_le(a, b),
        key_le(b, a),
    ensures
        a.path().name == b.path().name,
{
    let x = sort_key(a);
    let y = sort_key(b);
    lemma_bytes_le_antisymmetric(x, y, 0);
    assert(x =~= y);
    encode_utf8_decode_utf8(a.path().name);
    encode_utf8_decode_utf8(b.path().name);
}

/// Whether each node of `s` may stand before every node behind it.
pub open spec fn sorted(s: Seq<TreeView>) -> bool {
    forall|i: int, j: int| 0 <= i < j < s.len() ==> key_le(#[trigger] s[i], #[trigger] s[j])
}

/// Whether no two nodes of `s` have the same name, as the entries of one
/// directory have not.
pub open spec fn distinct_names(s: Seq<TreeView>) -> bool {
    forall|i: int, j: int|
        0 <= i < j < s.len() ==> (#[trigger] s[i]).path().name != (#[trigger] s[j]).path().name
}

/// Whether the children of every directory of `t`, at any depth, are sorted.
pub open spec fn ordered(t: TreeView) -> bool
    decreases t,
{
    match t {
        TreeView::File(_) => true,
        TreeView::Nested(_, children) => sorted(children) && forall|i: int|
            0 <= i < children.len() ==> ordered(#[trigger] children[i]),
    }
}

/// Each node of `r` is a node of `s`, where the two hold the same nodes.
pub proof fn lemma_same_nodes(s: Seq<TreeView>, r: Seq<TreeView>, j: int)
    requires
        s.to_multiset() == r.to_multiset(),
        0 <= j < r.len(),
    ensures
        exists|i: int| 0 <= i < s.len() && s[i] == r[j],
{
    to_multiset_contains(s, r[j]);
    to_multiset_contains(r, r[j]);
    assert(r.contains(r[j]));
    let i = choose|i: int| 0 <= i < s.len() && s[i] == r[j];
    assert(s[i] == r[j]);
}

/// Putting a node into a sorted run gives a sorted run that holds the nodes
/// of the run and the node, and nothing else.
pub proof fn lemma_insert_sorted(s: Seq<TreeView>, x: TreeView)
    requires
        sorted(s),
    ensures
        sorted(insert_sorted(s, x)),
        insert_sorted(s, x).to_multiset() == s.to_multiset().insert(x),
        insert_sorted(s, x).len() == s.len() + 1,
    decreases s.len(),
{
    let r = insert_sorted(s, x);
    if s.len() == 0 {
        assert(s =~= Seq::<TreeView>::empty());
        assert(r =~= s.push(x));
        to_multiset_build(s, x);
    } else if key_le(s.last(), x) {
        to_multiset_build(s, x);
        assert forall|i: int, j: int| 0 <= i < j < r.len() implies key_le(
            #[trigger] r[i],
            #[trigger] r[j],
        ) by {
            if j == s.len() {
                if i < s.len() - 1 {
                    assert(key_le(s[i], s[s.len() - 1]));
                    lemma_bytes_le_transitive(sort_key(s[i]), sort_key(s.last()), sort_key(x), 0);
                }
            } else {
                assert(key_le(s[i], s[j]));
            }
        }
    } else {
        let front = s.drop_last();
        let last = s.last();
        assert forall|i: int, j: int| 0 <= i < j < front.len() implies key_le(
            #[trigger] front[i],
            #[trigger] front[j],
        ) by {
            assert(key_le(s[i], s[j]));
        }
        lemma_insert_sorted(front, x);
        let inner = insert_sorted(front, x);
        to_multiset_build(inner, last);
        to_multiset_build(front, last);
        assert(front.push(last) =~= s);
        assert(inner.to_multiset().insert(last) =~= s.to_multiset().insert(x));
        lemma_bytes_le_total(sort_key(last), sort_key(x), 0);
        assert forall|i: int, j: int| 0 <= i < j < r.len() implies key_le(
            #[trigger] r[i],
            #[trigger] r[j],
        ) by {
            if j == inner.len() {
                to_multiset_contains(inner, inner[i]);
                to_multiset_contains(front, inner[i]);
                assert(inner.contains(inner[i]));
                if inner[i] != x {
                    assert(front.contains(inner[i]));
                    let k = choose|k: int| 0 <= k < front.len() && front[k] == inner[i];
                    assert(key_le(s[k], s[s.len() - 1]));
                }
            } else {
                assert(key_le(inner[i], inner[j]));
            }
        }
    }
}

/// Sorting gives a sorted run that holds the nodes it was given, each as
/// often as it was given, and nothing else.
pub proof fn law_sorting_orders_and_keeps(s: Seq<TreeView>)
    ensures
        sorted(sort_siblings(s)),
        sort_siblings(s).to_multiset() == s.to_multiset(),
        sort_siblings(s).len() == s.len(),
    decreases s.len(),
{
    if s.len() == 0 {
        assert(s =~= Seq::<TreeView>::empty());
    } else {
        let front = s.drop_last();
        law_sorting_orders_and_keeps(front);
        lemma_insert_sorted(sort_siblings(front), s.last());
        to_multiset_build(front, s.last());
        assert(front.push(s.last()) =~= s);
    }
}

/// A run that holds the same nodes as a run without equal names has no equal
/// names either.
pub proof fn lemma_distinct_names_carry_over(s: Seq<TreeView>, r: Seq<TreeView>)
    requires
        s.to_multiset() == r.to_multiset(),
        distinct_names(s),
    ensures
        distinct_names(r),
{
    lemma_names_tell_nodes_apart(s);
    s.lemma_multiset_has_no_duplicates();
    r.lemma_multiset_has_no_duplicates_conv();
    assert forall|i: int, j: int| 0 <= i < j < r.len() implies (#[trigger] r[i]).path().name != (
    #[trigger] r[j]).path().name by {
        lemma_same_nodes(s, r, i);
        lemma_same_nodes(s, r, j);
        let x = choose|x: int| 0 <= x < s.len() && s[x] == r[i];
        let y = choose|y: int| 0 <= y < s.len() && s[y] == r[j];
        assert(r[i] != r[j]);
        if x < y {
            assert(s[x].path().name != s[y].path().name);
        } else {
            assert(s[y].path().name != s[x].path().name);
        }
    }
}

/// There is one sorted run of given nodes, where no two of them have the same
/// name.
pub proof fn lemma_sorted_run_is_unique(s: Seq<TreeView>, t: Seq<TreeView>)
    requires
        sorted(s),
        sorted(t),
        distinct_names(s),
        s.to_multiset() == t.to_multiset(),
    ensures
        s == t,
    decreases s.len(),
{
    to_multiset_len(s);
    to_multiset_len(t);
    if s.len() == 0 {
        assert(s =~= t);
    } else {
        lemma_distinct_names_carry_over(s, t);
        let n = s.len() - 1;
        let x = s[n];
        let y = t[n];
        lemma_same_nodes(t, s, n);
        lemma_same_nodes(s, t, n);
        let j = choose|j: int| 0 <= j < t.len() && t[j] == x;
        let i = choose|i: int| 0 <= i < s.len() && s[i] == y;
        if i < n {
            assert(key_le(s[i], s[n]));
            if j < n {
                assert(key_le(t[j], t[n]));
                lemma_key_le_antisymmetric(x, y);
                assert(s[i].path().name != s[n].path().name);
            }
        }
        assert(x == y);
        to_multiset_remove(s, n);
        to_multiset_remove(t, n);
        assert(s.remove(n) =~= s.drop_last());
        assert(t.remove(n) =~= t.drop_last());
        let sf = s.drop_last();
        let tf = t.drop_last();
        assert forall|a: int, b: int| 0 <= a < b < sf.len() implies key_le(
            #[trigger] sf[a],
            #[trigger] sf[b],
        ) by {
            assert(key_le(s[a], s[b]));
        }
        assert forall|a: int, b: int| 0 <= a < b < tf.len() implies key_le(
            #[trigger] tf[a],
            #[trigger] tf[b],
        ) by {
            assert(key_le(t[a], t[b]));
        }
        assert forall|a: int, b: int| 0 <= a < b < sf.len() implies (#[trigger] sf[a]).path().name
            != (#[trigger] sf[b]).path().name by {
            assert(s[a].path().name != s[b].path().name);
        }
        lemma_sorted_run_is_unique(sf, tf);
        assert(s =~= sf.push(x));
        assert(t =~= tf.push(y));
    }
}

/// Determinism of the order: two runs that hold the same nodes, in whatever
/// order, sort to the same run, where no two nodes have the same name.
pub proof fn law_sibling_order_is_immaterial(a: Seq<TreeView>, b: Seq<TreeView>)
    requires
        a.to_multiset() == b.to_multiset(),
        distinct_names(a),
    ensures
        sort_siblings(a) == sort_siblings(b),
{
    law_sorting_orders_and_keeps(a);
    law_sorting_orders_and_keeps(b);
    lemma_distinct_names_carry_over(a, sort_siblings(a));
    lemma_sorted_run_is_unique(sort_siblings(a), sort_siblings(b));
}

/// The path of a raw entry; one that could not be read has no name.
pub open spec fn raw_path(r: RawView) -> EntryPathView {
    match r {
        RawView::File(p) => p,
        RawView::Dir(p, _) => p,
        RawView::Failed(path, _) => EntryPathView { full: path, name: Seq::empty() },
    }
}

/// Whether no two of the entries have the same name.
pub open spec fn distinct_entry_names(entries: Seq<RawView>) -> bool {
    forall|i: int, j: int|
        0 <= i < j < entries.len() ==> raw_path(#[trigger] entries[i]).name != raw_path(
            #[trigger] entries[j],
        ).name
}

/// Whether `raw` is what a walk finds where everything can be read: no path
/// failed, and no directory, at any depth, has two entries of one name.
pub open spec fn snapshot(raw: RawView) -> bool
    decreases raw,
{
    match raw {
        RawView::File(_) => true,
        RawView::Failed(_, _) => false,
        RawView::Dir(_, entries) => distinct_entry_names(entries) && forall|i: int|
            0 <= i < entries.len() ==> snapshot(#[trigger] entries[i]),
    }
}

/// The entry at position `i`, as the one for which a partner is sought.
pub open spec fn entry(entries: Seq<RawView>, i: int) -> RawView {
    entries[i]
}

/// The entry at position `i`, as the partner that is found.
pub open spec fn partner(entries: Seq<RawView>, i: int) -> RawView {
    entries[i]
}

/// Whether `b` is `a` with the entries of its directories, at any depth,
/// enumerated in another order: files agree, and directories agree in their
/// path, with each entry of the one an entry of the other up to the order
/// below it.
pub open spec fn reshuffled(a: RawView, b: RawView) -> bool
    decreases a,
{
    match a {
        RawView::Dir(p, xs) => {
            &&& b is Dir
            &&& p == b->Dir_0
            &&& xs.len() == b->Dir_1.len()
            &&& forall|i: int|
                #![trigger entry(xs, i)]
                0 <= i < xs.len() ==> exists|j: int|
                    #![trigger partner(b->Dir_1, j)]
                    0 <= j < b->Dir_1.len() && reshuffled(entry(xs, i), partner(b->Dir_1, j))
            &&& forall|j: int|
                #![trigger entry(b->Dir_1, j)]
                0 <= j < b->Dir_1.len() ==> exists|i: int|
                    #![trigger partner(xs, i)]
                    0 <= i < xs.len() && reshuffled(partner(xs, i), entry(b->Dir_1, j))
        },
        _ => b == a,
    }
}

/// Every entry is a reshuffle of itself.
pub proof fn lemma_reshuffled_reflexive(a: RawView)
    ensures
        reshuffled(a, a),
    decreases a,
{
    match a {
        RawView::Dir(p, xs) => {
            assert forall|i: int| #![trigger entry(xs, i)] 0 <= i < xs.len() implies exists|j: int|
                #![trigger partner(xs, j)]
                0 <= j < xs.len() && reshuffled(entry(xs, i), partner(xs, j)) by {
                lemma_reshuffled_reflexive(xs[i]);
                assert(reshuffled(entry(xs, i), partner(xs, i)));
            }
            assert forall|j: int| #![trigger entry(xs, j)] 0 <= j < xs.len() implies exists|i: int|
                #![trigger partner(xs, i)]
                0 <= i < xs.len() && reshuffled(partner(xs, i), entry(xs, j)) by {
                lemma_reshuffled_reflexive(xs[j]);
                assert(reshuffled(partner(xs, j), entry(xs, j)));
            }
        },
        _ => {},
    }
}

/// A directory with two of its entries exchanged is a reshuffle of it.
pub proof fn lemma_exchange_is_a_reshuffle(p: EntryPathView, xs: Seq<RawView>, m: int, n: int)
    requires
        0 <= m < xs.len(),
        0 <= n < xs.len(),
    ensures
        reshuffled(RawView::Dir(p, xs), RawView::Dir(p, xs.update(m, xs[n]).update(n, xs[m]))),
{
    let ys = xs.update(m, xs[n]).update(n, xs[m]);
    assert forall|i: int| #![trigger entry(xs, i)] 0 <= i < xs.len() implies exists|j: int|
        #![trigger partner(ys, j)]
        0 <= j < ys.len() && reshuffled(entry(xs, i), partner(ys, j)) by {
        lemma_reshuffled_reflexive(xs[i]);
        let j = if i == m {
            n
        } else if i == n {
            m
        } else {
            i
        };
        assert(partner(ys, j) == xs[i]);
    }
    assert forall|j: int| #![trigger entry(ys, j)] 0 <= j < ys.len() implies exists|i: int|
        #![trigger partner(xs, i)]
        0 <= i < xs.len() && reshuffled(partner(xs, i), entry(ys, j)) by {
        let i = if j == m {
            n
        } else if j == n {
            m
        } else {
            j
        };
        lemma_reshuffled_reflexive(xs[i]);
        assert(partner(xs, i) == ys[j]);
    }
}

/// The node that is built for an entry has the entry's path.
pub proof fn lemma_built_node_keeps_the_path(raw: RawView)
    ensures
        spec_construct(raw) matches Ok(t) ==> t.path() == raw_path(raw),
{
}

/// Two runs without repetition that hold the same nodes hold each as often.
pub proof fn lemma_same_nodes_same_counts(s: Seq<TreeView>, r: Seq<TreeView>)
    requires
        s.no_duplicates(),
        r.no_duplicates(),
        forall|v: TreeView| s.contains(v) <==> r.contains(v),
    ensures
        s.to_multiset() == r.to_multiset(),
{
    s.lemma_multiset_has_no_duplicates();
    r.lemma_multiset_has_no_duplicates();
    assert forall|v: TreeView| s.to_multiset().count(v) == r.to_multiset().count(v) by {
        to_multiset_contains(s, v);
        to_multiset_contains(r, v);
    }
    assert(s.to_multiset() =~= r.to_multiset());
}

/// Whether a node is built for `x`, and the same node for `y`.
pub open spec fn builds_alike(x: RawView, y: RawView) -> bool {
    spec_construct(x) is Ok && spec_construct(x) == spec_construct(y)
}

/// Whether some entry of `ys` builds like `x`.
pub open spec fn builds_like_one_of(x: RawView, ys: Seq<RawView>) -> bool {
    exists|j: int| 0 <= j < ys.len() && #[trigger] builds_alike(x, ys[j])
}

/// Whether `y` builds like some entry of `xs`.
pub open spec fn one_builds_like(xs: Seq<RawView>, y: RawView) -> bool {
    exists|i: int| 0 <= i < xs.len() && #[trigger] builds_alike(xs[i], y)
}

/// Two enumerations of one directory give the same ordered children, where
/// each entry of the one builds like an entry of the other and no two entries
/// of either have the same name.
pub proof fn lemma_directory_order_is_immaterial(xs: Seq<RawView>, ys: Seq<RawView>)
    requires
        distinct_entry_names(xs),
        distinct_entry_names(ys),
        forall|i: int| 0 <= i < xs.len() ==> #[trigger] builds_like_one_of(xs[i], ys),
        forall|j: int| 0 <= j < ys.len() ==> #[trigger] one_builds_like(xs, ys[j]),
    ensures
        spec_make_tree(xs) is Ok,
        spec_make_tree(xs) == spec_make_tree(ys),
{
    let ra = spec_construct_each(xs);
    let rb = spec_construct_each(ys);
    assert forall|i: int| 0 <= i < xs.len() implies (#[trigger] ra[i]) is Ok by {
        assert(builds_like_one_of(xs[i], ys));
    }
    assert forall|j: int| 0 <= j < ys.len() implies (#[trigger] rb[j]) is Ok by {
        assert(one_builds_like(xs, ys[j]));
        let i = choose|i: int| 0 <= i < xs.len() && #[trigger] builds_alike(xs[i], ys[j]);
    }
    lemma_gather(ra, 0);
    lemma_gather(rb, 0);
    let na = spec_gather(ra, 0)->Ok_0;
    let nb = spec_gather(rb, 0)->Ok_0;
    lemma_built_nodes(xs, na);
    lemma_built_nodes(ys, nb);
    assert forall|v: TreeView| na.contains(v) <==> nb.contains(v) by {
        if na.contains(v) {
            let i = choose|i: int| 0 <= i < na.len() && na[i] == v;
            assert(spec_construct(xs[i]) == Ok::<TreeView, BuildErrorView>(v));
            assert(builds_like_one_of(xs[i], ys));
            let j = choose|j: int| 0 <= j < ys.len() && #[trigger] builds_alike(xs[i], ys[j]);
            assert(spec_construct(ys[j]) == Ok::<TreeView, BuildErrorView>(nb[j]));
            assert(nb[j] == v);
        }
        if nb.contains(v) {
            let j = choose|j: int| 0 <= j < nb.len() && nb[j] == v;
            assert(spec_construct(ys[j]) == Ok::<TreeView, BuildErrorView>(v));
            assert(one_builds_like(xs, ys[j]));
            let i = choose|i: int| 0 <= i < xs.len() && #[trigger] builds_alike(xs[i], ys[j]);
            assert(spec_construct(xs[i]) == Ok::<TreeView, BuildErrorView>(na[i]));
            assert(na[i] == v);
        }
    }
    lemma_names_tell_nodes_apart(na);
    lemma_names_tell_nodes_apart(nb);
    lemma_same_nodes_same_counts(na, nb);
    law_sibling_order_is_immaterial(na, nb);
}

/// The nodes gathered for the entries of a directory are the nodes built for
/// them, one for one, and have the entries' names.
pub proof fn lemma_built_nodes(xs: Seq<RawView>, nodes: Seq<TreeView>)
    requires
        spec_gather(spec_construct_each(xs), 0) == Ok::<Seq<TreeView>, BuildErrorView>(nodes),
        distinct_entry_names(xs),
    ensures
        nodes.len() == xs.len(),
        forall|k: int|
            0 <= k < xs.len() ==> spec_construct(xs[k]) == Ok::<TreeView, BuildErrorView>(
                #[trigger] nodes[k],
            ),
        distinct_names(nodes),
{
    let rs = spec_construct_each(xs);
    lemma_gather(rs, 0);
    assert forall|k: int| 0 <= k < xs.len() implies spec_construct(xs[k]) == Ok::<
        TreeView,
        BuildErrorView,
    >(#[trigger] nodes[k]) by {
        assert(rs[0 + k] == Ok::<TreeView, BuildErrorView>(nodes[k]));
    }
    assert forall|i: int, j: int| 0 <= i < j < nodes.len() implies (#[trigger] nodes[i]).path().name
        != (#[trigger] nodes[j]).path().name by {
        lemma_built_node_keeps_the_path(xs[i]);
        lemma_built_node_keeps_the_path(xs[j]);
        assert(raw_path(xs[i]).name != raw_path(xs[j]).name);
    }
}

/// Determinism of the walk: the tree that is built does not depend on the
/// order in which any directory was enumerated. Two snapshots that differ
/// only in the order of entries, at whatever depths, give one and the same
/// tree.
pub proof fn law_enumeration_order_is_immaterial(a: RawView, b: RawView)
    requires
        snapshot(a),
        snapshot(b),
        reshuffled(a, b),
    ensures
        spec_construct(a) is Ok,
        spec_construct(a) == spec_construct(b),
    decreases a,
{
    match a {
        RawView::Dir(p, xs) => {
            let ys = b->Dir_1;
            assert(b == RawView::Dir(p, ys));
            assert forall|i: int| 0 <= i < xs.len() implies #[trigger] builds_like_one_of(
                xs[i],
                ys,
            ) by {
                assert(entry(xs, i) == xs[i]);
                let j = choose|j: int|
                    #![trigger partner(ys, j)]
                    0 <= j < ys.len() && reshuffled(entry(xs, i), partner(ys, j));
                assert(snapshot(xs[i]));
                assert(snapshot(ys[j]));
                law_enumeration_order_is_immaterial(xs[i], ys[j]);
                assert(builds_alike(xs[i], ys[j]));
            }
            assert forall|j: int| 0 <= j < ys.len() implies #[trigger] one_builds_like(
                xs,
                ys[j],
            ) by {
                assert(entry(ys, j) == ys[j]);
                let i = choose|i: int|
                    #![trigger partner(xs, i)]
                    0 <= i < xs.len() && reshuffled(partner(xs, i), entry(ys, j));
                assert(snapshot(xs[i]));
                assert(snapshot(ys[j]));
                law_enumeration_order_is_immaterial(xs[i], ys[j]);
                assert(builds_alike(xs[i], ys[j]));
            }
            lemma_directory_order_is_immaterial(xs, ys);
        },
        _ => {},
    }
}

/// Nodes of different names are different nodes.
pub proof fn lemma_names_tell_nodes_apart(s: Seq<TreeView>)
    requires
        distinct_names(s),
    ensures
        s.no_duplicates(),
{
    assert forall|i: int, j: int| 0 <= i < s.len() && 0 <= j < s.len() && i != j implies s[i]
        != s[j] by {
        if i < j {
            assert(s[i].path().name != s[j].path().name);
        } else {
            assert(s[j].path().name != s[i].path().name);
        }
    }
}

/// The ordering invariant: in every tree that is built, the children of every
/// directory are sorted by the bytes of their names.
pub proof fn law_built_trees_are_ordered(raw: RawView)
    ensures
        spec_construct(raw) matches Ok(t) ==> ordered(t),
    decreases raw,
{
    match raw {
        RawView::Dir(_, entries) => {
            let rs = spec_construct_each(entries);
            lemma_gather(rs, 0);
            if let Ok(nodes) = spec_gather(rs, 0) {
                let children = sort_siblings(nodes);
                law_sorting_orders_and_keeps(nodes);
                assert forall|i: int| 0 <= i < children.len() implies ordered(
                    #[trigger] children[i],
                ) by {
                    lemma_same_nodes(nodes, children, i);
                    let k = choose|k: int| 0 <= k < nodes.len() && nodes[k] == children[i];
                    assert(rs[0 + k] == Ok::<TreeView, BuildErrorView>(nodes[k]));
                    law_built_trees_are_ordered(entries[k]);
                }
            }
        },
        _ => {},
    }
}

} // verus!
