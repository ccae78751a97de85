//! Every operation of the node store keeps a valid store valid.

use crate::intern::{key_of, lemma_names_with};
use crate::node_id::NodeId;
use crate::node_store::{differs_from, AttributeValueView, NodeStoreView, NodeView};
use vstd::prelude::*;

verus! {

/// What is left of a list of children once `id` is taken out.
pub proof fn lemma_without(s: Seq<NodeId>, id: NodeId)
    ensures
        !s.filter(differs_from(id)).contains(id),
        forall|x: NodeId|
            x != id ==> (#[trigger] s.filter(differs_from(id)).contains(x) <==> s.contains(x)),
        s.no_duplicates() ==> s.filter(differs_from(id)).no_duplicates(),
        !s.contains(id) ==> s.filter(differs_from(id)) == s,
    decreases s.len(),
{
    let p = differs_from(id);
    let f = s.filter(p);
    assert(!f.contains(id)) by {
        if f.contains(id) {
            let k = choose|k: int| 0 <= k < f.len() && f[k] == id;
            s.lemma_filter_pred(p, k);
        }
    }
    assert forall|x: NodeId| x != id implies (#[trigger] f.contains(x) <==> s.contains(x)) by {
        if f.contains(x) {
            s.lemma_filter_contains_rev(p, x);
        }
        if s.contains(x) {
            let k = choose|k: int| 0 <= k < s.len() && s[k] == x;
            s.lemma_filter_contains(p, k);
        }
    }
    if s.len() > 0 {
        let front = s.drop_last();
        let last = s.last();
        assert(s =~= front.push(last));
        front.lemma_filter_push(last, p);
        lemma_without(front, id);
        if s.no_duplicates() {
            assert(front.no_duplicates()) by {
                assert forall|a: int, b: int|
                    0 <= a < front.len() && 0 <= b < front.len() && a != b implies front[a]
                    != front[b] by {
                    assert(front[a] == s[a] && front[b] == s[b]);
                }
            }
            if p(last) {
                assert(!front.contains(last)) by {
                    if front.contains(last) {
                        let k = choose|k: int| 0 <= k < front.len() && front[k] == last;
                        assert(s[k] == s[s.len() - 1]);
                    }
                }
                assert(!front.filter(p).contains(last));
                let g = front.filter(p);
                assert forall|a: int, b: int|
                    0 <= a < f.len() && 0 <= b < f.len() && a != b implies f[a] != f[b] by {
                    if a < g.len() && b < g.len() {
                        assert(f[a] == g[a] && f[b] == g[b]);
                    } else if a < g.len() {
                        assert(g.contains(g[a]));
                    } else if b < g.len() {
                        assert(g.contains(g[b]));
                    }
                }
            }
        }
        if !s.contains(id) {
            assert(!front.contains(id)) by {
                if front.contains(id) {
                    let k = choose|k: int| 0 <= k < front.len() && front[k] == id;
                    assert(s[k] == id);
                }
            }
            assert(s[s.len() - 1] != id);
            assert(f =~= s);
        }
    } else {
        s.lemma_filter_len(p);
        assert(f =~= s);
    }
}

/// What a list of children holds once `c` has been put in at `index`.
pub proof fn lemma_insert(q: Seq<NodeId>, index: int, c: NodeId)
    requires
        0 <= index <= q.len(),
    ensures
        forall|x: NodeId| #[trigger] q.insert(index, c).contains(x) <==> x == c || q.contains(x),
        q.no_duplicates() && !q.contains(c) ==> q.insert(index, c).no_duplicates(),
{
    let r = q.insert(index, c);
    q.insert_ensures(index, c);
    assert forall|x: NodeId| #[trigger] r.contains(x) <==> x == c || q.contains(x) by {
        if r.contains(x) {
            let k = choose|k: int| 0 <= k < r.len() && r[k] == x;
            if k < index {
                assert(q[k] == x);
            } else if k > index {
                assert(r[(k - 1) + 1] == q[k - 1]);
                assert(q[k - 1] == x);
            }
        }
        if x == c {
            assert(r[index] == c);
        }
        if q.contains(x) {
            let k = choose|k: int| 0 <= k < q.len() && q[k] == x;
            if k < index {
                assert(r[k] == x);
            } else {
                assert(r[k + 1] == x);
            }
        }
    }
    if q.no_duplicates() && !q.contains(c) {
        assert forall|a: int, b: int|
            0 <= a < r.len() && 0 <= b < r.len() && a != b implies r[a] != r[b] by {
            let qa = if a < index {
                a
            } else {
                a - 1
            };
            let qb = if b < index {
                b
            } else {
                b - 1
            };
            if a != index {
                assert(r[a] == q[qa]) by {
                    if a > index {
                        assert(r[(a - 1) + 1] == q[a - 1]);
                    }
                }
                assert(q.contains(q[qa]));
            }
            if b != index {
                assert(r[b] == q[qb]) by {
                    if b > index {
                        assert(r[(b - 1) + 1] == q[b - 1]);
                    }
                }
                assert(q.contains(q[qb]));
            }
        }
    }
}

pub proof fn lemma_add_node_wf(s: NodeStoreView, id: NodeId)
    requires
        s.wf(),
    ensures
        s.add_node(id) matches Ok(t) ==> t.wf(),
{
    if let Ok(t) = s.add_node(id) {
        let n = s.nodes.len() as int;
        assert(t.nodes[n] == NodeView::fresh(id));
        assert forall|k: int| 0 <= k < n implies t.nodes[k] == s.nodes[k] by {}
        assert(t.ids_distinct()) by {
            assert forall|i: int, j: int| 0 <= i < j < t.nodes.len() implies (
            #[trigger] t.nodes[i]).id != (#[trigger] t.nodes[j]).id by {
                assert(t.nodes[i] == s.nodes[i]);
                if j < n {
                    assert(t.nodes[j] == s.nodes[j]);
                }
            }
        }
        assert(t.ids_allocated()) by {
            assert forall|i: int| 0 <= i < t.nodes.len() implies (
            #[trigger] t.nodes[i]).id.is_node() by {
                if i < n {
                    assert(t.nodes[i] == s.nodes[i]);
                }
            }
        }
        assert(t.links_consistent()) by {
            assert forall|i: int| 0 <= i < t.nodes.len() implies (
            #[trigger] t.nodes[i]).children.no_duplicates() by {
                if i < n {
                    assert(t.nodes[i] == s.nodes[i]);
                }
            }
            assert forall|i: int, x: NodeId|
                0 <= i < t.nodes.len() && #[trigger] t.nodes[i].children.contains(
                    x,
                ) implies t.names_parent(x, t.nodes[i].id) by {
                if i < n {
                    assert(t.nodes[i] == s.nodes[i]);
                    assert(s.nodes[i].children.contains(x));
                    assert(s.names_parent(x, s.nodes[i].id));
                    let j = choose|j: int|
                        0 <= j < s.nodes.len() && (#[trigger] s.nodes[j]).id == x
                            && s.nodes[j].parent == s.nodes[i].id;
                    assert(t.nodes[j] == s.nodes[j]);
                }
            }
            assert forall|j: int|
                0 <= j < t.nodes.len() && (#[trigger] t.nodes[j]).parent.is_node(
                ) implies t.lists_child(t.nodes[j].parent, t.nodes[j].id) by {
                assert(j < n);
                assert(t.nodes[j] == s.nodes[j]);
                assert(s.lists_child(s.nodes[j].parent, s.nodes[j].id));
                let i = choose|i: int|
                    0 <= i < s.nodes.len() && (#[trigger] s.nodes[i]).id == s.nodes[j].parent
                        && s.nodes[i].children.contains(s.nodes[j].id);
                assert(t.nodes[i] == s.nodes[i]);
            }
        }
        assert(t.keys_interned()) by {
            assert forall|i: int, key: usize|
                0 <= i < t.nodes.len() && #[trigger] t.nodes[i].attributes.contains_key(
                    key,
                ) implies key < t.attribute_names.len() by {
                assert(i < n);
                assert(t.nodes[i] == s.nodes[i]);
                assert(s.nodes[i].attributes.contains_key(key));
            }
        }
    }
}

pub proof fn lemma_set_attribute_wf(
    s: NodeStoreView,
    node: NodeId,
    name: Seq<char>,
    value: AttributeValueView,
)
    requires
        s.wf(),
    ensures
        s.set_attribute(node, name, value) matches Ok(t) ==> t.wf(),
{
    if let Ok(t) = s.set_attribute(node, name, value) {
        lemma_names_with(s.attribute_names, name);
        let key = key_of(s.attribute_names, name) as usize;
        assert forall|k: int| 0 <= k < s.nodes.len() implies (#[trigger] t.nodes[k]).id
            == s.nodes[k].id && t.nodes[k].parent == s.nodes[k].parent && t.nodes[k].children
            == s.nodes[k].children by {}
        assert(t.ids_distinct());
        assert(t.ids_allocated());
        assert(t.links_consistent()) by {
            assert forall|i: int, x: NodeId|
                0 <= i < t.nodes.len() && #[trigger] t.nodes[i].children.contains(
                    x,
                ) implies t.names_parent(x, t.nodes[i].id) by {
                assert(s.nodes[i].children.contains(x));
                assert(s.names_parent(x, s.nodes[i].id));
                let j = choose|j: int|
                    0 <= j < s.nodes.len() && (#[trigger] s.nodes[j]).id == x
                        && s.nodes[j].parent == s.nodes[i].id;
                assert(t.nodes[j].id == x);
            }
            assert forall|j: int|
                0 <= j < t.nodes.len() && (#[trigger] t.nodes[j]).parent.is_node(
                ) implies t.lists_child(t.nodes[j].parent, t.nodes[j].id) by {
                assert(s.nodes[j].parent.is_node());
                assert(s.lists_child(s.nodes[j].parent, s.nodes[j].id));
                let i = choose|i: int|
                    0 <= i < s.nodes.len() && (#[trigger] s.nodes[i]).id == s.nodes[j].parent
                        && s.nodes[i].children.contains(s.nodes[j].id);
                assert(t.nodes[i].id == s.nodes[i].id);
            }
        }
        assert(t.keys_interned()) by {
            assert forall|i: int, k: usize|
                0 <= i < t.nodes.len() && #[trigger] t.nodes[i].attributes.contains_key(
                    k,
                ) implies k < t.attribute_names.len() by {
                if k != key {
                    assert(s.nodes[i].attributes.contains_key(k));
                }
            }
        }
    }
}

pub proof fn lemma_remove_node_wf(s: NodeStoreView, id: NodeId)
    requires
        s.wf(),
    ensures
        s.remove_node(id) matches Ok(t) ==> t.wf(),
{
    if let Ok(t) = s.remove_node(id) {
        let at = s.index_of(id);
        assert(0 <= at < s.nodes.len() && s.nodes[at].id == id);
        let old_at = |k: int|
            if k < at {
                k
            } else {
                k + 1
            };
        assert forall|k: int| 0 <= k < t.nodes.len() implies #[trigger] t.nodes[k]
            == s.nodes[old_at(k)].forget(id) && 0 <= old_at(k) < s.nodes.len() && old_at(k)
            != at by {}
        assert(t.ids_distinct()) by {
            assert forall|i: int, j: int| 0 <= i < j < t.nodes.len() implies (
            #[trigger] t.nodes[i]).id != (#[trigger] t.nodes[j]).id by {
                assert(s.nodes[old_at(i)].id != s.nodes[old_at(j)].id);
            }
        }
        assert(t.ids_allocated()) by {
            assert forall|i: int| 0 <= i < t.nodes.len() implies (
            #[trigger] t.nodes[i]).id.is_node() by {
                assert(s.nodes[old_at(i)].id.is_node());
            }
        }
        assert(t.links_consistent()) by {
            assert forall|i: int| 0 <= i < t.nodes.len() implies (
            #[trigger] t.nodes[i]).children.no_duplicates() by {
                lemma_without(s.nodes[old_at(i)].children, id);
            }
            assert forall|i: int, x: NodeId|
                0 <= i < t.nodes.len() && #[trigger] t.nodes[i].children.contains(
                    x,
                ) implies t.names_parent(x, t.nodes[i].id) by {
                let oi = old_at(i);
                lemma_without(s.nodes[oi].children, id);
                assert(x != id);
                assert(s.nodes[oi].children.contains(x));
                assert(s.names_parent(x, s.nodes[oi].id));
                let oj = choose|j: int|
                    0 <= j < s.nodes.len() && (#[trigger] s.nodes[j]).id == x
                        && s.nodes[j].parent == s.nodes[oi].id;
                assert(oj != at);
                let j = if oj < at {
                    oj
                } else {
                    oj - 1
                };
                assert(old_at(j) == oj);
                assert(s.nodes[oi].id != s.nodes[at].id);
                assert(t.nodes[j].id == x && t.nodes[j].parent == t.nodes[i].id);
            }
            assert forall|j: int|
                0 <= j < t.nodes.len() && (#[trigger] t.nodes[j]).parent.is_node(
                ) implies t.lists_child(t.nodes[j].parent, t.nodes[j].id) by {
                let oj = old_at(j);
                assert(s.nodes[oj].parent != id);
                assert(s.nodes[oj].parent.is_node());
                assert(s.lists_child(s.nodes[oj].parent, s.nodes[oj].id));
                let oi = choose|i: int|
                    0 <= i < s.nodes.len() && (#[trigger] s.nodes[i]).id == s.nodes[oj].parent
                        && s.nodes[i].children.contains(s.nodes[oj].id);
                assert(oi != at);
                let i = if oi < at {
                    oi
                } else {
                    oi - 1
                };
                assert(old_at(i) == oi);
                lemma_without(s.nodes[oi].children, id);
                assert(s.nodes[oj].id != s.nodes[at].id);
                assert(t.nodes[i].id == t.nodes[j].parent);
                assert(t.nodes[i].children.contains(t.nodes[j].id));
            }
        }
        assert(t.keys_interned()) by {
            assert forall|i: int, key: usize|
                0 <= i < t.nodes.len() && #[trigger] t.nodes[i].attributes.contains_key(
                    key,
                ) implies key < t.attribute_names.len() by {
                assert(s.nodes[old_at(i)].attributes.contains_key(key));
            }
        }
    }
}

pub proof fn lemma_add_child_wf(s: NodeStoreView, parent: NodeId, child: NodeId, index: u64)
    requires
        s.wf(),
    ensures
        s.add_child(parent, child, index) matches Ok(t) ==> t.wf(),
{
    if let Ok(t) = s.add_child(parent, child, index) {
        let ci = s.index_of(child);
        assert(0 <= ci < s.nodes.len() && s.nodes[ci].id == child);
        let under_root = parent == NodeId::root();
        let pi = s.index_of(parent);
        if !under_root {
            assert(0 <= pi < s.nodes.len() && s.nodes[pi].id == parent);
            lemma_without(s.nodes[pi].children, child);
            lemma_insert(s.nodes[pi].children.filter(differs_from(child)), index as int, child);
        }
        assert forall|k: int| 0 <= k < s.nodes.len() implies (#[trigger] t.nodes[k]).id
            == s.nodes[k].id && t.nodes[k].attributes == s.nodes[k].attributes && t.nodes[k]
            == (if under_root {
            s.nodes[k].adopt_by_root(child)
        } else {
            s.nodes[k].adopt(parent, child, index as int)
        }) by {}
        assert(t.ids_distinct());
        assert(t.ids_allocated());
        assert(t.keys_interned()) by {
            assert forall|i: int, key: usize|
                0 <= i < t.nodes.len() && #[trigger] t.nodes[i].attributes.contains_key(
                    key,
                ) implies key < t.attribute_names.len() by {
                assert(s.nodes[i].attributes.contains_key(key));
            }
        }
        assert(t.links_consistent()) by {
            assert forall|i: int| 0 <= i < t.nodes.len() implies (
            #[trigger] t.nodes[i]).children.no_duplicates() by {
                lemma_without(s.nodes[i].children, child);
                if !under_root && i != pi {
                    assert(s.nodes[i].id != s.nodes[pi].id);
                }
            }
            assert forall|i: int, x: NodeId|
                0 <= i < t.nodes.len() && #[trigger] t.nodes[i].children.contains(
                    x,
                ) implies t.names_parent(x, t.nodes[i].id) by {
                lemma_without(s.nodes[i].children, child);
                if !under_root && i != pi {
                    assert(s.nodes[i].id != s.nodes[pi].id);
                }
                if x == child {
                    assert(!under_root && i == pi);
                    assert(t.nodes[ci].id == child && t.nodes[ci].parent == t.nodes[i].id);
                } else {
                    assert(s.nodes[i].children.contains(x));
                    assert(s.names_parent(x, s.nodes[i].id));
                    let j = choose|j: int|
                        0 <= j < s.nodes.len() && (#[trigger] s.nodes[j]).id == x
                            && s.nodes[j].parent == s.nodes[i].id;
                    assert(t.nodes[j].id == x && t.nodes[j].parent == t.nodes[i].id);
                }
            }
            assert forall|j: int|
                0 <= j < t.nodes.len() && (#[trigger] t.nodes[j]).parent.is_node(
                ) implies t.lists_child(t.nodes[j].parent, t.nodes[j].id) by {
                if s.nodes[j].id == child {
                    assert(!under_root);
                    assert(t.nodes[pi].id == parent);
                    assert(t.nodes[pi].children.contains(child));
                } else {
                    assert(s.nodes[j].parent.is_node());
                    assert(s.lists_child(s.nodes[j].parent, s.nodes[j].id));
                    let i = choose|i: int|
                        0 <= i < s.nodes.len() && (#[trigger] s.nodes[i]).id == s.nodes[j].parent
                            && s.nodes[i].children.contains(s.nodes[j].id);
                    lemma_without(s.nodes[i].children, child);
                    if !under_root && i != pi {
                        assert(s.nodes[i].id != s.nodes[pi].id);
                    }
                    assert(t.nodes[i].id == t.nodes[j].parent);
                    assert(t.nodes[i].children.contains(t.nodes[j].id));
                }
            }
        }
    }
}

pub proof fn lemma_remove_child_wf(s: NodeStoreView, parent: NodeId, child: NodeId)
    requires
        s.wf(),
    ensures
        s.remove_child(parent, child) matches Ok(t) ==> t.wf(),
{
    if let Ok(t) = s.remove_child(parent, child) {
        let under_root = parent == NodeId::root();
        let pi = s.index_of(parent);
        let ci = s.index_of(child);
        if under_root {
            assert(0 <= ci < s.nodes.len() && s.nodes[ci].id == child);
            assert(s.nodes[ci].parent == NodeId::root());
        } else {
            assert(0 <= pi < s.nodes.len() && s.nodes[pi].id == parent);
            assert(s.nodes[pi].children.contains(child));
            assert(s.names_parent(child, s.nodes[pi].id));
        }
        assert forall|k: int| 0 <= k < s.nodes.len() implies (#[trigger] t.nodes[k]).id
            == s.nodes[k].id && t.nodes[k].attributes == s.nodes[k].attributes && t.nodes[k]
            == (if under_root {
            s.nodes[k].release_from_root(child)
        } else {
            s.nodes[k].release(parent, child)
        }) by {}
        assert(t.ids_distinct());
        assert(t.ids_allocated());
        assert(t.keys_interned()) by {
            assert forall|i: int, key: usize|
                0 <= i < t.nodes.len() && #[trigger] t.nodes[i].attributes.contains_key(
                    key,
                ) implies key < t.attribute_names.len() by {
                assert(s.nodes[i].attributes.contains_key(key));
            }
        }
        assert(t.links_consistent()) by {
            assert forall|i: int| 0 <= i < t.nodes.len() implies (
            #[trigger] t.nodes[i]).children.no_duplicates() by {
                lemma_without(s.nodes[i].children, child);
            }
            assert forall|i: int, x: NodeId|
                0 <= i < t.nodes.len() && #[trigger] t.nodes[i].children.contains(
                    x,
                ) implies t.names_parent(x, t.nodes[i].id) by {
                lemma_without(s.nodes[i].children, child);
                assert(s.nodes[i].children.contains(x));
                assert(s.names_parent(x, s.nodes[i].id));
                let j = choose|j: int|
                    0 <= j < s.nodes.len() && (#[trigger] s.nodes[j]).id == x
                        && s.nodes[j].parent == s.nodes[i].id;
                assert(s.nodes[i].id.is_node());
                if x == child {
                    if under_root {
                        assert(j == ci) by {
                            if j < ci {
                                assert(s.nodes[j].id != s.nodes[ci].id);
                            } else if ci < j {
                                assert(s.nodes[ci].id != s.nodes[j].id);
                            }
                        }
                        assert(false);
                    } else {
                        let j2 = choose|j2: int|
                            0 <= j2 < s.nodes.len() && (#[trigger] s.nodes[j2]).id == child
                                && s.nodes[j2].parent == s.nodes[pi].id;
                        assert(j == j2) by {
                            if j < j2 {
                                assert(s.nodes[j].id != s.nodes[j2].id);
                            } else if j2 < j {
                                assert(s.nodes[j2].id != s.nodes[j].id);
                            }
                        }
                        assert(i == pi) by {
                            if i < pi {
                                assert(s.nodes[i].id != s.nodes[pi].id);
                            } else if pi < i {
                                assert(s.nodes[pi].id != s.nodes[i].id);
                            }
                        }
                        assert(false);
                    }
                }
                assert(t.nodes[j].id == x && t.nodes[j].parent == t.nodes[i].id);
            }
            assert forall|j: int|
                0 <= j < t.nodes.len() && (#[trigger] t.nodes[j]).parent.is_node(
                ) implies t.lists_child(t.nodes[j].parent, t.nodes[j].id) by {
                assert(s.nodes[j].id != child);
                assert(s.nodes[j].parent.is_node());
                assert(s.lists_child(s.nodes[j].parent, s.nodes[j].id));
                let i = choose|i: int|
                    0 <= i < s.nodes.len() && (#[trigger] s.nodes[i]).id == s.nodes[j].parent
                        && s.nodes[i].children.contains(s.nodes[j].id);
                lemma_without(s.nodes[i].children, child);
                assert(t.nodes[i].id == t.nodes[j].parent);
                assert(t.nodes[i].children.contains(t.nodes[j].id));
            }
        }
    }
}

} // verus!
