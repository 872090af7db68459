//! The expansion view.
//!
//! A view mirrors the namespace tree node for node and adds one flag per
//! node: whether the operator has expanded it.  A node is addressed by a
//! path of child indices, valid only within the view instance it was taken
//! from; toggling through a stale or out-of-range path is a reported no-op.

use vstd::prelude::*;

use crate::keys::key_views;
use crate::tree::NamespaceTree;
use crate::tree::RedisNamespace;

verus! {

/// One displayed namespace: its name, whether it is expanded, its nested
/// views in order, and the full keys it holds.
pub struct NamespaceView {
    pub namespace: String,
    pub is_expanded: bool,
    pub sub_namespaces: Vec<NamespaceView>,
    pub keys: Vec<String>,
}

/// The mathematical shape of a displayed namespace.
#[verifier::ext_equal]
pub ghost struct ViewNode {
    pub name: Seq<char>,
    pub expanded: bool,
    pub children: Seq<ViewNode>,
    pub keys: Seq<Seq<char>>,
}

/// The abstraction of a list of displayed namespaces.
pub open spec fn deep_view_list(vs: Seq<NamespaceView>) -> Seq<ViewNode>
    decreases vs,
{
    if vs.len() == 0 {
        Seq::empty()
    } else {
        deep_view_list(vs.drop_last()).push(vs.last().deep_view())
    }
}

/// The abstraction of a list keeps its length.
pub broadcast proof fn lemma_deep_view_list_len(vs: Seq<NamespaceView>)
    ensures
        #[trigger] deep_view_list(vs).len() == vs.len(),
    decreases vs,
{
    if vs.len() > 0 {
        lemma_deep_view_list_len(vs.drop_last());
    }
}

/// The abstraction of a list abstracts node by node.
pub broadcast proof fn lemma_deep_view_list_index(vs: Seq<NamespaceView>, i: int)
    requires
        0 <= i < vs.len(),
    ensures
        #[trigger] deep_view_list(vs)[i] == vs[i].deep_view(),
    decreases vs,
{
    lemma_deep_view_list_len(vs);
    if i < vs.len() - 1 {
        lemma_deep_view_list_index(vs.drop_last(), i);
        assert(vs.drop_last()[i] == vs[i]);
    }
}

impl NamespaceView {
    /// The node's abstraction.
    pub open spec fn deep_view(self) -> ViewNode
        decreases self,
    {
        ViewNode {
            name: self.namespace@,
            expanded: self.is_expanded,
            children: deep_view_list(self.sub_namespaces@),
            keys: key_views(self.keys@),
        }
    }
}

/// The displayed node that `path` addresses: `path[0]` indexes the top-level
/// list, each further element the children of the node reached so far.  The
/// empty path addresses nothing.
pub open spec fn view_node_at(vs: Seq<ViewNode>, path: Seq<usize>) -> Option<ViewNode>
    decreases path.len(),
{
    if path.len() == 0 {
        None
    } else if path[0] >= vs.len() {
        None
    } else {
        let n = vs[path[0] as int];
        if path.len() == 1 {
            Some(n)
        } else {
            view_node_at(n.children, path.drop_first())
        }
    }
}

/// The view after flipping the expansion flag of the node `path` addresses;
/// where the path goes out of range, the view itself.
pub open spec fn toggle_model(vs: Seq<ViewNode>, path: Seq<usize>) -> Seq<ViewNode>
    decreases path.len(),
{
    if path.len() == 0 || path[0] >= vs.len() {
        vs
    } else {
        let i = path[0] as int;
        let n = vs[i];
        if path.len() == 1 {
            vs.update(i, ViewNode { expanded: !n.expanded, ..n })
        } else {
            vs.update(i, ViewNode { children: toggle_model(n.children, path.drop_first()), ..n })
        }
    }
}

/// A path that addresses no node leaves the toggled view untouched.
pub proof fn lemma_toggle_invalid(vs: Seq<ViewNode>, path: Seq<usize>)
    requires
        view_node_at(vs, path) is None,
    ensures
        toggle_model(vs, path) == vs,
    decreases path.len(),
{
    if path.len() == 0 || path[0] >= vs.len() {
    } else {
        let i = path[0] as int;
        let n = vs[i];
        lemma_toggle_invalid(n.children, path.drop_first());
        assert(ViewNode { children: toggle_model(n.children, path.drop_first()), ..n } == n);
        assert(toggle_model(vs, path) =~= vs);
    }
}

/// Toggling the same previously-valid path twice restores the view: the
/// node's flag flips back and nothing else was touched either time.
pub proof fn lemma_toggle_involution(vs: Seq<ViewNode>, path: Seq<usize>)
    requires
        view_node_at(vs, path) is Some,
    ensures
        view_node_at(toggle_model(vs, path), path) is Some,
        toggle_model(toggle_model(vs, path), path) == vs,
    decreases path.len(),
{
    let i = path[0] as int;
    let n = vs[i];
    let v1 = toggle_model(vs, path);
    if path.len() == 1 {
        assert(v1[i] == ViewNode { expanded: !n.expanded, ..n });
        assert(toggle_model(v1, path) == v1.update(i, ViewNode { expanded: !!n.expanded, ..n }));
        assert(ViewNode { expanded: !!n.expanded, ..n } == n);
        assert(toggle_model(v1, path) =~= vs);
    } else {
        let rest = path.drop_first();
        lemma_toggle_involution(n.children, rest);
        let n1 = ViewNode { children: toggle_model(n.children, rest), ..n };
        assert(v1[i] == n1);
        assert(view_node_at(v1, path) == view_node_at(n1.children, rest));
        let n2 = ViewNode { children: toggle_model(n1.children, rest), ..n1 };
        assert(toggle_model(v1, path) == v1.update(i, n2));
        assert(n2 == n);
        assert(toggle_model(v1, path) =~= vs);
    }
}

/// Whether `path`, from position `depth` on, addresses a node of `views`.
fn resolves_from(views: &Vec<NamespaceView>, path: &Vec<usize>, depth: usize) -> (r: bool)
    requires
        depth <= path@.len(),
    ensures
        r == (view_node_at(deep_view_list(views@), path@.skip(depth as int)) is Some),
    decreases path@.len() - depth,
{
    broadcast use lemma_deep_view_list_len, lemma_deep_view_list_index;

    let ghost rest = path@.skip(depth as int);
    if depth == path.len() {
        return false;
    }
    proof {
        assert(rest[0] == path@[depth as int]);
        assert(rest.drop_first() =~= path@.skip(depth as int + 1));
    }
    let i = path[depth];
    if i >= views.len() {
        return false;
    }
    if depth + 1 == path.len() {
        true
    } else {
        proof {
            assert(deep_view_list(views@)[i as int] == views@[i as int].deep_view());
        }
        resolves_from(&views[i].sub_namespaces, path, depth + 1)
    }
}

/// Flips the expansion flag of the node that `path` addresses from position
/// `depth` on; the path must address one.
fn toggle_from(views: &mut Vec<NamespaceView>, path: &Vec<usize>, depth: usize)
    requires
        depth <= path@.len(),
        view_node_at(deep_view_list(old(views)@), path@.skip(depth as int)) is Some,
    ensures
        deep_view_list(final(views)@) == toggle_model(
            deep_view_list(old(views)@),
            path@.skip(depth as int),
        ),
    decreases path@.len() - depth,
{
    broadcast use lemma_deep_view_list_len, lemma_deep_view_list_index;

    let ghost rest = path@.skip(depth as int);
    let ghost vs0 = views@;
    let ghost m0 = deep_view_list(views@);
    proof {
        assert(rest.len() >= 1);
        assert(depth < path@.len());
        assert(rest[0] == path@[depth as int]);
        assert(rest.drop_first() =~= path@.skip(depth as int + 1));
    }
    let i = path[depth];
    let mut node = views.remove(i);
    if depth == path.len() - 1 {
        node.is_expanded = !node.is_expanded;
    } else {
        proof {
            assert(m0[i as int] == vs0[i as int].deep_view());
        }
        toggle_from(&mut node.sub_namespaces, path, depth + 1);
    }
    let ghost node2 = node;
    views.insert(i, node);
    proof {
        assert(views@ =~= vs0.update(i as int, node2));
        let n = m0[i as int];
        assert(n == vs0[i as int].deep_view());
        let goal = if rest.len() == 1 {
            ViewNode { expanded: !n.expanded, ..n }
        } else {
            ViewNode { children: toggle_model(n.children, rest.drop_first()), ..n }
        };
        assert(node2.deep_view() =~= goal);
        assert forall|m: int| 0 <= m < views@.len() implies deep_view_list(views@)[m]
            == toggle_model(m0, rest)[m] by {
            if m == i {
                assert(deep_view_list(views@)[m] == node2.deep_view());
            } else {
                assert(views@[m] == vs0[m]);
            }
        }
        assert(deep_view_list(views@) =~= toggle_model(m0, rest));
    }
}

/// Toggles the expansion flag of the node addressed by `path`.  If the path
/// goes out of range at any step, or is empty, reports failure and leaves
/// the view untouched — it never panics.
pub fn toggle(views: &mut Vec<NamespaceView>, path: &Vec<usize>) -> (ok: bool)
    ensures
        ok == (view_node_at(deep_view_list(old(views)@), path@) is Some),
        deep_view_list(final(views)@) == toggle_model(deep_view_list(old(views)@), path@),
        !ok ==> *final(views) == *old(views),
{
    broadcast use lemma_deep_view_list_len, lemma_deep_view_list_index;

    proof {
        assert(path@.skip(0) =~= path@);
    }
    if !resolves_from(views, path, 0) {
        proof {
            lemma_toggle_invalid(deep_view_list(views@), path@);
        }
        return false;
    }
    toggle_from(views, path, 0);
    true
}

/// The view of a namespace as first built: the same shape, collapsed.
pub open spec fn fresh_view(n: RedisNamespace) -> ViewNode
    decreases n,
{
    ViewNode {
        name: n.name@,
        expanded: false,
        children: fresh_view_list(n.sub_namespaces@),
        keys: key_views(n.keys@),
    }
}

/// The views of a list of namespaces as first built, in order.
pub open spec fn fresh_view_list(ns: Seq<RedisNamespace>) -> Seq<ViewNode>
    decreases ns,
{
    if ns.len() == 0 {
        Seq::empty()
    } else {
        fresh_view_list(ns.drop_last()).push(fresh_view(ns.last()))
    }
}

/// Freshly built views keep the list's length.
pub broadcast proof fn lemma_fresh_view_list_len(ns: Seq<RedisNamespace>)
    ensures
        #[trigger] fresh_view_list(ns).len() == ns.len(),
    decreases ns,
{
    if ns.len() > 0 {
        lemma_fresh_view_list_len(ns.drop_last());
    }
}

/// Freshly built views mirror the list namespace by namespace.
pub broadcast proof fn lemma_fresh_view_list_index(ns: Seq<RedisNamespace>, i: int)
    requires
        0 <= i < ns.len(),
    ensures
        #[trigger] fresh_view_list(ns)[i] == fresh_view(ns[i]),
    decreases ns,
{
    lemma_fresh_view_list_len(ns);
    if i < ns.len() - 1 {
        lemma_fresh_view_list_index(ns.drop_last(), i);
        assert(ns.drop_last()[i] == ns[i]);
    }
}

/// The synthetic root's view: named by the empty string, collapsed, no
/// nested namespaces, holding the tree's root-level keys.
pub open spec fn root_view(t: NamespaceTree) -> ViewNode {
    ViewNode {
        name: Seq::empty(),
        expanded: false,
        children: Seq::empty(),
        keys: key_views(t.root_keys@),
    }
}

/// The view list of a whole tree as first built: the top-level namespaces in
/// order, then the synthetic root.
pub open spec fn fresh_tree_views(t: NamespaceTree) -> Seq<ViewNode> {
    fresh_view_list(t.namespaces@).push(root_view(t))
}

/// Whether every node of a view, at every depth, is collapsed.
pub open spec fn all_collapsed(vs: Seq<ViewNode>) -> bool
    decreases vs,
{
    if vs.len() == 0 {
        true
    } else {
        all_collapsed(vs.drop_last()) && !vs.last().expanded && all_collapsed(vs.last().children)
    }
}

/// A freshly built view is collapsed everywhere: no expansion state survives
/// a rebuild.
pub proof fn lemma_fresh_views_collapsed(ns: Seq<RedisNamespace>)
    ensures
        all_collapsed(fresh_view_list(ns)),
    decreases ns,
{
    if ns.len() > 0 {
        lemma_fresh_views_collapsed(ns.drop_last());
        lemma_fresh_views_collapsed(ns.last().sub_namespaces@);
        let vs = fresh_view_list(ns);
        assert(vs.drop_last() =~= fresh_view_list(ns.drop_last()));
        assert(vs.last() == fresh_view(ns.last()));
    }
}

/// The whole fresh tree view, root included, is collapsed everywhere.
pub proof fn lemma_fresh_tree_views_collapsed(t: NamespaceTree)
    ensures
        all_collapsed(fresh_tree_views(t)),
{
    lemma_fresh_views_collapsed(t.namespaces@);
    let vs = fresh_tree_views(t);
    assert(vs.drop_last() =~= fresh_view_list(t.namespaces@));
    assert(vs.last() == root_view(t));
    assert(all_collapsed(Seq::<ViewNode>::empty()));
    assert(all_collapsed(vs.drop_last()));
    assert(all_collapsed(vs.last().children));
}

/// The same view with every node collapsed; structure, names and keys kept.
pub open spec fn collapse_all(vs: Seq<ViewNode>) -> Seq<ViewNode>
    decreases vs,
{
    if vs.len() == 0 {
        Seq::empty()
    } else {
        collapse_all(vs.drop_last()).push(
            ViewNode { expanded: false, children: collapse_all(vs.last().children), ..vs.last() },
        )
    }
}

/// Collapsing keeps the list's length.
pub broadcast proof fn lemma_collapse_all_len(vs: Seq<ViewNode>)
    ensures
        #[trigger] collapse_all(vs).len() == vs.len(),
    decreases vs,
{
    if vs.len() > 0 {
        lemma_collapse_all_len(vs.drop_last());
    }
}

/// Collapsing works node by node.
pub broadcast proof fn lemma_collapse_all_index(vs: Seq<ViewNode>, i: int)
    requires
        0 <= i < vs.len(),
    ensures
        #[trigger] collapse_all(vs)[i] == (ViewNode {
            expanded: false,
            children: collapse_all(vs[i].children),
            ..vs[i]
        }),
    decreases vs,
{
    lemma_collapse_all_len(vs);
    if i < vs.len() - 1 {
        lemma_collapse_all_index(vs.drop_last(), i);
        assert(vs.drop_last()[i] == vs[i]);
    }
}

/// A view that is collapsed everywhere collapses to itself.
pub proof fn lemma_collapse_all_identity(vs: Seq<ViewNode>)
    requires
        all_collapsed(vs),
    ensures
        collapse_all(vs) == vs,
    decreases vs,
{
    if vs.len() > 0 {
        lemma_collapse_all_identity(vs.drop_last());
        lemma_collapse_all_identity(vs.last().children);
        assert(ViewNode {
            expanded: false,
            children: collapse_all(vs.last().children),
            ..vs.last()
        } == vs.last());
        assert(collapse_all(vs) =~= vs);
    }
}

/// Toggling changes no name, key, or structure: the collapsed picture is
/// the same before and after.
pub proof fn lemma_toggle_keeps_shape(vs: Seq<ViewNode>, path: Seq<usize>)
    ensures
        collapse_all(toggle_model(vs, path)) == collapse_all(vs),
    decreases path.len(),
{
    broadcast use lemma_collapse_all_len, lemma_collapse_all_index;

    if path.len() == 0 || path[0] >= vs.len() {
    } else {
        let i = path[0] as int;
        let n = vs[i];
        let n2 = if path.len() == 1 {
            ViewNode { expanded: !n.expanded, ..n }
        } else {
            ViewNode { children: toggle_model(n.children, path.drop_first()), ..n }
        };
        let vs2 = vs.update(i, n2);
        assert(toggle_model(vs, path) == vs2);
        if path.len() > 1 {
            lemma_toggle_keeps_shape(n.children, path.drop_first());
        }
        assert forall|m: int| 0 <= m < vs.len() implies collapse_all(vs2)[m] == collapse_all(
            vs,
        )[m] by {
            if m == i {
                assert(collapse_all(n2.children) == collapse_all(n.children));
            } else {
                assert(vs2[m] == vs[m]);
            }
        }
        assert(collapse_all(vs2) =~= collapse_all(vs));
    }
}

/// Copies a key list.
fn clone_keys(v: &Vec<String>) -> (r: Vec<String>)
    ensures
        r@ == v@,
{
    let mut r: Vec<String> = Vec::new();
    let mut i: usize = 0;
    while i < v.len()
        invariant
            i <= v@.len(),
            r@ == v@.take(i as int),
        decreases v@.len() - i,
    {
        r.push(v[i].clone());
        proof {
            assert(r@ =~= v@.take(i as int + 1));
        }
        i += 1;
    }
    proof {
        assert(v@.take(v@.len() as int) =~= v@);
    }
    r
}

impl NamespaceView {
    /// Builds the collapsed view of one namespace.
    pub fn new(ns: &RedisNamespace) -> (v: NamespaceView)
        ensures
            v.deep_view() == fresh_view(*ns),
        decreases *ns,
    {
        broadcast use lemma_deep_view_list_len, lemma_deep_view_list_index;
        broadcast use lemma_fresh_view_list_len, lemma_fresh_view_list_index;

        let mut subs: Vec<NamespaceView> = Vec::new();
        let mut i: usize = 0;
        while i < ns.sub_namespaces.len()
            invariant
                i <= ns.sub_namespaces@.len(),
                subs@.len() == i,
                forall|j: int|
                    0 <= j < i ==> (#[trigger] subs@[j]).deep_view() == fresh_view(
                        ns.sub_namespaces@[j],
                    ),
            decreases ns.sub_namespaces@.len() - i,
        {
            let child = NamespaceView::new(&ns.sub_namespaces[i]);
            subs.push(child);
            i += 1;
        }
        let v = NamespaceView {
            namespace: ns.name.clone(),
            is_expanded: false,
            sub_namespaces: subs,
            keys: clone_keys(&ns.keys),
        };
        proof {
            assert forall|j: int| 0 <= j < v.sub_namespaces@.len() implies deep_view_list(
                v.sub_namespaces@,
            )[j] == fresh_view_list(ns.sub_namespaces@)[j] by {}
            assert(deep_view_list(v.sub_namespaces@) =~= fresh_view_list(ns.sub_namespaces@));
            assert(v.deep_view() =~= fresh_view(*ns));
        }
        v
    }
}

/// Builds the view list of a whole tree: the top-level namespaces in order,
/// then the synthetic root named by the empty string; every node collapsed.
pub fn create_namespace_views(tree: &NamespaceTree) -> (vs: Vec<NamespaceView>)
    ensures
        deep_view_list(vs@) == fresh_tree_views(*tree),
{
    broadcast use lemma_deep_view_list_len, lemma_deep_view_list_index;
    broadcast use lemma_fresh_view_list_len, lemma_fresh_view_list_index;

    let mut vs: Vec<NamespaceView> = Vec::new();
    let mut i: usize = 0;
    while i < tree.namespaces.len()
        invariant
            i <= tree.namespaces@.len(),
            vs@.len() == i,
            forall|j: int|
                0 <= j < i ==> (#[trigger] vs@[j]).deep_view() == fresh_view(tree.namespaces@[j]),
        decreases tree.namespaces@.len() - i,
    {
        let node = NamespaceView::new(&tree.namespaces[i]);
        vs.push(node);
        i += 1;
    }
    let root = NamespaceView {
        namespace: String::new(),
        is_expanded: false,
        sub_namespaces: Vec::new(),
        keys: clone_keys(&tree.root_keys),
    };
    proof {
        assert(deep_view_list(root.sub_namespaces@) =~= Seq::<ViewNode>::empty());
        assert(root.deep_view() =~= root_view(*tree));
    }
    vs.push(root);
    proof {
        assert forall|j: int| 0 <= j < vs@.len() implies deep_view_list(vs@)[j] == fresh_tree_views(
            *tree,
        )[j] by {
            if j < vs@.len() - 1 {
                assert(fresh_tree_views(*tree)[j] == fresh_view_list(tree.namespaces@)[j]);
            } else {
                assert(deep_view_list(vs@)[j] == root.deep_view());
            }
        }
        assert(deep_view_list(vs@) =~= fresh_tree_views(*tree));
    }
    vs
}

} // verus!
