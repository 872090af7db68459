//! The namespace tree.
//!
//! A flat list of store keys is grouped into a tree by splitting each key on
//! the delimiter: every segment but the last names a nested namespace, and
//! the full key is recorded at the namespace named by its next-to-last
//! segment.  Keys with a single segment live beside the tree, in the
//! synthetic root namespace.
//!
//! The tree is specified against a canonical model: a map from namespace
//! paths (sequences of segment names) to the set of full keys recorded
//! there.  The canonical model is a function of the *set* of keys alone, so
//! building the tree from any permutation of the same key list yields the
//! same model.

use vstd::prelude::*;

use crate::keys::contains_key;
use crate::keys::key_set;
use crate::keys::key_views;
use crate::keys::segments;
use crate::keys::split_key;

verus! {

/// One namespace: a segment name, its nested namespaces, and the full keys
/// whose next-to-last segment ends here.
pub struct RedisNamespace {
    pub name: String,
    pub sub_namespaces: Vec<RedisNamespace>,
    pub keys: Vec<String>,
}

/// The whole tree: the top-level namespaces, and the keys with no delimiter,
/// which belong to the synthetic root.
pub struct NamespaceTree {
    pub namespaces: Vec<RedisNamespace>,
    pub root_keys: Vec<String>,
}

/// The first namespace in `ns` whose name is `name`.
pub open spec fn find_ns(ns: Seq<RedisNamespace>, name: Seq<char>) -> Option<RedisNamespace>
    decreases ns.len(),
{
    if ns.len() == 0 {
        None
    } else if ns[0].name@ == name {
        Some(ns[0])
    } else {
        find_ns(ns.drop_first(), name)
    }
}

/// The namespace reached from the forest `ns` by following the segment names
/// in `path`, if every step exists.  The empty path resolves to nothing: the
/// synthetic root is not part of the forest.
pub open spec fn resolve(ns: Seq<RedisNamespace>, path: Seq<Seq<char>>) -> Option<RedisNamespace>
    decreases path.len(),
{
    if path.len() == 0 {
        None
    } else {
        match find_ns(ns, path[0]) {
            None => None,
            Some(n) => if path.len() == 1 {
                Some(n)
            } else {
                resolve(n.sub_namespaces@, path.drop_first())
            },
        }
    }
}

/// The abstraction of a forest: each reachable path is mapped to the set of
/// full keys recorded at its namespace.
pub open spec fn forest_model(ns: Seq<RedisNamespace>) -> Map<Seq<Seq<char>>, Set<Seq<char>>> {
    Map::new(
        |p: Seq<Seq<char>>| resolve(ns, p) is Some,
        |p: Seq<Seq<char>>| key_set(resolve(ns, p).unwrap().keys@),
    )
}

/// Whether `p` is a namespace path demanded by some key in `keys`: a proper,
/// non-empty prefix of that key's segments.
pub open spec fn is_node_path(keys: Set<Seq<char>>, p: Seq<Seq<char>>) -> bool {
    exists|k: Seq<char>|
        #[trigger] keys.contains(k) && 1 <= p.len() < segments(k).len() && p == segments(k).take(
            p.len() as int,
        )
}

/// The keys of `keys` that are recorded at path `p`: all of whose segments
/// except the last spell out `p`.
pub open spec fn keys_at(keys: Set<Seq<char>>, p: Seq<Seq<char>>) -> Set<Seq<char>> {
    Set::new(
        |k: Seq<char>|
            keys.contains(k) && segments(k).len() == p.len() + 1 && segments(k).take(
                p.len() as int,
            ) == p,
    )
}

/// The canonical tree model of a key set: a function of the set alone.
pub open spec fn canonical_model(keys: Set<Seq<char>>) -> Map<Seq<Seq<char>>, Set<Seq<char>>> {
    Map::new(|p: Seq<Seq<char>>| is_node_path(keys, p), |p: Seq<Seq<char>>| keys_at(keys, p))
}

/// The keys of `keys` with a single segment: they belong to the synthetic
/// root, not to any namespace.
pub open spec fn root_level_keys(keys: Set<Seq<char>>) -> Set<Seq<char>> {
    Set::new(|k: Seq<char>| keys.contains(k) && segments(k).len() == 1)
}

impl RedisNamespace {
    /// Well-formedness of a namespace standing at absolute path `path`
    /// (which ends with its own name): nested names are unique, recorded
    /// keys are unique and consistent with the path, and nested namespaces
    /// are well-formed one level deeper.
    pub open spec fn wf(self, path: Seq<Seq<char>>) -> bool
        decreases self,
    {
        &&& path.len() >= 1
        &&& path.last() == self.name@
        &&& key_views(self.keys@).no_duplicates()
        &&& (forall|i: int|
            0 <= i < self.keys@.len() ==> {
                &&& segments(#[trigger] self.keys@[i]@).len() == path.len() + 1
                &&& segments(self.keys@[i]@).take(path.len() as int) == path
            })
        &&& wf_forest(self.sub_namespaces@, path)
    }
}

/// Well-formedness of a forest of namespaces below the path `prefix`:
/// pairwise distinct names, each namespace well-formed at its own path.
pub open spec fn wf_forest(ns: Seq<RedisNamespace>, prefix: Seq<Seq<char>>) -> bool
    decreases ns,
{
    &&& (forall|i: int, j: int|
        0 <= i < j < ns.len() ==> (#[trigger] ns[i].name@) != (#[trigger] ns[j].name@))
    &&& (forall|i: int|
        0 <= i < ns.len() ==> (#[trigger] ns[i]).wf(prefix.push(ns[i].name@)))
}

impl NamespaceTree {
    /// The tree's abstraction: its forest model.
    pub open spec fn model(self) -> Map<Seq<Seq<char>>, Set<Seq<char>>> {
        forest_model(self.namespaces@)
    }

    /// The set of keys held by the synthetic root.
    pub open spec fn root_key_set(self) -> Set<Seq<char>> {
        key_set(self.root_keys@)
    }

    /// Well-formedness: the forest is well-formed from the top, and the
    /// root keys are unique, single-segment keys.
    pub open spec fn wf(self) -> bool {
        &&& wf_forest(self.namespaces@, Seq::empty())
        &&& key_views(self.root_keys@).no_duplicates()
        &&& (forall|i: int|
            0 <= i < self.root_keys@.len() ==> segments(#[trigger] self.root_keys@[i]@).len()
                == 1)
    }
}

/// The model after recording key `k` below the relative path `rel` (all of
/// `k`'s remaining segments except the last): every non-empty prefix of
/// `rel` becomes a path, and `k` joins the set at `rel` itself.
pub open spec fn model_insert(
    m: Map<Seq<Seq<char>>, Set<Seq<char>>>,
    rel: Seq<Seq<char>>,
    k: Seq<char>,
) -> Map<Seq<Seq<char>>, Set<Seq<char>>> {
    Map::new(
        |p: Seq<Seq<char>>|
            m.dom().contains(p) || (1 <= p.len() <= rel.len() && p == rel.take(p.len() as int)),
        |p: Seq<Seq<char>>|
            {
                let base = if m.dom().contains(p) {
                    m[p]
                } else {
                    Set::empty()
                };
                if p == rel {
                    base.insert(k)
                } else {
                    base
                }
            },
    )
}

/// `find_ns` returns the first match.
proof fn lemma_find_ns_some(ns: Seq<RedisNamespace>, j: int)
    requires
        0 <= j < ns.len(),
        forall|m: int| 0 <= m < j ==> (#[trigger] ns[m].name@) != ns[j].name@,
    ensures
        find_ns(ns, ns[j].name@) == Some(ns[j]),
    decreases ns.len(),
{
    if j > 0 {
        assert forall|m: int| 0 <= m < j - 1 implies (#[trigger] ns.drop_first()[m].name@)
            != ns.drop_first()[j - 1].name@ by {
            assert(ns.drop_first()[m] == ns[m + 1]);
        }
        lemma_find_ns_some(ns.drop_first(), j - 1);
    }
}

/// `find_ns` fails when no name matches.
proof fn lemma_find_ns_none(ns: Seq<RedisNamespace>, name: Seq<char>)
    requires
        forall|m: int| 0 <= m < ns.len() ==> (#[trigger] ns[m].name@) != name,
    ensures
        find_ns(ns, name) is None,
    decreases ns.len(),
{
    if ns.len() > 0 {
        assert forall|m: int| 0 <= m < ns.drop_first().len() implies (#[trigger] ns.drop_first()[m].name@)
            != name by {
            assert(ns.drop_first()[m] == ns[m + 1]);
        }
        lemma_find_ns_none(ns.drop_first(), name);
    }
}

/// Replacing one namespace by another of the same name redirects `find_ns`
/// only for that name.
proof fn lemma_find_ns_update(
    ns: Seq<RedisNamespace>,
    j: int,
    n2: RedisNamespace,
    name: Seq<char>,
)
    requires
        0 <= j < ns.len(),
        n2.name@ == ns[j].name@,
        forall|i: int, m: int|
            0 <= i < m < ns.len() ==> (#[trigger] ns[i].name@) != (#[trigger] ns[m].name@),
    ensures
        find_ns(ns.update(j, n2), name) == if name == ns[j].name@ {
            Some(n2)
        } else {
            find_ns(ns, name)
        },
    decreases ns.len(),
{
    if j == 0 {
        if name == ns[0].name@ {
            assert(ns.update(0, n2)[0] == n2);
        } else {
            assert(ns.update(0, n2).drop_first() =~= ns.drop_first());
        }
    } else {
        assert(ns.update(j, n2)[0] == ns[0]);
        if name == ns[0].name@ {
            assert(name != ns[j].name@);
        } else {
            assert(ns.update(j, n2).drop_first() =~= ns.drop_first().update(j - 1, n2));
            assert forall|i: int, m: int|
                0 <= i < m < ns.drop_first().len() implies (#[trigger] ns.drop_first()[i].name@)
                != (#[trigger] ns.drop_first()[m].name@) by {
                assert(ns.drop_first()[i] == ns[i + 1]);
                assert(ns.drop_first()[m] == ns[m + 1]);
            }
            assert(ns.drop_first()[j - 1] == ns[j]);
            lemma_find_ns_update(ns.drop_first(), j - 1, n2, name);
        }
    }
}

/// Appending a namespace redirects `find_ns` only for names that were
/// absent.
proof fn lemma_find_ns_push(ns: Seq<RedisNamespace>, n2: RedisNamespace, name: Seq<char>)
    ensures
        find_ns(ns.push(n2), name) == if find_ns(ns, name) is Some {
            find_ns(ns, name)
        } else if n2.name@ == name {
            Some(n2)
        } else {
            None::<RedisNamespace>
        },
    decreases ns.len(),
{
    if ns.len() == 0 {
        assert(ns.push(n2)[0] == n2);
        if n2.name@ != name {
            assert(ns.push(n2).drop_first() =~= Seq::<RedisNamespace>::empty());
        }
    } else {
        assert(ns.push(n2)[0] == ns[0]);
        if ns[0].name@ != name {
            assert(ns.push(n2).drop_first() =~= ns.drop_first().push(n2));
            lemma_find_ns_push(ns.drop_first(), n2, name);
        }
    }
}

/// Replacing one namespace by another of the same name redirects resolution
/// only below that name.
proof fn lemma_resolve_update(
    ns: Seq<RedisNamespace>,
    j: int,
    n2: RedisNamespace,
    p: Seq<Seq<char>>,
)
    requires
        0 <= j < ns.len(),
        n2.name@ == ns[j].name@,
        forall|i: int, m: int|
            0 <= i < m < ns.len() ==> (#[trigger] ns[i].name@) != (#[trigger] ns[m].name@),
    ensures
        resolve(ns.update(j, n2), p) == (if p.len() == 0 {
            None::<RedisNamespace>
        } else if p[0] == ns[j].name@ {
            if p.len() == 1 {
                Some(n2)
            } else {
                resolve(n2.sub_namespaces@, p.drop_first())
            }
        } else {
            resolve(ns, p)
        }),
{
    if p.len() > 0 {
        lemma_find_ns_update(ns, j, n2, p[0]);
    }
}

/// Appending a namespace with a fresh name redirects resolution only below
/// that name.
proof fn lemma_resolve_push(ns: Seq<RedisNamespace>, n2: RedisNamespace, p: Seq<Seq<char>>)
    requires
        forall|m: int| 0 <= m < ns.len() ==> (#[trigger] ns[m].name@) != n2.name@,
    ensures
        resolve(ns.push(n2), p) == (if p.len() == 0 {
            None::<RedisNamespace>
        } else if p[0] == n2.name@ {
            if p.len() == 1 {
                Some(n2)
            } else {
                resolve(n2.sub_namespaces@, p.drop_first())
            }
        } else {
            resolve(ns, p)
        }),
{
    if p.len() > 0 {
        lemma_find_ns_push(ns, n2, p[0]);
        if p[0] == n2.name@ {
            lemma_find_ns_none(ns, p[0]);
        }
    }
}

/// Appending a key to a list inserts its view into the list's key set.
proof fn lemma_key_set_push(ks: Seq<String>, x: String)
    ensures
        key_set(ks.push(x)) == key_set(ks).insert(x@),
{
    assert(key_views(ks.push(x)) =~= key_views(ks).push(x@));
    assert forall|a: Seq<char>|
        key_set(ks.push(x)).contains(a) <==> key_set(ks).insert(x@).contains(a) by {
        let v = key_views(ks);
        if v.push(x@).contains(a) {
            let i = choose|i: int| 0 <= i < v.push(x@).len() && v.push(x@)[i] == a;
            if i < v.len() {
                assert(v[i] == a);
            }
        }
        if v.contains(a) {
            let i = choose|i: int| 0 <= i < v.len() && v[i] == a;
            assert(v.push(x@)[i] == a);
        }
        if a == x@ {
            assert(v.push(x@)[v.len() as int] == a);
        }
    }
    assert(key_set(ks.push(x)) =~= key_set(ks).insert(x@));
}

/// A non-empty prefix relation between paths shifts down one level.
proof fn lemma_prefix_shift(p: Seq<Seq<char>>, rel: Seq<Seq<char>>)
    requires
        p.len() >= 2,
        rel.len() >= 1,
        p[0] == rel[0],
    ensures
        (1 <= p.len() <= rel.len() && p == rel.take(p.len() as int)) <==> (1 <= p.drop_first().len()
            <= rel.drop_first().len() && p.drop_first() == rel.drop_first().take(
            p.drop_first().len() as int,
        )),
        (p == rel) <==> (p.drop_first() == rel.drop_first() && p.len() == rel.len()),
{
    let p1 = p.drop_first();
    let r1 = rel.drop_first();
    if p.len() <= rel.len() {
        if p == rel.take(p.len() as int) {
            assert forall|i: int| 0 <= i < p1.len() implies p1[i] == r1.take(p1.len() as int)[i] by {
                assert(p1[i] == p[i + 1]);
                assert(p[i + 1] == rel.take(p.len() as int)[i + 1]);
            }
            assert(p1 =~= r1.take(p1.len() as int));
        } else if p1 == r1.take(p1.len() as int) {
            assert forall|i: int| 0 <= i < p.len() implies p[i] == rel.take(p.len() as int)[i] by {
                if i > 0 {
                    assert(p[i] == p1[i - 1]);
                    assert(p1[i - 1] == r1.take(p1.len() as int)[i - 1]);
                }
            }
            assert(p =~= rel.take(p.len() as int));
        }
    }
    if p.len() == rel.len() {
        if p == rel {
            assert(p1 =~= r1);
        } else if p1 == r1 {
            assert forall|i: int| 0 <= i < p.len() implies p[i] == rel[i] by {
                if i > 0 {
                    assert(p[i] == p1[i - 1]);
                }
            }
            assert(p =~= rel);
        }
    }
}

/// Replacing the namespace at `j` by one with the same name and keys, whose
/// forest has recorded `k` below the relative path `rel.drop_first()`,
/// records `k` below `rel` in the whole forest's model.
proof fn lemma_model_update_recurse(
    ns: Seq<RedisNamespace>,
    j: int,
    n2: RedisNamespace,
    rel: Seq<Seq<char>>,
    k: Seq<char>,
)
    requires
        0 <= j < ns.len(),
        forall|i: int, m: int|
            0 <= i < m < ns.len() ==> (#[trigger] ns[i].name@) != (#[trigger] ns[m].name@),
        n2.name@ == ns[j].name@,
        n2.keys == ns[j].keys,
        rel.len() >= 2,
        rel[0] == n2.name@,
        forest_model(n2.sub_namespaces@) == model_insert(
            forest_model(ns[j].sub_namespaces@),
            rel.drop_first(),
            k,
        ),
    ensures
        forest_model(ns.update(j, n2)) == model_insert(forest_model(ns), rel, k),
{
    let ns2 = ns.update(j, n2);
    let m1 = forest_model(ns);
    let m2 = forest_model(ns2);
    let mi = model_insert(m1, rel, k);
    let mc1 = forest_model(ns[j].sub_namespaces@);
    let mc2 = forest_model(n2.sub_namespaces@);
    let rel1 = rel.drop_first();
    let name = ns[j].name@;
    lemma_find_ns_some(ns, j);
    assert forall|p: Seq<Seq<char>>|
        #![trigger m2.dom().contains(p)]
        #![trigger mi.dom().contains(p)]
        (m2.dom().contains(p) <==> mi.dom().contains(p)) && (m2.dom().contains(p)
            ==> m2[p] =~= mi[p]) by {
        lemma_resolve_update(ns, j, n2, p);
        if p.len() == 0 {
        } else if p[0] == name {
            if p.len() == 1 {
                assert(p != rel);
                assert(m2.dom().contains(p) && m1.dom().contains(p));
                assert(m2[p] == key_set(n2.keys@));
            } else {
                lemma_prefix_shift(p, rel);
                let p1 = p.drop_first();
                assert(resolve(ns2, p) == resolve(n2.sub_namespaces@, p1));
                assert(resolve(ns, p) == resolve(ns[j].sub_namespaces@, p1));
                assert(m2.dom().contains(p) <==> mc2.dom().contains(p1));
                assert(m1.dom().contains(p) <==> mc1.dom().contains(p1));
                assert(mc2.dom().contains(p1) <==> mc1.dom().contains(p1) || (1 <= p1.len()
                    <= rel1.len() && p1 == rel1.take(p1.len() as int)));
                if m2.dom().contains(p) {
                    assert(m2[p] == mc2[p1]);
                    if m1.dom().contains(p) {
                        assert(m1[p] == mc1[p1]);
                    }
                }
            }
        } else {
            assert(resolve(ns2, p) == resolve(ns, p));
            if p.len() >= 1 && p.len() <= rel.len() && p == rel.take(p.len() as int) {
                assert(p[0] == rel.take(p.len() as int)[0]);
                assert(p[0] == rel[0]);
            }
            assert(p != rel) by {
                if p == rel {
                    assert(p[0] == rel[0]);
                }
            }
        }
    }
    assert(m2 =~~= mi);
}

/// Replacing the namespace at `j` by one with the same name and nested
/// namespaces, whose key set gains `k`, records `k` at the one-segment
/// relative path of that name.
proof fn lemma_model_update_leaf(
    ns: Seq<RedisNamespace>,
    j: int,
    n2: RedisNamespace,
    k: Seq<char>,
)
    requires
        0 <= j < ns.len(),
        forall|i: int, m: int|
            0 <= i < m < ns.len() ==> (#[trigger] ns[i].name@) != (#[trigger] ns[m].name@),
        n2.name@ == ns[j].name@,
        n2.sub_namespaces@ == ns[j].sub_namespaces@,
        key_set(n2.keys@) == key_set(ns[j].keys@).insert(k),
    ensures
        forest_model(ns.update(j, n2)) == model_insert(forest_model(ns), seq![n2.name@], k),
{
    let ns2 = ns.update(j, n2);
    let m1 = forest_model(ns);
    let m2 = forest_model(ns2);
    let rel = seq![n2.name@];
    let mi = model_insert(m1, rel, k);
    let name = ns[j].name@;
    lemma_find_ns_some(ns, j);
    assert forall|p: Seq<Seq<char>>|
        #![trigger m2.dom().contains(p)]
        #![trigger mi.dom().contains(p)]
        (m2.dom().contains(p) <==> mi.dom().contains(p)) && (m2.dom().contains(p)
            ==> m2[p] =~= mi[p]) by {
        lemma_resolve_update(ns, j, n2, p);
        if p.len() == 0 {
        } else if p[0] == name {
            if p.len() == 1 {
                assert(p =~= rel);
                assert(m2.dom().contains(p) && m1.dom().contains(p));
                assert(m2[p] == key_set(n2.keys@));
                assert(mi[p] == m1[p].insert(k));
            } else {
                assert(resolve(ns2, p) == resolve(ns, p)) by {
                    assert(resolve(ns, p) == resolve(ns[j].sub_namespaces@, p.drop_first()));
                }
                assert(p != rel);
                assert(!(p.len() <= rel.len()));
            }
        } else {
            assert(resolve(ns2, p) == resolve(ns, p));
            assert(p != rel) by {
                if p == rel {
                    assert(p[0] == rel[0]);
                }
            }
            if p.len() >= 1 && p.len() <= rel.len() && p == rel.take(p.len() as int) {
                assert(p[0] == rel.take(p.len() as int)[0]);
                assert(p[0] == rel[0]);
            }
        }
    }
    assert(m2 =~~= mi);
}

/// Appending a namespace with a fresh name, holding exactly the data that
/// recording `k` below `rel` demands, records `k` below `rel` in the whole
/// forest's model.
proof fn lemma_model_push(
    ns: Seq<RedisNamespace>,
    n2: RedisNamespace,
    rel: Seq<Seq<char>>,
    k: Seq<char>,
)
    requires
        forall|m: int| 0 <= m < ns.len() ==> (#[trigger] ns[m].name@) != n2.name@,
        rel.len() >= 1,
        rel[0] == n2.name@,
        rel.len() == 1 ==> key_set(n2.keys@) == Set::<Seq<char>>::empty().insert(k)
            && n2.sub_namespaces@.len() == 0,
        rel.len() >= 2 ==> key_set(n2.keys@) == Set::<Seq<char>>::empty() && forest_model(
            n2.sub_namespaces@,
        ) == model_insert(forest_model(Seq::<RedisNamespace>::empty()), rel.drop_first(), k),
    ensures
        forest_model(ns.push(n2)) == model_insert(forest_model(ns), rel, k),
{
    let ns2 = ns.push(n2);
    let m1 = forest_model(ns);
    let m2 = forest_model(ns2);
    let mi = model_insert(m1, rel, k);
    let mc2 = forest_model(n2.sub_namespaces@);
    let me = forest_model(Seq::<RedisNamespace>::empty());
    let rel1 = rel.drop_first();
    let name = n2.name@;
    lemma_find_ns_none(ns, name);
    assert forall|p: Seq<Seq<char>>|
        #![trigger m2.dom().contains(p)]
        #![trigger mi.dom().contains(p)]
        (m2.dom().contains(p) <==> mi.dom().contains(p)) && (m2.dom().contains(p)
            ==> m2[p] =~= mi[p]) by {
        lemma_resolve_push(ns, n2, p);
        if p.len() == 0 {
        } else if p[0] == name {
            assert(resolve(ns, p) is None);
            assert(!m1.dom().contains(p));
            if p.len() == 1 {
                assert(p =~= rel.take(1));
                assert(m2.dom().contains(p));
                assert(m2[p] == key_set(n2.keys@));
                if rel.len() == 1 {
                    assert(p =~= rel);
                } else {
                    assert(p != rel);
                }
            } else {
                lemma_prefix_shift(p, rel);
                let p1 = p.drop_first();
                assert(resolve(ns2, p) == resolve(n2.sub_namespaces@, p1));
                assert(m2.dom().contains(p) <==> mc2.dom().contains(p1));
                if rel.len() == 1 {
                    assert(n2.sub_namespaces@ =~= Seq::<RedisNamespace>::empty());
                    assert(resolve(n2.sub_namespaces@, p1) is None) by {
                        lemma_find_ns_none(n2.sub_namespaces@, p1[0]);
                    }
                    assert(!(p.len() <= rel.len()));
                } else {
                    assert(!me.dom().contains(p1)) by {
                        if p1.len() > 0 {
                            lemma_find_ns_none(Seq::<RedisNamespace>::empty(), p1[0]);
                        }
                    }
                    assert(mc2.dom().contains(p1) <==> (1 <= p1.len() <= rel1.len() && p1
                        == rel1.take(p1.len() as int)));
                    if m2.dom().contains(p) {
                        assert(m2[p] == mc2[p1]);
                        assert(mc2[p1] == if p1 == rel1 {
                            Set::<Seq<char>>::empty().insert(k)
                        } else {
                            Set::<Seq<char>>::empty()
                        });
                    }
                }
            }
        } else {
            assert(resolve(ns2, p) == resolve(ns, p));
            if p.len() >= 1 && p.len() <= rel.len() && p == rel.take(p.len() as int) {
                assert(p[0] == rel.take(p.len() as int)[0]);
                assert(p[0] == rel[0]);
            }
            assert(p != rel) by {
                if p == rel {
                    assert(p[0] == rel[0]);
                }
            }
        }
    }
    assert(m2 =~~= mi);
}

/// Finds the position of the namespace named `name`, scanning in order.
fn find_child(ns: &Vec<RedisNamespace>, name: &String) -> (r: Option<usize>)
    ensures
        match r {
            Some(j) => {
                &&& j < ns@.len()
                &&& ns@[j as int].name@ == name@
                &&& forall|m: int| 0 <= m < j ==> (#[trigger] ns@[m].name@) != name@
            },
            None => forall|m: int| 0 <= m < ns@.len() ==> (#[trigger] ns@[m].name@) != name@,
        },
{
    let mut i: usize = 0;
    while i < ns.len()
        invariant
            i <= ns@.len(),
            forall|m: int| 0 <= m < i ==> (#[trigger] ns@[m].name@) != name@,
        decreases ns@.len() - i,
    {
        if ns[i].name.eq(name) {
            return Some(i);
        }
        i += 1;
    }
    None
}

/// Appending a fresh key keeps the views free of duplicates.
proof fn lemma_no_dup_push(ks: Seq<String>, x: String)
    requires
        key_views(ks).no_duplicates(),
        !key_views(ks).contains(x@),
    ensures
        key_views(ks.push(x)).no_duplicates(),
{
    let v = key_views(ks);
    let v2 = key_views(ks.push(x));
    assert(v2 =~= v.push(x@));
    assert forall|i: int, j: int| 0 <= i < j < v2.len() implies v2[i] != v2[j] by {
        if j < v.len() {
            assert(v[i] != v[j]);
        } else {
            assert(v2[j] == x@);
            assert(v2[i] == v[i]);
            assert(!v.contains(x@));
        }
    }
}

/// Records `key` in the forest that stands at depth `part_index` along the
/// key's segments: descends or creates one namespace per remaining segment
/// except the last, and adds the full key to the namespace reached, once.
///
/// `parts` must be the segments of `key`, as `split_key` returns them.
pub fn add_key_to_namespaces(
    key: &String,
    parts: &Vec<String>,
    namespaces: &mut Vec<RedisNamespace>,
    part_index: usize,
)
    requires
        key_views(parts@) == segments(key@),
        parts@.len() >= 2,
        part_index <= parts@.len() - 2,
        wf_forest(old(namespaces)@, segments(key@).take(part_index as int)),
    ensures
        wf_forest(final(namespaces)@, segments(key@).take(part_index as int)),
        forest_model(final(namespaces)@) == model_insert(
            forest_model(old(namespaces)@),
            segments(key@).subrange(part_index as int, segments(key@).len() - 1),
            key@,
        ),
    decreases parts@.len() - part_index,
{
    let ghost segs = segments(key@);
    let ghost pre = segs.take(part_index as int);
    let ghost rel = segs.subrange(part_index as int, segs.len() - 1);
    let seg = &parts[part_index];
    proof {
        assert(key_views(parts@)[part_index as int] == parts@[part_index as int]@);
        assert(seg@ == segs[part_index as int]);
        assert(rel[0] == segs[part_index as int]);
        assert(pre.push(seg@) =~= segs.take(part_index as int + 1));
        assert(rel.drop_first() =~= segs.subrange(part_index as int + 1, segs.len() - 1));
    }
    let is_leaf = part_index == parts.len() - 2;
    match find_child(namespaces, seg) {
        Some(j) => {
            let ghost ns0 = namespaces@;
            proof {
                assert(ns0[j as int].wf(pre.push(ns0[j as int].name@)));
            }
            let mut child = namespaces.remove(j);
            if is_leaf {
                if !contains_key(&child.keys, key) {
                    let owned = key.clone();
                    proof {
                        lemma_key_set_push(child.keys@, owned);
                        lemma_no_dup_push(child.keys@, owned);
                    }
                    child.keys.push(owned);
                } else {
                    proof {
                        assert(key_set(child.keys@).contains(key@));
                        assert(key_set(child.keys@) =~= key_set(child.keys@).insert(key@));
                    }
                }
            } else {
                proof {
                    assert(wf_forest(child.sub_namespaces@, pre.push(seg@)));
                    assert(pre.push(seg@) == segs.take(part_index as int + 1));
                }
                add_key_to_namespaces(key, parts, &mut child.sub_namespaces, part_index + 1);
            }
            let ghost child2 = child;
            namespaces.insert(j, child);
            proof {
                assert(namespaces@ =~= ns0.update(j as int, child2));
                assert(namespaces@ == ns0.update(j as int, child2));
                if is_leaf {
                    assert(rel =~= seq![seg@]);
                    lemma_model_update_leaf(ns0, j as int, child2, key@);
                } else {
                    lemma_model_update_recurse(ns0, j as int, child2, rel, key@);
                }
                let path = pre.push(seg@);
                assert(child2.wf(path)) by {
                    assert(ns0[j as int].wf(path));
                    if is_leaf {
                        assert forall|i: int| 0 <= i < child2.keys@.len() implies {
                            &&& segments(#[trigger] child2.keys@[i]@).len() == path.len() + 1
                            &&& segments(child2.keys@[i]@).take(path.len() as int) == path
                        } by {
                            if i < ns0[j as int].keys@.len() {
                                assert(child2.keys@[i] == ns0[j as int].keys@[i]);
                            } else {
                                assert(child2.keys@[i]@ == key@);
                                assert(segments(key@).len() == path.len() + 1);
                                assert(segments(key@).take(path.len() as int) =~= path);
                            }
                        }
                    }
                }
                assert forall|i: int, m: int| 0 <= i < m < namespaces@.len() implies (
                #[trigger] namespaces@[i].name@) != (#[trigger] namespaces@[m].name@) by {
                    assert(namespaces@[i].name@ == ns0[i].name@);
                    assert(namespaces@[m].name@ == ns0[m].name@);
                }
                assert forall|i: int| 0 <= i < namespaces@.len() implies (
                #[trigger] namespaces@[i]).wf(pre.push(namespaces@[i].name@)) by {
                    if i == j {
                        assert(namespaces@[i] == child2);
                    } else {
                        assert(namespaces@[i] == ns0[i]);
                        assert(ns0[i].wf(pre.push(ns0[i].name@)));
                    }
                }
            }
        },
        None => {
            let ghost ns0 = namespaces@;
            let mut child = RedisNamespace {
                name: seg.clone(),
                sub_namespaces: Vec::new(),
                keys: Vec::new(),
            };
            if is_leaf {
                let owned = key.clone();
                proof {
                    assert(key_views(child.keys@) =~= Seq::<Seq<char>>::empty());
                    assert(key_set(child.keys@) =~= Set::<Seq<char>>::empty());
                    lemma_key_set_push(child.keys@, owned);
                    lemma_no_dup_push(child.keys@, owned);
                }
                child.keys.push(owned);
            } else {
                proof {
                    assert(wf_forest(child.sub_namespaces@, segs.take(part_index as int + 1)));
                    assert(forest_model(child.sub_namespaces@) == forest_model(
                        Seq::<RedisNamespace>::empty(),
                    ));
                }
                add_key_to_namespaces(key, parts, &mut child.sub_namespaces, part_index + 1);
            }
            let ghost child2 = child;
            namespaces.push(child);
            proof {
                assert(namespaces@ == ns0.push(child2));
                if is_leaf {
                    assert(rel =~= seq![seg@]);
                } else {
                    assert(key_views(child2.keys@) =~= Seq::<Seq<char>>::empty());
                    assert(key_set(child2.keys@) =~= Set::<Seq<char>>::empty());
                }
                lemma_model_push(ns0, child2, rel, key@);
                let path = pre.push(seg@);
                assert(child2.wf(path)) by {
                    if is_leaf {
                        assert forall|i: int| 0 <= i < child2.keys@.len() implies {
                            &&& segments(#[trigger] child2.keys@[i]@).len() == path.len() + 1
                            &&& segments(child2.keys@[i]@).take(path.len() as int) == path
                        } by {
                            assert(child2.keys@[i]@ == key@);
                            assert(segments(key@).len() == path.len() + 1);
                            assert(segments(key@).take(path.len() as int) =~= path);
                        }
                        assert(wf_forest(child2.sub_namespaces@, path));
                    }
                }
                assert forall|i: int, m: int| 0 <= i < m < namespaces@.len() implies (
                #[trigger] namespaces@[i].name@) != (#[trigger] namespaces@[m].name@) by {
                    if m < ns0.len() {
                        assert(namespaces@[i].name@ == ns0[i].name@);
                        assert(namespaces@[m].name@ == ns0[m].name@);
                    } else {
                        assert(namespaces@[m] == child2);
                        assert(namespaces@[i].name@ == ns0[i].name@);
                    }
                }
                assert forall|i: int| 0 <= i < namespaces@.len() implies (
                #[trigger] namespaces@[i]).wf(pre.push(namespaces@[i].name@)) by {
                    if i < ns0.len() {
                        assert(namespaces@[i] == ns0[i]);
                        assert(ns0[i].wf(pre.push(ns0[i].name@)));
                    } else {
                        assert(namespaces@[i] == child2);
                    }
                }
            }
        },
    }
}

/// Adding a key with at least two segments to a key set records it, in the
/// canonical model, below all but the last of its segments; single-segment
/// keys are untouched.
proof fn lemma_canonical_insert(s: Set<Seq<char>>, k: Seq<char>)
    requires
        segments(k).len() >= 2,
    ensures
        canonical_model(s.insert(k)) == model_insert(
            canonical_model(s),
            segments(k).take(segments(k).len() - 1),
            k,
        ),
        root_level_keys(s.insert(k)) == root_level_keys(s),
{
    let n = segments(k).len() as int;
    let rel = segments(k).take(n - 1);
    let m1 = canonical_model(s);
    let m2 = canonical_model(s.insert(k));
    let mi = model_insert(m1, rel, k);
    assert forall|p: Seq<Seq<char>>|
        #![trigger m2.dom().contains(p)]
        #![trigger mi.dom().contains(p)]
        (m2.dom().contains(p) <==> mi.dom().contains(p)) && (m2.dom().contains(p)
            ==> m2[p] =~= mi[p]) by {
        if is_node_path(s.insert(k), p) {
            let w = choose|w: Seq<char>|
                #![auto]
                s.insert(k).contains(w) && 1 <= p.len() < segments(w).len() && p == segments(
                    w,
                ).take(p.len() as int);
            if s.contains(w) {
                assert(is_node_path(s, p));
            } else {
                assert(w == k);
                assert(p.len() <= n - 1);
                assert(rel.take(p.len() as int) =~= segments(k).take(p.len() as int));
                assert(p == rel.take(p.len() as int));
            }
        }
        if is_node_path(s, p) {
            let w = choose|w: Seq<char>|
                #![auto]
                s.contains(w) && 1 <= p.len() < segments(w).len() && p == segments(w).take(
                    p.len() as int,
                );
            assert(s.insert(k).contains(w));
            assert(is_node_path(s.insert(k), p));
        }
        if 1 <= p.len() <= rel.len() && p == rel.take(p.len() as int) {
            assert(s.insert(k).contains(k));
            assert(rel.take(p.len() as int) =~= segments(k).take(p.len() as int));
            assert(is_node_path(s.insert(k), p));
        }
        if m2.dom().contains(p) {
            assert forall|x: Seq<char>|
                keys_at(s.insert(k), p).contains(x) <==> mi[p].contains(x) by {
                if keys_at(s.insert(k), p).contains(x) {
                    if s.contains(x) {
                        assert(is_node_path(s, p));
                        assert(keys_at(s, p).contains(x));
                    } else {
                        assert(x == k);
                        assert(p.len() == n - 1);
                        assert(p == segments(k).take(n - 1));
                        assert(p =~= rel);
                    }
                }
                if m1.dom().contains(p) && keys_at(s, p).contains(x) {
                    assert(s.insert(k).contains(x));
                }
                if !m1.dom().contains(p) {
                    assert(!keys_at(s, p).contains(x)) by {
                        if keys_at(s, p).contains(x) {
                            assert(s.contains(x) && 1 <= p.len() < segments(x).len() && p
                                == segments(x).take(p.len() as int));
                            assert(is_node_path(s, p));
                        }
                    }
                }
                if p == rel && x == k {
                    assert(segments(k).len() == p.len() + 1);
                    assert(segments(k).take(p.len() as int) == p);
                    assert(s.insert(k).contains(k));
                    assert(keys_at(s.insert(k), p).contains(x));
                }
            }
            assert(m2[p] =~= mi[p]);
        }
    }
    assert(m2 =~~= mi);
    assert forall|x: Seq<char>|
        root_level_keys(s.insert(k)).contains(x) <==> root_level_keys(s).contains(x) by {
        if root_level_keys(s.insert(k)).contains(x) {
            assert(segments(x).len() == 1);
            assert(x != k);
        }
    }
    assert(root_level_keys(s.insert(k)) =~= root_level_keys(s));
}

/// Adding a single-segment key to a key set leaves the canonical model
/// untouched and adds the key at root level.
proof fn lemma_canonical_insert_root(s: Set<Seq<char>>, k: Seq<char>)
    requires
        segments(k).len() == 1,
    ensures
        canonical_model(s.insert(k)) == canonical_model(s),
        root_level_keys(s.insert(k)) == root_level_keys(s).insert(k),
{
    let m1 = canonical_model(s);
    let m2 = canonical_model(s.insert(k));
    assert forall|p: Seq<Seq<char>>|
        #![trigger m2.dom().contains(p)]
        #![trigger m1.dom().contains(p)]
        (m2.dom().contains(p) <==> m1.dom().contains(p)) && (m2.dom().contains(p)
            ==> m2[p] =~= m1[p]) by {
        if is_node_path(s.insert(k), p) {
            let w = choose|w: Seq<char>|
                #![auto]
                s.insert(k).contains(w) && 1 <= p.len() < segments(w).len() && p == segments(
                    w,
                ).take(p.len() as int);
            assert(w != k);
            assert(is_node_path(s, p));
        }
        if is_node_path(s, p) {
            let w = choose|w: Seq<char>|
                #![auto]
                s.contains(w) && 1 <= p.len() < segments(w).len() && p == segments(w).take(
                    p.len() as int,
                );
            assert(s.insert(k).contains(w));
            assert(is_node_path(s.insert(k), p));
        }
        if m2.dom().contains(p) {
            assert forall|x: Seq<char>|
                keys_at(s.insert(k), p).contains(x) <==> keys_at(s, p).contains(x) by {
                if keys_at(s.insert(k), p).contains(x) {
                    assert(segments(x).len() == p.len() + 1);
                    assert(x != k);
                }
                if keys_at(s, p).contains(x) {
                    assert(s.insert(k).contains(x));
                }
            }
            assert(m2[p] =~= m1[p]);
        }
    }
    assert(m2 =~~= m1);
    assert forall|x: Seq<char>|
        root_level_keys(s.insert(k)).contains(x) <==> root_level_keys(s).insert(k).contains(
            x,
        ) by {
        if x == k {
            assert(s.insert(k).contains(k));
        }
        if root_level_keys(s).contains(x) {
            assert(s.insert(k).contains(x));
        }
    }
    assert(root_level_keys(s.insert(k)) =~= root_level_keys(s).insert(k));
}

/// Taking one more element of a key list inserts that key's view into the
/// prefix's key set.
proof fn lemma_key_set_take_push(ks: Seq<String>, i: int)
    requires
        0 <= i < ks.len(),
    ensures
        key_set(ks.take(i + 1)) == key_set(ks.take(i)).insert(ks[i]@),
{
    assert(ks.take(i + 1) =~= ks.take(i).push(ks[i]));
    lemma_key_set_push(ks.take(i), ks[i]);
}

/// Groups a flat key list into a namespace tree.  The result is well-formed
/// and its model is the canonical model of the key *set*: neither the order
/// of `keys` nor repeated keys influence it.
pub fn convert_keys_to_namespaces(keys: &Vec<String>) -> (t: NamespaceTree)
    ensures
        t.wf(),
        t.model() == canonical_model(key_set(keys@)),
        t.root_key_set() == root_level_keys(key_set(keys@)),
{
    let mut namespaces: Vec<RedisNamespace> = Vec::new();
    let mut root_keys: Vec<String> = Vec::new();
    proof {
        assert(key_views(root_keys@) =~= Seq::<Seq<char>>::empty());
        let s0 = key_set(keys@.take(0));
        assert(key_views(keys@.take(0)) =~= Seq::<Seq<char>>::empty());
        assert forall|x: Seq<char>| !(#[trigger] s0.contains(x)) by {}
        assert forall|p: Seq<Seq<char>>|
            !(#[trigger] forest_model(namespaces@).dom().contains(p)) && !(
            #[trigger] canonical_model(s0).dom().contains(p)) by {
            if p.len() > 0 {
                lemma_find_ns_none(namespaces@, p[0]);
            }
        }
        assert(forest_model(namespaces@) =~~= canonical_model(s0));
        assert forall|x: Seq<char>| !(#[trigger] root_level_keys(s0).contains(x)) by {}
        assert(key_set(root_keys@) =~= root_level_keys(s0));
    }
    let mut i: usize = 0;
    while i < keys.len()
        invariant
            i <= keys@.len(),
            wf_forest(namespaces@, Seq::<Seq<char>>::empty()),
            key_views(root_keys@).no_duplicates(),
            forall|m: int|
                0 <= m < root_keys@.len() ==> segments(#[trigger] root_keys@[m]@).len() == 1,
            forest_model(namespaces@) == canonical_model(key_set(keys@.take(i as int))),
            key_set(root_keys@) == root_level_keys(key_set(keys@.take(i as int))),
        decreases keys@.len() - i,
    {
        let k = &keys[i];
        let parts = split_key(k.as_str());
        proof {
            lemma_key_set_take_push(keys@, i as int);
            assert(key_views(parts@).len() == segments(k@).len());
        }
        let ghost s_old = key_set(keys@.take(i as int));
        if parts.len() == 1 {
            proof {
                lemma_canonical_insert_root(s_old, k@);
            }
            if !contains_key(&root_keys, k) {
                let owned = k.clone();
                proof {
                    lemma_key_set_push(root_keys@, owned);
                    lemma_no_dup_push(root_keys@, owned);
                    assert forall|m: int|
                        0 <= m < root_keys@.push(owned).len() implies segments(
                        #[trigger] root_keys@.push(owned)[m]@).len() == 1 by {
                        if m < root_keys@.len() {
                            assert(root_keys@.push(owned)[m] == root_keys@[m]);
                        }
                    }
                }
                root_keys.push(owned);
            } else {
                proof {
                    assert(key_set(root_keys@).contains(k@));
                    assert(key_set(root_keys@).insert(k@) =~= key_set(root_keys@));
                }
            }
        } else {
            proof {
                assert(segments(k@).take(0) =~= Seq::<Seq<char>>::empty());
                lemma_canonical_insert(s_old, k@);
                assert(segments(k@).subrange(0, segments(k@).len() - 1) =~= segments(k@).take(
                    segments(k@).len() - 1,
                ));
            }
            add_key_to_namespaces(k, &parts, &mut namespaces, 0);
        }
        i += 1;
    }
    proof {
        assert(keys@.take(keys@.len() as int) =~= keys@);
    }
    NamespaceTree { namespaces, root_keys }
}

/// Building a tree is invariant under permutation of the key list: the
/// canonical model that `convert_keys_to_namespaces` guarantees, and the
/// root-level key set, depend only on the set of keys, and two lists with
/// equal multisets have equal key sets.
pub proof fn lemma_build_permutation_invariant(keys1: Seq<String>, keys2: Seq<String>)
    requires
        keys1.to_multiset() == keys2.to_multiset(),
    ensures
        canonical_model(key_set(keys1)) == canonical_model(key_set(keys2)),
        root_level_keys(key_set(keys1)) == root_level_keys(key_set(keys2)),
{
    keys1.to_multiset_ensures();
    keys2.to_multiset_ensures();
    assert forall|a: Seq<char>| key_set(keys1).contains(a) <==> key_set(keys2).contains(a) by {
        if key_views(keys1).contains(a) {
            let i = choose|i: int| 0 <= i < key_views(keys1).len() && key_views(keys1)[i] == a;
            assert(keys1[i]@ == a);
            assert(keys1.contains(keys1[i]));
            assert(keys1.to_multiset().count(keys1[i]) > 0);
            assert(keys2.to_multiset().count(keys1[i]) > 0);
            assert(keys2.contains(keys1[i]));
            let j = choose|j: int| 0 <= j < keys2.len() && keys2[j] == keys1[i];
            assert(key_views(keys2)[j] == a);
        }
        if key_views(keys2).contains(a) {
            let i = choose|i: int| 0 <= i < key_views(keys2).len() && key_views(keys2)[i] == a;
            assert(keys2[i]@ == a);
            assert(keys2.contains(keys2[i]));
            assert(keys2.to_multiset().count(keys2[i]) > 0);
            assert(keys1.to_multiset().count(keys2[i]) > 0);
            assert(keys1.contains(keys2[i]));
            let j = choose|j: int| 0 <= j < keys1.len() && keys1[j] == keys2[i];
            assert(key_views(keys1)[j] == a);
        }
    }
    assert(key_set(keys1) =~= key_set(keys2));
}

/// A key of two or more segments is recorded exactly once: at the path of
/// all its segments but the last, at no other path, and not at root level.
pub proof fn lemma_key_recorded_exactly_once(keys: Set<Seq<char>>, k: Seq<char>)
    requires
        keys.contains(k),
        segments(k).len() >= 2,
    ensures
        canonical_model(keys).dom().contains(segments(k).take(segments(k).len() - 1)),
        canonical_model(keys)[segments(k).take(segments(k).len() - 1)].contains(k),
        forall|p: Seq<Seq<char>>|
            #[trigger] canonical_model(keys).dom().contains(p) && p != segments(k).take(
                segments(k).len() - 1,
            ) ==> !canonical_model(keys)[p].contains(k),
        !root_level_keys(keys).contains(k),
{
    let n = segments(k).len() as int;
    let rel = segments(k).take(n - 1);
    assert(is_node_path(keys, rel)) by {
        assert(keys.contains(k) && 1 <= rel.len() < segments(k).len() && rel == segments(k).take(
            rel.len() as int,
        ));
    }
    assert(keys_at(keys, rel).contains(k));
    assert forall|p: Seq<Seq<char>>|
        #[trigger] canonical_model(keys).dom().contains(p) && p != rel implies !canonical_model(
        keys,
    )[p].contains(k) by {
        if keys_at(keys, p).contains(k) {
            assert(p.len() == n - 1);
            assert(p == segments(k).take(n - 1));
        }
    }
}

/// Inserting a key that the list already holds changes neither the canonical
/// model nor the root-level keys.
pub proof fn lemma_reinsert_idempotent(keys: Seq<String>, x: String)
    requires
        key_set(keys).contains(x@),
    ensures
        canonical_model(key_set(keys.push(x))) == canonical_model(key_set(keys)),
        root_level_keys(key_set(keys.push(x))) == root_level_keys(key_set(keys)),
{
    lemma_key_set_push(keys, x);
    assert(key_set(keys).insert(x@) =~= key_set(keys));
}

} // verus!
