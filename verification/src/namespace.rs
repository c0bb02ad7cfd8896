use vstd::prelude::*;

use vstd::multiset::Multiset;

verus! {

broadcast use vstd::seq_lib::group_to_multiset_ensures, vstd::multiset::group_multiset_axioms, vstd::std_specs::vec::group_vec_axioms, vstd::seq::Seq::lemma_filter_push;

/// One node of the namespace tree: a prefix segment, the full keys attached at
/// this node, and the child namespaces, in first-seen order.
pub struct Namespace {
    pub prefix: String,
    pub keys: Vec<String>,
    pub children: Vec<Namespace>,
}

/// The multiset of full keys stored anywhere in the subtrees of this forest.
pub open spec fn forest_keys(cs: Seq<Namespace>) -> Multiset<String>
    decreases cs,
{
    if cs.len() == 0 {
        Multiset::empty()
    } else {
        node_keys(cs[0]).add(forest_keys(cs.drop_first()))
    }
}

/// The multiset of full keys stored anywhere in this node's subtree.
pub open spec fn node_keys(ns: Namespace) -> Multiset<String>
    decreases ns,
{
    ns.keys@.to_multiset().add(forest_keys(ns.children@))
}

/// Appending a child to a forest adds exactly that child's keys.
proof fn lemma_forest_push(cs: Seq<Namespace>, c: Namespace)
    ensures
        forest_keys(cs.push(c)) == forest_keys(cs).add(node_keys(c)),
    decreases cs.len(),
{
    if cs.len() == 0 {
        assert(cs.push(c)[0] == c);
        assert(cs.push(c).drop_first() =~= Seq::<Namespace>::empty());
        assert(forest_keys(Seq::<Namespace>::empty()) == Multiset::<String>::empty());
        assert(forest_keys(cs.push(c)) == node_keys(c).add(
            forest_keys(Seq::<Namespace>::empty()),
        ));
        assert(forest_keys(cs.push(c)) =~= forest_keys(cs).add(node_keys(c)));
    } else {
        lemma_forest_push(cs.drop_first(), c);
        assert(cs.push(c)[0] == cs[0]);
        assert(cs.push(c).drop_first() =~= cs.drop_first().push(c));
        assert(forest_keys(cs.push(c)) =~= forest_keys(cs).add(node_keys(c)));
    }
}

/// Replacing one child with a version holding one more key adds exactly that
/// key to the forest.
proof fn lemma_forest_update(cs: Seq<Namespace>, j: int, c2: Namespace, k: String)
    requires
        0 <= j < cs.len(),
        node_keys(c2) == node_keys(cs[j]).insert(k),
    ensures
        forest_keys(cs.update(j, c2)) == forest_keys(cs).insert(k),
    decreases j,
{
    let cs2 = cs.update(j, c2);
    if j == 0 {
        assert(cs2[0] == c2);
        assert(cs2.drop_first() =~= cs.drop_first());
        assert(forest_keys(cs2) =~= forest_keys(cs).insert(k));
    } else {
        assert(cs2[0] == cs[0]);
        assert(cs2.drop_first() =~= cs.drop_first().update(j - 1, c2));
        assert(cs.drop_first()[j - 1] == cs[j]);
        lemma_forest_update(cs.drop_first(), j - 1, c2, k);
        assert(forest_keys(cs2) =~= forest_keys(cs).insert(k));
    }
}

/// The multiset of keys attached at the node reached from `ns` by walking,
/// for each segment of `path` in turn, into the child of that prefix (summed
/// over all matching children; in a well-formed tree at most one matches).
pub open spec fn keys_at(ns: Namespace, path: Seq<Seq<char>>) -> Multiset<String>
    decreases ns,
{
    if path.len() == 0 {
        ns.keys@.to_multiset()
    } else {
        forest_at(ns.children@, path)
    }
}

/// The multiset of keys attached at `path` below any root of this forest.
pub open spec fn forest_at(cs: Seq<Namespace>, path: Seq<Seq<char>>) -> Multiset<String>
    decreases cs,
{
    if cs.len() == 0 || path.len() == 0 {
        Multiset::empty()
    } else {
        (if cs[0].prefix@ == path[0] {
            keys_at(cs[0], path.drop_first())
        } else {
            Multiset::empty()
        }).add(forest_at(cs.drop_first(), path))
    }
}

/// Appending a child adds keys only at the paths that enter it.
proof fn lemma_forest_at_push(cs: Seq<Namespace>, c: Namespace, path: Seq<Seq<char>>)
    requires
        path.len() >= 1,
    ensures
        forest_at(cs.push(c), path) == forest_at(cs, path).add(
            if c.prefix@ == path[0] {
                keys_at(c, path.drop_first())
            } else {
                Multiset::empty()
            },
        ),
    decreases cs.len(),
{
    let at_c = if c.prefix@ == path[0] {
        keys_at(c, path.drop_first())
    } else {
        Multiset::<String>::empty()
    };
    if cs.len() == 0 {
        assert(cs.push(c)[0] == c);
        assert(cs.push(c).drop_first() =~= Seq::<Namespace>::empty());
        assert(cs.push(c).drop_first().len() == 0);
        assert(forest_at(cs.push(c).drop_first(), path) == Multiset::<String>::empty());
        assert(forest_at(cs.push(c), path) == at_c.add(Multiset::<String>::empty()));
        assert(forest_at(cs, path) == Multiset::<String>::empty());
        assert(at_c.add(Multiset::<String>::empty()) =~= Multiset::<String>::empty().add(at_c));
    } else {
        lemma_forest_at_push(cs.drop_first(), c, path);
        assert(cs.push(c)[0] == cs[0]);
        assert(cs.push(c).drop_first() =~= cs.drop_first().push(c));
        let at_0 = if cs[0].prefix@ == path[0] {
            keys_at(cs[0], path.drop_first())
        } else {
            Multiset::<String>::empty()
        };
        assert(forest_at(cs.push(c), path) == at_0.add(forest_at(cs.drop_first().push(c), path)));
        assert(forest_at(cs.drop_first().push(c), path) == forest_at(cs.drop_first(), path).add(
            at_c,
        ));
        assert(forest_at(cs, path) == at_0.add(forest_at(cs.drop_first(), path)));
        assert(at_0.add(forest_at(cs.drop_first(), path).add(at_c)) =~= at_0.add(
            forest_at(cs.drop_first(), path),
        ).add(at_c));
    }
}

/// Replacing a child with one of the same prefix changes the keys at a path
/// only by that child's own change at the path's remainder.
proof fn lemma_forest_at_update(cs: Seq<Namespace>, j: int, c2: Namespace, path: Seq<Seq<char>>)
    requires
        0 <= j < cs.len(),
        path.len() >= 1,
        c2.prefix@ == cs[j].prefix@,
    ensures
        cs[j].prefix@ == path[0] ==> forest_at(cs.update(j, c2), path).add(
            keys_at(cs[j], path.drop_first()),
        ) == forest_at(cs, path).add(keys_at(c2, path.drop_first())),
        cs[j].prefix@ != path[0] ==> forest_at(cs.update(j, c2), path) == forest_at(cs, path),
    decreases j,
{
    let cs2 = cs.update(j, c2);
    let rest = path.drop_first();
    if j == 0 {
        assert(cs2[0] == c2);
        assert(cs2.drop_first() =~= cs.drop_first());
        if cs[0].prefix@ == path[0] {
            assert(forest_at(cs2, path) == keys_at(c2, rest).add(forest_at(cs.drop_first(), path)));
            assert(forest_at(cs, path) == keys_at(cs[0], rest).add(
                forest_at(cs.drop_first(), path),
            ));
            assert(keys_at(c2, rest).add(forest_at(cs.drop_first(), path)).add(
                keys_at(cs[0], rest),
            ) =~= keys_at(cs[0], rest).add(forest_at(cs.drop_first(), path)).add(
                keys_at(c2, rest),
            ));
        } else {
            assert(forest_at(cs2, path) == Multiset::<String>::empty().add(
                forest_at(cs.drop_first(), path),
            ));
            assert(forest_at(cs, path) == Multiset::<String>::empty().add(
                forest_at(cs.drop_first(), path),
            ));
        }
    } else {
        assert(cs2[0] == cs[0]);
        assert(cs2.drop_first() =~= cs.drop_first().update(j - 1, c2));
        assert(cs.drop_first()[j - 1] == cs[j]);
        lemma_forest_at_update(cs.drop_first(), j - 1, c2, path);
        let at_0 = if cs[0].prefix@ == path[0] {
            keys_at(cs[0], rest)
        } else {
            Multiset::<String>::empty()
        };
        assert(forest_at(cs2, path) == at_0.add(forest_at(cs.drop_first().update(j - 1, c2), path)));
        assert(forest_at(cs, path) == at_0.add(forest_at(cs.drop_first(), path)));
        if cs[j].prefix@ == path[0] {
            assert(at_0.add(forest_at(cs.drop_first().update(j - 1, c2), path)).add(
                keys_at(cs[j], rest),
            ) =~= at_0.add(
                forest_at(cs.drop_first().update(j - 1, c2), path).add(keys_at(cs[j], rest)),
            ));
            assert(at_0.add(forest_at(cs.drop_first(), path).add(keys_at(c2, rest))) =~= at_0.add(
                forest_at(cs.drop_first(), path),
            ).add(keys_at(c2, rest)));
        } else {
            assert(forest_at(cs2, path) =~= forest_at(cs, path));
        }
    }
}

/// The prefixes of one sibling row, in order.
pub open spec fn child_prefixes(cs: Seq<Namespace>) -> Seq<Seq<char>> {
    cs.map_values(|c: Namespace| c.prefix@)
}

/// The distinct leading segments of the separated keys, in order of first
/// occurrence.
pub open spec fn lead_first_seen(ks: Seq<String>, sep: char) -> Seq<Seq<char>>
    decreases ks.len(),
{
    if ks.len() == 0 {
        Seq::empty()
    } else {
        let earlier = lead_first_seen(ks.drop_last(), sep);
        if !ks.last()@.contains(sep) {
            earlier
        } else {
            let lead = split_of(ks.last()@, sep)[0];
            if earlier.contains(lead) {
                earlier
            } else {
                earlier.push(lead)
            }
        }
    }
}

/// No two nodes of one sibling row share a prefix: keys with a common leading
/// segment are grouped into the one node of that segment.
pub open spec fn distinct_prefixes(cs: Seq<Namespace>) -> bool {
    forall|a: int, b: int| 0 <= a < b < cs.len() ==> cs[a].prefix@ != cs[b].prefix@
}

/// Every node of the forest is a well-formed grouping.
pub open spec fn wf_forest(cs: Seq<Namespace>) -> bool
    decreases cs,
{
    if cs.len() == 0 {
        true
    } else {
        wf_node(cs[0]) && wf_forest(cs.drop_first())
    }
}

/// A well-formed grouping: at this node and below, sibling prefixes are
/// pairwise distinct.
pub open spec fn wf_node(ns: Namespace) -> bool
    decreases ns,
{
    distinct_prefixes(ns.children@) && wf_forest(ns.children@)
}

/// Two paths with equal heads and equal tails are equal.
proof fn lemma_path_cons_eq(p: Seq<Seq<char>>, q: Seq<Seq<char>>)
    requires
        p.len() >= 1,
        q.len() >= 1,
        p[0] == q[0],
        p.drop_first() == q.drop_first(),
    ensures
        p == q,
{
    assert(p.drop_first().len() == p.len() - 1);
    assert(q.drop_first().len() == q.len() - 1);
    assert(p.len() == q.len());
    assert forall|t: int| 0 <= t < p.len() implies p[t] == q[t] by {
        if t > 0 {
            assert(p.drop_first()[t - 1] == p[t]);
            assert(q.drop_first()[t - 1] == q[t]);
        }
    }
    assert(p =~= q);
}

/// Each member of a well-formed forest is well-formed.
proof fn lemma_wf_forest_index(cs: Seq<Namespace>, a: int)
    requires
        wf_forest(cs),
        0 <= a < cs.len(),
    ensures
        wf_node(cs[a]),
    decreases a,
{
    if a > 0 {
        lemma_wf_forest_index(cs.drop_first(), a - 1);
        assert(cs.drop_first()[a - 1] == cs[a]);
    }
}

/// A forest of well-formed members is well-formed.
proof fn lemma_wf_forest_all(cs: Seq<Namespace>)
    requires
        forall|a: int| 0 <= a < cs.len() ==> wf_node(#[trigger] cs[a]),
    ensures
        wf_forest(cs),
    decreases cs.len(),
{
    if cs.len() > 0 {
        assert forall|a: int| 0 <= a < cs.drop_first().len() implies wf_node(
            #[trigger] cs.drop_first()[a],
        ) by {
            assert(cs.drop_first()[a] == cs[a + 1]);
        }
        lemma_wf_forest_all(cs.drop_first());
    }
}

/// Find the child whose prefix is this segment, if one exists.
fn find_child(children: &Vec<Namespace>, seg: &String) -> (r: Option<usize>)
    ensures
        (r matches Some(j) ==> j < children@.len() && children@[j as int].prefix@ == seg@),
        (r is None ==> forall|j: int|
            0 <= j < children@.len() ==> children@[j].prefix@ != seg@),
{
    let mut j: usize = 0;
    while j < children.len()
        invariant
            j <= children@.len(),
            forall|i: int| 0 <= i < j ==> children@[i].prefix@ != seg@,
        decreases children@.len() - j,
    {
        if children[j].prefix == *seg {
            return Some(j);
        }
        j = j + 1;
    }
    None
}

/// Walk (creating as needed) the nodes named by `segs[i..]` below `node`, and
/// attach the full key at the node of the last segment. Exactly one copy of
/// the key is added somewhere in the subtree, and nothing else changes in the
/// subtree's key content.
fn attach(node: &mut Namespace, segs: &Vec<String>, i: usize, key: &String)
    requires
        i <= segs@.len(),
    ensures
        node_keys(*final(node)) == node_keys(*old(node)).insert(*key),
        final(node).prefix@ == old(node).prefix@,
        i < segs@.len() ==> final(node).keys@ == old(node).keys@,
        wf_node(*old(node)) ==> wf_node(*final(node)),
        keys_at(*final(node), path_from(segs@, i as int)) == keys_at(
            *old(node),
            path_from(segs@, i as int),
        ).insert(*key),
        forall|p: Seq<Seq<char>>|
            p != path_from(segs@, i as int) ==> #[trigger] keys_at(*final(node), p) == keys_at(
                *old(node),
                p,
            ),
        i < segs@.len() ==> ((child_prefixes(old(node).children@).contains(segs@[i as int]@)
            ==> child_prefixes(final(node).children@) == child_prefixes(old(node).children@))
            && (!child_prefixes(old(node).children@).contains(segs@[i as int]@)
            ==> child_prefixes(final(node).children@) == child_prefixes(
            old(node).children@,
        ).push(segs@[i as int]@))),
    decreases segs@.len() - i,
{
    let ghost sfx = path_from(segs@, i as int);
    if i == segs.len() {
        node.keys.push(key.clone());
        proof {
            assert(node.keys@ == old(node).keys@.push(*key));
            assert(node_keys(*node) =~= node_keys(*old(node)).insert(*key));
            assert(node.children@ == old(node).children@);
            assert(sfx =~= Seq::<Seq<char>>::empty());
            assert(keys_at(*node, sfx) =~= keys_at(*old(node), sfx).insert(*key));
            assert forall|p: Seq<Seq<char>>| p != sfx implies #[trigger] keys_at(*node, p)
                == keys_at(*old(node), p) by {
                if p.len() == 0 {
                    assert(p =~= sfx);
                } else {
                    assert(keys_at(*node, p) == forest_at(node.children@, p));
                }
            }
        }
    } else {
        let found = find_child(&node.children, &segs[i]);
        match found {
            Some(j) => {
                let ghost cs = node.children@;
                let mut child = node.children.remove(j);
                let ghost child0 = child;
                proof {
                    if wf_node(*old(node)) {
                        lemma_wf_forest_index(cs, j as int);
                    }
                }
                attach(&mut child, segs, i + 1, key);
                node.children.insert(j, child);
                proof {
                    assert(node.children@ =~= cs.update(j as int, child));
                    lemma_forest_update(cs, j as int, child, *key);
                    assert(child_prefixes(cs)[j as int] == cs[j as int].prefix@);
                    assert(child_prefixes(cs).contains(segs@[i as int]@));
                    assert(child_prefixes(node.children@) =~= child_prefixes(cs));
                    let sfx2 = path_from(segs@, i as int + 1);
                    assert(sfx[0] == segs@[i as int]@);
                    assert(sfx.drop_first() =~= sfx2);
                    assert(cs[j as int].prefix@ == sfx[0]);
                    assert(child.prefix@ == cs[j as int].prefix@);
                    lemma_forest_at_update(cs, j as int, child, sfx);
                    assert(child0 == cs[j as int]);
                    assert(keys_at(child, sfx2) == keys_at(child0, sfx2).insert(*key));
                    assert(sfx.drop_first() == sfx2);
                    assert(forest_at(node.children@, sfx).add(keys_at(child0, sfx2)) == forest_at(
                        cs,
                        sfx,
                    ).add(keys_at(child, sfx2)));
                    assert forall|v: String| forest_at(node.children@, sfx).count(v) == forest_at(
                        cs,
                        sfx,
                    ).insert(*key).count(v) by {
                        assert(forest_at(node.children@, sfx).add(keys_at(child0, sfx2)).count(v)
                            == forest_at(cs, sfx).add(keys_at(child, sfx2)).count(v));
                    }
                    assert(forest_at(node.children@, sfx) =~= forest_at(cs, sfx).insert(*key));
                    assert(keys_at(*node, sfx) == keys_at(*old(node), sfx).insert(*key));
                    assert forall|p: Seq<Seq<char>>| p != sfx implies #[trigger] keys_at(*node, p)
                        == keys_at(*old(node), p) by {
                        if p.len() == 0 {
                            assert(keys_at(*node, p) == node.keys@.to_multiset());
                        } else {
                            lemma_forest_at_update(cs, j as int, child, p);
                            if cs[j as int].prefix@ == p[0] {
                                if p.drop_first() == sfx2 {
                                    lemma_path_cons_eq(p, sfx);
                                } else {
                                    assert(keys_at(child, p.drop_first()) == keys_at(
                                        child0,
                                        p.drop_first(),
                                    ));
                                    assert(forest_at(node.children@, p).add(
                                        keys_at(child0, p.drop_first()),
                                    ) == forest_at(cs, p).add(keys_at(child, p.drop_first())));
                                    assert forall|v: String|
                                        forest_at(node.children@, p).count(v) == forest_at(
                                            cs,
                                            p,
                                        ).count(v) by {
                                        assert(forest_at(node.children@, p).add(
                                            keys_at(child0, p.drop_first()),
                                        ).count(v) == forest_at(cs, p).add(
                                            keys_at(child, p.drop_first()),
                                        ).count(v));
                                    }
                                    assert(forest_at(node.children@, p) =~= forest_at(cs, p));
                                }
                            }
                        }
                    }
                    if wf_node(*old(node)) {
                        assert forall|a: int| 0 <= a < node.children@.len() implies wf_node(
                            #[trigger] node.children@[a],
                        ) by {
                            if a != j {
                                assert(node.children@[a] == cs[a]);
                                lemma_wf_forest_index(cs, a);
                            }
                        }
                        lemma_wf_forest_all(node.children@);
                        assert(child.prefix@ == cs[j as int].prefix@);
                        assert forall|a: int, b: int|
                            0 <= a < b < node.children@.len() implies node.children@[a].prefix@
                            != node.children@[b].prefix@ by {
                            assert(node.children@[a].prefix@ == cs[a].prefix@);
                            assert(node.children@[b].prefix@ == cs[b].prefix@);
                        }
                    }
                }
            },
            None => {
                let ghost cs = node.children@;
                let mut child = Namespace {
                    prefix: segs[i].clone(),
                    keys: Vec::new(),
                    children: Vec::new(),
                };
                proof {
                    assert(child.children@ =~= Seq::<Namespace>::empty());
                    assert(node_keys(child) =~= Multiset::<String>::empty());
                    assert(wf_forest(child.children@));
                    assert(wf_node(child));
                    assert(child.keys@ =~= Seq::<String>::empty());
                    assert forall|p: Seq<Seq<char>>| #[trigger] keys_at(child, p)
                        == Multiset::<String>::empty() by {
                        if p.len() == 0 {
                            child.keys@.to_multiset_ensures();
                            vstd::multiset::lemma_multiset_empty_len(keys_at(child, p));
                        } else {
                            assert(keys_at(child, p) == forest_at(child.children@, p));
                        }
                    }
                }
                let ghost child0 = child;
                attach(&mut child, segs, i + 1, key);
                node.children.push(child);
                proof {
                    assert(node.children@ =~= cs.push(child));
                    lemma_forest_push(cs, child);
                    assert(node_keys(*node) =~= node_keys(*old(node)).insert(*key));
                    assert(!child_prefixes(cs).contains(segs@[i as int]@)) by {
                        if child_prefixes(cs).contains(segs@[i as int]@) {
                            let jj = choose|jj: int|
                                0 <= jj < child_prefixes(cs).len() && child_prefixes(cs)[jj]
                                    == segs@[i as int]@;
                            assert(cs[jj].prefix@ == segs@[i as int]@);
                        }
                    }
                    assert(child_prefixes(node.children@) =~= child_prefixes(cs).push(
                        segs@[i as int]@,
                    ));
                    let sfx2 = path_from(segs@, i as int + 1);
                    assert(sfx[0] == segs@[i as int]@);
                    assert(sfx.drop_first() =~= sfx2);
                    assert(child.prefix@ == child0.prefix@);
                    assert(child0.prefix@ == segs@[i as int]@);
                    lemma_forest_at_push(cs, child, sfx);
                    assert(keys_at(child, sfx2) == keys_at(child0, sfx2).insert(*key));
                    assert(keys_at(child0, sfx2) == Multiset::<String>::empty());
                    assert(forest_at(cs, sfx).add(Multiset::<String>::empty().insert(*key))
                        =~= forest_at(cs, sfx).insert(*key));
                    assert(keys_at(*node, sfx) == keys_at(*old(node), sfx).insert(*key));
                    assert forall|p: Seq<Seq<char>>| p != sfx implies #[trigger] keys_at(*node, p)
                        == keys_at(*old(node), p) by {
                        if p.len() == 0 {
                            assert(keys_at(*node, p) == node.keys@.to_multiset());
                        } else {
                            lemma_forest_at_push(cs, child, p);
                            if child.prefix@ == p[0] {
                                if p.drop_first() == sfx2 {
                                    lemma_path_cons_eq(p, sfx);
                                } else {
                                    assert(keys_at(child, p.drop_first())
                                        == Multiset::<String>::empty());
                                    assert(forest_at(cs, p).add(Multiset::<String>::empty())
                                        =~= forest_at(cs, p));
                                }
                            } else {
                                assert(forest_at(cs, p).add(Multiset::<String>::empty())
                                    =~= forest_at(cs, p));
                            }
                        }
                    }
                    if wf_node(*old(node)) {
                        assert forall|a: int| 0 <= a < node.children@.len() implies wf_node(
                            #[trigger] node.children@[a],
                        ) by {
                            if a < cs.len() {
                                assert(node.children@[a] == cs[a]);
                                lemma_wf_forest_index(cs, a);
                            } else {
                                assert(node.children@[a] == child);
                            }
                        }
                        lemma_wf_forest_all(node.children@);
                        assert(child.prefix@ == segs@[i as int]@);
                        assert forall|a: int, b: int|
                            0 <= a < b < node.children@.len() implies node.children@[a].prefix@
                            != node.children@[b].prefix@ by {
                            assert(node.children@[a] == cs[a]);
                            if b < cs.len() {
                                assert(node.children@[b] == cs[b]);
                            } else {
                                assert(node.children@[b] == child);
                            }
                        }
                    }
                }
            },
        }
    }
}

/// The canonical splitting of a character sequence on the separator: the
/// (possibly empty) stretches between separator occurrences, in order. There
/// is always at least one segment, and none contains the separator.
pub open spec fn split_of(s: Seq<char>, sep: char) -> Seq<Seq<char>>
    decreases s.len(),
{
    if s.len() == 0 {
        seq![s]
    } else if s[0] == sep {
        seq![Seq::<char>::empty()] + split_of(s.drop_first(), sep)
    } else {
        let rest = split_of(s.drop_first(), sep);
        rest.update(0, seq![s[0]] + rest[0])
    }
}

/// Separator-free segments joined with the separator split back into exactly
/// those segments: the splitting of a key is unique.
proof fn lemma_split_of_joined(vs: Seq<Seq<char>>, sep: char)
    requires
        vs.len() >= 1,
        forall|t: int| 0 <= t < vs.len() ==> !(#[trigger] vs[t]).contains(sep),
    ensures
        split_of(joined(vs, sep), sep) == vs,
    decreases vs.len(), vs[0].len(),
{
    let s = joined(vs, sep);
    if vs[0].len() == 0 {
        if vs.len() == 1 {
            assert(s =~= Seq::<char>::empty());
            assert(split_of(s, sep) =~= vs);
        } else {
            assert(s =~= seq![sep] + joined(vs.drop_first(), sep));
            assert(s[0] == sep);
            assert(s.drop_first() =~= joined(vs.drop_first(), sep));
            lemma_split_of_joined(vs.drop_first(), sep);
            assert(vs[0] =~= Seq::<char>::empty());
            assert(split_of(s, sep) =~= vs);
        }
    } else {
        let vs2 = vs.update(0, vs[0].drop_first());
        assert(!vs[0].contains(sep));
        assert(vs[0][0] != sep);
        assert(s[0] == vs[0][0]) by {
            if vs.len() == 1 {
            } else {
                assert(s == vs[0] + seq![sep] + joined(vs.drop_first(), sep));
            }
        }
        assert(!vs2[0].contains(sep)) by {
            assert forall|t: int| 0 <= t < vs2[0].len() implies vs2[0][t] != sep by {
                assert(vs2[0][t] == vs[0][t + 1]);
            }
        }
        assert(forall|t: int| 0 <= t < vs2.len() ==> !(#[trigger] vs2[t]).contains(sep));
        assert(s.drop_first() =~= joined(vs2, sep)) by {
            if vs.len() == 1 {
                assert(joined(vs2, sep) == vs2[0]);
                assert(s == vs[0]);
            } else {
                assert(vs2.drop_first() =~= vs.drop_first());
                assert(joined(vs2, sep) == vs2[0] + seq![sep] + joined(vs.drop_first(), sep));
                assert(s == vs[0] + seq![sep] + joined(vs.drop_first(), sep));
            }
        }
        lemma_split_of_joined(vs2, sep);
        let rest = split_of(s.drop_first(), sep);
        assert(rest == vs2);
        assert(seq![s[0]] + rest[0] =~= vs[0]);
        assert(split_of(s, sep) == rest.update(0, seq![s[0]] + rest[0]));
        assert(rest.update(0, seq![s[0]] + rest[0]) =~= vs);
    }
}

/// The characters of these segments, joined with the separator between
/// consecutive segments.
spec fn joined(segs: Seq<Seq<char>>, sep: char) -> Seq<char>
    decreases segs.len(),
{
    if segs.len() == 0 {
        Seq::empty()
    } else if segs.len() == 1 {
        segs[0]
    } else {
        segs[0] + seq![sep] + joined(segs.drop_first(), sep)
    }
}

/// The character sequences of these segment strings.
spec fn seg_views(segs: Seq<String>) -> Seq<Seq<char>> {
    segs.map_values(|t: String| t@)
}

/// The node path named by the segments from position `i` on.
spec fn path_from(segs: Seq<String>, i: int) -> Seq<Seq<char>> {
    seg_views(segs).subrange(i, segs.len() as int)
}

/// Joining one more segment appends a separator and that segment.
proof fn lemma_joined_push(segs: Seq<Seq<char>>, x: Seq<char>, sep: char)
    requires
        segs.len() >= 1,
    ensures
        joined(segs.push(x), sep) == joined(segs, sep) + seq![sep] + x,
    decreases segs.len(),
{
    if segs.len() == 1 {
        assert(segs.push(x).drop_first() =~= seq![x]);
        assert(segs.push(x)[0] == segs[0]);
        assert(joined(seq![x], sep) == x);
    } else {
        lemma_joined_push(segs.drop_first(), x, sep);
        assert(segs.push(x).drop_first() =~= segs.drop_first().push(x));
        assert(segs.push(x)[0] == segs[0]);
        assert(segs[0] + seq![sep] + (joined(segs.drop_first(), sep) + seq![sep] + x) =~= segs[0]
            + seq![sep] + joined(segs.drop_first(), sep) + seq![sep] + x);
    }
}

/// Split a key on the separator character. The key's characters between
/// consecutive separators (and before the first and after the last) become the
/// segments, in order: joining the segments back with the separator gives the
/// key, there is always at least one segment, and a key without any separator
/// is its own single segment.
fn split_key(key: &String, separator: char) -> (segs: Vec<String>)
    ensures
        segs@.len() >= 1,
        (segs@.len() == 1 ==> segs@[0]@ == key@),
        (segs@.len() == 1 <==> !key@.contains(separator)),
        joined(seg_views(segs@), separator) == key@,
        forall|t: int| 0 <= t < segs@.len() ==> !segs@[t]@.contains(separator),
        seg_views(segs@) == split_of(key@, separator),
{
    let s = key.as_str();
    let n = s.unicode_len();
    let mut segs: Vec<String> = Vec::new();
    let mut start: usize = 0;
    let mut i: usize = 0;
    while i < n
        invariant
            start <= i <= n,
            n == key@.len(),
            s@ == key@,
            segs@.len() == 0 ==> start == 0,
            segs@.len() >= 1 ==> start >= 1,
            (segs@.len() == 0 <==> forall|j: int| 0 <= j < i ==> key@[j] != separator),
            segs@.len() >= 1 ==> joined(seg_views(segs@), separator) + seq![separator]
                == key@.subrange(0, start as int),
            forall|j: int| start <= j < i ==> key@[j] != separator,
            forall|t: int| 0 <= t < segs@.len() ==> !segs@[t]@.contains(separator),
        decreases n - i,
    {
        if s.get_char(i) == separator {
            let ghost before = segs@;
            segs.push(String::from_str(s.substring_char(start, i)));
            proof {
                let x = key@.subrange(start as int, i as int);
                assert(seg_views(segs@) =~= seg_views(before).push(x));
                assert(!x.contains(separator)) by {
                    assert forall|t: int| 0 <= t < x.len() implies x[t] != separator by {
                        assert(x[t] == key@[start + t]);
                    }
                }
                if before.len() == 0 {
                    assert(joined(seg_views(segs@), separator) == x);
                    assert(x + seq![separator] =~= key@.subrange(0, i as int + 1));
                } else {
                    lemma_joined_push(seg_views(before), x, separator);
                    assert(joined(seg_views(before), separator) + seq![separator] + x
                        =~= key@.subrange(0, start as int) + key@.subrange(start as int, i as int));
                    assert(key@.subrange(0, start as int) + key@.subrange(start as int, i as int)
                        =~= key@.subrange(0, i as int));
                    assert(joined(seg_views(segs@), separator) + seq![separator] =~= key@.subrange(
                        0,
                        i as int + 1,
                    ));
                }
            }
            start = i + 1;
        }
        i = i + 1;
    }
    let had_separator = segs.len() > 0;
    proof {
        if !had_separator {
            assert(key@.subrange(0, n as int) =~= key@);
            assert(!key@.contains(separator));
        } else {
            let j = choose|j: int| 0 <= j < n && key@[j] == separator;
            assert(key@.contains(separator));
        }
    }
    let ghost before = segs@;
    let last = String::from_str(s.substring_char(start, n));
    segs.push(last);
    proof {
        let x = key@.subrange(start as int, n as int);
        assert(seg_views(segs@) =~= seg_views(before).push(x));
        assert(!x.contains(separator)) by {
            assert forall|t: int| 0 <= t < x.len() implies x[t] != separator by {
                assert(x[t] == key@[start + t]);
            }
        }
        if before.len() == 0 {
            assert(joined(seg_views(segs@), separator) =~= key@);
        } else {
            lemma_joined_push(seg_views(before), x, separator);
            assert(joined(seg_views(before), separator) + seq![separator] + x =~= key@.subrange(
                0,
                start as int,
            ) + key@.subrange(start as int, n as int));
            assert(key@.subrange(0, start as int) + key@.subrange(start as int, n as int)
                =~= key@);
        }
        assert forall|t: int| 0 <= t < seg_views(segs@).len() implies !(#[trigger] seg_views(
            segs@,
        )[t]).contains(separator) by {
            assert(seg_views(segs@)[t] == segs@[t]@);
        }
        lemma_split_of_joined(seg_views(segs@), separator);
    }
    segs
}

/// Group a flat list of keys into a namespace tree by splitting each key on
/// the separator: a key without the separator becomes a direct leaf of the
/// root; any other key sits attached at exactly the node path named by its
/// canonical segments. The tree holds exactly the input keys — each one
/// exactly as often as it was given, none invented, none lost — and the
/// root's direct leaves are exactly the separator-free keys, in input order.
pub fn group(keys: &Vec<String>, separator: char) -> (root: Namespace)
    ensures
        node_keys(root) == keys@.to_multiset(),
        root.prefix@.len() == 0,
        root.keys@ == keys@.filter(|k: String| !k@.contains(separator)),
        wf_node(root),
        forall|p: Seq<Seq<char>>|
            p.len() >= 2 ==> #[trigger] keys_at(root, p) == keys@.filter(
                |k: String| split_of(k@, separator) == p,
            ).to_multiset(),
        child_prefixes(root.children@) == lead_first_seen(keys@, separator),
{
    let mut root = Namespace { prefix: String::new(), keys: Vec::new(), children: Vec::new() };
    proof {
        assert(root.children@ =~= Seq::<Namespace>::empty());
        assert(node_keys(root) =~= keys@.subrange(0, 0).to_multiset());
        assert(root.keys@ =~= keys@.subrange(0, 0).filter(|k: String| !k@.contains(separator)));
        assert(wf_forest(root.children@));
        assert forall|p: Seq<Seq<char>>|
            p.len() >= 2 implies #[trigger] keys_at(root, p) == keys@.subrange(0, 0).filter(
            |k: String| split_of(k@, separator) == p,
        ).to_multiset() by {
            assert(keys_at(root, p) == forest_at(root.children@, p));
            assert(forest_at(root.children@, p) == Multiset::<String>::empty());
            let f = keys@.subrange(0, 0).filter(|k: String| split_of(k@, separator) == p);
            assert(f.len() == 0);
            f.to_multiset_ensures();
            vstd::multiset::lemma_multiset_empty_len(f.to_multiset());
        }
        assert(child_prefixes(root.children@) =~= lead_first_seen(
            keys@.subrange(0, 0),
            separator,
        ));
    }
    let mut i: usize = 0;
    while i < keys.len()
        invariant
            i <= keys@.len(),
            node_keys(root) == keys@.subrange(0, i as int).to_multiset(),
            root.prefix@.len() == 0,
            root.keys@ == keys@.subrange(0, i as int).filter(
                |k: String| !k@.contains(separator),
            ),
            wf_node(root),
            forall|p: Seq<Seq<char>>|
                p.len() >= 2 ==> #[trigger] keys_at(root, p) == keys@.subrange(0, i as int).filter(
                    |k: String| split_of(k@, separator) == p,
                ).to_multiset(),
            child_prefixes(root.children@) == lead_first_seen(
                keys@.subrange(0, i as int),
                separator,
            ),
        decreases keys@.len() - i,
    {
        let key = &keys[i];
        let ghost root0 = root;
        let segs = split_key(key, separator);
        if segs.len() == 1 {
            let ghost children_before = root.children@;
            root.keys.push(key.clone());
            proof {
                assert(node_keys(root) =~= keys@.subrange(0, i as int).to_multiset().insert(
                    keys@[i as int],
                ));
                assert(root.children@ == children_before);
            }
        } else {
            attach(&mut root, &segs, 0, key);
        }
        i = i + 1;
        proof {
            let kk = keys@[i as int - 1];
            let prev = keys@.subrange(0, i as int - 1);
            let cur = keys@.subrange(0, i as int);
            assert(cur =~= prev.push(kk));
            assert(*key == kk);
            assert(seg_views(segs@) == split_of(kk@, separator));
            assert forall|p: Seq<Seq<char>>|
                p.len() >= 2 implies #[trigger] keys_at(root, p) == cur.filter(
                |k: String| split_of(k@, separator) == p,
            ).to_multiset() by {
                let pred = |k: String| split_of(k@, separator) == p;
                assert(cur.filter(pred) == prev.push(kk).filter(pred));
                if segs@.len() == 1 {
                    assert(split_of(kk@, separator).len() == 1);
                    assert(!pred(kk));
                    assert(prev.push(kk).filter(pred) == prev.filter(pred));
                    assert(root.children@ == root0.children@);
                    assert(keys_at(root, p) == forest_at(root.children@, p));
                    assert(keys_at(root, p) == keys_at(root0, p));
                } else {
                    let sfx = path_from(segs@, 0);
                    assert(sfx =~= seg_views(segs@));
                    assert(sfx == split_of(kk@, separator));
                    if p == split_of(kk@, separator) {
                        assert(pred(kk));
                        assert(prev.push(kk).filter(pred) == prev.filter(pred).push(kk));
                        assert(keys_at(root, sfx) == keys_at(root0, sfx).insert(kk));
                        assert(prev.filter(pred).push(kk).to_multiset() == prev.filter(
                            pred,
                        ).to_multiset().insert(kk));
                    } else {
                        assert(p != sfx);
                        assert(keys_at(root, p) == keys_at(root0, p));
                        assert(!pred(kk));
                        assert(prev.push(kk).filter(pred) == prev.filter(pred));
                    }
                }
                assert(keys_at(root0, p) == prev.filter(pred).to_multiset());
            }
            assert(cur.drop_last() =~= prev);
            assert(cur.last() == kk);
            if segs@.len() == 1 {
                assert(!kk@.contains(separator));
                assert(root.children@ == root0.children@);
                assert(lead_first_seen(cur, separator) == lead_first_seen(prev, separator));
            } else {
                assert(kk@.contains(separator));
                let lead = split_of(kk@, separator)[0];
                assert(seg_views(segs@)[0] == segs@[0]@);
                assert(lead == segs@[0]@);
                if child_prefixes(root0.children@).contains(lead) {
                    assert(child_prefixes(root.children@) == child_prefixes(root0.children@));
                    assert(lead_first_seen(cur, separator) == lead_first_seen(prev, separator));
                } else {
                    assert(child_prefixes(root.children@) == child_prefixes(
                        root0.children@,
                    ).push(lead));
                    assert(lead_first_seen(cur, separator) == lead_first_seen(
                        prev,
                        separator,
                    ).push(lead));
                }
            }
            assert(child_prefixes(root.children@) == lead_first_seen(cur, separator));
        }
    }
    proof {
        assert(keys@.subrange(0, keys@.len() as int) =~= keys@);
    }
    root
}

/// Collect every full key stored anywhere under this node, this node's keys
/// first, then each child subtree in order.
fn flatten_into(ns: &Namespace, out: &mut Vec<String>)
    ensures
        final(out)@.to_multiset() == old(out)@.to_multiset().add(node_keys(*ns)),
    decreases *ns,
{
    let mut i: usize = 0;
    while i < ns.keys.len()
        invariant
            i <= ns.keys@.len(),
            out@.to_multiset() == old(out)@.to_multiset().add(
                ns.keys@.subrange(0, i as int).to_multiset(),
            ),
        decreases ns.keys@.len() - i,
    {
        out.push(ns.keys[i].clone());
        i = i + 1;
        proof {
            assert(ns.keys@.subrange(0, i as int) =~= ns.keys@.subrange(0, i as int - 1).push(
                ns.keys@[i as int - 1],
            ));
            assert(out@.to_multiset() =~= old(out)@.to_multiset().add(
                ns.keys@.subrange(0, i as int).to_multiset(),
            ));
        }
    }
    proof {
        assert(ns.keys@.subrange(0, ns.keys@.len() as int) =~= ns.keys@);
        assert(forest_keys(ns.children@.subrange(0, 0)) =~= Multiset::<String>::empty());
        assert(out@.to_multiset() =~= old(out)@.to_multiset().add(ns.keys@.to_multiset()).add(
            forest_keys(ns.children@.subrange(0, 0)),
        ));
    }
    let mut j: usize = 0;
    while j < ns.children.len()
        invariant
            j <= ns.children@.len(),
            out@.to_multiset() == old(out)@.to_multiset().add(ns.keys@.to_multiset()).add(
                forest_keys(ns.children@.subrange(0, j as int)),
            ),
        decreases ns.children@.len() - j,
    {
        flatten_into(&ns.children[j], out);
        j = j + 1;
        proof {
            assert(ns.children@.subrange(0, j as int) =~= ns.children@.subrange(
                0,
                j as int - 1,
            ).push(ns.children@[j as int - 1]));
            lemma_forest_push(ns.children@.subrange(0, j as int - 1), ns.children@[j as int - 1]);
            assert(out@.to_multiset() =~= old(out)@.to_multiset().add(ns.keys@.to_multiset()).add(
                forest_keys(ns.children@.subrange(0, j as int)),
            ));
        }
    }
    proof {
        assert(ns.children@.subrange(0, ns.children@.len() as int) =~= ns.children@);
        assert(out@.to_multiset() =~= old(out)@.to_multiset().add(node_keys(*ns)));
    }
}

/// Flatten a namespace tree back into the full keys it stores, each exactly as
/// often as it occurs in the tree.
pub fn flatten(root: &Namespace) -> (flat: Vec<String>)
    ensures
        flat@.to_multiset() == node_keys(*root),
{
    let mut flat: Vec<String> = Vec::new();
    flatten_into(root, &mut flat);
    proof {
        assert(flat@.to_multiset() =~= node_keys(*root));
    }
    flat
}

/// Round trip: grouping a list of keys and flattening the tree back
/// reproduces exactly the input — the same keys, each the same number of
/// times; for duplicate-free input, the output is duplicate-free and holds
/// precisely the input's keys.
pub proof fn lemma_namespace_round_trip(keys: Seq<String>, root: Namespace, flat: Seq<String>)
    requires
        node_keys(root) == keys.to_multiset(),
        flat.to_multiset() == node_keys(root),
    ensures
        flat.to_multiset() == keys.to_multiset(),
        keys.no_duplicates() ==> flat.no_duplicates(),
        forall|k: String| flat.contains(k) <==> keys.contains(k),
{
    keys.to_multiset_ensures();
    flat.to_multiset_ensures();
    if keys.no_duplicates() {
        keys.lemma_multiset_has_no_duplicates();
        flat.lemma_multiset_has_no_duplicates_conv();
    }
    assert forall|k: String| flat.contains(k) <==> keys.contains(k) by {
        assert(flat.contains(k) <==> flat.to_multiset().count(k) > 0);
        assert(keys.contains(k) <==> keys.to_multiset().count(k) > 0);
    }
}

} // verus!
