//! Deep merge of configuration layers: objects merge key by key, anything
//! else in the overlay replaces the base wholesale.
use vstd::prelude::*;
use crate::value::{
    ConfigValue, Tree, entries_view, entries_wf, has_key, keys_unique, lemma_entries_push,
    lemma_entries_view, lemma_entries_view_update, lemma_entries_wf, lemma_remove_insert,
};

verus! {

/// What `deep_merge` makes of `b` with `o` laid over it.
pub open spec fn merge_tree(b: Tree, o: Tree) -> Tree
    decreases o,
{
    if b is Object && o is Object {
        let bm = b->Object_0;
        let om = o->Object_0;
        Tree::Object(
            Map::new(
                |k: Seq<char>| bm.contains_key(k) || om.contains_key(k),
                |k: Seq<char>|
                    if om.contains_key(k) {
                        if bm.contains_key(k) {
                            merge_tree(bm[k], om[k])
                        } else {
                            om[k]
                        }
                    } else {
                        bm[k]
                    },
            ),
        )
    } else {
        o
    }
}

/// The merge of two object models.
pub open spec fn merge_maps(bm: Map<Seq<char>, Tree>, om: Map<Seq<char>, Tree>) -> Map<Seq<char>, Tree> {
    merge_tree(Tree::Object(bm), Tree::Object(om))->Object_0
}

/// Index of the entry with key `k`, if any.
pub fn find_key(e: &Vec<(String, ConfigValue)>, k: &String) -> (r: Option<usize>)
    ensures
        r is Some ==> r->0 < e.len() && e@[r->0 as int].0@ == k@,
        r is None ==> !has_key(e@, k@),
{
    let mut i: usize = 0;
    while i < e.len()
        invariant
            i <= e.len(),
            forall|j: int| 0 <= j < i ==> e@[j].0@ != k@,
        decreases e.len() - i,
    {
        if e[i].0 == *k {
            return Some(i);
        }
        i += 1;
    }
    None
}

proof fn lemma_take_step(oe: Seq<(String, ConfigValue)>, j: int)
    requires
        keys_unique(oe),
        0 <= j < oe.len(),
    ensures
        keys_unique(oe.take(j)),
        !entries_view(oe.take(j)).contains_key(oe[j].0@),
        entries_view(oe.take(j + 1)) == entries_view(oe.take(j)).insert(oe[j].0@, oe[j].1.tree()),
{
    let t = oe.take(j);
    assert(oe.take(j + 1).drop_last() =~= t);
    lemma_entries_view(t);
    if has_key(t, oe[j].0@) {
        let i = choose|i: int| 0 <= i < t.len() && t[i].0@ == oe[j].0@;
        assert(oe[i].0@ == oe[j].0@);
    }
}

proof fn lemma_merge_step(bm: Map<Seq<char>, Tree>, om: Map<Seq<char>, Tree>, k: Seq<char>, v: Tree)
    requires
        !om.contains_key(k),
    ensures
        merge_maps(bm, om.insert(k, v)) == merge_maps(bm, om).insert(
            k,
            if bm.contains_key(k) {
                merge_tree(bm[k], v)
            } else {
                v
            },
        ),
        merge_maps(bm, om).contains_key(k) == bm.contains_key(k),
        bm.contains_key(k) ==> merge_maps(bm, om)[k] == bm[k],
{
    assert(merge_maps(bm, om.insert(k, v)) =~= merge_maps(bm, om).insert(
        k,
        if bm.contains_key(k) {
            merge_tree(bm[k], v)
        } else {
            v
        },
    ));
}

fn merge_into(base: &mut ConfigValue, overlay: &ConfigValue)
    requires
        old(base).wf(),
        overlay.wf(),
    ensures
        final(base).wf(),
        final(base)@ == merge_tree(old(base)@, overlay@),
    decreases overlay,
{
    match overlay {
        ConfigValue::Object(oe) => {
            let mut taken = ConfigValue::Null;
            core::mem::swap(base, &mut taken);
            match taken {
                ConfigValue::Object(mut be) => {
                    let ghost bm = entries_view(be@);
                    proof {
                        lemma_entries_wf(oe@);
                        assert(oe@.take(0) =~= Seq::<(String, ConfigValue)>::empty());
                        assert(merge_maps(bm, Map::empty()) =~= bm);
                    }
                    let mut j: usize = 0;
                    while j < oe.len()
                        invariant
                            *overlay == ConfigValue::Object(*oe),
                            keys_unique(oe@),
                            forall|x: int| 0 <= x < oe@.len() ==> (#[trigger] oe@[x]).1.wf(),
                            j <= oe.len(),
                            keys_unique(be@),
                            entries_wf(be@),
                            entries_view(be@) == merge_maps(bm, entries_view(oe@.take(j as int))),
                        decreases oe.len() - j,
                    {
                        proof {
                            assert(decreases_to!(*overlay => overlay->Object_0[j as int].1));
                            lemma_take_step(oe@, j as int);
                            lemma_merge_step(
                                bm,
                                entries_view(oe@.take(j as int)),
                                oe@[j as int].0@,
                                oe@[j as int].1.tree(),
                            );
                            lemma_entries_view(be@);
                            lemma_entries_wf(be@);
                        }
                        let k = &oe[j].0;
                        let v = &oe[j].1;
                        match find_key(&be, k) {
                            Some(i) => {
                                let ghost before = be@;
                                let (bk, bv) = be.remove(i);
                                let mut bv = bv;
                                merge_into(&mut bv, v);
                                be.insert(i, (bk, bv));
                                proof {
                                    lemma_remove_insert(before, i as int, (bk, bv));
                                    lemma_entries_view_update(before, i as int, bv);
                                    lemma_entries_wf(be@);
                                }
                            },
                            None => {
                                let kc = k.clone();
                                let vc = v.deep_clone();
                                proof {
                                    lemma_entries_push(be@, kc, vc);
                                }
                                be.push((kc, vc));
                                proof {
                                    lemma_entries_wf(be@);
                                }
                            },
                        }
                        j += 1;
                    }
                    proof {
                        assert(oe@.take(oe@.len() as int) =~= oe@);
                    }
                    *base = ConfigValue::Object(be);
                },
                _ => {
                    *base = overlay.deep_clone();
                },
            }
        },
        _ => {
            *base = overlay.deep_clone();
        },
    }
}

/// Lays `overlay` over `base`: where both are objects they merge key by key,
/// recursively; otherwise (lists included) the overlay replaces the base.
pub fn deep_merge(base: &mut ConfigValue, overlay: ConfigValue)
    requires
        old(base).wf(),
        overlay.wf(),
    ensures
        final(base).wf(),
        final(base)@ == merge_tree(old(base)@, overlay@),
{
    merge_into(base, &overlay);
}


/// The value reached by following `path` through nested objects.
pub open spec fn lookup(t: Tree, path: Seq<Seq<char>>) -> Option<Tree>
    decreases path.len(),
{
    if path.len() == 0 {
        Some(t)
    } else if t is Object && t->Object_0.contains_key(path[0]) {
        lookup(t->Object_0[path[0]], path.drop_first())
    } else {
        None
    }
}

/// Two layers touch disjoint paths: both are objects, and under every key
/// they share, the two values touch disjoint paths again.
pub open spec fn disjoint(a: Tree, b: Tree) -> bool
    decreases b,
{
    a is Object && b is Object && forall|k: Seq<char>|
        a->Object_0.contains_key(k) && #[trigger] b->Object_0.contains_key(k) ==> disjoint(
            a->Object_0[k],
            b->Object_0[k],
        )
}

/// Last writer wins: wherever the overlay holds a value other than an
/// object, the merge holds exactly that value.
pub proof fn lemma_last_writer_wins(b: Tree, o: Tree, path: Seq<Seq<char>>)
    requires
        lookup(o, path) is Some,
        !(lookup(o, path)->0 is Object),
    ensures
        lookup(merge_tree(b, o), path) == lookup(o, path),
    decreases path.len(),
{
    if path.len() > 0 && b is Object && o is Object {
        let k = path[0];
        if b->Object_0.contains_key(k) {
            lemma_last_writer_wins(b->Object_0[k], o->Object_0[k], path.drop_first());
        }
    }
}

/// Disjointness does not depend on which layer comes first.
pub proof fn lemma_disjoint_symmetric(a: Tree, b: Tree)
    requires
        disjoint(a, b),
    ensures
        disjoint(b, a),
    decreases b,
{
    let am = a->Object_0;
    let bm = b->Object_0;
    assert forall|k: Seq<char>| bm.contains_key(k) && #[trigger] am.contains_key(k) implies disjoint(
        bm[k],
        am[k],
    ) by {
        assert(disjoint(am[k], bm[k]));
        lemma_disjoint_symmetric(am[k], bm[k]);
    }
}

/// Layers that touch disjoint paths can be merged in either order.
pub proof fn lemma_merge_commutative_disjoint(a: Tree, b: Tree)
    requires
        disjoint(a, b),
    ensures
        merge_tree(a, b) == merge_tree(b, a),
    decreases b,
{
    let am = a->Object_0;
    let bm = b->Object_0;
    let l = merge_tree(a, b)->Object_0;
    let r = merge_tree(b, a)->Object_0;
    assert forall|k: Seq<char>| #[trigger] l.contains_key(k) implies l[k] == r[k] by {
        if am.contains_key(k) && bm.contains_key(k) {
            assert(disjoint(am[k], bm[k]));
            lemma_merge_commutative_disjoint(am[k], bm[k]);
        }
    }
    assert(l =~= r);
}

/// Merging layers that touch pairwise disjoint paths is associative.
pub proof fn lemma_merge_associative_disjoint(a: Tree, b: Tree, c: Tree)
    requires
        disjoint(a, b),
        disjoint(b, c),
        disjoint(a, c),
    ensures
        merge_tree(merge_tree(a, b), c) == merge_tree(a, merge_tree(b, c)),
    decreases c,
{
    let am = a->Object_0;
    let bm = b->Object_0;
    let cm = c->Object_0;
    let l = merge_tree(merge_tree(a, b), c)->Object_0;
    let r = merge_tree(a, merge_tree(b, c))->Object_0;
    assert forall|k: Seq<char>| #[trigger] l.contains_key(k) implies l[k] == r[k] by {
        if am.contains_key(k) && bm.contains_key(k) && cm.contains_key(k) {
            assert(disjoint(am[k], bm[k]));
            assert(disjoint(bm[k], cm[k]));
            assert(disjoint(am[k], cm[k]));
            lemma_merge_associative_disjoint(am[k], bm[k], cm[k]);
        }
    }
    assert(l =~= r);
}

} // verus!
