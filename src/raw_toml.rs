//! A TOML document as its parser gives it, before the library settles what
//! becomes of floats that are not finite.
use vstd::prelude::*;
use crate::value::{ConfigValue, Tree, entries_view, entries_wf, keys_unique, lemma_entries_wf, lemma_list_view, lemma_list_wf, list_view};

verus! {

/// A TOML value: a float leaf holds the shortest decimal text of a finite
/// value, or nothing for NaN or an infinity; datetimes are their text.
pub enum RawTree {
    Bool(bool),
    Int(i64),
    Float(Option<String>),
    Str(String),
    List(Vec<RawTree>),
    Table(Vec<(String, RawTree)>),
}

pub open spec fn raw_list_view(s: Seq<RawTree>) -> Seq<Tree>
    decreases s,
{
    if s.len() == 0 {
        Seq::empty()
    } else {
        raw_list_view(s.drop_last()).push(s[s.len() - 1].view_tree())
    }
}

pub open spec fn raw_entries_view(e: Seq<(String, RawTree)>) -> Map<Seq<char>, Tree>
    decreases e,
{
    if e.len() == 0 {
        Map::empty()
    } else {
        raw_entries_view(e.drop_last()).insert(e[e.len() - 1].0@, e[e.len() - 1].1.view_tree())
    }
}

pub open spec fn raw_list_wf(s: Seq<RawTree>) -> bool
    decreases s,
{
    s.len() == 0 || (raw_list_wf(s.drop_last()) && s[s.len() - 1].wf())
}

pub open spec fn raw_entries_wf(e: Seq<(String, RawTree)>) -> bool
    decreases e,
{
    e.len() == 0 || (raw_entries_wf(e.drop_last()) && e[e.len() - 1].1.wf())
}

pub open spec fn raw_keys_unique(e: Seq<(String, RawTree)>) -> bool {
    forall|i: int, j: int| 0 <= i < j < e.len() ==> e[i].0@ != e[j].0@
}

impl RawTree {
    /// The tree the document denotes; a float that is not finite is marked
    /// by empty text, which no finite float has.
    pub open spec fn view_tree(self) -> Tree
        decreases self,
    {
        match self {
            RawTree::Bool(b) => Tree::Bool(b),
            RawTree::Int(i) => Tree::Int(i),
            RawTree::Float(Some(t)) => Tree::Float(t@),
            RawTree::Float(None) => Tree::Float(Seq::empty()),
            RawTree::Str(s) => Tree::Str(s@),
            RawTree::List(items) => Tree::List(raw_list_view(items@)),
            RawTree::Table(e) => Tree::Object(raw_entries_view(e@)),
        }
    }

    /// Every table, at any depth, has unique keys.
    pub open spec fn wf(self) -> bool
        decreases self,
    {
        match self {
            RawTree::List(items) => raw_list_wf(items@),
            RawTree::Table(e) => raw_keys_unique(e@) && raw_entries_wf(e@),
            _ => true,
        }
    }
}

/// The tree with every float that is not finite replaced by the integer 0.
pub open spec fn settle_tree(t: Tree) -> Tree
    decreases t,
{
    match t {
        Tree::Float(x) => if x.len() == 0 {
            Tree::Int(0)
        } else {
            t
        },
        Tree::List(s) => Tree::List(
            Seq::new(
                s.len(),
                |i: int|
                    if 0 <= i < s.len() {
                        settle_tree(s[i])
                    } else {
                        Tree::Null
                    },
            ),
        ),
        Tree::Object(m) => Tree::Object(
            Map::new(
                |k: Seq<char>| m.contains_key(k),
                |k: Seq<char>|
                    if m.contains_key(k) {
                        settle_tree(m[k])
                    } else {
                        Tree::Null
                    },
            ),
        ),
        _ => t,
    }
}

proof fn lemma_raw_list(s: Seq<RawTree>)
    ensures
        raw_list_view(s).len() == s.len(),
        forall|i: int| 0 <= i < s.len() ==> #[trigger] raw_list_view(s)[i] == s[i].view_tree(),
        raw_list_wf(s) ==> forall|i: int| 0 <= i < s.len() ==> #[trigger] s[i].wf(),
    decreases s.len(),
{
    if s.len() > 0 {
        let d = s.drop_last();
        lemma_raw_list(d);
        assert(forall|i: int| 0 <= i < d.len() ==> d[i] == s[i]);
        if raw_list_wf(s) {
            assert forall|i: int| 0 <= i < s.len() implies #[trigger] s[i].wf() by {
                if i < d.len() {
                    assert(d[i].wf());
                }
            }
        }
    }
}

proof fn lemma_raw_entries(e: Seq<(String, RawTree)>)
    ensures
        raw_entries_wf(e) ==> forall|i: int| 0 <= i < e.len() ==> #[trigger] e[i].1.wf(),
    decreases e.len(),
{
    if e.len() > 0 {
        let d = e.drop_last();
        lemma_raw_entries(d);
        assert(forall|i: int| 0 <= i < d.len() ==> d[i] == e[i]);
        if raw_entries_wf(e) {
            assert forall|i: int| 0 <= i < e.len() implies #[trigger] e[i].1.wf() by {
                if i < d.len() {
                    assert(d[i].1.wf());
                }
            }
        }
    }
}

pub open spec fn settle_map(m: Map<Seq<char>, Tree>) -> Map<Seq<char>, Tree> {
    settle_tree(Tree::Object(m))->Object_0
}

proof fn lemma_settle_entries(e: Seq<(String, RawTree)>, out: Seq<(String, ConfigValue)>)
    requires
        e.len() == out.len(),
        forall|i: int| 0 <= i < e.len() ==> (#[trigger] out[i]).0@ == e[i].0@,
        forall|i: int| 0 <= i < e.len() ==> (#[trigger] out[i]).1@ == settle_tree(e[i].1.view_tree()),
    ensures
        entries_view(out) == settle_map(raw_entries_view(e)),
        raw_keys_unique(e) ==> keys_unique(out),
    decreases e.len(),
{
    if e.len() > 0 {
        lemma_settle_entries(e.drop_last(), out.drop_last());
        let m = raw_entries_view(e.drop_last());
        let k = e[e.len() - 1].0@;
        let v = e[e.len() - 1].1.view_tree();
        assert(settle_map(m.insert(k, v)) =~= settle_map(m).insert(k, settle_tree(v)));
    } else {
        assert(entries_view(out) =~= settle_map(raw_entries_view(e)));
    }
    if raw_keys_unique(e) {
        assert forall|i: int, j: int| 0 <= i < j < out.len() implies out[i].0@ != out[j].0@ by {
            assert(out[i].0@ == e[i].0@ && out[j].0@ == e[j].0@);
        }
    }
}

/// The value in the canonical tree: a float that is not finite becomes the
/// integer 0, every other leaf keeps its value.
pub fn settle(raw: RawTree) -> (r: ConfigValue)
    ensures
        r@ == settle_tree(raw.view_tree()),
        raw.wf() ==> r.wf(),
    decreases raw,
{
    match raw {
        RawTree::Bool(b) => ConfigValue::Bool(b),
        RawTree::Int(i) => ConfigValue::Int(i),
        RawTree::Float(Some(t)) => {
            if t.as_str().is_empty() {
                ConfigValue::Int(0)
            } else {
                ConfigValue::Float(t)
            }
        },
        RawTree::Float(None) => ConfigValue::Int(0),
        RawTree::Str(s) => ConfigValue::Str(s),
        RawTree::List(items) => {
            let ghost all = items@;
            proof {
                lemma_raw_list(all);
            }
            let mut rest = items;
            let mut out: Vec<ConfigValue> = Vec::new();
            let mut k: usize = 0;
            let total = rest.len();
            while rest.len() > 0
                invariant
                    all.len() == total,
                    k + rest@.len() == total,
                    rest@ == all.skip(k as int),
                    out@.len() == k,
                    raw == RawTree::List(items),
                    all == items@,
                    forall|t: int| 0 <= t < k ==> (#[trigger] out@[t]).tree() == settle_tree(all[t].view_tree()),
                    forall|t: int| 0 <= t < k ==> all[t].wf() ==> (#[trigger] out@[t]).wf(),
                decreases rest@.len(),
            {
                let x = rest.remove(0);
                proof {
                    assert(all.skip(k as int)[0] == x);
                    assert(all[k as int] == x);
                    assert(decreases_to!(raw => raw->List_0[k as int]));
                    assert(rest@ =~= all.skip(k + 1));
                }
                let y = settle(x);
                out.push(y);
                k += 1;
            }
            proof {
                lemma_list_view(out@);
                lemma_list_wf(out@);
                lemma_raw_list(all);
                assert(list_view(out@) =~= settle_tree(raw.view_tree())->List_0);
            }
            ConfigValue::List(out)
        },
        RawTree::Table(e) => {
            let ghost all = e@;
            proof {
                lemma_raw_entries(all);
            }
            let mut rest = e;
            let mut out: Vec<(String, ConfigValue)> = Vec::new();
            let mut k: usize = 0;
            let total = rest.len();
            while rest.len() > 0
                invariant
                    all.len() == total,
                    k + rest@.len() == total,
                    rest@ == all.skip(k as int),
                    out@.len() == k,
                    raw == RawTree::Table(e),
                    all == e@,
                    forall|t: int| 0 <= t < k ==> (#[trigger] out@[t]).0@ == all[t].0@,
                    forall|t: int| 0 <= t < k ==> (#[trigger] out@[t]).1.tree() == settle_tree(all[t].1.view_tree()),
                    forall|t: int| 0 <= t < k ==> all[t].1.wf() ==> (#[trigger] out@[t]).1.wf(),
                decreases rest@.len(),
            {
                let (name, x) = rest.remove(0);
                proof {
                    assert(all.skip(k as int)[0] == (name, x));
                    assert(all[k as int] == (name, x));
                    assert(decreases_to!(raw => raw->Table_0[k as int].1));
                    assert(rest@ =~= all.skip(k + 1));
                }
                let y = settle(x);
                out.push((name, y));
                k += 1;
            }
            proof {
                lemma_settle_entries(all, out@);
                lemma_entries_wf(out@);
            }
            ConfigValue::Object(out)
        },
    }
}

} // verus!
