//! The canonical configuration value tree and its mathematical model.
use vstd::prelude::*;

verus! {

/// What a configuration value means: objects are maps, so the order in
/// which their keys were inserted plays no part in equality.
pub enum Tree {
    Null,
    Bool(bool),
    Int(i64),
    UInt(u64),
    /// A finite floating-point number, by its shortest round-trip decimal text.
    Float(Seq<char>),
    Str(Seq<char>),
    List(Seq<Tree>),
    Object(Map<Seq<char>, Tree>),
}

/// A configuration value, as every source is normalized into.
///
/// Objects keep their entries in insertion order, for diagnostics; a
/// well-formed object never holds two entries with the same key.
#[derive(Debug)]
pub enum ConfigValue {
    Null,
    Bool(bool),
    Int(i64),
    UInt(u64),
    /// A finite floating-point number, held as its shortest round-trip decimal text.
    Float(String),
    Str(String),
    List(Vec<ConfigValue>),
    Object(Vec<(String, ConfigValue)>),
}

pub open spec fn keys_unique(e: Seq<(String, ConfigValue)>) -> bool {
    forall|i: int, j: int| 0 <= i < j < e.len() ==> e[i].0@ != e[j].0@
}

pub open spec fn has_key(e: Seq<(String, ConfigValue)>, k: Seq<char>) -> bool {
    exists|i: int| 0 <= i < e.len() && e[i].0@ == k
}

pub open spec fn list_view(s: Seq<ConfigValue>) -> Seq<Tree>
    decreases s,
{
    if s.len() == 0 {
        Seq::empty()
    } else {
        list_view(s.drop_last()).push(s[s.len() - 1].tree())
    }
}

pub open spec fn entries_view(e: Seq<(String, ConfigValue)>) -> Map<Seq<char>, Tree>
    decreases e,
{
    if e.len() == 0 {
        Map::empty()
    } else {
        let last = e[e.len() - 1];
        entries_view(e.drop_last()).insert(last.0@, last.1.tree())
    }
}

pub open spec fn list_wf(s: Seq<ConfigValue>) -> bool
    decreases s,
{
    s.len() == 0 || (list_wf(s.drop_last()) && s[s.len() - 1].wf())
}

pub open spec fn entries_wf(e: Seq<(String, ConfigValue)>) -> bool
    decreases e,
{
    e.len() == 0 || (entries_wf(e.drop_last()) && e[e.len() - 1].1.wf())
}

impl ConfigValue {
    pub open spec fn tree(self) -> Tree
        decreases self,
    {
        match self {
            ConfigValue::Null => Tree::Null,
            ConfigValue::Bool(b) => Tree::Bool(b),
            ConfigValue::Int(i) => Tree::Int(i),
            ConfigValue::UInt(u) => Tree::UInt(u),
            ConfigValue::Float(t) => Tree::Float(t@),
            ConfigValue::Str(s) => Tree::Str(s@),
            ConfigValue::List(items) => Tree::List(list_view(items@)),
            ConfigValue::Object(e) => Tree::Object(entries_view(e@)),
        }
    }

    /// Every object in the value, at any depth, has unique keys.
    pub open spec fn wf(self) -> bool
        decreases self,
    {
        match self {
            ConfigValue::List(items) => list_wf(items@),
            ConfigValue::Object(e) => keys_unique(e@) && entries_wf(e@),
            _ => true,
        }
    }
}

impl View for ConfigValue {
    type V = Tree;

    open spec fn view(&self) -> Tree {
        self.tree()
    }
}

pub proof fn lemma_list_view(s: Seq<ConfigValue>)
    ensures
        list_view(s).len() == s.len(),
        forall|i: int| 0 <= i < s.len() ==> #[trigger] list_view(s)[i] == s[i].tree(),
    decreases s.len(),
{
    if s.len() > 0 {
        lemma_list_view(s.drop_last());
    }
}

pub proof fn lemma_list_wf(s: Seq<ConfigValue>)
    ensures
        list_wf(s) <==> forall|i: int| 0 <= i < s.len() ==> #[trigger] s[i].wf(),
    decreases s.len(),
{
    if s.len() > 0 {
        let d = s.drop_last();
        lemma_list_wf(d);
        assert(forall|i: int| 0 <= i < d.len() ==> d[i] == s[i]);
        if forall|i: int| 0 <= i < s.len() ==> #[trigger] s[i].wf() {
            assert(s[s.len() - 1].wf());
            assert(forall|i: int| 0 <= i < d.len() ==> #[trigger] d[i].wf());
        }
        if list_wf(s) {
            assert forall|i: int| 0 <= i < s.len() implies #[trigger] s[i].wf() by {
                if i < d.len() {
                    assert(d[i].wf());
                }
            }
        }
    }
}

pub proof fn lemma_entries_wf(e: Seq<(String, ConfigValue)>)
    ensures
        entries_wf(e) <==> forall|i: int| 0 <= i < e.len() ==> #[trigger] e[i].1.wf(),
    decreases e.len(),
{
    if e.len() > 0 {
        let d = e.drop_last();
        lemma_entries_wf(d);
        assert(forall|i: int| 0 <= i < d.len() ==> d[i] == e[i]);
        if forall|i: int| 0 <= i < e.len() ==> #[trigger] e[i].1.wf() {
            assert(e[e.len() - 1].1.wf());
            assert(forall|i: int| 0 <= i < d.len() ==> #[trigger] d[i].1.wf());
        }
        if entries_wf(e) {
            assert forall|i: int| 0 <= i < e.len() implies #[trigger] e[i].1.wf() by {
                if i < d.len() {
                    assert(d[i].1.wf());
                }
            }
        }
    }
}

/// With unique keys, the model of an object maps each key to its entry's value.
pub proof fn lemma_entries_view(e: Seq<(String, ConfigValue)>)
    requires
        keys_unique(e),
    ensures
        forall|k: Seq<char>| entries_view(e).contains_key(k) <==> has_key(e, k),
        forall|i: int|
            0 <= i < e.len() ==> entries_view(e).contains_key(#[trigger] e[i].0@) && entries_view(e)[e[i].0@]
                == e[i].1.tree(),
    decreases e.len(),
{
    if e.len() > 0 {
        let d = e.drop_last();
        assert(forall|i: int| 0 <= i < d.len() ==> d[i] == e[i]);
        lemma_entries_view(d);
        assert forall|k: Seq<char>| entries_view(e).contains_key(k) <==> has_key(e, k) by {
            if has_key(e, k) {
                let i = choose|i: int| 0 <= i < e.len() && e[i].0@ == k;
                if i < d.len() {
                    assert(has_key(d, k));
                }
            }
            if entries_view(e).contains_key(k) && k != e[e.len() - 1].0@ {
                assert(has_key(d, k));
                let i = choose|i: int| 0 <= i < d.len() && d[i].0@ == k;
                assert(e[i].0@ == k);
            }
        }
    }
}

/// Replacing the value of one entry replaces it in the model.
pub proof fn lemma_entries_view_update(e: Seq<(String, ConfigValue)>, i: int, v: ConfigValue)
    requires
        keys_unique(e),
        0 <= i < e.len(),
    ensures
        keys_unique(e.update(i, (e[i].0, v))),
        entries_view(e.update(i, (e[i].0, v))) == entries_view(e).insert(e[i].0@, v.tree()),
{
    let u = e.update(i, (e[i].0, v));
    lemma_entries_view(e);
    lemma_entries_view(u);
    assert forall|k: Seq<char>| has_key(u, k) <==> has_key(e, k) by {
        if has_key(u, k) {
            let j = choose|j: int| 0 <= j < u.len() && u[j].0@ == k;
            assert(e[j].0@ == k);
        }
        if has_key(e, k) {
            let j = choose|j: int| 0 <= j < e.len() && e[j].0@ == k;
            assert(u[j].0@ == k);
        }
    }
    assert(entries_view(u) =~= entries_view(e).insert(e[i].0@, v.tree())) by {
        assert forall|k: Seq<char>| #[trigger] entries_view(u).contains_key(k) <==> entries_view(e).insert(
            e[i].0@,
            v.tree(),
        ).contains_key(k) by {
            assert(has_key(u, k) <==> has_key(e, k));
            if k == e[i].0@ {
                assert(u[i].0@ == k);
                assert(has_key(u, k));
            }
        }
        assert forall|k: Seq<char>| #[trigger] entries_view(u).contains_key(k) implies entries_view(u)[k]
            == entries_view(e).insert(e[i].0@, v.tree())[k] by {
            assert(has_key(u, k));
            let j = choose|j: int| 0 <= j < u.len() && u[j].0@ == k;
            assert(u[j].0@ == k);
            if j != i {
                assert(e[j].0@ == k);
            }
        }
    }
}

/// Appending an entry with a new key keeps keys unique.
pub proof fn lemma_entries_push(e: Seq<(String, ConfigValue)>, k: String, v: ConfigValue)
    requires
        keys_unique(e),
        !has_key(e, k@),
    ensures
        keys_unique(e.push((k, v))),
        entries_view(e.push((k, v))) == entries_view(e).insert(k@, v.tree()),
{
    let p = e.push((k, v));
    assert(p.drop_last() =~= e);
    assert forall|i: int, j: int| 0 <= i < j < p.len() implies p[i].0@ != p[j].0@ by {
        if j == e.len() {
            assert(e[i].0@ == p[i].0@);
        }
    }
}

/// Removing entry `i` and inserting it back at `i` gives an update at `i`.
pub proof fn lemma_remove_insert<A>(s: Seq<A>, i: int, x: A)
    requires
        0 <= i < s.len(),
    ensures
        s.remove(i).insert(i, x) == s.update(i, x),
{
    assert(s.remove(i).insert(i, x) =~= s.update(i, x));
}

impl ConfigValue {
    /// An independent copy, equal in model and well-formedness.
    pub fn deep_clone(&self) -> (r: ConfigValue)
        ensures
            r@ == self@,
            self.wf() ==> r.wf(),
        decreases self,
    {
        match self {
            ConfigValue::Null => ConfigValue::Null,
            ConfigValue::Bool(b) => ConfigValue::Bool(*b),
            ConfigValue::Int(i) => ConfigValue::Int(*i),
            ConfigValue::UInt(u) => ConfigValue::UInt(*u),
            ConfigValue::Float(t) => ConfigValue::Float(t.clone()),
            ConfigValue::Str(s) => ConfigValue::Str(s.clone()),
            ConfigValue::List(items) => {
                let mut out: Vec<ConfigValue> = Vec::new();
                let mut i: usize = 0;
                while i < items.len()
                    invariant
                        i <= items.len(),
                        *self == ConfigValue::List(*items),
                        out@.len() == i,
                        forall|j: int| 0 <= j < i ==> (#[trigger] out@[j]).tree() == items@[j].tree(),
                        forall|j: int| 0 <= j < i ==> items@[j].wf() ==> (#[trigger] out@[j]).wf(),
                    decreases items.len() - i,
                {
                    proof {
                        assert(decreases_to!(*self => self->List_0[i as int]));
                    }
                    let c = items[i].deep_clone();
                    out.push(c);
                    i += 1;
                }
                proof {
                    lemma_list_view(out@);
                    lemma_list_view(items@);
                    assert(list_view(out@) =~= list_view(items@));
                    lemma_list_wf(out@);
                    lemma_list_wf(items@);
                }
                ConfigValue::List(out)
            },
            ConfigValue::Object(e) => {
                let mut out: Vec<(String, ConfigValue)> = Vec::new();
                let mut i: usize = 0;
                while i < e.len()
                    invariant
                        i <= e.len(),
                        *self == ConfigValue::Object(*e),
                        out@.len() == i,
                        forall|j: int| 0 <= j < i ==> (#[trigger] out@[j]).0@ == e@[j].0@,
                        forall|j: int| 0 <= j < i ==> (#[trigger] out@[j]).1.tree() == e@[j].1.tree(),
                        forall|j: int| 0 <= j < i ==> e@[j].1.wf() ==> (#[trigger] out@[j]).1.wf(),
                    decreases e.len() - i,
                {
                    let k = e[i].0.clone();
                    proof {
                        assert(decreases_to!(*self => self->Object_0[i as int].1));
                    }
                    let c = e[i].1.deep_clone();
                    out.push((k, c));
                    i += 1;
                }
                proof {
                    lemma_entries_view_same(out@, e@);
                    lemma_entries_wf(out@);
                    lemma_entries_wf(e@);
                }
                ConfigValue::Object(out)
            },
        }
    }
}

/// Two entry lists with the same keys and equal values, position by position, have one model.
pub proof fn lemma_entries_view_same(a: Seq<(String, ConfigValue)>, b: Seq<(String, ConfigValue)>)
    requires
        a.len() == b.len(),
        forall|j: int| 0 <= j < a.len() ==> (#[trigger] a[j]).0@ == b[j].0@,
        forall|j: int| 0 <= j < a.len() ==> (#[trigger] a[j]).1.tree() == b[j].1.tree(),
    ensures
        entries_view(a) == entries_view(b),
        keys_unique(a) <==> keys_unique(b),
    decreases a.len(),
{
    if a.len() > 0 {
        lemma_entries_view_same(a.drop_last(), b.drop_last());
    }
    if keys_unique(a) {
        assert forall|i: int, j: int| 0 <= i < j < b.len() implies b[i].0@ != b[j].0@ by {
            assert(a[i].0@ == b[i].0@ && a[j].0@ == b[j].0@);
        }
    }
    if keys_unique(b) {
        assert forall|i: int, j: int| 0 <= i < j < a.len() implies a[i].0@ != a[j].0@ by {
            assert(a[i].0@ == b[i].0@ && a[j].0@ == b[j].0@);
        }
    }
}


/// The index of the last entry with key `k`, or -1.
pub open spec fn last_index(e: Seq<(String, ConfigValue)>, k: Seq<char>) -> int
    decreases e.len(),
{
    if e.len() == 0 {
        -1
    } else if e[e.len() - 1].0@ == k {
        e.len() - 1
    } else {
        last_index(e.drop_last(), k)
    }
}

/// The model of an object maps each key to the value of its last entry.
pub proof fn lemma_entries_view_last(e: Seq<(String, ConfigValue)>)
    ensures
        forall|k: Seq<char>| #[trigger] entries_view(e).contains_key(k) <==> last_index(e, k) >= 0,
        forall|k: Seq<char>|
            last_index(e, k) >= 0 ==> {
                &&& #[trigger] last_index(e, k) < e.len()
                &&& e[last_index(e, k)].0@ == k
                &&& entries_view(e)[k] == e[last_index(e, k)].1.tree()
            },
        forall|i: int| 0 <= i < e.len() ==> i <= last_index(e, #[trigger] e[i].0@),
    decreases e.len(),
{
    if e.len() > 0 {
        let d = e.drop_last();
        lemma_entries_view_last(d);
        assert(forall|i: int| 0 <= i < d.len() ==> d[i] == e[i]);
        assert forall|k: Seq<char>| last_index(e, k) >= 0 implies {
            &&& #[trigger] last_index(e, k) < e.len()
            &&& e[last_index(e, k)].0@ == k
            &&& entries_view(e)[k] == e[last_index(e, k)].1.tree()
        } by {
            if e[e.len() - 1].0@ != k {
                assert(last_index(e, k) == last_index(d, k));
                assert(d[last_index(d, k)] == e[last_index(d, k)]);
            }
        }
        assert forall|i: int| 0 <= i < e.len() implies i <= last_index(e, #[trigger] e[i].0@) by {
            if i < d.len() && e[e.len() - 1].0@ != e[i].0@ {
                assert(d[i].0@ == e[i].0@);
            }
        }
    }
}

fn last_entry(e: &Vec<(String, ConfigValue)>, k: &String) -> (r: Option<usize>)
    ensures
        r is Some <==> last_index(e@, k@) >= 0,
        r is Some ==> r->0 as int == last_index(e@, k@),
{
    let mut i = e.len();
    proof {
        assert(e@.take(e@.len() as int) =~= e@);
    }
    while i > 0
        invariant
            i <= e@.len(),
            last_index(e@, k@) == last_index(e@.take(i as int), k@),
        decreases i,
    {
        proof {
            assert(e@.take(i as int).drop_last() =~= e@.take(i - 1));
        }
        if e[i - 1].0 == *k {
            return Some(i - 1);
        }
        i -= 1;
    }
    None
}

fn same_entries(x: &Vec<(String, ConfigValue)>, y: &Vec<(String, ConfigValue)>, whole: &ConfigValue) -> (r: bool)
    requires
        *whole == ConfigValue::Object(*x),
    ensures
        r == (entries_view(x@) == entries_view(y@)),
    decreases whole, 0nat,
{
    proof {
        lemma_entries_view_last(x@);
        lemma_entries_view_last(y@);
    }
    let mut i: usize = 0;
    while i < x.len()
        invariant
            *whole == ConfigValue::Object(*x),
            i <= x@.len(),
            forall|t: int|
                0 <= t < i && last_index(x@, #[trigger] x@[t].0@) == t ==> entries_view(y@).contains_key(x@[t].0@)
                    && entries_view(y@)[x@[t].0@] == x@[t].1.tree(),
        decreases x@.len() - i,
    {
        proof {
            lemma_entries_view_last(x@);
            lemma_entries_view_last(y@);
        }
        match last_entry(x, &x[i].0) {
            Some(li) => {
                if li == i {
                    match last_entry(y, &x[i].0) {
                        Some(j) => {
                            proof {
                                assert(decreases_to!(*whole => whole->Object_0[i as int].1));
                            }
                            if !same_value(&x[i].1, &y[j].1) {
                                proof {
                                    assert(entries_view(x@)[x@[i as int].0@] == x@[i as int].1.tree());
                                }
                                return false;
                            }
                        },
                        None => {
                            proof {
                                assert(entries_view(x@).contains_key(x@[i as int].0@));
                            }
                            return false;
                        },
                    }
                }
            },
            None => {},
        }
        i += 1;
    }
    let mut j: usize = 0;
    while j < y.len()
        invariant
            j <= y@.len(),
            forall|t: int| 0 <= t < j ==> entries_view(x@).contains_key(#[trigger] y@[t].0@),
        decreases y@.len() - j,
    {
        proof {
            lemma_entries_view_last(x@);
            lemma_entries_view_last(y@);
        }
        if last_entry(x, &y[j].0).is_none() {
            proof {
                assert(entries_view(y@).contains_key(y@[j as int].0@));
            }
            return false;
        }
        j += 1;
    }
    proof {
        lemma_entries_view_last(x@);
        lemma_entries_view_last(y@);
        assert forall|k: Seq<char>| entries_view(x@).contains_key(k) implies entries_view(y@).contains_key(k)
            && entries_view(y@)[k] == entries_view(x@)[k] by {
            let t = last_index(x@, k);
            assert(x@[t].0@ == k);
        }
        assert forall|k: Seq<char>| entries_view(y@).contains_key(k) implies entries_view(x@).contains_key(k) by {
            let t = last_index(y@, k);
            assert(y@[t].0@ == k);
        }
        assert(entries_view(x@) =~= entries_view(y@));
    }
    true
}

/// Whether two values have the same model.
fn same_value(a: &ConfigValue, b: &ConfigValue) -> (r: bool)
    ensures
        r == (a@ == b@),
    decreases a, 1nat,
{
    match (a, b) {
        (ConfigValue::Null, ConfigValue::Null) => true,
        (ConfigValue::Bool(x), ConfigValue::Bool(y)) => *x == *y,
        (ConfigValue::Int(x), ConfigValue::Int(y)) => *x == *y,
        (ConfigValue::UInt(x), ConfigValue::UInt(y)) => *x == *y,
        (ConfigValue::Float(x), ConfigValue::Float(y)) => *x == *y,
        (ConfigValue::Str(x), ConfigValue::Str(y)) => *x == *y,
        (ConfigValue::List(x), ConfigValue::List(y)) => {
            proof {
                lemma_list_view(x@);
                lemma_list_view(y@);
            }
            if x.len() != y.len() {
                return false;
            }
            let mut i: usize = 0;
            while i < x.len()
                invariant
                    *a == ConfigValue::List(*x),
                    *b == ConfigValue::List(*y),
                    x@.len() == y@.len(),
                    i <= x@.len(),
                    forall|t: int| 0 <= t < i ==> (#[trigger] x@[t]).tree() == y@[t].tree(),
                decreases x@.len() - i,
            {
                proof {
                    assert(decreases_to!(*a => a->List_0[i as int]));
                    lemma_list_view(x@);
                    lemma_list_view(y@);
                }
                if !same_value(&x[i], &y[i]) {
                    proof {
                        assert(list_view(x@)[i as int] != list_view(y@)[i as int]);
                    }
                    return false;
                }
                i += 1;
            }
            proof {
                lemma_list_view(x@);
                lemma_list_view(y@);
                assert(list_view(x@) =~= list_view(y@));
            }
            true
        },
        (ConfigValue::Object(x), ConfigValue::Object(_)) => {
            let y = match b {
                ConfigValue::Object(y) => y,
                _ => {
                    return false;
                },
            };
            same_entries(x, y, a)
        },
        _ => false,
    }
}

impl PartialEq for ConfigValue {
    fn eq(&self, other: &ConfigValue) -> (r: bool) {
        same_value(self, other)
    }
}

impl vstd::std_specs::cmp::PartialEqSpecImpl for ConfigValue {
    open spec fn obeys_eq_spec() -> bool {
        true
    }

    open spec fn eq_spec(&self, other: &ConfigValue) -> bool {
        self@ == other@
    }
}

} // verus!
