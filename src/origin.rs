//! Provenance of merged values: for each dotted leaf path, the source of
//! the layer that last wrote it.
use vstd::prelude::*;
use crate::merge::lookup;
use crate::error::{FileError, Span};
use crate::format::{FileFormat, format_name};
use crate::location::{chars_of, find_from, find_in};
use vstd::string::{StrSliceExecFns, StringSliceAdditionalSpecFns};
use vstd::utf8::encode_utf8;
use crate::text::dot_pieces;
use crate::sources::Source;
use crate::value::{ConfigValue, Tree, entries_view, keys_unique, lemma_entries_view};

verus! {

/// Which source produced the value at a dotted path.
#[derive(Debug)]
pub struct OriginRecord {
    pub path: String,
    pub source: Source,
}

/// The dotted path of key `k` under `base`.
pub open spec fn child_path(base: Seq<char>, k: Seq<char>) -> Seq<char> {
    if base.len() == 0 {
        k
    } else {
        base + "."@ + k
    }
}

/// The dotted path of a sequence of keys under `base`.
pub open spec fn dotted(base: Seq<char>, keys: Seq<Seq<char>>) -> Seq<char>
    decreases keys.len(),
{
    if keys.len() == 0 {
        base
    } else {
        dotted(child_path(base, keys[0]), keys.drop_first())
    }
}

/// The records after tracking `v` at `base`: every value other than an
/// object is recorded at its dotted path, objects are walked in entry order.
pub open spec fn track_spec(m: Map<Seq<char>, Source>, v: ConfigValue, base: Seq<char>, src: Source) -> Map<
    Seq<char>,
    Source,
>
    decreases v,
{
    match v {
        ConfigValue::Object(e) => track_entries(m, e@, base, src),
        _ => m.insert(base, src),
    }
}

pub open spec fn track_entries(
    m: Map<Seq<char>, Source>,
    e: Seq<(String, ConfigValue)>,
    base: Seq<char>,
    src: Source,
) -> Map<Seq<char>, Source>
    decreases e,
{
    if e.len() == 0 {
        m
    } else {
        let last = e[e.len() - 1];
        track_spec(track_entries(m, e.drop_last(), base, src), last.1, child_path(base, last.0@), src)
    }
}

/// A path of keys that leads to a value other than an object.
pub open spec fn is_leaf(t: Tree, keys: Seq<Seq<char>>) -> bool {
    lookup(t, keys) is Some && !(lookup(t, keys)->0 is Object)
}

/// `p` is the dotted path, under `base`, of a value in `t` other than an object.
pub open spec fn is_leaf_path(t: Tree, base: Seq<char>, p: Seq<char>) -> bool {
    exists|keys: Seq<Seq<char>>| is_leaf(t, keys) && dotted(base, keys) == p
}

/// The records after a layer `t` is tracked at `base` with source `src`:
/// every leaf path of the layer now names `src`; other records stay.
pub open spec fn track_tree(m: Map<Seq<char>, Source>, t: Tree, base: Seq<char>, src: Source) -> Map<
    Seq<char>,
    Source,
> {
    Map::new(
        |p: Seq<char>| m.contains_key(p) || is_leaf_path(t, base, p),
        |p: Seq<char>|
            if is_leaf_path(t, base, p) {
                src
            } else {
                m[p]
            },
    )
}

proof fn lemma_leaf_path_scalar(t: Tree, base: Seq<char>, p: Seq<char>)
    requires
        !(t is Object),
    ensures
        is_leaf_path(t, base, p) <==> p == base,
{
    if p == base {
        let keys = Seq::<Seq<char>>::empty();
        assert(is_leaf(t, keys) && dotted(base, keys) == p);
    }
    if is_leaf_path(t, base, p) {
        let keys = choose|keys: Seq<Seq<char>>| is_leaf(t, keys) && dotted(base, keys) == p;
        assert(keys.len() == 0);
    }
}

proof fn lemma_leaf_path_object(m: Map<Seq<char>, Tree>, base: Seq<char>, p: Seq<char>)
    ensures
        is_leaf_path(Tree::Object(m), base, p) <==> exists|k: Seq<char>|
            m.contains_key(k) && #[trigger] is_leaf_path(m[k], child_path(base, k), p),
{
    let t = Tree::Object(m);
    if is_leaf_path(t, base, p) {
        let keys = choose|keys: Seq<Seq<char>>| is_leaf(t, keys) && dotted(base, keys) == p;
        assert(keys.len() > 0);
        let k = keys[0];
        let rest = keys.drop_first();
        assert(is_leaf(m[k], rest) && dotted(child_path(base, k), rest) == p);
        assert(is_leaf_path(m[k], child_path(base, k), p));
    }
    if exists|k: Seq<char>| m.contains_key(k) && #[trigger] is_leaf_path(m[k], child_path(base, k), p) {
        let k = choose|k: Seq<char>| m.contains_key(k) && #[trigger] is_leaf_path(m[k], child_path(base, k), p);
        let rest = choose|rest: Seq<Seq<char>>| is_leaf(m[k], rest) && dotted(child_path(base, k), rest) == p;
        let keys = seq![k] + rest;
        assert(keys.drop_first() =~= rest);
        assert(is_leaf(t, keys) && dotted(base, keys) == p);
    }
}

proof fn lemma_track_spec(m: Map<Seq<char>, Source>, v: ConfigValue, base: Seq<char>, src: Source)
    requires
        v.wf(),
    ensures
        track_spec(m, v, base, src) == track_tree(m, v@, base, src),
    decreases v,
{
    match v {
        ConfigValue::Object(e) => {
            lemma_track_entries(m, e@, base, src);
        },
        _ => {
            assert forall|p: Seq<char>| is_leaf_path(v@, base, p) <==> p == base by {
                lemma_leaf_path_scalar(v@, base, p);
            }
            assert(track_spec(m, v, base, src) =~= track_tree(m, v@, base, src));
        },
    }
}

proof fn lemma_track_entries(m: Map<Seq<char>, Source>, e: Seq<(String, ConfigValue)>, base: Seq<char>, src: Source)
    requires
        keys_unique(e),
        crate::value::entries_wf(e),
    ensures
        track_entries(m, e, base, src) == track_tree(m, Tree::Object(entries_view(e)), base, src),
    decreases e,
{
    crate::value::lemma_entries_wf(e);
    if e.len() == 0 {
        assert forall|p: Seq<char>| !is_leaf_path(Tree::Object(entries_view(e)), base, p) by {
            lemma_leaf_path_object(entries_view(e), base, p);
        }
        assert(track_entries(m, e, base, src) =~= track_tree(m, Tree::Object(entries_view(e)), base, src));
    } else {
        let d = e.drop_last();
        let last = e[e.len() - 1];
        assert(forall|i: int| 0 <= i < d.len() ==> d[i] == e[i]);
        crate::value::lemma_entries_wf(d);
        lemma_track_entries(m, d, base, src);
        let mid = track_entries(m, d, base, src);
        lemma_track_spec(mid, last.1, child_path(base, last.0@), src);
        assert(keys_unique(d));
        lemma_entries_view(d);
        let md = entries_view(d);
        let me = entries_view(e);
        if md.contains_key(last.0@) {
            assert(crate::value::has_key(d, last.0@));
            let i = choose|i: int| 0 <= i < d.len() && d[i].0@ == last.0@;
            assert(d[i] == e[i]);
            assert(e[i].0@ == e[e.len() - 1].0@);
            assert(false);
        }
        assert(me == md.insert(last.0@, last.1@));
        assert forall|p: Seq<char>|
            is_leaf_path(Tree::Object(me), base, p) <==> (is_leaf_path(Tree::Object(md), base, p)
                || is_leaf_path(last.1@, child_path(base, last.0@), p)) by {
            lemma_leaf_path_object(me, base, p);
            lemma_leaf_path_object(md, base, p);
            if is_leaf_path(Tree::Object(me), base, p) {
                let k = choose|k: Seq<char>| me.contains_key(k) && #[trigger] is_leaf_path(me[k], child_path(base, k), p);
                if k != last.0@ {
                    assert(md.contains_key(k) && is_leaf_path(md[k], child_path(base, k), p));
                }
            }
            if is_leaf_path(Tree::Object(md), base, p) {
                let k = choose|k: Seq<char>| md.contains_key(k) && #[trigger] is_leaf_path(md[k], child_path(base, k), p);
                assert(me.contains_key(k) && is_leaf_path(me[k], child_path(base, k), p));
            }
            if is_leaf_path(last.1@, child_path(base, last.0@), p) {
                assert(me.contains_key(last.0@) && is_leaf_path(me[last.0@], child_path(base, last.0@), p));
            }
        }
        assert(track_entries(m, e, base, src) =~= track_tree(m, Tree::Object(me), base, src));
    }
}

/// The records whose dotted paths still lead to a value other than an
/// object in the merged tree `t`.
pub open spec fn prune(m: Map<Seq<char>, Source>, t: Tree) -> Map<Seq<char>, Source> {
    Map::new(|p: Seq<char>| m.contains_key(p) && is_leaf(t, dot_pieces(p)), |p: Seq<char>| m[p])
}

/// The records of `r` whose paths lead to a value other than an object in `t`.
pub open spec fn kept_records(r: Seq<OriginRecord>, t: Tree) -> Seq<OriginRecord>
    decreases r.len(),
{
    if r.len() == 0 {
        Seq::empty()
    } else {
        let rest = kept_records(r.drop_last(), t);
        if is_leaf(t, dot_pieces(r.last().path@)) {
            rest.push(r.last())
        } else {
            rest
        }
    }
}

proof fn lemma_kept_records(r: Seq<OriginRecord>, t: Tree)
    requires
        paths_unique(r),
    ensures
        paths_unique(kept_records(r, t)),
        records_map(kept_records(r, t)) == prune(records_map(r), t),
        forall|j: int|
            0 <= j < kept_records(r, t).len() ==> exists|i: int| 0 <= i < r.len() && r[i] == #[trigger] kept_records(r, t)[j],
    decreases r.len(),
{
    if r.len() == 0 {
        assert(records_map(kept_records(r, t)) =~= prune(records_map(r), t));
    } else {
        let d = r.drop_last();
        let last = r.last();
        assert(forall|i: int| 0 <= i < d.len() ==> d[i] == r[i]);
        assert(paths_unique(d));
        lemma_kept_records(d, t);
        lemma_records_map(d);
        let kd = kept_records(d, t);
        assert(!records_map(d).contains_key(last.path@)) by {
            if records_map(d).contains_key(last.path@) {
                let i = choose|i: int| 0 <= i < d.len() && d[i].path@ == last.path@;
                assert(r[i].path@ == r[r.len() - 1].path@);
            }
        }
        if is_leaf(t, dot_pieces(last.path@)) {
            let k = kd.push(last);
            assert(k.drop_last() =~= kd);
            assert forall|a: int, b: int| 0 <= a < b < k.len() implies k[a].path@ != k[b].path@ by {
                if b == kd.len() {
                    let i = choose|i: int| 0 <= i < d.len() && d[i] == #[trigger] kd[a];
                    assert(r[i].path@ != r[r.len() - 1].path@);
                } else {
                    assert(k[a] == kd[a] && k[b] == kd[b]);
                }
            }
            assert forall|j: int| 0 <= j < k.len() implies exists|i: int| 0 <= i < r.len() && r[i] == #[trigger] k[j] by {
                if j == kd.len() {
                    assert(r[r.len() - 1] == k[j]);
                } else {
                    assert(k[j] == kd[j]);
                    let i = choose|i: int| 0 <= i < d.len() && d[i] == #[trigger] kd[j];
                    assert(r[i] == k[j]);
                }
            }
            assert(records_map(k) =~= prune(records_map(r), t));
        } else {
            assert forall|j: int| 0 <= j < kd.len() implies exists|i: int| 0 <= i < r.len() && r[i] == #[trigger] kd[j] by {
                let i = choose|i: int| 0 <= i < d.len() && d[i] == #[trigger] kd[j];
                assert(r[i] == kd[j]);
            }
            assert(records_map(kd) =~= prune(records_map(r), t));
        }
    }
}

/// The index of the last registered file named `f`.
pub open spec fn last_file_index(files: Seq<(String, String, FileFormat)>, f: Seq<char>) -> int
    decreases files.len(),
{
    if files.len() == 0 {
        -1
    } else if files.last().0@ == f {
        files.len() - 1
    } else {
        last_file_index(files.drop_last(), f)
    }
}

fn last_file(files: &Vec<(String, String, FileFormat)>, f: &String) -> (r: Option<usize>)
    ensures
        r is Some <==> last_file_index(files@, f@) >= 0,
        r is Some ==> r->0 as int == last_file_index(files@, f@) && r->0 < files@.len(),
{
    let mut i = files.len();
    proof {
        assert(files@.take(files@.len() as int) =~= files@);
    }
    while i > 0
        invariant
            i <= files@.len(),
            last_file_index(files@, f@) == last_file_index(files@.take(i as int), f@),
        decreases i,
    {
        proof {
            assert(files@.take(i as int).drop_last() =~= files@.take(i - 1));
        }
        if files[i - 1].0 == *f {
            return Some(i - 1);
        }
        i -= 1;
    }
    proof {
        assert(files@.take(0) =~= Seq::<(String, String, FileFormat)>::empty());
    }
    None
}

/// The last key of a dotted path.
pub open spec fn last_key(path: Seq<char>) -> Seq<char> {
    let parts = dot_pieces(path);
    if parts.len() == 0 {
        Seq::empty()
    } else {
        parts[parts.len() - 1]
    }
}

/// The file named `f` is registered and the last key of `path` occurs in it.
pub open spec fn locatable(files: Seq<(String, String, FileFormat)>, f: Seq<char>, path: Seq<char>) -> bool {
    let i = last_file_index(files, f);
    i >= 0 && dot_pieces(path).len() > 0 && find_from(files[i].1@, last_key(path), 0) is Some
}

/// `e` locates a type mismatch at `path` in the registered file `f`.
pub open spec fn mismatch_at(
    e: FileError,
    files: Seq<(String, String, FileFormat)>,
    f: Seq<char>,
    path: Seq<char>,
    message: Seq<char>,
) -> bool {
    let i = last_file_index(files, f);
    let content = files[i].1@;
    let k = find_from(content, last_key(path), 0)->0;
    let n = encode_utf8(last_key(path)).len();
    &&& locatable(files, f, path)
    &&& e is Parse
    &&& e->Parse_format@ == format_name(files[i].2)
    &&& e->Parse_path@ == f
    &&& e->Parse_src@ == content
    &&& e->Parse_span.offset == encode_utf8(content.take(k)).len()
    &&& e->Parse_span.len == if n < 1 { 1 } else { n }
    &&& e->Parse_message@ == message
    &&& e->Parse_help@ == "check that the config file values match the expected types"@
}

/// Records origins of merged values.
#[derive(Debug)]
pub struct OriginTracker {
    records: Vec<OriginRecord>,
    files: Vec<(String, String, FileFormat)>,
}

pub open spec fn records_map(r: Seq<OriginRecord>) -> Map<Seq<char>, Source>
    decreases r.len(),
{
    if r.len() == 0 {
        Map::empty()
    } else {
        records_map(r.drop_last()).insert(r.last().path@, r.last().source)
    }
}

pub open spec fn paths_unique(r: Seq<OriginRecord>) -> bool {
    forall|i: int, j: int| 0 <= i < j < r.len() ==> r[i].path@ != r[j].path@
}

proof fn lemma_records_map(r: Seq<OriginRecord>)
    requires
        paths_unique(r),
    ensures
        forall|p: Seq<char>|
            records_map(r).contains_key(p) <==> exists|i: int| 0 <= i < r.len() && r[i].path@ == p,
        forall|i: int|
            0 <= i < r.len() ==> records_map(r).contains_key(#[trigger] r[i].path@) && records_map(r)[r[i].path@]
                == r[i].source,
    decreases r.len(),
{
    if r.len() > 0 {
        let d = r.drop_last();
        assert(forall|i: int| 0 <= i < d.len() ==> d[i] == r[i]);
        lemma_records_map(d);
        assert forall|p: Seq<char>|
            records_map(r).contains_key(p) <==> exists|i: int| 0 <= i < r.len() && r[i].path@ == p by {
            if records_map(r).contains_key(p) && p != r.last().path@ {
                let i = choose|i: int| 0 <= i < d.len() && d[i].path@ == p;
                assert(r[i].path@ == p);
            }
            if exists|i: int| 0 <= i < r.len() && r[i].path@ == p {
                let i = choose|i: int| 0 <= i < r.len() && r[i].path@ == p;
                if i < d.len() {
                    assert(d[i].path@ == p);
                }
            }
        }
    }
}

impl OriginTracker {
    /// The source recorded for each dotted path.
    pub closed spec fn origins(&self) -> Map<Seq<char>, Source> {
        records_map(self.records@)
    }

    /// The files added, in order.
    pub closed spec fn file_list(&self) -> Seq<(String, String, FileFormat)> {
        self.files@
    }

    pub closed spec fn wf(&self) -> bool {
        paths_unique(self.records@)
    }

    pub fn new() -> (r: Self)
        ensures
            r.wf(),
            r.origins() == Map::<Seq<char>, Source>::empty(),
            r.file_list() == Seq::<(String, String, FileFormat)>::empty(),
    {
        proof {
            assert(records_map(Seq::<OriginRecord>::empty()) =~= Map::empty());
        }
        OriginTracker { records: Vec::new(), files: Vec::new() }
    }

    /// Registers a configuration file whose values are about to be tracked.
    pub fn add_source(&mut self, file: String, content: String, format: FileFormat)
        ensures
            final(self).wf() == old(self).wf(),
            final(self).origins() == old(self).origins(),
            final(self).file_list() == old(self).file_list().push((file, content, format)),
    {
        self.files.push((file, content, format));
    }

    /// Records `source` as the origin of `path`, replacing an earlier record.
    pub fn record(&mut self, path: String, source: Source)
        requires
            old(self).wf(),
        ensures
            final(self).wf(),
            final(self).origins() == old(self).origins().insert(path@, source),
            final(self).file_list() == old(self).file_list(),
    {
        proof {
            lemma_records_map(self.records@);
        }
        let mut i: usize = 0;
        while i < self.records.len()
            invariant
                i <= self.records@.len(),
                self.records@ == old(self).records@,
                self.files@ == old(self).files@,
                paths_unique(self.records@),
                forall|j: int| 0 <= j < i ==> self.records@[j].path@ != path@,
            decreases self.records@.len() - i,
        {
            if self.records[i].path == path {
                let ghost before = self.records@;
                self.records.set(i, OriginRecord { path, source });
                proof {
                    let now = self.records@;
                    lemma_records_map(before);
                    assert forall|a: int, b: int| 0 <= a < b < now.len() implies now[a].path@
                        != now[b].path@ by {
                        assert(before[a].path@ == now[a].path@ && before[b].path@ == now[b].path@);
                    }
                    lemma_records_map(now);
                    assert(records_map(now) =~= records_map(before).insert(path@, source)) by {
                        assert forall|p: Seq<char>| #[trigger] records_map(now).contains_key(p) <==> records_map(
                            before,
                        ).insert(path@, source).contains_key(p) by {
                            if records_map(now).contains_key(p) {
                                let j = choose|j: int| 0 <= j < now.len() && now[j].path@ == p;
                                assert(before[j].path@ == p);
                            }
                            if records_map(before).contains_key(p) {
                                let j = choose|j: int| 0 <= j < before.len() && before[j].path@ == p;
                                assert(now[j].path@ == p);
                            }
                        }
                        assert forall|p: Seq<char>| #[trigger] records_map(now).contains_key(p) implies records_map(
                            now,
                        )[p] == records_map(before).insert(path@, source)[p] by {
                            let j = choose|j: int| 0 <= j < now.len() && now[j].path@ == p;
                            assert(now[j].path@ == p);
                        }
                    }
                }
                return;
            }
            i += 1;
        }
        let ghost before = self.records@;
        self.records.push(OriginRecord { path, source });
        proof {
            assert(self.records@.drop_last() =~= before);
            assert(paths_unique(before));
            assert forall|a: int, b: int| 0 <= a < b < self.records@.len() implies self.records@[a].path@
                != self.records@[b].path@ by {
                if b == before.len() {
                    assert(before[a].path@ == self.records@[a].path@);
                }
            }
        }
    }

    /// Records `source` for every value other than an object in `value`, at
    /// its dotted path under `base_path`. Called once per layer, right after
    /// that layer is merged, so later layers replace earlier records.
    pub fn track_value(&mut self, value: &ConfigValue, base_path: &str, source: &Source)
        requires
            old(self).wf(),
            value.wf(),
        ensures
            final(self).wf(),
            final(self).origins() == track_tree(old(self).origins(), value@, base_path@, *source),
            final(self).file_list() == old(self).file_list(),
    {
        proof {
            lemma_track_spec(self.origins(), *value, base_path@, *source);
        }
        self.track_in_order(value, base_path, source);
    }

    fn track_in_order(&mut self, value: &ConfigValue, base_path: &str, source: &Source)
        requires
            old(self).wf(),
        ensures
            final(self).wf(),
            final(self).origins() == track_spec(old(self).origins(), *value, base_path@, *source),
            final(self).file_list() == old(self).file_list(),
        decreases value,
    {
        match value {
            ConfigValue::Object(e) => {
                let ghost start = self.origins();
                let mut i: usize = 0;
                while i < e.len()
                    invariant
                        *value == ConfigValue::Object(*e),
                        i <= e@.len(),
                        self.wf(),
                        self.file_list() == old(self).file_list(),
                        start == old(self).origins(),
                        self.origins() == track_entries(start, e@.take(i as int), base_path@, *source),
                    decreases e@.len() - i,
                {
                    proof {
                        assert(decreases_to!(*value => value->Object_0[i as int].1));
                        assert(e@.take(i + 1).drop_last() =~= e@.take(i as int));
                    }
                    let mut child = base_path.to_string();
                    if !base_path.is_empty() {
                        child.append(".");
                    }
                    child.append(e[i].0.as_str());
                    proof {
                        reveal_strlit(".");
                        assert(child@ == child_path(base_path@, e@[i as int].0@));
                    }
                    self.track_in_order(&e[i].1, child.as_str(), source);
                    i += 1;
                }
                proof {
                    assert(e@.take(e@.len() as int) =~= e@);
                }
            },
            _ => {
                self.record(base_path.to_string(), source.duplicate());
            },
        }
    }

    /// Drops the records whose paths no longer lead to a value other than an
    /// object in the merged tree, so that the records describe that tree.
    pub fn retain_leaves(&mut self, tree: &ConfigValue)
        requires
            old(self).wf(),
            tree.wf(),
        ensures
            final(self).wf(),
            final(self).origins() == prune(old(self).origins(), tree@),
            final(self).file_list() == old(self).file_list(),
    {
        let mut rest: Vec<OriginRecord> = Vec::new();
        core::mem::swap(&mut self.records, &mut rest);
        let ghost all = rest@;
        let total = rest.len();
        let mut k: usize = 0;
        proof {
            assert(all.take(0) =~= Seq::<OriginRecord>::empty());
        }
        while rest.len() > 0
            invariant
                tree.wf(),
                all.len() == total,
                k + rest@.len() == total,
                rest@ == all.skip(k as int),
                self.records@ == kept_records(all.take(k as int), tree@),
                self.files@ == old(self).files@,
                all == old(self).records@,
            decreases rest@.len(),
        {
            let rec = rest.remove(0);
            proof {
                assert(all.skip(k as int)[0] == rec);
                assert(rest@ =~= all.skip(k + 1));
                assert(all.take(k + 1).drop_last() =~= all.take(k as int));
                assert(all.take(k + 1).last() == rec);
            }
            let keep = match tree.get_path(rec.path.as_str()) {
                Some(v) => !matches!(v, ConfigValue::Object(_)),
                None => false,
            };
            if keep {
                self.records.push(rec);
            }
            k += 1;
        }
        proof {
            assert(all.take(total as int) =~= all);
            lemma_kept_records(all, tree@);
        }
    }

    /// The record for a dotted path, if any layer wrote it.
    pub fn find_origin(&self, path: &str) -> (r: Option<&OriginRecord>)
        requires
            self.wf(),
        ensures
            r is Some <==> self.origins().contains_key(path@),
            r is Some ==> r->0.path@ == path@ && r->0.source == self.origins()[path@],
    {
        proof {
            lemma_records_map(self.records@);
        }
        let key = path.to_string();
        let mut i: usize = 0;
        while i < self.records.len()
            invariant
                key@ == path@,
                i <= self.records@.len(),
                paths_unique(self.records@),
                forall|j: int| 0 <= j < i ==> self.records@[j].path@ != path@,
            decreases self.records@.len() - i,
        {
            if self.records[i].path == key {
                proof {
                    lemma_records_map(self.records@);
                }
                return Some(&self.records[i]);
            }
            i += 1;
        }
        proof {
            lemma_records_map(self.records@);
        }
        None
    }

    /// The file that last wrote a dotted path, if a configuration file did.
    pub fn get_file_source(&self, path: &str) -> (r: Option<String>)
        requires
            self.wf(),
        ensures
            r is Some <==> (self.origins().contains_key(path@) && self.origins()[path@] is ConfigFile
                && self.origins()[path@]->ConfigFile_0 is Some),
            r is Some ==> Source::ConfigFile(r) == self.origins()[path@],
    {
        match self.find_origin(path) {
            Some(rec) => match &rec.source {
                Source::ConfigFile(Some(p)) => Some(p.clone()),
                _ => None,
            },
            None => None,
        }
    }

    /// The records, one per tracked path.
    pub fn iter(&self) -> (r: std::slice::Iter<'_, OriginRecord>)
        ensures
            records_map(vstd::std_specs::slice::into_iter_elts(r)) == self.origins(),
    {
        let r = self.records.iter();
        proof {
            assert(vstd::std_specs::slice::into_iter_elts(r) == self.records@);
        }
        r
    }

    /// The error for a value at dotted `path` that does not have the type
    /// its field expects, located in the configuration file that wrote it:
    /// the span covers the first occurrence in that file of the path's last
    /// key. `None` when no registered file wrote the path or the key does
    /// not occur in it.
    pub fn type_mismatch_error(&self, path: &str, message: &str) -> (r: Option<FileError>)
        requires
            self.wf(),
        ensures
            r is Some ==> {
                &&& self.origins().contains_key(path@)
                &&& self.origins()[path@] is ConfigFile
                &&& self.origins()[path@]->ConfigFile_0 is Some
                &&& mismatch_at(r->0, self.file_list(), self.origins()[path@]->ConfigFile_0->0@, path@, message@)
            },
            (self.origins().contains_key(path@) && self.origins()[path@] is ConfigFile
                && self.origins()[path@]->ConfigFile_0 is Some && locatable(
                self.file_list(),
                self.origins()[path@]->ConfigFile_0->0@,
                path@,
            )) ==> r is Some,
    {
        let file = match self.find_origin(path) {
            Some(rec) => match &rec.source {
                Source::ConfigFile(Some(f)) => f,
                _ => {
                    return None;
                },
            },
            None => {
                return None;
            },
        };
        let idx = match last_file(&self.files, file) {
            Some(i) => i,
            None => {
                return None;
            },
        };
        let parts = crate::text::split_dots(path);
        if parts.len() == 0 {
            return None;
        }
        let key = parts[parts.len() - 1];
        let content = &self.files[idx].1;
        let cs = chars_of(content.as_str());
        let ks = chars_of(key);
        let k = match find_in(&cs, &ks, 0) {
            Some(k) => k,
            None => {
                return None;
            },
        };
        proof {
            crate::location::lemma_find_from_bounds(cs@, ks@, 0);
        }
        let before = content.as_str().substring_char(0, k);
        let offset = before.as_bytes().len();
        let n = key.as_bytes().len();
        let span = Span { offset, len: if n < 1 { 1 } else { n } };
        Some(FileError::Parse {
            format: self.files[idx].2.name(),
            path: file.clone(),
            src: content.clone(),
            span,
            message: message.to_string(),
            help: "check that the config file values match the expected types".to_string(),
        })
    }

    /// Every tracked dotted path, in the order first recorded.
    pub fn tracked_fields(&self) -> (r: Vec<String>)
        requires
            self.wf(),
        ensures
            forall|p: Seq<char>|
                self.origins().contains_key(p) <==> exists|i: int| 0 <= i < r@.len() && r@[i]@ == p,
    {
        proof {
            lemma_records_map(self.records@);
        }
        let mut out: Vec<String> = Vec::new();
        let mut i: usize = 0;
        while i < self.records.len()
            invariant
                i <= self.records@.len(),
                out@.len() == i,
                forall|j: int| 0 <= j < i ==> (#[trigger] out@[j])@ == self.records@[j].path@,
            decreases self.records@.len() - i,
        {
            out.push(self.records[i].path.clone());
            i += 1;
        }
        proof {
            assert forall|p: Seq<char>|
                self.origins().contains_key(p) <==> exists|i: int| 0 <= i < out@.len() && out@[i]@ == p by {
                if self.origins().contains_key(p) {
                    let j = choose|j: int| 0 <= j < self.records@.len() && self.records@[j].path@ == p;
                    assert(out@[j]@ == p);
                }
                if exists|i: int| 0 <= i < out@.len() && out@[i]@ == p {
                    let j = choose|j: int| 0 <= j < out@.len() && out@[j]@ == p;
                    assert(self.records@[j].path@ == p);
                }
            }
        }
        out
    }
}

} // verus!
