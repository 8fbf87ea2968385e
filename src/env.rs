//! Mapping of environment variables onto a nested value tree, and lookups
//! by dotted path.
use vstd::prelude::*;
use crate::coerce::{coerce_spec, coerce_value};
use crate::merge::{find_key, lookup};
use crate::text::{dot_pieces, lower_of, split, split_dots, split_of, strip_prefix, to_lowercase};
use crate::value::{
    ConfigValue, Tree, entries_view, entries_wf, keys_unique, lemma_entries_push, lemma_entries_view,
    lemma_entries_view_update, lemma_entries_wf, lemma_remove_insert,
};

verus! {

pub open spec fn views(parts: Seq<&str>) -> Seq<Seq<char>> {
    parts.map_values(|p: &str| p@)
}

/// The object `m` after setting the value at path `parts`, creating objects
/// along the way; a value other than an object on the way blocks the insert.
pub open spec fn insert_path(m: Map<Seq<char>, Tree>, parts: Seq<Seq<char>>, v: Tree) -> Map<
    Seq<char>,
    Tree,
>
    decreases parts.len(),
{
    if parts.len() == 0 {
        m
    } else if parts.len() == 1 {
        m.insert(parts[0], v)
    } else if !m.contains_key(parts[0]) {
        m.insert(parts[0], Tree::Object(insert_path(Map::empty(), parts.drop_first(), v)))
    } else if m[parts[0]] is Object {
        m.insert(parts[0], Tree::Object(insert_path(m[parts[0]]->Object_0, parts.drop_first(), v)))
    } else {
        m
    }
}

proof fn lemma_views_skip(parts: Seq<&str>, i: int)
    requires
        0 <= i < parts.len(),
    ensures
        views(parts.skip(i)).drop_first() == views(parts.skip(i + 1)),
        views(parts.skip(i)).len() == parts.len() - i,
        views(parts.skip(i))[0] == parts[i]@,
{
    assert(views(parts.skip(i)).drop_first() =~= views(parts.skip(i + 1)));
}

fn insert_from(map: &mut Vec<(String, ConfigValue)>, parts: &[&str], start: usize, value: ConfigValue)
    requires
        keys_unique(old(map)@),
        entries_wf(old(map)@),
        value.wf(),
        start <= parts@.len(),
    ensures
        keys_unique(final(map)@),
        entries_wf(final(map)@),
        entries_view(final(map)@) == insert_path(
            entries_view(old(map)@),
            views(parts@.skip(start as int)),
            value@,
        ),
    decreases parts@.len() - start,
{
    if start == parts.len() {
        return;
    }
    proof {
        lemma_views_skip(parts@, start as int);
        lemma_entries_view(map@);
        lemma_entries_wf(map@);
    }
    let key = parts[start].to_string();
    let found = find_key(map, &key);
    if start + 1 == parts.len() {
        match found {
            Some(i) => {
                let ghost before = map@;
                let (k, _old) = map.remove(i);
                map.insert(i, (k, value));
                proof {
                    lemma_remove_insert(before, i as int, (k, value));
                    lemma_entries_view_update(before, i as int, value);
                    lemma_entries_wf(map@);
                }
            },
            None => {
                proof {
                    lemma_entries_push(map@, key, value);
                }
                map.push((key, value));
                proof {
                    lemma_entries_wf(map@);
                }
            },
        }
        return;
    }
    match found {
        Some(i) => {
            let ghost before = map@;
            let (k, inner) = map.remove(i);
            proof {
                assert(before[i as int].1.wf());
            }
            match inner {
                ConfigValue::Object(mut nested) => {
                    insert_from(&mut nested, parts, start + 1, value);
                    let nv = ConfigValue::Object(nested);
                    map.insert(i, (k, nv));
                    proof {
                        lemma_remove_insert(before, i as int, (k, nv));
                        lemma_entries_view_update(before, i as int, nv);
                        lemma_entries_wf(map@);
                    }
                },
                other => {
                    map.insert(i, (k, other));
                    proof {
                        assert(map@ =~= before);
                    }
                },
            }
        },
        None => {
            let mut nested: Vec<(String, ConfigValue)> = Vec::new();
            proof {
                assert(entries_view(nested@) =~= Map::empty());
            }
            insert_from(&mut nested, parts, start + 1, value);
            let nv = ConfigValue::Object(nested);
            proof {
                lemma_entries_push(map@, key, nv);
            }
            map.push((key, nv));
            proof {
                lemma_entries_wf(map@);
            }
        },
    }
}

/// Sets `value` at the path `parts` inside the object entries `map`,
/// creating intermediate objects as needed. Where a value other than an
/// object already stands on the way, the insert is dropped.
pub fn insert_nested(map: &mut Vec<(String, ConfigValue)>, parts: &[&str], value: ConfigValue)
    requires
        keys_unique(old(map)@),
        entries_wf(old(map)@),
        value.wf(),
    ensures
        keys_unique(final(map)@),
        entries_wf(final(map)@),
        entries_view(final(map)@) == insert_path(entries_view(old(map)@), views(parts@), value@),
{
    proof {
        assert(parts@.skip(0) =~= parts@);
    }
    insert_from(map, parts, 0, value);
}

/// The object built from environment variables, applied in order.
pub open spec fn env_map(prefix: Seq<char>, sep: Seq<char>, vars: Seq<(String, String)>) -> Map<
    Seq<char>,
    Tree,
>
    decreases vars.len(),
{
    if vars.len() == 0 {
        Map::empty()
    } else {
        let acc = env_map(prefix, sep, vars.drop_last());
        let (name, raw) = vars.last();
        if prefix.is_prefix_of(name@) {
            insert_path(
                acc,
                split_of(lower_of(name@.skip(prefix.len() as int)), sep),
                coerce_spec(raw@),
            )
        } else {
            acc
        }
    }
}

/// Maps the variables whose names start with `prefix` onto a nested object:
/// the rest of the name is lower-cased and split on `separator` into a path,
/// and the value is coerced. Variables are applied in the order given.
pub fn env_to_value(prefix: &str, separator: &str, vars: &Vec<(String, String)>) -> (r: ConfigValue)
    ensures
        r.wf(),
        r@ == Tree::Object(env_map(prefix@, separator@, vars@)),
{
    let mut root: Vec<(String, ConfigValue)> = Vec::new();
    proof {
        assert(entries_view(root@) =~= Map::empty());
    }
    let mut i: usize = 0;
    while i < vars.len()
        invariant
            i <= vars.len(),
            keys_unique(root@),
            entries_wf(root@),
            entries_view(root@) == env_map(prefix@, separator@, vars@.take(i as int)),
        decreases vars.len() - i,
    {
        proof {
            assert(vars@.take(i + 1).drop_last() =~= vars@.take(i as int));
        }
        let name = &vars[i].0;
        let raw = &vars[i].1;
        if let Some(stripped) = strip_prefix(name.as_str(), prefix) {
            let lowered = to_lowercase(stripped);
            let parts = split(lowered.as_str(), separator);
            let typed = coerce_value(raw.as_str());
            proof {
                assert(views(parts@) == split_of(lowered@, separator@));
            }
            insert_nested(&mut root, parts.as_slice(), typed);
        }
        i += 1;
    }
    proof {
        assert(vars@.take(vars@.len() as int) =~= vars@);
    }
    ConfigValue::Object(root)
}

impl ConfigValue {
    /// The value at the path `parts`, walking through nested objects.
    pub fn get_in(&self, parts: &[&str]) -> (r: Option<&ConfigValue>)
        requires
            self.wf(),
        ensures
            r is Some ==> lookup(self@, views(parts@)) == Some(r->0@) && r->0.wf(),
            r is None ==> lookup(self@, views(parts@)) is None,
    {
        let mut cur: &ConfigValue = self;
        let mut i: usize = 0;
        proof {
            assert(parts@.skip(0) =~= parts@);
        }
        while i < parts.len()
            invariant
                i <= parts@.len(),
                cur.wf(),
                lookup(self@, views(parts@)) == lookup(cur@, views(parts@.skip(i as int))),
            decreases parts@.len() - i,
        {
            proof {
                lemma_views_skip(parts@, i as int);
            }
            match cur {
                ConfigValue::Object(e) => {
                    let key = parts[i].to_string();
                    match find_key(e, &key) {
                        Some(j) => {
                            proof {
                                lemma_entries_view(e@);
                                lemma_entries_wf(e@);
                            }
                            cur = &e[j].1;
                        },
                        None => {
                            proof {
                                lemma_entries_view(e@);
                            }
                            return None;
                        },
                    }
                },
                _ => {
                    return None;
                },
            }
            i += 1;
        }
        proof {
            assert(parts@.skip(parts@.len() as int) =~= Seq::<&str>::empty());
        }
        Some(cur)
    }

    /// The value at a `.`-delimited path.
    pub fn get_path(&self, path: &str) -> (r: Option<&ConfigValue>)
        requires
            self.wf(),
        ensures
            r is Some ==> lookup(self@, dot_pieces(path@)) == Some(r->0@),
            r is None ==> lookup(self@, dot_pieces(path@)) is None,
    {
        let parts = split_dots(path);
        proof {
            assert(views(parts@) == dot_pieces(path@));
        }
        self.get_in(parts.as_slice())
    }
}

} // verus!
