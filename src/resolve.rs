//! Schema-driven resolution: profile selection, defaults, layered merging,
//! accumulated field errors, and per-field source attribution.
use vstd::prelude::*;
use crate::builder::{ConfigBuilder, env_get, env_value, first_layer_error, merge_layers, pair_views};
use crate::coerce::{coerce_spec, coerce_value};
use crate::env::{insert_nested, views};
use crate::error::{Error, join_spec, string_views};
use crate::format::FileRead;
use crate::merge::lookup;
use crate::origin::{OriginTracker, child_path};
use crate::sources::{ConfigSources, Source, ValueSource};
use crate::value::{ConfigValue, Tree, entries_view, entries_wf, keys_unique};

verus! {

/// One declared field of a configuration.
pub struct FieldSchema {
    /// The field's key in the value tree.
    pub name: String,
    /// The environment variable that sets the field directly.
    pub var: Option<String>,
    /// The default, as raw text to be coerced.
    pub default: Option<String>,
    /// An optional field may stay unset.
    pub optional: bool,
    /// A secret field's value never appears in error text.
    pub secret: bool,
    /// The fields of a flattened sub-configuration.
    pub nested: Option<Vec<FieldSchema>>,
    /// Prepended to the variable names of the nested fields.
    pub flatten_prefix: Option<String>,
    /// Default literals by profile name.
    pub profile_overrides: Vec<(String, String)>,
}

pub open spec fn opt_view(o: Option<String>) -> Option<Seq<char>> {
    match o {
        Some(s) => Some(s@),
        None => None,
    }
}

pub open spec fn text_or_empty(o: Option<String>) -> Seq<char> {
    match o {
        Some(s) => s@,
        None => Seq::empty(),
    }
}

/// The raw default of a field: the selected profile's override if it
/// declares one, else its generic default.
pub open spec fn field_default(f: FieldSchema, profile: Option<Seq<char>>) -> Option<Seq<char>> {
    match profile {
        Some(p) => match env_value(f.profile_overrides@, p) {
            Some(v) => Some(v),
            None => opt_view(f.default),
        },
        None => opt_view(f.default),
    }
}

/// The defaults layer of a schema: each field's default (or profile
/// override), coerced; a flattened field holds its own defaults object.
pub open spec fn defaults_map(schema: Seq<FieldSchema>, profile: Option<Seq<char>>) -> Map<Seq<char>, Tree>
    decreases schema,
{
    if schema.len() == 0 {
        Map::empty()
    } else {
        let m = defaults_map(schema.drop_last(), profile);
        let f = schema[schema.len() - 1];
        match f.nested {
            Some(n) => m.insert(f.name@, Tree::Object(defaults_map(n@, profile))),
            None => match field_default(f, profile) {
                Some(t) => m.insert(f.name@, coerce_spec(t)),
                None => m,
            },
        }
    }
}

fn put(m: &mut Vec<(String, ConfigValue)>, key: &str, v: ConfigValue)
    requires
        keys_unique(old(m)@),
        entries_wf(old(m)@),
        v.wf(),
    ensures
        keys_unique(final(m)@),
        entries_wf(final(m)@),
        entries_view(final(m)@) == entries_view(old(m)@).insert(key@, v@),
{
    let parts = vec![key];
    proof {
        assert(views(parts@) =~= seq![key@]);
    }
    insert_nested(m, parts.as_slice(), v);
}

/// The defaults layer for `schema` under the selected profile.
pub fn defaults_for(schema: &Vec<FieldSchema>, profile: Option<&str>) -> (r: ConfigValue)
    ensures
        r.wf(),
        r@ == Tree::Object(
            defaults_map(
                schema@,
                match profile {
                    Some(p) => Some(p@),
                    None => None,
                },
            ),
        ),
    decreases schema@,
{
    let ghost pv = match profile {
        Some(p) => Some(p@),
        None => None::<Seq<char>>,
    };
    let mut m: Vec<(String, ConfigValue)> = Vec::new();
    proof {
        assert(entries_view(m@) =~= Map::empty());
        assert(schema@.take(0) =~= Seq::<FieldSchema>::empty());
    }
    let mut i: usize = 0;
    while i < schema.len()
        invariant
            i <= schema@.len(),
            pv == match profile {
                Some(p) => Some(p@),
                None => None::<Seq<char>>,
            },
            keys_unique(m@),
            entries_wf(m@),
            entries_view(m@) == defaults_map(schema@.take(i as int), pv),
        decreases schema@.len() - i,
    {
        proof {
            assert(schema@.take(i + 1).drop_last() =~= schema@.take(i as int));
            assert(schema@.take(i + 1)[i as int] == schema@[i as int]);
        }
        let f = &schema[i];
        match &f.nested {
            Some(n) => {
                proof {
                    assert(decreases_to!(schema@ => schema@[i as int]));
                    assert(decreases_to!(schema@[i as int] => schema@[i as int].nested));
                    assert(decreases_to!(schema@[i as int].nested => *n));
                    assert(decreases_to!(*n => n@));
                }
                let d = defaults_for(n, profile);
                put(&mut m, f.name.as_str(), d);
            },
            None => {
                let chosen = match profile {
                    Some(p) => match env_get(&f.profile_overrides, p) {
                        Some(v) => Some(v),
                        None => f.default.as_ref(),
                    },
                    None => f.default.as_ref(),
                };
                if let Some(t) = chosen {
                    let v = coerce_value(t.as_str());
                    put(&mut m, f.name.as_str(), v);
                }
            },
        }
        i += 1;
    }
    proof {
        assert(schema@.take(schema@.len() as int) =~= schema@);
    }
    ConfigValue::Object(m)
}

/// The direct variable mappings of a schema, as (field path, variable)
/// pairs; a flattened field's mappings sit under its name, with its prefix
/// before their variable names.
pub open spec fn mappings_of(schema: Seq<FieldSchema>) -> Seq<(Seq<char>, Seq<char>)>
    decreases schema,
{
    if schema.len() == 0 {
        Seq::empty()
    } else {
        let rest = mappings_of(schema.drop_last());
        let f = schema[schema.len() - 1];
        match f.nested {
            Some(n) => rest + under(mappings_of(n@), f.name@, text_or_empty(f.flatten_prefix)),
            None => match f.var {
                Some(v) => rest.push((f.name@, v@)),
                None => rest,
            },
        }
    }
}

pub open spec fn under(ms: Seq<(Seq<char>, Seq<char>)>, path: Seq<char>, var_prefix: Seq<char>) -> Seq<
    (Seq<char>, Seq<char>),
> {
    ms.map_values(|m: (Seq<char>, Seq<char>)| (path + "."@ + m.0, var_prefix + m.1))
}

/// The direct variable mappings of `schema`.
pub fn env_mappings(schema: &Vec<FieldSchema>) -> (r: Vec<(String, String)>)
    ensures
        pair_views(r@) == mappings_of(schema@),
    decreases schema@,
{
    let mut out: Vec<(String, String)> = Vec::new();
    proof {
        assert(schema@.take(0) =~= Seq::<FieldSchema>::empty());
        assert(pair_views(out@) =~= Seq::<(Seq<char>, Seq<char>)>::empty());
    }
    let mut i: usize = 0;
    while i < schema.len()
        invariant
            i <= schema@.len(),
            pair_views(out@) == mappings_of(schema@.take(i as int)),
        decreases schema@.len() - i,
    {
        proof {
            assert(schema@.take(i + 1).drop_last() =~= schema@.take(i as int));
            assert(schema@.take(i + 1)[i as int] == schema@[i as int]);
        }
        let f = &schema[i];
        match &f.nested {
            Some(n) => {
                proof {
                    assert(decreases_to!(schema@ => schema@[i as int]));
                    assert(decreases_to!(schema@[i as int] => schema@[i as int].nested));
                    assert(decreases_to!(schema@[i as int].nested => *n));
                    assert(decreases_to!(*n => n@));
                }
                let inner = env_mappings(n);
                let ghost before = pair_views(out@);
                let mut k: usize = 0;
                while k < inner.len()
                    invariant
                        k <= inner@.len(),
                        pair_views(out@) == before + under(
                            pair_views(inner@).take(k as int),
                            f.name@,
                            text_or_empty(f.flatten_prefix),
                        ),
                    decreases inner@.len() - k,
                {
                    let mut path = f.name.clone();
                    path.append(".");
                    path.append(inner[k].0.as_str());
                    let mut var = match &f.flatten_prefix {
                        Some(p) => p.clone(),
                        None => String::new(),
                    };
                    var.append(inner[k].1.as_str());
                    let ghost prev = out@;
                    out.push((path, var));
                    proof {
                        assert(pair_views(out@) =~= pair_views(prev).push((path@, var@)));
                        assert(pair_views(inner@).take(k + 1) =~= pair_views(inner@).take(k as int).push(
                            pair_views(inner@)[k as int],
                        ));
                        assert(under(pair_views(inner@).take(k + 1), f.name@, text_or_empty(f.flatten_prefix))
                            =~= under(pair_views(inner@).take(k as int), f.name@, text_or_empty(f.flatten_prefix)).push(
                            (path@, var@),
                        ));
                    }
                    k += 1;
                }
                proof {
                    assert(pair_views(inner@).take(inner@.len() as int) =~= pair_views(inner@));
                }
            },
            None => {
                if let Some(v) = &f.var {
                    let ghost prev = out@;
                    out.push((f.name.clone(), v.clone()));
                    proof {
                        assert(pair_views(out@) =~= pair_views(prev).push((f.name@, v@)));
                    }
                }
            },
        }
        i += 1;
    }
    proof {
        assert(schema@.take(schema@.len() as int) =~= schema@);
    }
    out
}

/// A field counts as set when the object holds it with a value other than null.
pub open spec fn is_set(t: Tree, name: Seq<char>) -> bool {
    t is Object && t->Object_0.contains_key(name) && !(t->Object_0[name] is Null)
}

pub open spec fn sub_tree(t: Tree, name: Seq<char>) -> Tree {
    if t is Object && t->Object_0.contains_key(name) {
        t->Object_0[name]
    } else {
        Tree::Object(Map::empty())
    }
}

/// The dotted paths of the required fields that are not set, in
/// declaration order; a flattened field's own fields are checked in place.
pub open spec fn missing_of(schema: Seq<FieldSchema>, t: Tree, base: Seq<char>) -> Seq<Seq<char>>
    decreases schema,
{
    if schema.len() == 0 {
        Seq::empty()
    } else {
        let rest = missing_of(schema.drop_last(), t, base);
        let f = schema[schema.len() - 1];
        match f.nested {
            Some(n) => rest + missing_of(n@, sub_tree(t, f.name@), child_path(base, f.name@)),
            None => if !is_set(t, f.name@) && !f.optional && f.default is None {
                rest.push(child_path(base, f.name@))
            } else {
                rest
            },
        }
    }
}

/// Errors that are `Missing` errors for the given names, in order.
pub open spec fn missing_errors(errs: Seq<Error>, names: Seq<Seq<char>>) -> bool {
    &&& errs.len() == names.len()
    &&& forall|i: int|
        0 <= i < errs.len() ==> {
            &&& #[trigger] errs[i] is Missing
            &&& errs[i]->Missing_var@ == names[i]
            &&& errs[i]->Missing_help@ == "set "@ + names[i] + " in your environment or .env file"@
        }
}

fn child_of(base: &str, name: &String) -> (r: String)
    ensures
        r@ == child_path(base@, name@),
{
    if base.is_empty() {
        name.clone()
    } else {
        let mut s = base.to_string();
        s.append(".");
        s.append(name.as_str());
        proof {
            reveal_strlit(".");
        }
        s
    }
}

fn collect_missing(schema: &Vec<FieldSchema>, value: &ConfigValue, base: &str, errors: &mut Vec<Error>)
    requires
        value.wf(),
    ensures
        final(errors)@.len() >= old(errors)@.len(),
        final(errors)@.take(old(errors)@.len() as int) == old(errors)@,
        missing_errors(final(errors)@.skip(old(errors)@.len() as int), missing_of(schema@, value@, base@)),
    decreases schema@,
{
    let ghost start = errors@;
    let mut i: usize = 0;
    proof {
        assert(schema@.take(0) =~= Seq::<FieldSchema>::empty());
        assert(errors@.skip(start.len() as int) =~= Seq::<Error>::empty());
    }
    while i < schema.len()
        invariant
            value.wf(),
            i <= schema@.len(),
            errors@.take(start.len() as int) == start,
            errors@.len() >= start.len(),
            missing_errors(errors@.skip(start.len() as int), missing_of(schema@.take(i as int), value@, base@)),
        decreases schema@.len() - i,
    {
        proof {
            assert(schema@.take(i + 1).drop_last() =~= schema@.take(i as int));
            assert(schema@.take(i + 1)[i as int] == schema@[i as int]);
        }
        let f = &schema[i];
        let path = child_of(base, &f.name);
        let key = vec![f.name.as_str()];
        proof {
            assert(views(key@) =~= seq![f.name@]);
        }
        let found = value.get_in(key.as_slice());
        proof {
            reveal_with_fuel(lookup, 2);
            assert(seq![f.name@].drop_first() =~= Seq::<Seq<char>>::empty());
            if found is Some {
                assert(value@ is Object && value@->Object_0.contains_key(f.name@));
                assert(found->0@ == sub_tree(value@, f.name@));
            } else {
                assert(!(value@ is Object && value@->Object_0.contains_key(f.name@)));
            }
        }
        match &f.nested {
            Some(n) => {
                proof {
                    assert(decreases_to!(schema@ => schema@[i as int]));
                    assert(decreases_to!(schema@[i as int] => schema@[i as int].nested));
                    assert(decreases_to!(schema@[i as int].nested => *n));
                    assert(decreases_to!(*n => n@));
                }
                let ghost mid = errors@;
                let empty = ConfigValue::Object(Vec::new());
                proof {
                    assert(entries_view(Seq::<(String, ConfigValue)>::empty()) =~= Map::empty());
                }
                match found {
                    Some(sub) => collect_missing(n, sub, path.as_str(), errors),
                    None => collect_missing(n, &empty, path.as_str(), errors),
                }
                proof {
                    assert(errors@.take(start.len() as int) =~= mid.take(start.len() as int));
                    assert(errors@.skip(start.len() as int) =~= mid.skip(start.len() as int) + errors@.skip(
                        mid.len() as int,
                    ));
                }
            },
            None => {
                let set = match found {
                    Some(v) => !matches!(v, ConfigValue::Null),
                    None => false,
                };
                if !set && !f.optional && f.default.is_none() {
                    let ghost mid = errors@;
                    errors.push(Error::missing(path.as_str()));
                    proof {
                        assert(errors@.take(start.len() as int) =~= mid.take(start.len() as int));
                        assert(errors@.skip(start.len() as int) =~= mid.skip(start.len() as int).push(
                            errors@.last(),
                        ));
                    }
                }
            },
        }
        i += 1;
    }
    proof {
        assert(schema@.take(schema@.len() as int) =~= schema@);
    }
}

/// Checks every required field of `schema` in `value`, not stopping at the
/// first failure: with no field missing the check passes; one missing field
/// is reported as its own `Missing` error; two or more are wrapped in
/// `Multiple`, in declaration order.
pub fn check_required(schema: &Vec<FieldSchema>, value: &ConfigValue) -> (r: Result<(), Error>)
    requires
        value.wf(),
    ensures
        ({
            let names = missing_of(schema@, value@, Seq::empty());
            &&& names.len() == 0 <==> r is Ok
            &&& names.len() == 1 ==> r is Err && missing_errors(seq![r->Err_0], names)
            &&& names.len() >= 2 ==> r is Err && r->Err_0 is Multiple && missing_errors(
                r->Err_0->Multiple_errors@,
                names,
            )
        }),
{
    let mut errors: Vec<Error> = Vec::new();
    proof {
        reveal_strlit("");
    }
    collect_missing(schema, value, "", &mut errors);
    proof {
        assert(""@ =~= Seq::<char>::empty());
        assert(errors@.skip(0) =~= errors@);
    }
    let ghost all = errors@;
    match Error::multiple(errors) {
        None => Ok(()),
        Some(e) => {
            proof {
                if all.len() == 1 {
                    assert(seq![e] =~= all);
                }
            }
            Err(e)
        },
    }
}

/// Where the value of one field came from: a variable that is set (from the
/// process environment, or loaded from a `.env` file if it was not set
/// before), then a configuration file, then the selected profile's override,
/// then the declared default.
pub open spec fn source_for(
    f: FieldSchema,
    path: Seq<char>,
    var: Seq<char>,
    before: Seq<(String, String)>,
    now: Seq<(String, String)>,
    origins: Map<Seq<char>, Source>,
    profile: Option<String>,
) -> Source {
    if env_value(now, var) is Some {
        if env_value(before, var) is Some {
            Source::Environment
        } else {
            Source::DotenvFile(None)
        }
    } else if origins.contains_key(path) && origins[path] is ConfigFile && origins[path]->ConfigFile_0 is Some {
        origins[path]
    } else if profile is Some && env_value(f.profile_overrides@, profile->0@) is Some {
        Source::Profile(profile->0)
    } else if f.default is Some {
        Source::Default
    } else {
        Source::NotSet
    }
}

/// The attribution of every field, as (path, variable, source), in order.
pub open spec fn sources_of(
    schema: Seq<FieldSchema>,
    base: Seq<char>,
    var_prefix: Seq<char>,
    before: Seq<(String, String)>,
    now: Seq<(String, String)>,
    origins: Map<Seq<char>, Source>,
    profile: Option<String>,
) -> Seq<(Seq<char>, Seq<char>, Source)>
    decreases schema,
{
    if schema.len() == 0 {
        Seq::empty()
    } else {
        let rest = sources_of(schema.drop_last(), base, var_prefix, before, now, origins, profile);
        let f = schema[schema.len() - 1];
        let path = child_path(base, f.name@);
        match f.nested {
            Some(n) => rest + sources_of(
                n@,
                path,
                var_prefix + text_or_empty(f.flatten_prefix),
                before,
                now,
                origins,
                profile,
            ),
            None => {
                let var = var_prefix + text_or_empty(f.var);
                rest.push((path, var, source_for(f, path, var, before, now, origins, profile)))
            },
        }
    }
}

pub open spec fn entries_match(e: Seq<(String, ValueSource)>, s: Seq<(Seq<char>, Seq<char>, Source)>) -> bool {
    &&& e.len() == s.len()
    &&& forall|i: int|
        0 <= i < e.len() ==> {
            &&& (#[trigger] e[i]).0@ == s[i].0
            &&& e[i].1.var_name@ == s[i].1
            &&& e[i].1.source == s[i].2
        }
}

fn attribute(
    schema: &Vec<FieldSchema>,
    base: &str,
    var_prefix: &str,
    before: &Vec<(String, String)>,
    now: &Vec<(String, String)>,
    origins: &OriginTracker,
    profile: &Option<String>,
    out: &mut ConfigSources,
)
    requires
        origins.wf(),
    ensures
        final(out).view_entries().take(old(out).view_entries().len() as int) == old(out).view_entries(),
        final(out).view_entries().len() >= old(out).view_entries().len(),
        entries_match(
            final(out).view_entries().skip(old(out).view_entries().len() as int),
            sources_of(schema@, base@, var_prefix@, before@, now@, origins.origins(), *profile),
        ),
    decreases schema@,
{
    let ghost start = out.view_entries();
    let ghost sl = start.len() as int;
    let mut i: usize = 0;
    proof {
        assert(schema@.take(0) =~= Seq::<FieldSchema>::empty());
        assert(out.view_entries().skip(sl) =~= Seq::<(String, ValueSource)>::empty());
    }
    while i < schema.len()
        invariant
            origins.wf(),
            i <= schema@.len(),
            sl == start.len(),
            out.view_entries().len() >= sl,
            out.view_entries().take(sl) == start,
            entries_match(
                out.view_entries().skip(sl),
                sources_of(schema@.take(i as int), base@, var_prefix@, before@, now@, origins.origins(), *profile),
            ),
        decreases schema@.len() - i,
    {
        proof {
            assert(schema@.take(i + 1).drop_last() =~= schema@.take(i as int));
            assert(schema@.take(i + 1)[i as int] == schema@[i as int]);
        }
        let f = &schema[i];
        let path = child_of(base, &f.name);
        match &f.nested {
            Some(n) => {
                proof {
                    assert(decreases_to!(schema@ => schema@[i as int]));
                    assert(decreases_to!(schema@[i as int] => schema@[i as int].nested));
                    assert(decreases_to!(schema@[i as int].nested => *n));
                    assert(decreases_to!(*n => n@));
                }
                let mut vp = var_prefix.to_string();
                if let Some(p) = &f.flatten_prefix {
                    vp.append(p.as_str());
                }
                let ghost mid = out.view_entries();
                attribute(n, path.as_str(), vp.as_str(), before, now, origins, profile, out);
                proof {
                    let e = out.view_entries();
                    assert(e.take(sl) =~= mid.take(sl));
                    assert(e.skip(sl) =~= mid.skip(sl) + e.skip(mid.len() as int));
                }
            },
            None => {
                let mut var = var_prefix.to_string();
                if let Some(v) = &f.var {
                    var.append(v.as_str());
                }
                let source = if env_get(now, var.as_str()).is_some() {
                    if env_get(before, var.as_str()).is_some() {
                        Source::Environment
                    } else {
                        Source::DotenvFile(None)
                    }
                } else {
                    match origins.get_file_source(path.as_str()) {
                        Some(file) => Source::ConfigFile(Some(file)),
                        None => {
                            let has_override = match profile {
                                Some(p) => env_get(&f.profile_overrides, p.as_str()).is_some(),
                                None => false,
                            };
                            if has_override {
                                match profile {
                                    Some(p) => Source::Profile(p.clone()),
                                    None => Source::NotSet,
                                }
                            } else if f.default.is_some() {
                                Source::Default
                            } else {
                                Source::NotSet
                            }
                        },
                    }
                };
                let ghost mid = out.view_entries();
                out.add(path.as_str(), ValueSource::new(var.as_str(), source));
                proof {
                    let e = out.view_entries();
                    assert(e.take(sl) =~= mid.take(sl));
                    assert(e.skip(sl) =~= mid.skip(sl).push(e.last()));
                }
            },
        }
        i += 1;
    }
    proof {
        assert(schema@.take(schema@.len() as int) =~= schema@);
    }
}


/// The environment after a `.env` file is loaded: a variable already set
/// keeps its value, and the file adds each variable not yet set.
pub open spec fn env_after(before: Seq<(String, String)>, dotenv: Seq<(String, String)>) -> Seq<(String, String)>
    decreases dotenv.len(),
{
    if dotenv.len() == 0 {
        before
    } else {
        let acc = env_after(before, dotenv.drop_last());
        let (k, v) = dotenv.last();
        if env_value(acc, k@) is Some {
            acc
        } else {
            acc.push((k, v))
        }
    }
}

/// The effective environment snapshot after loading `dotenv` over `before`.
pub fn effective_env(before: &Vec<(String, String)>, dotenv: &Vec<(String, String)>) -> (r: Vec<(String, String)>)
    ensures
        r@ == env_after(before@, dotenv@),
{
    let mut out: Vec<(String, String)> = Vec::new();
    let mut i: usize = 0;
    while i < before.len()
        invariant
            i <= before@.len(),
            out@ == before@.take(i as int),
        decreases before@.len() - i,
    {
        out.push((before[i].0.clone(), before[i].1.clone()));
        proof {
            assert(out@ =~= before@.take(i + 1));
        }
        i += 1;
    }
    proof {
        assert(before@.take(before@.len() as int) =~= before@);
        assert(dotenv@.take(0) =~= Seq::<(String, String)>::empty());
    }
    let mut j: usize = 0;
    while j < dotenv.len()
        invariant
            j <= dotenv@.len(),
            out@ == env_after(before@, dotenv@.take(j as int)),
        decreases dotenv@.len() - j,
    {
        proof {
            assert(dotenv@.take(j + 1).drop_last() =~= dotenv@.take(j as int));
        }
        if env_get(&out, dotenv[j].0.as_str()).is_none() {
            out.push((dotenv[j].0.clone(), dotenv[j].1.clone()));
        }
        j += 1;
    }
    proof {
        assert(dotenv@.take(dotenv@.len() as int) =~= dotenv@);
    }
    out
}

/// The profile that the selector variable names, if it is set.
pub open spec fn selected_profile(selector: Option<String>, env: Seq<(String, String)>) -> Option<Seq<char>> {
    match selector {
        Some(v) => env_value(env, v@),
        None => None,
    }
}

/// The profile that the selector variable names in an environment snapshot.
pub fn select_profile(env: &Vec<(String, String)>, selector_var: &str) -> (r: Option<String>)
    ensures
        opt_view(r) == env_value(env@, selector_var@),
{
    match env_get(env, selector_var) {
        Some(p) => Some(p.clone()),
        None => None,
    }
}

/// No profile, an empty allow-list, or a profile on the list.
pub open spec fn profile_allowed(profile: Option<Seq<char>>, allowed: Seq<String>) -> bool {
    match profile {
        None => true,
        Some(p) => allowed.len() == 0 || exists|i: int| 0 <= i < allowed.len() && allowed[i]@ == p,
    }
}

/// Rejects a selected profile that a non-empty allow-list does not name.
pub fn validate_profile(profile: Option<&str>, var: &str, allowed: &Vec<String>) -> (r: Result<(), Error>)
    ensures
        r is Ok <==> profile_allowed(
            match profile {
                Some(p) => Some(p@),
                None => None,
            },
            allowed@,
        ),
        r is Err ==> r->Err_0 is InvalidProfile && profile is Some && r->Err_0->InvalidProfile_profile@
            == profile->0@ && r->Err_0->InvalidProfile_var@ == var@
            && r->Err_0->InvalidProfile_valid_profiles@ == allowed@ && r->Err_0->InvalidProfile_help@
            == "valid profiles are: "@ + join_spec(string_views(allowed@), ", "@),
{
    let p = match profile {
        Some(p) => p,
        None => {
            return Ok(());
        },
    };
    if allowed.len() == 0 {
        return Ok(());
    }
    let key = p.to_string();
    let mut copy: Vec<String> = Vec::new();
    let mut i: usize = 0;
    while i < allowed.len()
        invariant
            key@ == p@,
            profile == Some(p),
            i <= allowed@.len(),
            copy@ == allowed@.take(i as int),
            forall|j: int| 0 <= j < i ==> allowed@[j]@ != p@,
        decreases allowed@.len() - i,
    {
        if allowed[i] == key {
            proof {
                assert(allowed@[i as int]@ == p@);
            }
            return Ok(());
        }
        copy.push(allowed[i].clone());
        proof {
            assert(copy@ =~= allowed@.take(i + 1));
        }
        i += 1;
    }
    proof {
        assert(copy@ =~= allowed@);
    }
    Err(Error::invalid_profile(key, var, copy))
}

/// How one resolution is set up.
pub struct ResolveOptions {
    /// Variables with this prefix form the environment layer.
    pub prefix: Option<String>,
    /// Separator between path segments in prefixed variable names.
    pub separator: String,
    /// The variable that selects the profile.
    pub profile_var: Option<String>,
    /// The allowed profiles; empty allows any.
    pub profiles: Vec<String>,
    /// Configuration files in order, each with whether it is required.
    pub files: Vec<(String, bool)>,
}

/// A resolved configuration.
pub struct Resolution {
    /// The merged value tree.
    pub value: ConfigValue,
    /// Which layer last wrote each leaf path.
    pub origins: OriginTracker,
    /// Where each declared field's value came from.
    pub sources: ConfigSources,
    /// The selected profile.
    pub profile: Option<String>,
}

/// The outcome of a resolution from the schema, the options, what reading
/// each file gave, the environment before `.env` loading and the variables
/// of the `.env` file. A rejected profile or a file layer that cannot be
/// built stops at once; missing required fields are all reported together.
pub fn resolve(
    schema: &Vec<FieldSchema>,
    options: &ResolveOptions,
    reads: &Vec<FileRead>,
    before: &Vec<(String, String)>,
    dotenv: &Vec<(String, String)>,
) -> (r: Result<Resolution, Error>)
    requires
        reads@.len() == options.files@.len(),
    ensures
        ({
            let now = env_after(before@, dotenv@);
            let prof = selected_profile(options.profile_var, now);
            &&& !profile_allowed(prof, options.profiles@) ==> r is Err && r->Err_0 is InvalidProfile
                && Some(r->Err_0->InvalidProfile_profile@) == prof && r->Err_0->InvalidProfile_var@
                == text_or_empty(options.profile_var) && r->Err_0->InvalidProfile_valid_profiles@
                == options.profiles@
            &&& profile_allowed(prof, options.profiles@) ==> match merge_layers(
                Tree::Object(defaults_map(schema@, prof)),
                options.files@,
                opt_view(options.prefix),
                options.separator@,
                mappings_of(schema@),
                reads@,
                now,
            ) {
                None => r is Err && r->Err_0 is File && first_layer_error(
                    r->Err_0->File_source,
                    options.files@,
                    reads@,
                ),
                Some((tree, origins)) => {
                    let names = missing_of(schema@, tree, Seq::empty());
                    &&& names.len() == 0 <==> r is Ok
                    &&& names.len() == 1 ==> r is Err && missing_errors(seq![r->Err_0], names)
                    &&& names.len() >= 2 ==> r is Err && r->Err_0 is Multiple && missing_errors(
                        r->Err_0->Multiple_errors@,
                        names,
                    )
                    &&& r is Ok ==> {
                        let res = r->Ok_0;
                        &&& res.value.wf()
                        &&& res.value@ == tree
                        &&& res.origins.wf()
                        &&& res.origins.origins() == origins
                        &&& opt_view(res.profile) == prof
                        &&& entries_match(
                            res.sources.view_entries(),
                            sources_of(schema@, Seq::empty(), Seq::empty(), before@, now, origins, res.profile),
                        )
                    }
                },
            }
        }),
{
    let now = effective_env(before, dotenv);
    let profile: Option<String> = match &options.profile_var {
        Some(v) => select_profile(&now, v.as_str()),
        None => None,
    };
    let pref: Option<&str> = match &profile {
        Some(p) => Some(p.as_str()),
        None => None,
    };
    let selector: &str = match &options.profile_var {
        Some(v) => v.as_str(),
        None => "",
    };
    match validate_profile(pref, selector, &options.profiles) {
        Err(e) => {
            return Err(e);
        },
        Ok(()) => {},
    }
    let defaults = defaults_for(schema, pref);
    let mut builder = ConfigBuilder::new().defaults_value(defaults);
    let mut i: usize = 0;
    proof {
        assert(options.files@.take(0) =~= Seq::<(String, bool)>::empty());
    }
    while i < options.files.len()
        invariant
            i <= options.files@.len(),
            builder.base_value().wf(),
            builder.base_value()@ == Tree::Object(defaults_map(schema@, opt_view(profile))),
            builder.file_list() == options.files@.take(i as int),
            builder.prefix() is None,
            builder.separator() == "_"@,
            builder.mapping_list() == Seq::<(Seq<char>, Seq<char>)>::empty(),
        decreases options.files@.len() - i,
    {
        builder = builder.add_file(options.files[i].0.clone(), options.files[i].1);
        proof {
            assert(builder.file_list() =~= options.files@.take(i + 1));
        }
        i += 1;
    }
    proof {
        assert(options.files@.take(options.files@.len() as int) =~= options.files@);
    }
    if let Some(p) = &options.prefix {
        builder = builder.env_prefix(p.as_str());
    }
    builder = builder.env_separator(options.separator.as_str());
    let maps = env_mappings(schema);
    let mut j: usize = 0;
    proof {
        assert(pair_views(maps@).take(0) =~= Seq::<(Seq<char>, Seq<char>)>::empty());
    }
    while j < maps.len()
        invariant
            j <= maps@.len(),
            builder.base_value().wf(),
            builder.base_value()@ == Tree::Object(defaults_map(schema@, opt_view(profile))),
            builder.file_list() == options.files@,
            builder.prefix() == opt_view(options.prefix),
            builder.separator() == options.separator@,
            builder.mapping_list() == pair_views(maps@).take(j as int),
        decreases maps@.len() - j,
    {
        builder = builder.env_mapping(maps[j].0.as_str(), maps[j].1.as_str());
        proof {
            assert(builder.mapping_list() =~= pair_views(maps@).take(j + 1));
        }
        j += 1;
    }
    proof {
        assert(pair_views(maps@).take(maps@.len() as int) =~= pair_views(maps@));
    }
    let (value, origins) = match builder.merge(reads, &now) {
        Ok(pair) => pair,
        Err(e) => {
            return Err(Error::File { source: e });
        },
    };
    match check_required(schema, &value) {
        Err(e) => {
            return Err(e);
        },
        Ok(()) => {},
    }
    let mut sources = ConfigSources::new();
    attribute(schema, "", "", before, &now, &origins, &profile, &mut sources);
    proof {
        reveal_strlit("");
        assert(""@ =~= Seq::<char>::empty());
        assert(sources.view_entries().skip(0) =~= sources.view_entries());
    }
    Ok(Resolution { value, origins, sources, profile })
}


/// Loading a `.env` file never changes a variable that was already set.
pub proof fn lemma_env_after_keeps(before: Seq<(String, String)>, dotenv: Seq<(String, String)>, k: Seq<char>)
    requires
        env_value(before, k) is Some,
    ensures
        env_value(env_after(before, dotenv), k) == env_value(before, k),
    decreases dotenv.len(),
{
    if dotenv.len() > 0 {
        lemma_env_after_keeps(before, dotenv.drop_last(), k);
        let acc = env_after(before, dotenv.drop_last());
        lemma_env_value_push(acc, dotenv.last(), k);
    }
}

proof fn lemma_env_value_push(env: Seq<(String, String)>, e: (String, String), k: Seq<char>)
    requires
        env_value(env, k) is Some,
    ensures
        env_value(env.push(e), k) == env_value(env, k),
    decreases env.len(),
{
    if env[0].0@ != k {
        assert(env.push(e).drop_first() =~= env.drop_first().push(e));
        lemma_env_value_push(env.drop_first(), e, k);
    }
}

/// Profile precedence, for the attribution of a field that declares an
/// override for the selected profile `p`: while its variable is unset and
/// no configuration file wrote it, the field is attributed to the profile;
/// once the variable is set in the process environment, to the environment.
pub proof fn lemma_profile_precedence(
    f: FieldSchema,
    path: Seq<char>,
    var: Seq<char>,
    before: Seq<(String, String)>,
    dotenv: Seq<(String, String)>,
    origins: Map<Seq<char>, Source>,
    p: String,
)
    requires
        env_value(f.profile_overrides@, p@) is Some,
    ensures
        env_value(env_after(before, dotenv), var) is None && !(origins.contains_key(path)
            && origins[path] is ConfigFile) ==> source_for(
            f,
            path,
            var,
            before,
            env_after(before, dotenv),
            origins,
            Some(p),
        ) == Source::Profile(p),
        env_value(before, var) is Some ==> source_for(
            f,
            path,
            var,
            before,
            env_after(before, dotenv),
            origins,
            Some(p),
        ) == Source::Environment,
{
    if env_value(before, var) is Some {
        lemma_env_after_keeps(before, dotenv, var);
    }
}

/// A set variable's direct mapping gives its field, named without dots,
/// the variable's coerced value, recorded as coming from the environment.
pub proof fn lemma_mapping_sets_value(
    b: Tree,
    m: Map<Seq<char>, Source>,
    maps: Seq<(Seq<char>, Seq<char>)>,
    env: Seq<(String, String)>,
)
    requires
        maps.len() > 0,
        !maps.last().0.contains('.'),
        env_value(env, maps.last().1) is Some,
        crate::builder::mapping_layers(b, m, maps.drop_last(), env).0 is Object,
    ensures
        lookup(crate::builder::mapping_layers(b, m, maps, env).0, seq![maps.last().0]) == Some(
            coerce_spec(env_value(env, maps.last().1)->0),
        ),
        crate::builder::mapping_layers(b, m, maps, env).1[maps.last().0] == Source::Environment,
{
    let name = maps.last().0;
    crate::text::lemma_dot_pieces_single(name);
    reveal_with_fuel(lookup, 2);
    assert(seq![name].drop_first() =~= Seq::<Seq<char>>::empty());
}


pub open spec fn no_file_records(m: Map<Seq<char>, Source>) -> bool {
    forall|p: Seq<char>| #[trigger] m.contains_key(p) ==> !(m[p] is ConfigFile)
}

proof fn lemma_mappings_keep_no_file(
    b: Tree,
    m: Map<Seq<char>, Source>,
    maps: Seq<(Seq<char>, Seq<char>)>,
    env: Seq<(String, String)>,
)
    requires
        no_file_records(m),
    ensures
        no_file_records(crate::builder::mapping_layers(b, m, maps, env).1),
    decreases maps.len(),
{
    if maps.len() > 0 {
        lemma_mappings_keep_no_file(b, m, maps.drop_last(), env);
    }
}

/// Profile precedence through resolution, for a configuration of one field
/// with a variable and an override for profile `p`, no files and no
/// prefixed layer: while the variable is unset, the field holds the
/// override and is attributed to the profile; once the variable is set in
/// the process environment, the field holds the variable's coerced value
/// and is attributed to the environment.
pub proof fn lemma_profile_precedence_resolved(
    f: FieldSchema,
    p: String,
    sep: Seq<char>,
    before: Seq<(String, String)>,
    dotenv: Seq<(String, String)>,
)
    requires
        f.nested is None,
        f.var is Some,
        !f.name@.contains('.'),
        env_value(f.profile_overrides@, p@) is Some,
    ensures
        ({
            let schema = seq![f];
            let now = env_after(before, dotenv);
            let var = f.var->0@;
            let merged = merge_layers(
                Tree::Object(defaults_map(schema, Some(p@))),
                Seq::empty(),
                None,
                sep,
                mappings_of(schema),
                Seq::empty(),
                now,
            )->0;
            let sources = sources_of(schema, Seq::empty(), Seq::empty(), before, now, merged.1, Some(p));
            &&& env_value(now, var) is None ==> {
                &&& lookup(merged.0, seq![f.name@]) == Some(
                    coerce_spec(env_value(f.profile_overrides@, p@)->0),
                )
                &&& sources == seq![(f.name@, var, Source::Profile(p))]
            }
            &&& env_value(before, var) is Some ==> {
                &&& lookup(merged.0, seq![f.name@]) == Some(coerce_spec(env_value(before, var)->0))
                &&& sources == seq![(f.name@, var, Source::Environment)]
            }
        }),
{
    let schema = seq![f];
    let now = env_after(before, dotenv);
    let var = f.var->0@;
    let base = Tree::Object(defaults_map(schema, Some(p@)));
    let start = crate::origin::prune(
        crate::origin::track_tree(Map::empty(), base, Seq::empty(), Source::Default),
        base,
    );
    assert(schema.drop_last() =~= Seq::<FieldSchema>::empty());
    assert(schema[schema.len() - 1] == f);
    assert(mappings_of(Seq::<FieldSchema>::empty()) == Seq::<(Seq<char>, Seq<char>)>::empty());
    assert(Seq::<(Seq<char>, Seq<char>)>::empty().push((f.name@, var)) =~= seq![(f.name@, var)]);
    assert(mappings_of(schema) =~= seq![(f.name@, var)]);
    assert(text_or_empty(f.var) == var);
    assert(no_file_records(start));
    lemma_mappings_keep_no_file(base, start, mappings_of(schema), now);
    let merged = merge_layers(base, Seq::empty(), None, sep, mappings_of(schema), Seq::empty(), now)->0;
    assert(Seq::<char>::empty() + var =~= var);
    assert(child_path(Seq::empty(), f.name@) == f.name@);
    lemma_profile_precedence(f, f.name@, var, before, dotenv, merged.1, p);
    reveal_with_fuel(lookup, 2);
    assert(seq![f.name@].drop_first() =~= Seq::<Seq<char>>::empty());
    if env_value(before, var) is Some {
        lemma_env_after_keeps(before, dotenv, var);
        assert(mappings_of(schema).drop_last() =~= Seq::<(Seq<char>, Seq<char>)>::empty());
        lemma_mapping_sets_value(base, start, mappings_of(schema), now);
    }
    assert(sources_of(Seq::<FieldSchema>::empty(), Seq::empty(), Seq::empty(), before, now, merged.1, Some(p))
        == Seq::<(Seq<char>, Seq<char>, Source)>::empty());
    assert(sources_of(schema, Seq::empty(), Seq::empty(), before, now, merged.1, Some(p)) =~= seq![
        (f.name@, var, source_for(f, f.name@, var, before, now, merged.1, Some(p))),
    ]);
}

} // verus!
