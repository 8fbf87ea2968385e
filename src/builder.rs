//! Layered configuration loading: defaults, then files in order, then
//! prefixed environment variables, then direct field-to-variable mappings.
use vstd::prelude::*;
use crate::coerce::{coerce_spec, coerce_value};
use crate::env::{env_map, env_to_value, insert_nested, insert_path, views};
use crate::error::FileError;
use crate::format::{FileRead, doc_of, format_of_path, layer_error, parse_file};
use crate::merge::{deep_merge, merge_tree};
use crate::origin::{OriginTracker, prune, track_tree};
use crate::sources::Source;
use crate::text::{dot_pieces, split_dots};
use crate::value::{ConfigValue, Tree, entries_view};

verus! {

/// The value of the first variable named `name` in an environment snapshot.
pub open spec fn env_value(env: Seq<(String, String)>, name: Seq<char>) -> Option<Seq<char>>
    decreases env.len(),
{
    if env.len() == 0 {
        None
    } else if env[0].0@ == name {
        Some(env[0].1@)
    } else {
        env_value(env.drop_first(), name)
    }
}

/// Looks a variable up in an environment snapshot.
pub fn env_get<'a>(env: &'a Vec<(String, String)>, name: &str) -> (r: Option<&'a String>)
    ensures
        r is Some <==> env_value(env@, name@) is Some,
        r is Some ==> r->0@ == env_value(env@, name@)->0,
{
    let key = name.to_string();
    let mut i: usize = 0;
    proof {
        assert(env@.skip(0) =~= env@);
    }
    while i < env.len()
        invariant
            key@ == name@,
            i <= env@.len(),
            env_value(env@, name@) == env_value(env@.skip(i as int), name@),
        decreases env@.len() - i,
    {
        proof {
            assert(env@.skip(i as int).drop_first() =~= env@.skip(i + 1));
        }
        if env[i].0 == key {
            return Some(&env[i].1);
        }
        i += 1;
    }
    None
}

/// The layer one file gives: `None` when building it fails, `Some(None)`
/// when an optional file is absent.
pub open spec fn layer_of(path: Seq<char>, required: bool, read: FileRead) -> Option<Option<Tree>> {
    match read {
        FileRead::Missing => if required {
            None
        } else {
            Some(None)
        },
        FileRead::Failed(_) => None,
        FileRead::Text(t) => match format_of_path(path) {
            None => None,
            Some(f) => match doc_of(t@, f) {
                Some(x) => Some(Some(x)),
                None => None,
            },
        },
    }
}

/// `e` is the error of the first file layer that cannot be built.
pub open spec fn first_layer_error(e: FileError, files: Seq<(String, bool)>, reads: Seq<FileRead>) -> bool {
    exists|i: int|
        0 <= i < files.len() && (forall|j: int|
            0 <= j < i ==> layer_of(files[j].0@, files[j].1, #[trigger] reads[j]) is Some) && layer_of(
            files[i].0@,
            files[i].1,
            reads[i],
        ) is None && layer_error(e, files[i].0@, files[i].1, reads[i])
}

/// The tree and records after the file layers, or `None` if one fails.
pub open spec fn file_layers(
    base: Tree,
    m: Map<Seq<char>, Source>,
    files: Seq<(String, bool)>,
    reads: Seq<FileRead>,
) -> Option<(Tree, Map<Seq<char>, Source>)>
    decreases files.len(),
{
    if files.len() == 0 {
        Some((base, m))
    } else {
        match file_layers(base, m, files.drop_last(), reads.drop_last()) {
            None => None,
            Some((b, o)) => {
                let (path, required) = files.last();
                match layer_of(path@, required, reads[files.len() - 1]) {
                    None => None,
                    Some(None) => Some((b, o)),
                    Some(Some(t)) => Some(
                        (
                            merge_tree(b, t),
                            prune(
                                track_tree(o, t, Seq::empty(), Source::ConfigFile(Some(path))),
                                merge_tree(b, t),
                            ),
                        ),
                    ),
                }
            },
        }
    }
}

/// The prefixed-environment layer; an empty one is skipped.
pub open spec fn env_layer(
    b: Tree,
    m: Map<Seq<char>, Source>,
    prefix: Option<Seq<char>>,
    sep: Seq<char>,
    env: Seq<(String, String)>,
) -> (Tree, Map<Seq<char>, Source>) {
    match prefix {
        Some(p) => {
            let em = env_map(p, sep, env);
            if em == Map::<Seq<char>, Tree>::empty() {
                (b, m)
            } else {
                (
                    merge_tree(b, Tree::Object(em)),
                    prune(
                        track_tree(m, Tree::Object(em), Seq::empty(), Source::Environment),
                        merge_tree(b, Tree::Object(em)),
                    ),
                )
            }
        },
        None => (b, m),
    }
}

/// The direct mappings, in order: a set variable's coerced value goes to its
/// field path.
pub open spec fn mapping_layers(
    b: Tree,
    m: Map<Seq<char>, Source>,
    maps: Seq<(Seq<char>, Seq<char>)>,
    env: Seq<(String, String)>,
) -> (Tree, Map<Seq<char>, Source>)
    decreases maps.len(),
{
    if maps.len() == 0 {
        (b, m)
    } else {
        let (b0, m0) = mapping_layers(b, m, maps.drop_last(), env);
        let (path, var) = maps.last();
        match env_value(env, var) {
            Some(v) => if b0 is Object {
                let nb = Tree::Object(insert_path(b0->Object_0, dot_pieces(path), coerce_spec(v)));
                (nb, prune(m0.insert(path, Source::Environment), nb))
            } else {
                (b0, m0)
            },
            None => (b0, m0),
        }
    }
}

/// The views of a list of string pairs.
pub open spec fn pair_views(s: Seq<(String, String)>) -> Seq<(Seq<char>, Seq<char>)> {
    s.map_values(|p: (String, String)| (p.0@, p.1@))
}

/// Every layer over the defaults `base`, in order; `None` when a file layer
/// fails.
pub open spec fn merge_layers(
    base: Tree,
    files: Seq<(String, bool)>,
    prefix: Option<Seq<char>>,
    sep: Seq<char>,
    maps: Seq<(Seq<char>, Seq<char>)>,
    reads: Seq<FileRead>,
    env: Seq<(String, String)>,
) -> Option<(Tree, Map<Seq<char>, Source>)> {
    let start = prune(track_tree(Map::empty(), base, Seq::empty(), Source::Default), base);
    match file_layers(base, start, files, reads) {
        None => None,
        Some((b1, m1)) => {
            let (b2, m2) = env_layer(b1, m1, prefix, sep, env);
            Some(mapping_layers(b2, m2, maps, env))
        },
    }
}

/// Builder for layered configuration loading. Later layers override
/// earlier ones; objects merge key by key.
pub struct ConfigBuilder {
    base: ConfigValue,
    files: Vec<(String, bool)>,
    env_prefix: Option<String>,
    env_separator: String,
    env_mappings: Vec<(String, String)>,
}

impl ConfigBuilder {
    pub closed spec fn base_value(&self) -> ConfigValue {
        self.base
    }

    pub closed spec fn file_list(&self) -> Seq<(String, bool)> {
        self.files@
    }

    pub closed spec fn prefix(&self) -> Option<Seq<char>> {
        match self.env_prefix {
            Some(p) => Some(p@),
            None => None,
        }
    }

    pub closed spec fn separator(&self) -> Seq<char> {
        self.env_separator@
    }

    pub closed spec fn mapping_list(&self) -> Seq<(Seq<char>, Seq<char>)> {
        pair_views(self.env_mappings@)
    }

    /// The merged tree and records, or `None` when a file layer fails.
    pub open spec fn merged(&self, reads: Seq<FileRead>, env: Seq<(String, String)>) -> Option<
        (Tree, Map<Seq<char>, Source>),
    > {
        merge_layers(
            self.base_value()@,
            self.file_list(),
            self.prefix(),
            self.separator(),
            self.mapping_list(),
            reads,
            env,
        )
    }

    /// A builder with empty defaults, no files, no prefix, separator `_`.
    pub fn new() -> (r: Self)
        ensures
            r.base_value()@ == Tree::Object(Map::empty()),
            r.base_value().wf(),
            r.file_list() == Seq::<(String, bool)>::empty(),
            r.prefix() is None,
            r.separator() == "_"@,
            r.mapping_list() == Seq::<(Seq<char>, Seq<char>)>::empty(),
    {
        let r = ConfigBuilder {
            base: ConfigValue::Object(Vec::new()),
            files: Vec::new(),
            env_prefix: None,
            env_separator: "_".to_string(),
            env_mappings: Vec::new(),
        };
        proof {
            assert(entries_view(Seq::<(String, ConfigValue)>::empty()) =~= Map::empty());
            assert(r.base_value()@ == Tree::Object(entries_view(Seq::<(String, ConfigValue)>::empty())));
        }
        r
    }

    /// Sets the defaults layer.
    pub fn defaults_value(self, value: ConfigValue) -> (r: Self)
        requires
            value.wf(),
        ensures
            r.base_value() == value,
            r.file_list() == self.file_list(),
            r.prefix() == self.prefix(),
            r.separator() == self.separator(),
            r.mapping_list() == self.mapping_list(),
    {
        let mut s = self;
        s.base = value;
        s
    }

    /// Adds a required file: if it does not exist, merging fails.
    pub fn file(self, path: &str) -> (r: Self)
        ensures
            r.base_value() == self.base_value(),
            r.file_list().len() == self.file_list().len() + 1,
            r.file_list().drop_last() == self.file_list(),
            r.file_list().last().0@ == path@ && r.file_list().last().1,
            r.prefix() == self.prefix(),
            r.separator() == self.separator(),
            r.mapping_list() == self.mapping_list(),
    {
        let mut s = self;
        s.files.push((path.to_string(), true));
        proof {
            assert(s.files@.drop_last() =~= self.files@);
        }
        s
    }

    /// Adds a file, required or optional.
    pub fn add_file(self, path: String, required: bool) -> (r: Self)
        ensures
            r.base_value() == self.base_value(),
            r.file_list() == self.file_list().push((path, required)),
            r.prefix() == self.prefix(),
            r.separator() == self.separator(),
            r.mapping_list() == self.mapping_list(),
    {
        let mut s = self;
        s.files.push((path, required));
        s
    }

    /// Adds an optional file: if it does not exist, it is skipped.
    pub fn file_optional(self, path: &str) -> (r: Self)
        ensures
            r.base_value() == self.base_value(),
            r.file_list().len() == self.file_list().len() + 1,
            r.file_list().drop_last() == self.file_list(),
            r.file_list().last().0@ == path@ && !r.file_list().last().1,
            r.prefix() == self.prefix(),
            r.separator() == self.separator(),
            r.mapping_list() == self.mapping_list(),
    {
        let mut s = self;
        s.files.push((path.to_string(), false));
        proof {
            assert(s.files@.drop_last() =~= self.files@);
        }
        s
    }

    /// Only variables whose names start with `prefix` form the environment layer.
    pub fn env_prefix(self, prefix: &str) -> (r: Self)
        ensures
            r.base_value() == self.base_value(),
            r.file_list() == self.file_list(),
            r.prefix() == Some(prefix@),
            r.separator() == self.separator(),
            r.mapping_list() == self.mapping_list(),
    {
        let mut s = self;
        s.env_prefix = Some(prefix.to_string());
        s
    }

    /// The separator between path segments in variable names.
    pub fn env_separator(self, separator: &str) -> (r: Self)
        ensures
            r.base_value() == self.base_value(),
            r.file_list() == self.file_list(),
            r.prefix() == self.prefix(),
            r.separator() == separator@,
            r.mapping_list() == self.mapping_list(),
    {
        let mut s = self;
        s.env_separator = separator.to_string();
        s
    }

    /// Maps one field path (e.g. `database.port`) to a variable name; these
    /// mappings are applied last, over every other layer.
    pub fn env_mapping(self, field_path: &str, env_var: &str) -> (r: Self)
        ensures
            r.base_value() == self.base_value(),
            r.file_list() == self.file_list(),
            r.prefix() == self.prefix(),
            r.separator() == self.separator(),
            r.mapping_list().len() == self.mapping_list().len() + 1,
            r.mapping_list().drop_last() == self.mapping_list(),
            r.mapping_list().last().0 == field_path@,
            r.mapping_list().last().1 == env_var@,
    {
        let mut s = self;
        s.env_mappings.push((field_path.to_string(), env_var.to_string()));
        proof {
            assert(s.env_mappings@.drop_last() =~= self.env_mappings@);
            assert(pair_views(s.env_mappings@).drop_last() =~= pair_views(self.env_mappings@));
        }
        s
    }

    /// The files added, with whether each is required, in order.
    pub fn files(&self) -> (r: &Vec<(String, bool)>)
        ensures
            r@ == self.file_list(),
    {
        &self.files
    }

    /// Merges every layer and returns the raw value tree with its origins;
    /// the same as [`ConfigBuilder::merge`].
    pub fn into_value(self, reads: &Vec<FileRead>, env: &Vec<(String, String)>) -> (r: Result<
        (ConfigValue, OriginTracker),
        FileError,
    >)
        requires
            self.base_value().wf(),
            reads@.len() == self.file_list().len(),
        ensures
            r is Ok <==> self.merged(reads@, env@) is Some,
            match r {
                Ok((v, o)) => v.wf() && o.wf() && self.merged(reads@, env@)->0 == (v@, o.origins()),
                Err(e) => first_layer_error(e, self.file_list(), reads@),
            },
    {
        self.merge(reads, env)
    }

    /// Merges every layer, given what reading each file gave (in the order
    /// the files were added) and a snapshot of the environment. A file layer
    /// that cannot be built stops the merge with its error.
    pub fn merge(self, reads: &Vec<FileRead>, env: &Vec<(String, String)>) -> (r: Result<
        (ConfigValue, OriginTracker),
        FileError,
    >)
        requires
            self.base_value().wf(),
            reads@.len() == self.file_list().len(),
        ensures
            r is Ok <==> self.merged(reads@, env@) is Some,
            match r {
                Ok((v, o)) => v.wf() && o.wf() && self.merged(reads@, env@)->0 == (v@, o.origins()),
                Err(e) => first_layer_error(e, self.file_list(), reads@),
            },
    {
        let ConfigBuilder { base, files, env_prefix, env_separator, env_mappings } = self;
        let mut base = base;
        let mut origins = OriginTracker::new();
        origins.track_value(&base, "", &Source::Default);
        origins.retain_leaves(&base);
        proof {
            reveal_strlit("");
            assert(""@ =~= Seq::<char>::empty());
        }
        let ghost start_b = base@;
        let ghost start_m = origins.origins();
        let mut i: usize = 0;
        while i < files.len()
            invariant
                i <= files@.len(),
                files@ == self.file_list(),
                start_b == self.base_value()@,
                start_m == prune(
                    track_tree(Map::empty(), self.base_value()@, Seq::empty(), Source::Default),
                    self.base_value()@,
                ),
                reads@.len() == files@.len(),
                base.wf(),
                origins.wf(),
                forall|j: int|
                    0 <= j < i ==> layer_of(files@[j].0@, files@[j].1, #[trigger] reads@[j]) is Some,
                file_layers(start_b, start_m, files@.take(i as int), reads@.take(i as int)) == Some(
                    (base@, origins.origins()),
                ),
            decreases files@.len() - i,
        {
            proof {
                reveal_strlit("");
                assert(""@ =~= Seq::<char>::empty());
                assert(files@.take(i + 1).drop_last() =~= files@.take(i as int));
                assert(reads@.take(i + 1).drop_last() =~= reads@.take(i as int));
                assert(files@.take(i + 1).last() == files@[i as int]);
                assert(reads@.take(i + 1)[i as int] == reads@[i as int]);
            }
            let path = &files[i].0;
            let required = files[i].1;
            match parse_file(path.as_str(), required, &reads[i]) {
                Err(e) => {
                    proof {
                        assert(layer_of(files@[i as int].0@, files@[i as int].1, reads@[i as int]) is None);
                        assert(file_layers(start_b, start_m, files@.take(i + 1), reads@.take(i + 1)) is None);
                        lemma_file_layers_fail(start_b, start_m, files@, reads@, i as int);
                        assert(file_layers(start_b, start_m, files@, reads@) is None);
                    }
                    return Err(e);
                },
                Ok(None) => {},
                Ok(Some(v)) => {
                    let src = Source::ConfigFile(Some(path.clone()));
                    if let FileRead::Text(content) = &reads[i] {
                        if let Some(format) = crate::format::FileFormat::from_path(path.as_str()) {
                            origins.add_source(path.clone(), content.clone(), format);
                        }
                    }
                    origins.track_value(&v, "", &src);
                    deep_merge(&mut base, v);
                    origins.retain_leaves(&base);
                },
            }
            i += 1;
        }
        proof {
            assert(files@.take(files@.len() as int) =~= files@);
            assert(reads@.take(reads@.len() as int) =~= reads@);
        }
        proof {
            reveal_strlit("");
            assert(""@ =~= Seq::<char>::empty());
        }
        if let Some(prefix) = &env_prefix {
            let ev = env_to_value(prefix.as_str(), env_separator.as_str(), env);
            let nonempty = match &ev {
                ConfigValue::Object(entries) => {
                    proof {
                        if entries@.len() > 0 {
                            assert(entries_view(entries@).contains_key(entries@.last().0@));
                        } else {
                            assert(entries_view(entries@) =~= Map::empty());
                        }
                    }
                    entries.len() > 0
                },
                _ => false,
            };
            if nonempty {
                origins.track_value(&ev, "", &Source::Environment);
                deep_merge(&mut base, ev);
                origins.retain_leaves(&base);
            }
        }
        let ghost mid_b = base@;
        let ghost mid_m = origins.origins();
        let mut j: usize = 0;
        while j < env_mappings.len()
            invariant
                j <= env_mappings@.len(),
                base.wf(),
                origins.wf(),
                mapping_layers(mid_b, mid_m, pair_views(env_mappings@.take(j as int)), env@) == (
                    base@,
                    origins.origins(),
                ),
            decreases env_mappings@.len() - j,
        {
            proof {
                assert(env_mappings@.take(j + 1).drop_last() =~= env_mappings@.take(j as int));
                assert(pair_views(env_mappings@.take(j + 1)).drop_last() =~= pair_views(env_mappings@.take(j as int)));
            }
            let field_path = &env_mappings[j].0;
            let var = &env_mappings[j].1;
            if let Some(raw) = env_get(env, var.as_str()) {
                let typed = coerce_value(raw.as_str());
                let parts = split_dots(field_path.as_str());
                proof {
                    assert(views(parts@) == dot_pieces(field_path@));
                }
                let mut taken = ConfigValue::Null;
                core::mem::swap(&mut base, &mut taken);
                match taken {
                    ConfigValue::Object(mut m) => {
                        insert_nested(&mut m, parts.as_slice(), typed);
                        base = ConfigValue::Object(m);
                        origins.record(field_path.clone(), Source::Environment);
                        origins.retain_leaves(&base);
                    },
                    other => {
                        base = other;
                    },
                }
            }
            j += 1;
        }
        proof {
            assert(env_mappings@.take(env_mappings@.len() as int) =~= env_mappings@);
        }
        Ok((base, origins))
    }
}


/// The defaults could not be turned into a value tree.
#[derive(Debug, Clone)]
pub struct DefaultsSerializationError {
    /// The name of the type whose value failed to serialize.
    pub target_type: String,
    /// The serializer's message.
    pub inner: String,
}

impl DefaultsSerializationError {
    /// The human-readable message.
    pub fn render(&self) -> (r: String)
        ensures
            r@ == "failed to serialize defaults of type '"@ + self.target_type@ + "': "@ + self.inner@,
    {
        let mut out = "failed to serialize defaults of type '".to_string();
        out.append(self.target_type.as_str());
        out.append("': ");
        out.append(self.inner.as_str());
        out
    }
}


/// Every recorded path leads to a value other than an object in `t`.
pub open spec fn describes(m: Map<Seq<char>, Source>, t: Tree) -> bool {
    forall|p: Seq<char>| #[trigger] m.contains_key(p) ==> crate::origin::is_leaf(t, dot_pieces(p))
}

proof fn lemma_file_layers_describe(
    base: Tree,
    m: Map<Seq<char>, Source>,
    files: Seq<(String, bool)>,
    reads: Seq<FileRead>,
)
    requires
        describes(m, base),
        file_layers(base, m, files, reads) is Some,
    ensures
        ({
            let r = file_layers(base, m, files, reads)->0;
            describes(r.1, r.0)
        }),
    decreases files.len(),
{
    if files.len() > 0 {
        lemma_file_layers_describe(base, m, files.drop_last(), reads.drop_last());
    }
}

proof fn lemma_mapping_layers_describe(
    b: Tree,
    m: Map<Seq<char>, Source>,
    maps: Seq<(Seq<char>, Seq<char>)>,
    env: Seq<(String, String)>,
)
    requires
        describes(m, b),
    ensures
        ({
            let r = mapping_layers(b, m, maps, env);
            describes(r.1, r.0)
        }),
    decreases maps.len(),
{
    if maps.len() > 0 {
        lemma_mapping_layers_describe(b, m, maps.drop_last(), env);
    }
}

/// The records that merging leaves describe the merged tree: each recorded
/// dotted path leads to a value other than an object in it, and none is
/// left over from a layer that a later one replaced.
pub proof fn lemma_origins_describe_tree(
    base: Tree,
    files: Seq<(String, bool)>,
    prefix: Option<Seq<char>>,
    sep: Seq<char>,
    maps: Seq<(Seq<char>, Seq<char>)>,
    reads: Seq<FileRead>,
    env: Seq<(String, String)>,
)
    requires
        merge_layers(base, files, prefix, sep, maps, reads, env) is Some,
    ensures
        ({
            let r = merge_layers(base, files, prefix, sep, maps, reads, env)->0;
            describes(r.1, r.0)
        }),
{
    let start = prune(track_tree(Map::empty(), base, Seq::empty(), Source::Default), base);
    lemma_file_layers_describe(base, start, files, reads);
    let r1 = file_layers(base, start, files, reads)->0;
    let r2 = env_layer(r1.0, r1.1, prefix, sep, env);
    lemma_mapping_layers_describe(r2.0, r2.1, maps, env);
}


proof fn lemma_file_layers_skip_missing(
    base: Tree,
    m: Map<Seq<char>, Source>,
    files: Seq<(String, bool)>,
    reads: Seq<FileRead>,
    k: int,
    p: String,
)
    requires
        0 <= k <= files.len(),
        reads.len() == files.len(),
    ensures
        file_layers(base, m, files.insert(k, (p, false)), reads.insert(k, FileRead::Missing))
            == file_layers(base, m, files, reads),
    decreases files.len(),
{
    let f2 = files.insert(k, (p, false));
    let r2 = reads.insert(k, FileRead::Missing);
    if k == files.len() {
        assert(f2.drop_last() =~= files);
        assert(r2.drop_last() =~= reads);
        assert(r2[f2.len() - 1] == FileRead::Missing);
    } else {
        assert(f2.drop_last() =~= files.drop_last().insert(k, (p, false)));
        assert(r2.drop_last() =~= reads.drop_last().insert(k, FileRead::Missing));
        lemma_file_layers_skip_missing(base, m, files.drop_last(), reads.drop_last(), k, p);
        assert(f2.last() == files.last());
        assert(r2[f2.len() - 1] == reads[files.len() - 1]);
    }
}

/// A missing optional file is a layer that changes nothing: adding one
/// anywhere in the file list leaves the merged tree and its origins as they
/// were, and adds no error.
pub proof fn lemma_optional_missing_file_is_no_op(
    base: Tree,
    files: Seq<(String, bool)>,
    prefix: Option<Seq<char>>,
    sep: Seq<char>,
    maps: Seq<(Seq<char>, Seq<char>)>,
    reads: Seq<FileRead>,
    env: Seq<(String, String)>,
    k: int,
    p: String,
)
    requires
        0 <= k <= files.len(),
        reads.len() == files.len(),
    ensures
        merge_layers(
            base,
            files.insert(k, (p, false)),
            prefix,
            sep,
            maps,
            reads.insert(k, FileRead::Missing),
            env,
        ) == merge_layers(base, files, prefix, sep, maps, reads, env),
{
    let start = prune(track_tree(Map::empty(), base, Seq::empty(), Source::Default), base);
    lemma_file_layers_skip_missing(base, start, files, reads, k, p);
}

proof fn lemma_file_layers_fail(
    b: Tree,
    m: Map<Seq<char>, Source>,
    files: Seq<(String, bool)>,
    reads: Seq<FileRead>,
    i: int,
)
    requires
        0 <= i < files.len(),
        reads.len() == files.len(),
        file_layers(b, m, files.take(i + 1), reads.take(i + 1)) is None,
    ensures
        file_layers(b, m, files, reads) is None,
    decreases files.len() - i,
{
    if i + 1 < files.len() {
        assert(files.take(i + 2).drop_last() =~= files.take(i + 1));
        assert(reads.take(i + 2).drop_last() =~= reads.take(i + 1));
        assert(file_layers(b, m, files.take(i + 2), reads.take(i + 2)) is None);
        lemma_file_layers_fail(b, m, files, reads, i + 1);
    } else {
        assert(files.take(i + 1) =~= files);
        assert(reads.take(i + 1) =~= reads);
    }
}

} // verus!
