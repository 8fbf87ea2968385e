//! Source attribution: where each configuration value came from.
use vstd::prelude::*;

verus! {

/// Where a configuration value originated.
#[derive(Clone, Debug, PartialEq, Eq)]
pub enum Source {
    /// A command-line argument.
    Cli,
    /// A variable set in the process environment before any `.env` loading.
    Environment,
    /// A variable loaded from a `.env` file, with the file's path if known.
    DotenvFile(Option<String>),
    /// A configuration file, with its path if known.
    ConfigFile(Option<String>),
    /// A profile-specific default of the named profile.
    Profile(String),
    /// The field's declared default.
    Default,
    /// No source gave a value (an optional field left empty).
    NotSet,
    /// A custom provider, by name.
    CustomProvider(String),
}

pub open spec fn with_detail(label: Seq<char>, detail: Option<String>) -> Seq<char> {
    match detail {
        Some(d) => label + " ("@ + d@ + ")"@,
        None => label,
    }
}

/// The human-readable name of a source.
pub open spec fn source_text(s: Source) -> Seq<char> {
    match s {
        Source::Cli => "CLI argument"@,
        Source::Environment => "Environment variable"@,
        Source::DotenvFile(p) => with_detail(".env file"@, p),
        Source::ConfigFile(p) => with_detail("Config file"@, p),
        Source::Profile(name) => "Profile ("@ + name@ + ")"@,
        Source::Default => "Default value"@,
        Source::NotSet => "Not set"@,
        Source::CustomProvider(name) => "Custom provider ("@ + name@ + ")"@,
    }
}

fn append_detail(out: &mut String, detail: &Option<String>)
    ensures
        final(out)@ == with_detail(old(out)@, *detail),
{
    if let Some(d) = detail {
        out.append(" (");
        out.append(d.as_str());
        out.append(")");
    }
}

fn copy_detail(d: &Option<String>) -> (r: Option<String>)
    ensures
        r == *d,
{
    match d {
        Some(p) => Some(p.clone()),
        None => None,
    }
}

impl Source {
    /// An equal copy of the source.
    pub fn duplicate(&self) -> (r: Source)
        ensures
            r == *self,
    {
        match self {
            Source::Cli => Source::Cli,
            Source::Environment => Source::Environment,
            Source::DotenvFile(p) => Source::DotenvFile(copy_detail(p)),
            Source::ConfigFile(p) => Source::ConfigFile(copy_detail(p)),
            Source::Profile(n) => Source::Profile(n.clone()),
            Source::Default => Source::Default,
            Source::NotSet => Source::NotSet,
            Source::CustomProvider(n) => Source::CustomProvider(n.clone()),
        }
    }

    /// The human-readable name of the source.
    pub fn render(&self) -> (r: String)
        ensures
            r@ == source_text(*self),
    {
        let mut out;
        match self {
            Source::Cli => {
                out = "CLI argument".to_string();
            },
            Source::Environment => {
                out = "Environment variable".to_string();
            },
            Source::DotenvFile(p) => {
                out = ".env file".to_string();
                append_detail(&mut out, p);
            },
            Source::ConfigFile(p) => {
                out = "Config file".to_string();
                append_detail(&mut out, p);
            },
            Source::Profile(name) => {
                out = "Profile (".to_string();
                out.append(name.as_str());
                out.append(")");
            },
            Source::Default => {
                out = "Default value".to_string();
            },
            Source::NotSet => {
                out = "Not set".to_string();
            },
            Source::CustomProvider(name) => {
                out = "Custom provider (".to_string();
                out.append(name.as_str());
                out.append(")");
            },
        }
        out
    }
}

/// The variable a value was read under, and where it came from.
#[derive(Clone, Debug)]
pub struct ValueSource {
    /// The environment variable name (e.g. `"DATABASE_URL"`).
    pub var_name: String,
    /// Where the value originated.
    pub source: Source,
}

impl ValueSource {
    pub fn new(var_name: &str, source: Source) -> (r: Self)
        ensures
            r.var_name@ == var_name@,
            r.source == source,
    {
        ValueSource { var_name: var_name.to_string(), source }
    }

    /// `"{var_name}: {source}"`.
    pub fn render(&self) -> (r: String)
        ensures
            r@ == self.var_name@ + ": "@ + source_text(self.source),
    {
        let mut out = String::new();
        out.append(self.var_name.as_str());
        out.append(": ");
        let s = self.source.render();
        out.append(s.as_str());
        out
    }
}

/// Source attributions for the fields of a configuration, in the order added.
#[derive(Clone, Debug)]
pub struct ConfigSources {
    entries: Vec<(String, ValueSource)>,
}

/// The index of the first entry named `name`, if any.
pub open spec fn first_named(e: Seq<(String, ValueSource)>, name: Seq<char>) -> Option<int>
    decreases e.len(),
{
    if e.len() == 0 {
        None
    } else if e[0].0@ == name {
        Some(0)
    } else {
        match first_named(e.drop_first(), name) {
            Some(i) => Some(i + 1),
            None => None,
        }
    }
}

impl ConfigSources {
    pub closed spec fn view_entries(&self) -> Seq<(String, ValueSource)> {
        self.entries@
    }

    pub fn new() -> (r: Self)
        ensures
            r.view_entries() == Seq::<(String, ValueSource)>::empty(),
    {
        ConfigSources { entries: Vec::new() }
    }

    /// Records the source of one field.
    pub fn add(&mut self, field_name: &str, source: ValueSource)
        ensures
            final(self).view_entries().len() == old(self).view_entries().len() + 1,
            final(self).view_entries().drop_last() == old(self).view_entries(),
            final(self).view_entries().last().0@ == field_name@,
            final(self).view_entries().last().1 == source,
    {
        self.entries.push((field_name.to_string(), source));
        proof {
            assert(self.entries@.drop_last() =~= old(self).entries@);
        }
    }

    /// Appends the entries of a nested configuration, each under the dotted
    /// path `"{prefix}.{field}"`.
    pub fn extend_nested(&mut self, prefix: &str, nested: ConfigSources)
        ensures
            final(self).view_entries().len() == old(self).view_entries().len()
                + nested.view_entries().len(),
            final(self).view_entries().take(old(self).view_entries().len() as int)
                == old(self).view_entries(),
            forall|i: int|
                0 <= i < nested.view_entries().len() ==> {
                    let e = #[trigger] final(self).view_entries()[old(self).view_entries().len() + i];
                    &&& e.0@ == prefix@ + "."@ + nested.view_entries()[i].0@
                    &&& e.1 == nested.view_entries()[i].1
                },
    {
        let ghost start = self.entries@;
        let mut rest = nested.entries;
        let ghost all = rest@;
        let total = rest.len();
        let mut taken: usize = 0;
        while rest.len() > 0
            invariant
                all.len() == total,
                taken + rest@.len() == all.len(),
                rest@ == all.skip(taken as int),
                self.entries@.len() == start.len() + taken,
                self.entries@.take(start.len() as int) == start,
                forall|i: int|
                    0 <= i < taken ==> {
                        let e = #[trigger] self.entries@[start.len() + i];
                        &&& e.0@ == prefix@ + "."@ + all[i].0@
                        &&& e.1 == all[i].1
                    },
            decreases rest@.len(),
        {
            let (name, source) = rest.remove(0);
            let mut path = prefix.to_string();
            path.append(".");
            path.append(name.as_str());
            let ghost before = self.entries@;
            self.entries.push((path, source));
            proof {
                assert(all.skip(taken as int)[0] == (name, source));
                assert(rest@ =~= all.skip(taken + 1));
                assert(self.entries@.take(start.len() as int) =~= before.take(start.len() as int));
                assert forall|i: int| 0 <= i < taken + 1 implies {
                    let e = #[trigger] self.entries@[start.len() + i];
                    &&& e.0@ == prefix@ + "."@ + all[i].0@
                    &&& e.1 == all[i].1
                } by {
                    if i < taken {
                        assert(self.entries@[start.len() + i] == before[start.len() + i]);
                    }
                }
            }
            taken += 1;
        }
    }

    /// All entries, as `(field_name, source)` pairs in the order added.
    pub fn entries(&self) -> (r: &[(String, ValueSource)])
        ensures
            r@ == self.view_entries(),
    {
        self.entries.as_slice()
    }

    /// The source of the first entry named `field_name`.
    pub fn get(&self, field_name: &str) -> (r: Option<&ValueSource>)
        ensures
            r is None <==> first_named(self.view_entries(), field_name@) is None,
            r is Some ==> *r->0 == self.view_entries()[first_named(
                self.view_entries(),
                field_name@,
            )->0].1,
    {
        let key = field_name.to_string();
        let mut i: usize = 0;
        proof {
            assert(self.entries@.skip(0) =~= self.entries@);
        }
        while i < self.entries.len()
            invariant
                key@ == field_name@,
                i <= self.entries@.len(),
                first_named(self.entries@, field_name@) == match first_named(
                    self.entries@.skip(i as int),
                    field_name@,
                ) {
                    Some(j) => Some(j + i),
                    None => None,
                },
            decreases self.entries@.len() - i,
        {
            proof {
                assert(self.entries@.skip(i as int).drop_first() =~= self.entries@.skip(i + 1));
            }
            if self.entries[i].0 == key {
                proof {
                    assert(self.entries@.skip(i as int)[0] == self.entries@[i as int]);
                }
                return Some(&self.entries[i].1);
            }
            i += 1;
        }
        proof {
            assert(self.entries@.skip(i as int).len() == 0);
        }
        None
    }

    /// The entries in order, by reference.
    pub fn iter(&self) -> (r: std::slice::Iter<'_, (String, ValueSource)>)
        ensures
            vstd::std_specs::slice::into_iter_elts(r) == self.view_entries(),
    {
        self.entries.iter()
    }

    /// A table of every field, its source and its variable, with the field
    /// names padded to the longest.
    pub fn render(&self) -> (r: String)
        ensures
            r@ == sources_table(self.view_entries()),
    {
        let mut width: usize = 0;
        let mut i: usize = 0;
        while i < self.entries.len()
            invariant
                i <= self.entries@.len(),
                width as nat == max_width(self.entries@.take(i as int)),
            decreases self.entries@.len() - i,
        {
            proof {
                assert(self.entries@.take(i + 1).drop_last() =~= self.entries@.take(i as int));
            }
            let n = self.entries[i].0.as_str().unicode_len();
            if n > width {
                width = n;
            }
            i += 1;
        }
        proof {
            assert(self.entries@.take(self.entries@.len() as int) =~= self.entries@);
        }
        let mut out = "Configuration Source:\n".to_string();
        let ghost head = out@;
        let mut k: usize = 0;
        proof {
            reveal_strlit("-");
            reveal_strlit(" ");
        }
        while k < 50
            invariant
                k <= 50,
                out@ == head + Seq::new(k as nat, |_x: int| '-'),
            decreases 50 - k,
        {
            out.append("-");
            proof {
                reveal_strlit("-");
                assert(out@ =~= head + Seq::new((k + 1) as nat, |_x: int| '-'));
            }
            k += 1;
        }
        out.append("\n");
        let ghost top = out@;
        proof {
            assert(top =~= "Configuration Source:\n"@ + Seq::new(50, |_x: int| '-') + "\n"@);
        }
        i = 0;
        while i < self.entries.len()
            invariant
                i <= self.entries@.len(),
                width as nat == max_width(self.entries@),
                out@ == top + rows_text(self.entries@.take(i as int), width as nat),
            decreases self.entries@.len() - i,
        {
            proof {
                assert(self.entries@.take(i + 1).drop_last() =~= self.entries@.take(i as int));
            }
            let name = &self.entries[i].0;
            let source = &self.entries[i].1;
            let ghost row_start = out@;
            out.append("  ");
            out.append(name.as_str());
            let ghost after_name = out@;
            let mut pad = name.as_str().unicode_len();
            if pad < width {
                while pad < width
                    invariant
                        pad <= width,
                        name@.len() <= pad,
                        out@ == after_name + Seq::new((pad - name@.len()) as nat, |_x: int| ' '),
                    decreases width - pad,
                {
                    out.append(" ");
                    proof {
                        reveal_strlit(" ");
                        assert(out@ =~= after_name + Seq::new((pad + 1 - name@.len()) as nat, |_x: int| ' '));
                    }
                    pad += 1;
                }
            } else {
                proof {
                    assert(out@ =~= after_name + Seq::new(0, |_x: int| ' '));
                }
            }
            out.append("  <- ");
            let s = source.source.render();
            out.append(s.as_str());
            out.append(" [");
            out.append(source.var_name.as_str());
            out.append("]\n");
            proof {
                assert(out@ =~= row_start + row_text(self.entries@[i as int], width as nat));
            }
            i += 1;
        }
        proof {
            assert(self.entries@.take(self.entries@.len() as int) =~= self.entries@);
        }
        out
    }
}

/// The longest field name, in characters.
pub open spec fn max_width(e: Seq<(String, ValueSource)>) -> nat
    decreases e.len(),
{
    if e.len() == 0 {
        0
    } else {
        let w = max_width(e.drop_last());
        if e.last().0@.len() > w {
            e.last().0@.len()
        } else {
            w
        }
    }
}

/// One row of the table: the name padded with spaces to `width`.
pub open spec fn row_text(e: (String, ValueSource), width: nat) -> Seq<char> {
    let pad = if e.0@.len() < width {
        (width - e.0@.len()) as nat
    } else {
        0
    };
    "  "@ + e.0@ + Seq::new(pad, |_x: int| ' ') + "  <- "@ + source_text(e.1.source) + " ["@
        + e.1.var_name@ + "]\n"@
}

pub open spec fn rows_text(e: Seq<(String, ValueSource)>, width: nat) -> Seq<char>
    decreases e.len(),
{
    if e.len() == 0 {
        Seq::empty()
    } else {
        rows_text(e.drop_last(), width) + row_text(e.last(), width)
    }
}

pub open spec fn sources_table(e: Seq<(String, ValueSource)>) -> Seq<char> {
    "Configuration Source:\n"@ + Seq::new(50, |_x: int| '-') + "\n"@ + rows_text(e, max_width(e))
}

} // verus!
