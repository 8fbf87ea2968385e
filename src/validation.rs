//! Field-level failures reported by a validation framework after loading.
use vstd::prelude::*;
use crate::error::{join, join_spec, string_views};

verus! {

/// One field that failed a validation rule.
#[derive(Debug)]
pub struct ValidationFieldError {
    /// The field that failed, as a dotted path for nested structs.
    pub field: String,
    /// The rule that failed (e.g. "email", "range", "url").
    pub code: String,
    /// Human-readable message.
    pub message: String,
    /// The rule's parameters, as `key: value` pairs joined by `, `.
    pub params: Option<String>,
}

impl ValidationFieldError {
    pub fn new(field: &str, code: &str, message: &str) -> (r: Self)
        ensures
            r.field@ == field@,
            r.code@ == code@,
            r.message@ == message@,
            r.params is None,
    {
        ValidationFieldError {
            field: field.to_string(),
            code: code.to_string(),
            message: message.to_string(),
            params: None,
        }
    }

    /// The same error with its parameters set (e.g. "min: 1, max: 100").
    pub fn with_params(self, params: &str) -> (r: Self)
        ensures
            r.field == self.field,
            r.code == self.code,
            r.message == self.message,
            r.params is Some && r.params->0@ == params@,
    {
        let mut s = self;
        s.params = Some(params.to_string());
        s
    }

    /// The human-readable message.
    pub fn render(&self) -> (r: String)
        ensures
            r@ == "field `"@ + self.field@ + "` failed validation: "@ + self.message@,
    {
        let mut out = "field `".to_string();
        out.append(self.field.as_str());
        out.append("` failed validation: ");
        out.append(self.message.as_str());
        out
    }
}


/// One failed rule, as a validation framework reports it. Parameter values
/// are given as their display text.
pub struct RuleFailure {
    pub code: String,
    pub message: Option<String>,
    pub params: Vec<(String, String)>,
}

/// The failures of one validated struct: per field, and per nested struct.
pub struct ValidationReport {
    pub fields: Vec<(String, Vec<RuleFailure>)>,
    pub nested: Vec<(String, ValidationReport)>,
}

/// A field error as (field, code, message, params).
pub open spec fn field_model(e: ValidationFieldError) -> (Seq<char>, Seq<char>, Seq<char>, Option<Seq<char>>) {
    (
        e.field@,
        e.code@,
        e.message@,
        match e.params {
            Some(p) => Some(p@),
            None => None,
        },
    )
}

/// The rule's own message, or one naming the rule.
pub open spec fn message_of(e: RuleFailure) -> Seq<char> {
    match e.message {
        Some(m) => m@,
        None => "validation failed: "@ + e.code@,
    }
}

/// The parameters as `key: value`, leaving out `value` (the checked value itself).
pub open spec fn kept_params(p: Seq<(String, String)>) -> Seq<Seq<char>>
    decreases p.len(),
{
    if p.len() == 0 {
        Seq::empty()
    } else {
        let rest = kept_params(p.drop_last());
        if p.last().0@ == "value"@ {
            rest
        } else {
            rest.push(p.last().0@ + ": "@ + p.last().1@)
        }
    }
}

pub open spec fn params_of(e: RuleFailure) -> Option<Seq<char>> {
    let k = kept_params(e.params@);
    if k.len() == 0 {
        None
    } else {
        Some(join_spec(k, ", "@))
    }
}

pub open spec fn rule_models(field: Seq<char>, rules: Seq<RuleFailure>) -> Seq<
    (Seq<char>, Seq<char>, Seq<char>, Option<Seq<char>>),
> {
    rules.map_values(|r: RuleFailure| (field, r.code@, message_of(r), params_of(r)))
}

pub open spec fn flat_models(fields: Seq<(String, Vec<RuleFailure>)>) -> Seq<
    (Seq<char>, Seq<char>, Seq<char>, Option<Seq<char>>),
>
    decreases fields.len(),
{
    if fields.len() == 0 {
        Seq::empty()
    } else {
        flat_models(fields.drop_last()) + rule_models(fields.last().0@, fields.last().1@)
    }
}

pub open spec fn under_field(
    ms: Seq<(Seq<char>, Seq<char>, Seq<char>, Option<Seq<char>>)>,
    prefix: Seq<char>,
) -> Seq<(Seq<char>, Seq<char>, Seq<char>, Option<Seq<char>>)> {
    ms.map_values(
        |m: (Seq<char>, Seq<char>, Seq<char>, Option<Seq<char>>)| (prefix + "."@ + m.0, m.1, m.2, m.3),
    )
}

/// Every field error of a report: its own fields first, then those of each
/// nested struct under `"{field}.{nested field}"`.
pub open spec fn report_models(r: ValidationReport) -> Seq<(Seq<char>, Seq<char>, Seq<char>, Option<Seq<char>>)>
    decreases r,
{
    flat_models(r.fields@) + nested_models(r.nested@)
}

pub open spec fn nested_models(n: Seq<(String, ValidationReport)>) -> Seq<
    (Seq<char>, Seq<char>, Seq<char>, Option<Seq<char>>),
>
    decreases n,
{
    if n.len() == 0 {
        Seq::empty()
    } else {
        nested_models(n.drop_last()) + under_field(report_models(n[n.len() - 1].1), n[n.len() - 1].0@)
    }
}

pub open spec fn models(v: Seq<ValidationFieldError>) -> Seq<(Seq<char>, Seq<char>, Seq<char>, Option<Seq<char>>)> {
    v.map_values(|e: ValidationFieldError| field_model(e))
}

impl ValidationFieldError {
    /// The message of a failed rule.
    fn extract_message(error: &RuleFailure) -> (r: String)
        ensures
            r@ == message_of(*error),
    {
        match &error.message {
            Some(m) => m.clone(),
            None => {
                let mut s = "validation failed: ".to_string();
                s.append(error.code.as_str());
                s
            },
        }
    }

    /// The parameters of a failed rule as `key: value` pairs joined by `, `,
    /// without the checked value; `None` when none are left.
    fn extract_params(error: &RuleFailure) -> (r: Option<String>)
        ensures
            match r {
                Some(s) => params_of(*error) == Some(s@),
                None => params_of(*error) is None,
            },
    {
        let mut kept: Vec<String> = Vec::new();
        let mut i: usize = 0;
        let value_key = "value".to_string();
        proof {
            assert(error.params@.take(0) =~= Seq::<(String, String)>::empty());
        }
        while i < error.params.len()
            invariant
                value_key@ == "value"@,
                i <= error.params@.len(),
                string_views(kept@) == kept_params(error.params@.take(i as int)),
            decreases error.params@.len() - i,
        {
            proof {
                assert(error.params@.take(i + 1).drop_last() =~= error.params@.take(i as int));
            }
            if error.params[i].0 != value_key {
                let mut s = error.params[i].0.clone();
                s.append(": ");
                s.append(error.params[i].1.as_str());
                let ghost before = kept@;
                kept.push(s);
                proof {
                    assert(string_views(kept@) =~= string_views(before).push(s@));
                }
            }
            i += 1;
        }
        proof {
            assert(error.params@.take(error.params@.len() as int) =~= error.params@);
        }
        if kept.len() == 0 {
            None
        } else {
            Some(join(&kept, ", "))
        }
    }

    /// The field error for one failed rule of `field`.
    fn from_validator_error(field: &str, error: &RuleFailure) -> (r: Self)
        ensures
            field_model(r) == (field@, error.code@, message_of(*error), params_of(*error)),
    {
        let message = Self::extract_message(error);
        let params = Self::extract_params(error);
        let err = Self::new(field, error.code.as_str(), message.as_str());
        match params {
            Some(p) => err.with_params(p.as_str()),
            None => err,
        }
    }

    /// Every field error of a report, nested structs' fields under dotted
    /// paths.
    pub fn validation_errors_to_procenv(errors: &ValidationReport) -> (r: Vec<ValidationFieldError>)
        ensures
            models(r@) == report_models(*errors),
        decreases errors,
    {
        let mut out: Vec<ValidationFieldError> = Vec::new();
        let mut i: usize = 0;
        proof {
            assert(errors.fields@.take(0) =~= Seq::<(String, Vec<RuleFailure>)>::empty());
            assert(models(out@) =~= Seq::empty());
        }
        while i < errors.fields.len()
            invariant
                i <= errors.fields@.len(),
                models(out@) == flat_models(errors.fields@.take(i as int)),
            decreases errors.fields@.len() - i,
        {
            proof {
                assert(errors.fields@.take(i + 1).drop_last() =~= errors.fields@.take(i as int));
            }
            let field = &errors.fields[i].0;
            let rules = &errors.fields[i].1;
            let ghost base = models(out@);
            let mut k: usize = 0;
            while k < rules.len()
                invariant
                    k <= rules@.len(),
                    models(out@) == base + rule_models(field@, rules@.take(k as int)),
                decreases rules@.len() - k,
            {
                let e = Self::from_validator_error(field.as_str(), &rules[k]);
                let ghost prev = out@;
                out.push(e);
                proof {
                    assert(models(out@) =~= models(prev).push(field_model(e)));
                    assert(rule_models(field@, rules@.take(k + 1)) =~= rule_models(field@, rules@.take(k as int)).push(
                        field_model(e),
                    ));
                }
                k += 1;
            }
            proof {
                assert(rules@.take(rules@.len() as int) =~= rules@);
            }
            i += 1;
        }
        proof {
            assert(errors.fields@.take(errors.fields@.len() as int) =~= errors.fields@);
            assert(errors.nested@.take(0) =~= Seq::<(String, ValidationReport)>::empty());
            assert(flat_models(errors.fields@) + nested_models(Seq::empty()) =~= flat_models(errors.fields@));
        }
        let mut j: usize = 0;
        while j < errors.nested.len()
            invariant
                j <= errors.nested@.len(),
                models(out@) == flat_models(errors.fields@) + nested_models(errors.nested@.take(j as int)),
            decreases errors.nested@.len() - j,
        {
            proof {
                assert(errors.nested@.take(j + 1).drop_last() =~= errors.nested@.take(j as int));
                assert(decreases_to!(*errors => errors.nested));
                assert(decreases_to!(errors.nested => errors.nested@));
                assert(decreases_to!(errors.nested@ => errors.nested@[j as int]));
            }
            let prefix = &errors.nested[j].0;
            let inner = Self::validation_errors_to_procenv(&errors.nested[j].1);
            let ghost base = models(out@);
            let mut k: usize = 0;
            let mut rest = inner;
            let ghost all = rest@;
            let total = rest.len();
            while rest.len() > 0
                invariant
                    all.len() == total,
                    k <= all.len(),
                    rest@ == all.skip(k as int),
                    models(out@) == base + under_field(models(all).take(k as int), prefix@),
                decreases rest@.len(),
            {
                let mut e = rest.remove(0);
                proof {
                    assert(all.skip(k as int)[0] == e);
                }
                let ghost old_e = e;
                let mut path = prefix.clone();
                path.append(".");
                path.append(e.field.as_str());
                e.field = path;
                let ghost prev = out@;
                out.push(e);
                proof {
                    reveal_strlit(".");
                    assert(rest@ =~= all.skip(k + 1));
                    assert(models(out@) =~= models(prev).push(field_model(e)));
                    assert(models(all).take(k + 1) =~= models(all).take(k as int).push(field_model(old_e)));
                    assert(under_field(models(all).take(k + 1), prefix@) =~= under_field(
                        models(all).take(k as int),
                        prefix@,
                    ).push(field_model(e)));
                }
                k += 1;
            }
            proof {
                assert(models(all).take(all.len() as int) =~= models(all));
                assert(errors.nested@.take(j + 1)[j as int] == errors.nested@[j as int]);
                assert(nested_models(errors.nested@.take(j + 1)) =~= nested_models(errors.nested@.take(j as int))
                    + under_field(report_models(errors.nested@[j as int].1), errors.nested@[j as int].0@));
            }
            j += 1;
        }
        proof {
            assert(errors.nested@.take(errors.nested@.len() as int) =~= errors.nested@);
        }
        out
    }
}

/// Every field error of a validation report; see
/// [`ValidationFieldError::validation_errors_to_procenv`].
pub fn validation_errors_to_procenv(errors: &ValidationReport) -> (r: Vec<ValidationFieldError>)
    ensures
        models(r@) == report_models(*errors),
{
    ValidationFieldError::validation_errors_to_procenv(errors)
}

} // verus!
