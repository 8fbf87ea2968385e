//! The error taxonomy, its accumulation, and secret-safe rendering.
use vstd::prelude::*;
use crate::diagnostic_codes;
use crate::validation::ValidationFieldError;

verus! {

/// A byte range of a source text, used to point at a parse failure.
#[derive(Debug, Clone, Copy, PartialEq, Eq)]
pub struct Span {
    pub offset: usize,
    pub len: usize,
}

/// Failures in building a file layer.
#[derive(Debug)]
pub enum FileError {
    /// A required configuration file is absent.
    NotFound { path: String },
    /// The file exists but could not be read.
    ReadError { path: String, message: String },
    /// The file's extension names no supported format.
    UnknownFormat { extension: String },
    /// The content does not parse; `span` points into `src`.
    Parse {
        format: &'static str,
        path: String,
        src: String,
        span: Span,
        message: String,
        help: String,
    },
    /// The content does not parse, and no location is known.
    ParseNoSpan { format: &'static str, message: String, help: String },
}

/// Every failure that resolving a configuration can report.
pub enum Error {
    /// A required variable was not set.
    Missing { var: String, help: String },
    /// A variable holds bytes that are not UTF-8.
    InvalidUtf8 { var: String },
    /// A value could not be read as the expected type. When `secret` is set,
    /// `value` never appears in rendered text.
    Parse {
        var: String,
        value: String,
        secret: bool,
        expected_type: String,
        help: String,
        source: String,
    },
    /// Two or more independent failures, in the order they were found.
    Multiple { errors: Vec<Error> },
    /// A file layer could not be built.
    File { source: FileError },
    /// The selected profile is not among the allowed ones.
    InvalidProfile { profile: String, var: String, valid_profiles: Vec<String>, help: String },
    /// A configuration provider failed.
    Provider { provider: String, message: String, help: String },
    /// Validation of the loaded configuration failed.
    Validation { errors: Vec<ValidationFieldError> },
}

/// The decimal digit for `d < 10`.
pub open spec fn digit_char(d: nat) -> char {
    seq!['0', '1', '2', '3', '4', '5', '6', '7', '8', '9'][d as int]
}

/// Decimal text of a natural number, without leading zeros.
pub open spec fn decimal_text(n: nat) -> Seq<char>
    decreases n,
{
    if n < 10 {
        seq![digit_char(n)]
    } else {
        decimal_text(n / 10).push(digit_char(n % 10))
    }
}

/// The text that `{:?}` gives for a string: quoted, with escapes.
pub uninterp spec fn debug_quoted_of(s: Seq<char>) -> Seq<char>;

fn digit_text(d: usize) -> (r: &'static str)
    requires
        d < 10,
    ensures
        r@ == seq![digit_char(d as nat)],
{
    proof {
        reveal_strlit("0");
        reveal_strlit("1");
        reveal_strlit("2");
        reveal_strlit("3");
        reveal_strlit("4");
        reveal_strlit("5");
        reveal_strlit("6");
        reveal_strlit("7");
        reveal_strlit("8");
        reveal_strlit("9");
    }
    let r = match d {
        0 => "0",
        1 => "1",
        2 => "2",
        3 => "3",
        4 => "4",
        5 => "5",
        6 => "6",
        7 => "7",
        8 => "8",
        _ => "9",
    };
    proof {
        assert(r@ =~= seq![digit_char(d as nat)]);
    }
    r
}

/// Decimal digits of `n`, without sign or leading zeros.
pub(crate) fn usize_text(n: usize) -> (r: String)
    ensures
        r@ == decimal_text(n as nat),
    decreases n,
{
    if n < 10 {
        digit_text(n).to_string()
    } else {
        let mut s = usize_text(n / 10);
        s.append(digit_text(n % 10));
        proof {
            assert(s@ =~= decimal_text((n / 10) as nat).push(digit_char((n % 10) as nat)));
        }
        s
    }
}

/// Relies on str's Debug: the quoted and escaped text depends on the characters alone.
#[verifier::external_body]
pub(crate) fn debug_quoted(s: &str) -> (r: String)
    ensures
        r@ == debug_quoted_of(s@),
{
    format!("{:?}", s)
}

/// The items joined with `sep` between them.
pub open spec fn join_spec(items: Seq<Seq<char>>, sep: Seq<char>) -> Seq<char>
    decreases items.len(),
{
    if items.len() == 0 {
        Seq::empty()
    } else if items.len() == 1 {
        items[0]
    } else {
        join_spec(items.drop_last(), sep) + sep + items.last()
    }
}

pub open spec fn string_views(items: Seq<String>) -> Seq<Seq<char>> {
    items.map_values(|s: String| s@)
}

/// The items joined with `sep` between them.
pub fn join(items: &Vec<String>, sep: &str) -> (r: String)
    ensures
        r@ == join_spec(string_views(items@), sep@),
{
    let mut out = String::new();
    let mut i: usize = 0;
    while i < items.len()
        invariant
            i <= items.len(),
            out@ == join_spec(string_views(items@.take(i as int)), sep@),
        decreases items.len() - i,
    {
        proof {
            assert(items@.take(i + 1).drop_last() =~= items@.take(i as int));
            assert(string_views(items@.take(i + 1)).drop_last() =~= string_views(items@.take(i as int)));
        }
        if i > 0 {
            out.append(sep);
        }
        out.append(items[i].as_str());
        proof {
            if i == 0 {
                assert(out@ =~= items@[0]@);
            }
            assert(string_views(items@.take(i + 1)).last() == items@[i as int]@);
        }
        i += 1;
    }
    proof {
        assert(items@.take(items@.len() as int) =~= items@);
    }
    out
}

pub open spec fn file_error_text(e: FileError) -> Seq<char> {
    match e {
        FileError::NotFound { path } => "configuration file not found: "@ + path@,
        FileError::ReadError { path, .. } => "failed to read configuration file: "@ + path@,
        FileError::UnknownFormat { extension } => "unknown configuration file format: ."@
            + extension@,
        FileError::Parse { format, path, .. } => format@ + " parse error in "@ + path@,
        FileError::ParseNoSpan { format, message, .. } => format@ + " parse error: "@ + message@,
    }
}

/// The human-readable message of an error. A secret value is replaced by
/// `<redacted>`.
pub open spec fn error_text(e: Error) -> Seq<char> {
    match e {
        Error::Missing { var, .. } => "missing required environment variable: "@ + var@,
        Error::InvalidUtf8 { var } => "environment variable "@ + var@ + " contains invalid UTF-8"@,
        Error::Parse { var, value, secret, expected_type, .. } => "failed to parse "@ + var@
            + ": expected "@ + expected_type@ + ", got "@ + if secret {
            "<redacted>"@
        } else {
            debug_quoted_of(value@)
        },
        Error::Multiple { errors } => decimal_text(errors.len() as nat)
            + " configuration error(s) occurred"@,
        Error::File { source } => "configuration file error: "@ + file_error_text(source),
        Error::InvalidProfile { profile, var, .. } => "invalid profile '"@ + profile@ + "' for "@
            + var@,
        Error::Provider { provider, message, .. } => "error connecting to "@ + provider@ + ": "@
            + message@,
        Error::Validation { errors } => decimal_text(errors.len() as nat)
            + " validation error(s) occurred"@,
    }
}

/// The message of an error followed, for an aggregate, by each inner
/// error's full text on a line of its own.
pub open spec fn full_text(e: Error) -> Seq<char>
    decreases e,
{
    match e {
        Error::Multiple { errors } => error_text(e) + inner_lines(errors@),
        _ => error_text(e),
    }
}

pub open spec fn inner_lines(es: Seq<Error>) -> Seq<char>
    decreases es,
{
    if es.len() == 0 {
        Seq::empty()
    } else {
        inner_lines(es.drop_last()) + "\n- "@ + full_text(es[es.len() - 1])
    }
}

pub open spec fn dq(s: Seq<char>) -> Seq<char> {
    debug_quoted_of(s)
}

/// The debug forms of a list of errors, separated by `, `.
pub open spec fn debug_list(es: Seq<Error>) -> Seq<char>
    decreases es,
{
    if es.len() == 0 {
        Seq::empty()
    } else if es.len() == 1 {
        debug_text(es[0])
    } else {
        debug_list(es.drop_last()) + ", "@ + debug_text(es[es.len() - 1])
    }
}

/// The structured debug form of an error, field by field, with a secret
/// value replaced by `<redacted>`; an aggregate lists the debug forms of its
/// errors, field errors of a validation failure are counted.
pub open spec fn debug_text(e: Error) -> Seq<char>
    decreases e,
{
    match e {
        Error::Missing { var, help } => "Missing { var: "@ + dq(var@) + ", help: "@ + dq(help@) + " }"@,
        Error::InvalidUtf8 { var } => "InvalidUtf8 { var: "@ + dq(var@) + " }"@,
        Error::Parse { var, value, secret, expected_type, help, source } => "Parse { var: "@ + dq(var@)
            + ", value: "@ + (if secret {
            "<redacted>"@
        } else {
            dq(value@)
        }) + ", secret: "@ + (if secret {
            "true"@
        } else {
            "false"@
        }) + ", expected_type: "@ + dq(expected_type@) + ", help: "@ + dq(help@) + ", source: "@ + dq(
            source@,
        ) + " }"@,
        Error::Multiple { errors } => "Multiple { errors: ["@ + debug_list(errors@) + "] }"@,
        Error::File { source } => "File { source: "@ + dq(file_error_text(source)) + " }"@,
        Error::InvalidProfile { profile, var, help, .. } => "InvalidProfile { profile: "@ + dq(profile@)
            + ", var: "@ + dq(var@) + ", help: "@ + dq(help@) + " }"@,
        Error::Provider { provider, message, help } => "Provider { provider: "@ + dq(provider@)
            + ", message: "@ + dq(message@) + ", help: "@ + dq(help@) + " }"@,
        Error::Validation { errors } => "Validation { errors: "@ + decimal_text(errors.len() as nat) + " }"@,
    }
}

fn push_quoted(out: &mut String, s: &str)
    ensures
        final(out)@ == old(out)@ + dq(s@),
{
    let q = debug_quoted(s);
    out.append(q.as_str());
}

impl FileError {
    /// The human-readable message.
    pub fn render(&self) -> (r: String)
        ensures
            r@ == file_error_text(*self),
    {
        let mut out;
        match self {
            FileError::NotFound { path } => {
                out = "configuration file not found: ".to_string();
                out.append(path.as_str());
            },
            FileError::ReadError { path, .. } => {
                out = "failed to read configuration file: ".to_string();
                out.append(path.as_str());
            },
            FileError::UnknownFormat { extension } => {
                out = "unknown configuration file format: .".to_string();
                out.append(extension.as_str());
            },
            FileError::Parse { format, path, .. } => {
                out = String::new();
                out.append(*format);
                out.append(" parse error in ");
                out.append(path.as_str());
            },
            FileError::ParseNoSpan { format, message, .. } => {
                out = String::new();
                out.append(*format);
                out.append(" parse error: ");
                out.append(message.as_str());
            },
        }
        out
    }

    /// The stable diagnostic code of the failure.
    pub fn code(&self) -> (r: &'static str)
        ensures
            r@ == (match *self {
                FileError::NotFound { .. } => diagnostic_codes::FILE_NOT_FOUND@,
                FileError::ReadError { .. } => diagnostic_codes::FILE_READ_ERROR@,
                FileError::UnknownFormat { .. } => diagnostic_codes::FILE_UNKNOWN_FORMAT@,
                _ => diagnostic_codes::FILE_PARSE_ERROR@,
            }),
    {
        match self {
            FileError::NotFound { .. } => diagnostic_codes::FILE_NOT_FOUND,
            FileError::ReadError { .. } => diagnostic_codes::FILE_READ_ERROR,
            FileError::UnknownFormat { .. } => diagnostic_codes::FILE_UNKNOWN_FORMAT,
            _ => diagnostic_codes::FILE_PARSE_ERROR,
        }
    }
}

impl Error {
    /// A `Missing` error with the standard help text.
    pub fn missing(var: &str) -> (r: Error)
        ensures
            r == (Error::Missing { var: r->Missing_var, help: r->Missing_help }),
            r->Missing_var@ == var@,
            r->Missing_help@ == "set "@ + var@ + " in your environment or .env file"@,
    {
        let mut help = "set ".to_string();
        help.append(var);
        help.append(" in your environment or .env file");
        Error::Missing { var: var.to_string(), help }
    }

    /// A `Parse` error, with help text naming the expected type.
    pub fn parse(var: &str, value: &str, secret: bool, expected_type: &str, source: &str) -> (r:
        Error)
        ensures
            r is Parse,
            r->Parse_var@ == var@,
            r->Parse_value@ == value@,
            r->Parse_secret == secret,
            r->Parse_expected_type@ == expected_type@,
            r->Parse_help@ == "expected a valid "@ + expected_type@,
            r->Parse_source@ == source@,
    {
        let mut help = "expected a valid ".to_string();
        help.append(expected_type);
        Error::Parse {
            var: var.to_string(),
            value: value.to_string(),
            secret,
            expected_type: expected_type.to_string(),
            help,
            source: source.to_string(),
        }
    }

    /// Collects the errors of one pass: none gives `None`, a single one is
    /// returned as it is, and two or more are wrapped in `Multiple`, in order.
    pub fn multiple(errors: Vec<Error>) -> (r: Option<Error>)
        ensures
            errors.len() == 0 ==> r is None,
            errors.len() == 1 ==> r == Some(errors[0]),
            errors.len() >= 2 ==> r == Some(Error::Multiple { errors }),
    {
        if errors.len() == 0 {
            None
        } else if errors.len() == 1 {
            let mut errors = errors;
            errors.pop()
        } else {
            Some(Error::Multiple { errors })
        }
    }

    /// An `InvalidProfile` error whose help lists the valid profiles.
    pub fn invalid_profile(profile: String, var: &str, valid_profiles: Vec<String>) -> (r: Error)
        ensures
            r is InvalidProfile,
            r->InvalidProfile_profile == profile,
            r->InvalidProfile_var@ == var@,
            r->InvalidProfile_valid_profiles == valid_profiles,
            r->InvalidProfile_help@ == "valid profiles are: "@ + join_spec(string_views(valid_profiles@), ", "@),
    {
        let list = join(&valid_profiles, ", ");
        let mut help = "valid profiles are: ".to_string();
        help.append(list.as_str());
        Error::InvalidProfile { profile, var: var.to_string(), valid_profiles, help }
    }

    /// The human-readable message; the value of a secret field is redacted.
    pub fn render(&self) -> (r: String)
        ensures
            r@ == error_text(*self),
    {
        let mut out;
        match self {
            Error::Missing { var, .. } => {
                out = "missing required environment variable: ".to_string();
                out.append(var.as_str());
            },
            Error::InvalidUtf8 { var } => {
                out = "environment variable ".to_string();
                out.append(var.as_str());
                out.append(" contains invalid UTF-8");
            },
            Error::Parse { var, value, secret, expected_type, .. } => {
                out = "failed to parse ".to_string();
                out.append(var.as_str());
                out.append(": expected ");
                out.append(expected_type.as_str());
                out.append(", got ");
                if *secret {
                    out.append("<redacted>");
                } else {
                    let q = debug_quoted(value.as_str());
                    out.append(q.as_str());
                }
            },
            Error::Multiple { errors } => {
                out = usize_text(errors.len());
                out.append(" configuration error(s) occurred");
            },
            Error::File { source } => {
                out = "configuration file error: ".to_string();
                let s = source.render();
                out.append(s.as_str());
            },
            Error::InvalidProfile { profile, var, .. } => {
                out = "invalid profile '".to_string();
                out.append(profile.as_str());
                out.append("' for ");
                out.append(var.as_str());
            },
            Error::Provider { provider, message, .. } => {
                out = "error connecting to ".to_string();
                out.append(provider.as_str());
                out.append(": ");
                out.append(message.as_str());
            },
            Error::Validation { errors } => {
                out = usize_text(errors.len());
                out.append(" validation error(s) occurred");
            },
        }
        out
    }

    /// The structured debug form; a secret value is redacted.
    pub fn debug_text(&self) -> (r: String)
        ensures
            r@ == debug_text(*self),
        decreases self,
    {
        let mut out;
        match self {
            Error::Missing { var, help } => {
                out = "Missing { var: ".to_string();
                push_quoted(&mut out, var.as_str());
                out.append(", help: ");
                push_quoted(&mut out, help.as_str());
                out.append(" }");
            },
            Error::InvalidUtf8 { var } => {
                out = "InvalidUtf8 { var: ".to_string();
                push_quoted(&mut out, var.as_str());
                out.append(" }");
            },
            Error::Parse { var, value, secret, expected_type, help, source } => {
                out = "Parse { var: ".to_string();
                push_quoted(&mut out, var.as_str());
                out.append(", value: ");
                if *secret {
                    out.append("<redacted>");
                } else {
                    push_quoted(&mut out, value.as_str());
                }
                out.append(", secret: ");
                out.append(if *secret { "true" } else { "false" });
                out.append(", expected_type: ");
                push_quoted(&mut out, expected_type.as_str());
                out.append(", help: ");
                push_quoted(&mut out, help.as_str());
                out.append(", source: ");
                push_quoted(&mut out, source.as_str());
                out.append(" }");
            },
            Error::Multiple { errors } => {
                out = "Multiple { errors: [".to_string();
                let ghost head = out@;
                let mut i: usize = 0;
                proof {
                    assert(errors@.take(0) =~= Seq::<Error>::empty());
                }
                while i < errors.len()
                    invariant
                        *self == (Error::Multiple { errors: *errors }),
                        i <= errors@.len(),
                        out@ == head + debug_list(errors@.take(i as int)),
                    decreases errors@.len() - i,
                {
                    proof {
                        assert(decreases_to!(*self => self->Multiple_errors[i as int]));
                        assert(errors@.take(i + 1).drop_last() =~= errors@.take(i as int));
                    }
                    if i > 0 {
                        out.append(", ");
                    }
                    let inner = errors[i].debug_text();
                    out.append(inner.as_str());
                    proof {
                        if i == 0 {
                            assert(debug_list(errors@.take(1)) == debug_text(errors@[0]));
                        }
                    }
                    i += 1;
                }
                proof {
                    assert(errors@.take(errors@.len() as int) =~= errors@);
                }
                out.append("] }");
            },
            Error::File { source } => {
                out = "File { source: ".to_string();
                let t = source.render();
                push_quoted(&mut out, t.as_str());
                out.append(" }");
            },
            Error::InvalidProfile { profile, var, help, .. } => {
                out = "InvalidProfile { profile: ".to_string();
                push_quoted(&mut out, profile.as_str());
                out.append(", var: ");
                push_quoted(&mut out, var.as_str());
                out.append(", help: ");
                push_quoted(&mut out, help.as_str());
                out.append(" }");
            },
            Error::Provider { provider, message, help } => {
                out = "Provider { provider: ".to_string();
                push_quoted(&mut out, provider.as_str());
                out.append(", message: ");
                push_quoted(&mut out, message.as_str());
                out.append(", help: ");
                push_quoted(&mut out, help.as_str());
                out.append(" }");
            },
            Error::Validation { errors } => {
                out = "Validation { errors: ".to_string();
                let n = usize_text(errors.len());
                out.append(n.as_str());
                out.append(" }");
            },
        }
        out
    }

    /// The message with, for an aggregate, every inner error listed after it.
    pub fn render_all(&self) -> (r: String)
        ensures
            r@ == full_text(*self),
        decreases self,
    {
        let mut out = self.render();
        if let Error::Multiple { errors } = self {
            let ghost head = out@;
            let mut i: usize = 0;
            proof {
                assert(errors@.take(0) =~= Seq::<Error>::empty());
            }
            while i < errors.len()
                invariant
                    *self == (Error::Multiple { errors: *errors }),
                    i <= errors@.len(),
                    out@ == head + inner_lines(errors@.take(i as int)),
                decreases errors@.len() - i,
            {
                proof {
                    assert(decreases_to!(*self => self->Multiple_errors[i as int]));
                    assert(errors@.take(i + 1).drop_last() =~= errors@.take(i as int));
                }
                out.append("\n- ");
                let inner = errors[i].render_all();
                out.append(inner.as_str());
                i += 1;
            }
            proof {
                assert(errors@.take(errors@.len() as int) =~= errors@);
            }
        }
        out
    }

    /// The stable diagnostic code of the error; a file error has its own.
    pub fn code(&self) -> (r: &'static str)
        ensures
            r@ == (match *self {
                Error::Missing { .. } => diagnostic_codes::MISSING_VAR@,
                Error::InvalidUtf8 { .. } => diagnostic_codes::INVALID_UTF8@,
                Error::Parse { .. } => diagnostic_codes::PARSE_ERROR@,
                Error::Multiple { .. } => diagnostic_codes::MULTIPLE_ERRORS@,
                Error::File { source } => match source {
                    FileError::NotFound { .. } => diagnostic_codes::FILE_NOT_FOUND@,
                    FileError::ReadError { .. } => diagnostic_codes::FILE_READ_ERROR@,
                    FileError::UnknownFormat { .. } => diagnostic_codes::FILE_UNKNOWN_FORMAT@,
                    _ => diagnostic_codes::FILE_PARSE_ERROR@,
                },
                Error::InvalidProfile { .. } => diagnostic_codes::INVALID_PROFILE@,
                Error::Provider { .. } => diagnostic_codes::PROVIDER_ERROR@,
                Error::Validation { .. } => diagnostic_codes::VALIDATION_ERROR@,
            }),
    {
        match self {
            Error::Missing { .. } => diagnostic_codes::MISSING_VAR,
            Error::InvalidUtf8 { .. } => diagnostic_codes::INVALID_UTF8,
            Error::Parse { .. } => diagnostic_codes::PARSE_ERROR,
            Error::Multiple { .. } => diagnostic_codes::MULTIPLE_ERRORS,
            Error::File { source } => source.code(),
            Error::InvalidProfile { .. } => diagnostic_codes::INVALID_PROFILE,
            Error::Provider { .. } => diagnostic_codes::PROVIDER_ERROR,
            Error::Validation { .. } => diagnostic_codes::VALIDATION_ERROR,
        }
    }
}


impl From<FileError> for Error {
    fn from(source: FileError) -> Error {
        Error::File { source }
    }
}

impl vstd::std_specs::convert::FromSpecImpl<FileError> for Error {
    open spec fn obeys_from_spec() -> bool {
        true
    }

    open spec fn from_spec(v: FileError) -> Error {
        Error::File { source: v }
    }
}

/// A secret value never shows in an error's text or debug form: two parse
/// errors of a secret field that differ only in the value render the same.
pub proof fn lemma_secret_value_redacted(a: Error, b: Error)
    requires
        a is Parse,
        b is Parse,
        a->Parse_secret,
        b->Parse_secret,
        a->Parse_var@ == b->Parse_var@,
        a->Parse_expected_type@ == b->Parse_expected_type@,
    ensures
        error_text(a) == error_text(b),
        a->Parse_help@ == b->Parse_help@ && a->Parse_source@ == b->Parse_source@ ==> debug_text(a)
            == debug_text(b),
{
}

} // verus!
