//! Configuration file formats: detection by extension, and parsing of text
//! into the canonical value tree with located errors.
use vstd::prelude::*;
use crate::error::{FileError, Span};
use crate::location::{
    clamp_usize, extract_yaml_location, line_col_to_offset, offset_scan, offset_to_span, quoted_location,
    span_at,
};
use vstd::string::StringSliceAdditionalSpecFns;
use crate::text::{lower_of, to_lowercase};
use crate::raw_toml::{RawTree, settle, settle_tree};
use crate::value::{ConfigValue, Tree};

verus! {

/// Supported configuration file formats.
#[derive(Debug, Clone, Copy, PartialEq, Eq, Structural)]
pub enum FileFormat {
    /// JSON (`.json`)
    Json,
    /// TOML (`.toml`)
    Toml,
    /// YAML (`.yaml`, `.yml`)
    Yaml,
}

#[verifier::external_type_specification]
#[verifier::external_body]
pub struct ExJsonValue(serde_json::Value);

#[verifier::external_type_specification]
#[verifier::external_body]
pub struct ExTomlValue(toml::Value);

/// The extension of the last component of a path, as `Path::extension` gives it.
pub uninterp spec fn extension_of(path: Seq<char>) -> Option<Seq<char>>;

/// The value tree of a JSON document, if the text is one.
pub uninterp spec fn json_doc_of(text: Seq<char>) -> Option<Tree>;

/// The value tree of a TOML document, if the text is one; a float that is
/// not finite is marked by empty text.
pub uninterp spec fn toml_doc_of(text: Seq<char>) -> Option<Tree>;

/// The value tree of a YAML document, if the text is one.
pub uninterp spec fn yaml_doc_of(text: Seq<char>) -> Option<Tree>;

/// Relies on std::path::Path::extension: the text after the last `.` of the
/// file name, unless the name starts with its only `.`.
#[verifier::external_body]
fn path_extension(path: &str) -> (r: Option<String>)
    ensures
        r is Some <==> extension_of(path@) is Some,
        r is Some ==> r->0@ == extension_of(path@)->0,
{
    std::path::Path::new(path).extension().and_then(|e| e.to_str()).map(|e| e.to_string())
}

/// Relies on the variants of serde_json::Value and on serde_json::Number's
/// as_i64, as_u64 and Display: the value in the canonical tree, where every
/// object has unique keys, as a serde_json map does.
#[verifier::external_body]
fn from_json(v: serde_json::Value) -> (r: ConfigValue)
    ensures
        r.wf(),
{
    match v {
        serde_json::Value::Null => ConfigValue::Null,
        serde_json::Value::Bool(b) => ConfigValue::Bool(b),
        serde_json::Value::Number(n) => match (n.as_i64(), n.as_u64()) {
            (Some(i), _) => ConfigValue::Int(i),
            (None, Some(u)) => ConfigValue::UInt(u),
            (None, None) => ConfigValue::Float(n.to_string()),
        },
        serde_json::Value::String(s) => ConfigValue::Str(s),
        serde_json::Value::Array(a) => ConfigValue::List(a.into_iter().map(from_json).collect()),
        serde_json::Value::Object(m) => ConfigValue::Object(m.into_iter().map(|(k, x)| (k, from_json(x))).collect()),
    }
}

/// Relies on the variants of toml::Value, toml's Datetime Display, and
/// serde_json::Number::from_f64 with its Display: the document as a plain
/// tree, datetimes as their text, a finite float as its shortest decimal
/// text and any other float as nothing; every table has unique keys, as a
/// toml map does.
#[verifier::external_body]
fn from_toml(v: toml::Value) -> (r: RawTree)
    ensures
        r.wf(),
{
    match v {
        toml::Value::String(s) => RawTree::Str(s),
        toml::Value::Integer(i) => RawTree::Int(i),
        toml::Value::Float(f) => RawTree::Float(serde_json::Number::from_f64(f).map(|n| n.to_string())),
        toml::Value::Boolean(b) => RawTree::Bool(b),
        toml::Value::Datetime(d) => RawTree::Str(d.to_string()),
        toml::Value::Array(a) => RawTree::List(a.into_iter().map(from_toml).collect()),
        toml::Value::Table(t) => RawTree::Table(t.into_iter().map(|(k, x)| (k, from_toml(x))).collect()),
    }
}

/// Where and why a parser rejected a text.
pub struct ParseFailure {
    /// 1-based line and column, when the parser reports them.
    pub line_col: Option<(usize, usize)>,
    /// Byte range, when the parser reports one.
    pub range: Option<(usize, usize)>,
    /// The parser's own description of the failure.
    pub message: String,
    /// The parser's full report.
    pub report: String,
}

/// Relies on serde_json::from_str into serde_json::Value, and on
/// serde_json::Error's line and column.
#[verifier::external_body]
fn parse_json(content: &str) -> (r: Result<ConfigValue, ParseFailure>)
    ensures
        r is Ok <==> json_doc_of(content@) is Some,
        r is Ok ==> r->Ok_0@ == json_doc_of(content@)->0 && r->Ok_0.wf(),
        r is Err ==> r->Err_0.line_col is Some && r->Err_0.range is None,
{
    serde_json::from_str::<serde_json::Value>(content).map(from_json).map_err(|e| ParseFailure {
        line_col: Some((e.line(), e.column())),
        range: None,
        message: e.to_string(),
        report: e.to_string(),
    })
}

/// Relies on toml::from_str into toml::Value, and on toml::de::Error's span
/// and message.
#[verifier::external_body]
fn parse_toml(content: &str) -> (r: Result<RawTree, ParseFailure>)
    ensures
        r is Ok <==> toml_doc_of(content@) is Some,
        r is Ok ==> r->Ok_0.view_tree() == toml_doc_of(content@)->0 && r->Ok_0.wf(),
        r is Err ==> r->Err_0.line_col is None,
{
    toml::from_str::<toml::Value>(content).map(from_toml).map_err(|e| ParseFailure {
        line_col: None,
        range: e.span().map(|s| (s.start, s.end)),
        message: e.message().to_string(),
        report: e.to_string(),
    })
}

/// Relies on serde_saphyr::from_str into serde_json::Value; its message
/// quotes the location as `line X, column Y`.
#[verifier::external_body]
fn parse_yaml(content: &str) -> (r: Result<ConfigValue, ParseFailure>)
    ensures
        r is Ok <==> yaml_doc_of(content@) is Some,
        r is Ok ==> r->Ok_0@ == yaml_doc_of(content@)->0 && r->Ok_0.wf(),
        r is Err ==> r->Err_0.line_col is None && r->Err_0.range is None,
{
    serde_saphyr::from_str::<serde_json::Value>(content).map(from_json).map_err(|e| ParseFailure {
        line_col: None,
        range: None,
        message: e.to_string(),
        report: e.to_string(),
    })
}

/// The format that a lower-cased extension names.
pub open spec fn format_of_ext(ext: Seq<char>) -> Option<FileFormat> {
    if ext == "json"@ {
        Some(FileFormat::Json)
    } else if ext == "toml"@ {
        Some(FileFormat::Toml)
    } else if ext == "yaml"@ || ext == "yml"@ {
        Some(FileFormat::Yaml)
    } else {
        None
    }
}

pub open spec fn format_of_path(path: Seq<char>) -> Option<FileFormat> {
    match extension_of(path) {
        Some(ext) => format_of_ext(lower_of(ext)),
        None => None,
    }
}

/// The value tree of a document in the given format, if the text is one;
/// in TOML, a float that is not finite becomes the integer 0.
pub open spec fn doc_of(text: Seq<char>, format: FileFormat) -> Option<Tree> {
    match format {
        FileFormat::Json => json_doc_of(text),
        FileFormat::Toml => match toml_doc_of(text) {
            Some(t) => Some(settle_tree(t)),
            None => None,
        },
        FileFormat::Yaml => yaml_doc_of(text),
    }
}

pub open spec fn format_name(format: FileFormat) -> Seq<char> {
    match format {
        FileFormat::Json => "JSON"@,
        FileFormat::Toml => "TOML"@,
        FileFormat::Yaml => "YAML"@,
    }
}

pub open spec fn help_text(format: FileFormat) -> Seq<char> {
    match format {
        FileFormat::Json => "check for missing commas, quotes, or brackets"@,
        FileFormat::Toml => "check for missing quotes, invalid values, or syntax errors"@,
        FileFormat::Yaml => "check indentation and ensure proper YAML syntax"@,
    }
}

impl FileFormat {
    /// Detects the format from the path's extension, in any case.
    pub fn from_path(path: &str) -> (r: Option<FileFormat>)
        ensures
            r == format_of_path(path@),
    {
        let ext = match path_extension(path) {
            Some(e) => e,
            None => {
                return None;
            },
        };
        let lowered = to_lowercase(ext.as_str());
        if lowered == "json".to_string() {
            Some(FileFormat::Json)
        } else if lowered == "toml".to_string() {
            Some(FileFormat::Toml)
        } else if lowered == "yaml".to_string() || lowered == "yml".to_string() {
            Some(FileFormat::Yaml)
        } else {
            None
        }
    }

    /// The format's name in messages.
    pub fn name(&self) -> (r: &'static str)
        ensures
            r@ == format_name(*self),
    {
        match self {
            FileFormat::Json => "JSON",
            FileFormat::Toml => "TOML",
            FileFormat::Yaml => "YAML",
        }
    }

    /// The help text shown with a parse failure in this format.
    pub fn parse_help(&self) -> (r: &'static str)
        ensures
            r@ == help_text(*self),
    {
        match self {
            FileFormat::Json => "check for missing commas, quotes, or brackets",
            FileFormat::Toml => "check for missing quotes, invalid values, or syntax errors",
            FileFormat::Yaml => "check indentation and ensure proper YAML syntax",
        }
    }
}

/// The span a parse failure points at, from the parser's line and column,
/// its byte range (at least one byte), or for YAML the location quoted in
/// its message; `None` when the failure has no location.
pub open spec fn failure_span(failure: ParseFailure, format: FileFormat, content: &str) -> Option<Span> {
    match failure.line_col {
        Some((line, col)) => Some(span_at(content.spec_bytes(), clamp_usize(offset_scan(content.spec_bytes(), 0, 0, 0, line as int, col as int, 0)) as int)),
        None => match failure.range {
            Some((start, end)) => Some(Span { offset: start, len: if end > start { (end - start) as usize } else { 1 } }),
            None => if format == FileFormat::Yaml {
                match quoted_location(failure.message@) {
                    Some((line, col)) => Some(span_at(content.spec_bytes(), clamp_usize(offset_scan(content.spec_bytes(), 0, 0, 0, line as int, col as int, 0)) as int)),
                    None => None,
                }
            } else {
                None
            },
        },
    }
}

/// The error for a failed parse of `content` from `path`: located where the
/// failure has a span, unlocated (with the parser's full report) otherwise.
pub fn located_error(failure: ParseFailure, format: FileFormat, content: &str, path: &str) -> (r:
    FileError)
    ensures
        match failure_span(failure, format, content) {
            Some(span) => r is Parse && r->Parse_span == span && r->Parse_format@ == format_name(format)
                && r->Parse_path@ == path@ && r->Parse_src@ == content@ && r->Parse_message
                == failure.message && r->Parse_help@ == help_text(format),
            None => r is ParseNoSpan && r->ParseNoSpan_format@ == format_name(format)
                && r->ParseNoSpan_message == failure.report && r->ParseNoSpan_help@ == help_text(format),
        },
{
    let name = format.name();
    let help = format.parse_help().to_string();
    let span = if let Some((line, col)) = failure.line_col {
        Some(offset_to_span(line_col_to_offset(content, line, col), content))
    } else if let Some((start, end)) = failure.range {
        Some(Span { offset: start, len: if end > start { end - start } else { 1 } })
    } else if format == FileFormat::Yaml {
        match extract_yaml_location(failure.message.as_str()) {
            Some((line, col)) => Some(offset_to_span(line_col_to_offset(content, line, col), content)),
            None => None,
        }
    } else {
        None
    };
    match span {
        Some(span) => FileError::Parse {
            format: name,
            path: path.to_string(),
            src: content.to_string(),
            span,
            message: failure.message,
            help,
        },
        None => FileError::ParseNoSpan { format: name, message: failure.report, help },
    }
}

fn parse_with(content: &str, format: FileFormat) -> (r: Result<ConfigValue, ParseFailure>)
    ensures
        r is Ok <==> doc_of(content@, format) is Some,
        r is Ok ==> r->Ok_0@ == doc_of(content@, format)->0 && r->Ok_0.wf(),
        r is Err ==> format == FileFormat::Json ==> r->Err_0.line_col is Some,
{
    match format {
        FileFormat::Json => parse_json(content),
        FileFormat::Toml => match parse_toml(content) {
            Ok(raw) => Ok(settle(raw)),
            Err(f) => Err(f),
        },
        FileFormat::Yaml => parse_yaml(content),
    }
}

/// Parses text in the given format into the canonical value tree.
pub fn parse_str(content: &str, format: FileFormat) -> (r: Result<ConfigValue, FileError>)
    ensures
        r is Ok <==> doc_of(content@, format) is Some,
        r is Ok ==> r->Ok_0@ == doc_of(content@, format)->0 && r->Ok_0.wf(),
        r is Err ==> r->Err_0 is Parse || r->Err_0 is ParseNoSpan,
        r is Err && format == FileFormat::Json ==> r->Err_0 is Parse,
{
    match parse_with(content, format) {
        Ok(v) => Ok(v),
        Err(f) => Err(located_error(f, format, content, "<string>")),
    }
}

/// What reading a configuration file gave.
pub enum FileRead {
    /// No file exists at the path.
    Missing,
    /// The file exists but reading it failed, for the reason given.
    Failed(String),
    /// The file's text.
    Text(String),
}

/// The error of a file layer that cannot be built: `NotFound` with the path
/// for a missing required file, `ReadError` with the path and the read's
/// message, `UnknownFormat` naming the path's extension (or `unknown` when
/// it has none), otherwise a parse error.
pub open spec fn layer_error(e: FileError, path: Seq<char>, required: bool, read: FileRead) -> bool {
    match read {
        FileRead::Missing => required && e is NotFound && e->NotFound_path@ == path,
        FileRead::Failed(m) => e is ReadError && e->ReadError_path@ == path && e->ReadError_message == m,
        FileRead::Text(_) => match format_of_path(path) {
            None => e is UnknownFormat && e->UnknownFormat_extension@ == match extension_of(path) {
                Some(x) => x,
                None => "unknown"@,
            },
            Some(_) => e is Parse || e is ParseNoSpan,
        },
    }
}

/// Builds the layer of one configuration file from what reading it gave:
/// a missing file is `NotFound` when required and no layer otherwise; a
/// file whose extension names no format is `UnknownFormat`; otherwise the
/// text is parsed in the format its extension names.
pub fn parse_file(path: &str, required: bool, read: &FileRead) -> (r: Result<Option<ConfigValue>, FileError>)
    ensures
        *read is Missing ==> (required ==> r is Err && r->Err_0 == (FileError::NotFound {
            path: r->Err_0->NotFound_path,
        }) && r->Err_0->NotFound_path@ == path@),
        *read is Missing ==> (!required ==> r == Ok::<Option<ConfigValue>, FileError>(None)),
        *read is Failed ==> r is Err && r->Err_0 is ReadError && r->Err_0->ReadError_path@ == path@,
        r is Err ==> layer_error(r->Err_0, path@, required, *read),
        *read is Text ==> match format_of_path(path@) {
            None => r is Err && r->Err_0 is UnknownFormat,
            Some(fmt) => match doc_of(read->Text_0@, fmt) {
                Some(t) => r is Ok && r->Ok_0 is Some && r->Ok_0->0@ == t && r->Ok_0->0.wf(),
                None => r is Err && (r->Err_0 is Parse || r->Err_0 is ParseNoSpan),
            },
        },
{
    match read {
        FileRead::Missing => {
            if required {
                Err(FileError::NotFound { path: path.to_string() })
            } else {
                Ok(None)
            }
        },
        FileRead::Failed(message) => Err(
            FileError::ReadError { path: path.to_string(), message: message.clone() },
        ),
        FileRead::Text(content) => {
            let format = match FileFormat::from_path(path) {
                Some(f) => f,
                None => {
                    let extension = match path_extension(path) {
                        Some(e) => e,
                        None => "unknown".to_string(),
                    };
                    return Err(FileError::UnknownFormat { extension });
                },
            };
            match parse_with(content.as_str(), format) {
                Ok(v) => Ok(Some(v)),
                Err(f) => Err(located_error(f, format, content.as_str(), path)),
            }
        },
    }
}

} // verus!
