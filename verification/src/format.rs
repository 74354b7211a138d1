//! Output formats.

use vstd::prelude::*;
use crate::model::ParsingError;
use crate::text::str_eq;

verus! {

/// Errors of output formatting.
#[derive(Debug, Clone)]
pub enum FormatError {
    UnsupportedFormat(String),
    JsonParsingError(String),
    CsvError(String),
    ParsingError(ParsingError),
    InputOutputError(String),
}

/// The output formats.
#[derive(Debug, Clone, Copy, PartialEq, Eq)]
pub enum Format {
    Json,
    Csv,
    Tree,
    Html,
}

/// The name of each format.
pub open spec fn format_name(f: Format) -> Seq<char> {
    match f {
        Format::Json => "JSON"@,
        Format::Csv => "CSV"@,
        Format::Tree => "TREE"@,
        Format::Html => "HTML"@,
    }
}

impl Format {
    /// The format with the given name; the names are upper case.
    pub fn from_str(input: &str) -> (r: Result<Format, FormatError>)
        ensures
            match r {
                Ok(f) => format_name(f) == input@,
                Err(FormatError::UnsupportedFormat(name)) => name@ == input@ && input@ != "JSON"@
                    && input@ != "CSV"@ && input@ != "TREE"@ && input@ != "HTML"@,
                Err(_) => false,
            },
    {
        if str_eq(input, "JSON") {
            Ok(Format::Json)
        } else if str_eq(input, "CSV") {
            Ok(Format::Csv)
        } else if str_eq(input, "TREE") {
            Ok(Format::Tree)
        } else if str_eq(input, "HTML") {
            Ok(Format::Html)
        } else {
            Err(FormatError::UnsupportedFormat(String::from_str(input)))
        }
    }

    /// The name of the format.
    pub fn to_string(&self) -> (s: String)
        ensures
            s@ == format_name(*self),
    {
        match self {
            Format::Json => String::from_str("JSON"),
            Format::Csv => String::from_str("CSV"),
            Format::Tree => String::from_str("TREE"),
            Format::Html => String::from_str("HTML"),
        }
    }

    /// The error for a format a kind of output does not support.
    pub fn unsupported(&self) -> (e: FormatError)
        ensures
            e matches FormatError::UnsupportedFormat(name) && name@ == format_name(*self),
    {
        FormatError::UnsupportedFormat(self.to_string())
    }
}

/// Distinct formats have distinct names, so a format read back from its own
/// name is the format itself.
pub proof fn lemma_format_names_distinct(a: Format, b: Format)
    ensures
        format_name(a) == format_name(b) ==> a == b,
{
    reveal_strlit("JSON");
    reveal_strlit("CSV");
    reveal_strlit("TREE");
    reveal_strlit("HTML");
    if format_name(a) == format_name(b) && a != b {
        assert(format_name(a).len() == format_name(b).len());
        assert(format_name(a)[0] == format_name(b)[0]);
    }
}

} // verus!
