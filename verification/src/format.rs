//! Output format selection shared by every command.
use vstd::prelude::*;
use crate::text::{chars_of, eq_str, extend_str, to_string};

verus! {

/// Human table, pretty JSON, or compact (single-line) JSON.
#[derive(Copy, Clone, Debug, PartialEq, Eq, Structural)]
pub enum Format {
    Table,
    Json,
    JsonCompact,
}

impl Default for Format {
    fn default() -> (r: Format)
        ensures
            r == Format::Table,
    {
        Format::Table
    }
}

/// The result of parsing an `--output` value: the format it names, or the
/// error message for an unknown one.
pub open spec fn format_of(value: Seq<char>) -> Result<Format, Seq<char>> {
    if value == "table"@ {
        Ok(Format::Table)
    } else if value == "json"@ {
        Ok(Format::Json)
    } else if value == "json-compact"@ {
        Ok(Format::JsonCompact)
    } else {
        Err("invalid format: '"@ + value + "' (want table|json|json-compact)"@)
    }
}

/// The text of a `Result` whose error is a `String`.
pub open spec fn result_view<T>(r: Result<T, String>) -> Result<T, Seq<char>> {
    match r {
        Ok(v) => Ok(v),
        Err(e) => Err(e@),
    }
}

/// The `--output` name of a format.
pub open spec fn format_name(f: Format) -> Seq<char> {
    match f {
        Format::Table => "table"@,
        Format::Json => "json"@,
        Format::JsonCompact => "json-compact"@,
    }
}

/// Law: every format is selected by its own `--output` name.
pub proof fn lemma_format_name_roundtrip(f: Format)
    ensures
        format_of(format_name(f)) == Ok::<Format, Seq<char>>(f),
{
    reveal_strlit("table");
    reveal_strlit("json");
    reveal_strlit("json-compact");
    assert("table"@.len() == 5);
    assert("json"@.len() == 4);
    assert("json-compact"@.len() == 12);
}

impl Format {
    /// Parse an `--output` value (`table`, `json`, or `json-compact`).
    pub fn parse(value: &str) -> (r: Result<Format, String>)
        ensures
            result_view(r) == format_of(value@),
    {
        let v = chars_of(value);
        if eq_str(&v, "table") {
            Ok(Format::Table)
        } else if eq_str(&v, "json") {
            Ok(Format::Json)
        } else if eq_str(&v, "json-compact") {
            Ok(Format::JsonCompact)
        } else {
            let mut m: Vec<char> = Vec::new();
            extend_str(&mut m, "invalid format: '");
            extend_str(&mut m, value);
            extend_str(&mut m, "' (want table|json|json-compact)");
            Err(to_string(&m))
        }
    }
}

} // verus!
