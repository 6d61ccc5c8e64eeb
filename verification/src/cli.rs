//! Shared command-line handling for mudshark commands.
//!
//! Every command parses the same output flags and emits output the same way,
//! so behaviour stays identical across the suite. Reading the arguments,
//! printing and exiting are left to the caller; this module decides.
use vstd::prelude::*;
use crate::format::{format_of, Format};
use crate::json::{compact, pretty, Json};
use crate::text::{chars_of, chars_of_string, eq_str, extend, extend_str, to_string};

verus! {

/// Parsed common options.
pub struct Options {
    pub format: Format,
}

/// What the command line asks for.
pub enum Parsed {
    /// Run the command with these options.
    Run(Options),
    /// Print the help text and exit successfully.
    Help,
}

/// The outcome of parsing the arguments that follow the program name,
/// starting from format `fmt`. `compact_flag` says whether `-c`/`--compact`
/// is recognised.
pub open spec fn parse_from(args: Seq<Seq<char>>, fmt: Format, compact_flag: bool) -> Result<
    Parsed,
    Seq<char>,
>
    decreases args.len(),
{
    if args.len() == 0 {
        Ok(Parsed::Run(Options { format: fmt }))
    } else {
        let a = args[0];
        let rest = args.drop_first();
        if a == "--json"@ {
            parse_from(rest, Format::Json, compact_flag)
        } else if compact_flag && (a == "-c"@ || a == "--compact"@) {
            parse_from(rest, Format::JsonCompact, compact_flag)
        } else if a == "-o"@ || a == "--output"@ {
            if rest.len() == 0 {
                Err("missing value for --output"@)
            } else {
                match format_of(rest[0]) {
                    Ok(f) => parse_from(rest.drop_first(), f, compact_flag),
                    Err(e) => Err(e),
                }
            }
        } else if a == "-h"@ || a == "--help"@ {
            Ok(Parsed::Help)
        } else {
            Err("unknown argument: "@ + a)
        }
    }
}

/// The text of the arguments.
pub open spec fn args_view(args: Seq<String>) -> Seq<Seq<char>> {
    args.map_values(|a: String| a@)
}

/// The text of a parse result.
pub open spec fn parsed_view(r: Result<Parsed, String>) -> Result<Parsed, Seq<char>> {
    match r {
        Ok(p) => Ok(p),
        Err(e) => Err(e@),
    }
}

fn parse_with(args: &[String], compact_flag: bool) -> (r: Result<Parsed, String>)
    ensures
        parsed_view(r) == parse_from(args_view(args@), Format::Table, compact_flag),
{
    let ghost av = args_view(args@);
    let mut format = Format::Table;
    let mut i: usize = 0;
    assert(av.skip(0) =~= av);
    while i < args.len()
        invariant
            i <= args.len(),
            av == args_view(args@),
            parse_from(av.skip(i as int), format, compact_flag) == parse_from(
                av,
                Format::Table,
                compact_flag,
            ),
        decreases args.len() - i,
    {
        let a = chars_of_string(&args[i]);
        let ghost rest = av.skip(i as int);
        assert(rest[0] == a@);
        assert(rest.drop_first() =~= av.skip(i + 1));
        if eq_str(&a, "--json") {
            format = Format::Json;
            i = i + 1;
        } else if compact_flag && (eq_str(&a, "-c") || eq_str(&a, "--compact")) {
            format = Format::JsonCompact;
            i = i + 1;
        } else if eq_str(&a, "-o") || eq_str(&a, "--output") {
            if i + 1 >= args.len() {
                assert(av.skip(i + 1).len() == 0);
                let mut m: Vec<char> = Vec::new();
                extend_str(&mut m, "missing value for --output");
                return Err(to_string(&m));
            }
            assert(av.skip(i + 1)[0] == args@[i + 1]@);
            assert(av.skip(i + 1).drop_first() =~= av.skip(i + 2));
            match Format::parse(args[i + 1].as_str()) {
                Ok(f) => {
                    format = f;
                    i = i + 2;
                },
                Err(e) => {
                    return Err(e);
                },
            }
        } else if eq_str(&a, "-h") || eq_str(&a, "--help") {
            return Ok(Parsed::Help);
        } else {
            let mut m: Vec<char> = Vec::new();
            extend_str(&mut m, "unknown argument: ");
            extend(&mut m, &a);
            return Err(to_string(&m));
        }
    }
    assert(av.skip(i as int).len() == 0);
    Ok(Parsed::Run(Options { format }))
}

/// Parse the standard mudshark output flags (the arguments after the program
/// name).
///
/// Recognises `--json`, `-c`/`--compact`, `-o`/`--output <table|json|json-compact>`,
/// and `-h`/`--help` (the caller prints the help and exits 0). Unknown flags
/// are an error.
pub fn parse(args: &[String]) -> (r: Result<Parsed, String>)
    ensures
        parsed_view(r) == parse_from(args_view(args@), Format::Table, true),
{
    parse_with(args, true)
}

/// Parse the output flags of `get-memory`, which accepts `--json`,
/// `-o`/`--output` and `-h`/`--help` but not `-c`/`--compact`.
pub fn parse_memory_args(args: &[String]) -> (r: Result<Parsed, String>)
    ensures
        parsed_view(r) == parse_from(args_view(args@), Format::Table, false),
{
    parse_with(args, false)
}

/// The text emitted for a JSON value in a JSON format.
pub open spec fn json_output(format: Format, j: Json) -> Seq<char> {
    if format == Format::Json {
        pretty(j, 0).push('\n')
    } else {
        compact(j).push('\n')
    }
}

/// The text to emit in the selected format. The JSON value and table string
/// are built lazily so only the representation actually needed is produced;
/// the table text is emitted as is (it already ends with a newline), JSON
/// gets a trailing newline.
pub fn emit_text<J: FnOnce() -> Json, T: FnOnce() -> String>(format: Format, json: J, table: T) -> (r:
    String)
    requires
        call_requires(json, ()),
        call_requires(table, ()),
    ensures
        format == Format::Table ==> call_ensures(table, (), r),
        format != Format::Table ==> exists|j: Json|
            call_ensures(json, (), j) && r@ == #[trigger] json_output(format, j),
{
    match format {
        Format::Table => table(),
        Format::Json => {
            let j = json();
            let mut t = chars_of(j.to_pretty_string().as_str());
            t.push('\n');
            let r = to_string(&t);
            assert(r@ == json_output(format, j));
            r
        },
        Format::JsonCompact => {
            let j = json();
            let mut t = chars_of(j.to_compact_string().as_str());
            t.push('\n');
            let r = to_string(&t);
            assert(r@ == json_output(format, j));
            r
        },
    }
}

} // verus!
