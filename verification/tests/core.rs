use mudshark_core::bytes::human;
use mudshark_core::cli::{emit_text, parse, parse_memory_args, Parsed};
use mudshark_core::json::Json;
use mudshark_core::parse::key_value_pairs;
use mudshark_core::proc::{exit_failure, spawn_failure};
use mudshark_core::table::{render, Align};
use mudshark_core::text::{chars_of, parse_u64_exec, u64_to_string};
use mudshark_core::time::iso8601_utc;
use mudshark_core::Format;

fn args(list: &[&str]) -> Vec<String> {
    list.iter().map(|s| s.to_string()).collect()
}

fn parsed_format(list: &[&str]) -> Format {
    match parse(&args(list)) {
        Ok(Parsed::Run(o)) => o.format,
        Ok(Parsed::Help) => panic!("help requested"),
        Err(e) => panic!("error: {e}"),
    }
}

fn parse_error(list: &[&str]) -> String {
    match parse(&args(list)) {
        Err(e) => e,
        _ => panic!("expected an error"),
    }
}

#[test]
fn format_parse_accepts_the_three_names() {
    assert_eq!(Format::parse("table"), Ok(Format::Table));
    assert_eq!(Format::parse("json"), Ok(Format::Json));
    assert_eq!(Format::parse("json-compact"), Ok(Format::JsonCompact));
}

#[test]
fn format_parse_rejects_other_names() {
    assert_eq!(
        Format::parse("xml"),
        Err("invalid format: 'xml' (want table|json|json-compact)".to_string())
    );
    assert_eq!(
        Format::parse("JSON"),
        Err("invalid format: 'JSON' (want table|json|json-compact)".to_string())
    );
    assert_eq!(Format::parse(""), Err("invalid format: '' (want table|json|json-compact)".to_string()));
}

#[test]
fn format_default_is_table() {
    assert_eq!(Format::default(), Format::Table);
}

#[test]
fn cli_defaults_to_table() {
    assert_eq!(parsed_format(&[]), Format::Table);
}

#[test]
fn cli_recognises_output_flags() {
    assert_eq!(parsed_format(&["--json"]), Format::Json);
    assert_eq!(parsed_format(&["-c"]), Format::JsonCompact);
    assert_eq!(parsed_format(&["--compact"]), Format::JsonCompact);
    assert_eq!(parsed_format(&["-o", "json-compact"]), Format::JsonCompact);
    assert_eq!(parsed_format(&["--output", "table"]), Format::Table);
}

#[test]
fn cli_later_flags_win() {
    assert_eq!(parsed_format(&["--json", "-c"]), Format::JsonCompact);
    assert_eq!(parsed_format(&["-c", "--json"]), Format::Json);
    assert_eq!(parsed_format(&["--json", "-o", "table"]), Format::Table);
}

#[test]
fn cli_help_is_reported() {
    assert!(matches!(parse(&args(&["-h"])), Ok(Parsed::Help)));
    assert!(matches!(parse(&args(&["--json", "--help"])), Ok(Parsed::Help)));
}

#[test]
fn cli_errors() {
    assert_eq!(parse_error(&["--bogus"]), "unknown argument: --bogus");
    assert_eq!(parse_error(&["-o"]), "missing value for --output");
    assert_eq!(parse_error(&["-o", "yaml"]), "invalid format: 'yaml' (want table|json|json-compact)");
    // The first problem stops the parse.
    assert_eq!(parse_error(&["-x", "-h"]), "unknown argument: -x");
}

#[test]
fn memory_cli_has_no_compact_flag() {
    assert_eq!(
        match parse_memory_args(&args(&["-c"])) {
            Err(e) => e,
            _ => panic!("expected an error"),
        },
        "unknown argument: -c"
    );
    assert!(matches!(parse_memory_args(&args(&["--json"])), Ok(Parsed::Run(o)) if o.format == Format::Json));
}

#[test]
fn render_pads_and_aligns_columns() {
    let rows = vec![vec!["a".to_string(), "1".to_string()], vec!["bbb".to_string(), "22".to_string()]];
    let out = render(&["Name", "N"], &rows, &[Align::Left, Align::Right]);
    assert_eq!(out, "Name   N\n----  --\na      1\nbbb   22\n");
}

#[test]
fn render_defaults_missing_alignment_to_left_and_trims_lines() {
    let rows = vec![vec!["x".to_string(), "".to_string()], vec!["longer".to_string(), "v".to_string()]];
    let out = render(&["K", "Value"], &rows, &[]);
    assert_eq!(out, "K       Value\n------  -----\nx\nlonger  v\n");
    for line in out.lines() {
        assert!(!line.ends_with(' '));
    }
    assert!(out.ends_with('\n'));
}

#[test]
fn render_with_no_rows_has_header_and_separator() {
    let out = render(&["A", "Bee"], &[], &[Align::Right, Align::Right]);
    assert_eq!(out, "A  Bee\n-  ---\n");
}

#[test]
fn render_counts_characters_not_bytes() {
    let rows = vec![vec!["µ".to_string(), "1".to_string()]];
    let out = render(&["ab", "N"], &rows, &[Align::Right, Align::Left]);
    assert_eq!(out, "ab  N\n--  -\n µ  1\n");
}

#[test]
fn key_value_pairs_reads_quoted_and_bare_values() {
    let p = key_value_pairs("NAME=\"sda\" TYPE=\"disk\" SIZE=\"500107862016\" MODEL=\"Samsung SSD\" MOUNTPOINT=\"\"");
    let expected: Vec<(String, String)> = vec![
        ("NAME".into(), "sda".into()),
        ("TYPE".into(), "disk".into()),
        ("SIZE".into(), "500107862016".into()),
        ("MODEL".into(), "Samsung SSD".into()),
        ("MOUNTPOINT".into(), "".into()),
    ];
    assert_eq!(p, expected);
    let q = key_value_pairs("  A=1 junk B=two  C=\"unterminated value");
    let expected_q: Vec<(String, String)> =
        vec![("A".into(), "1".into()), ("B".into(), "two".into()), ("C".into(), "unterminated value".into())];
    assert_eq!(q, expected_q);
    assert!(key_value_pairs("").is_empty());
    assert!(key_value_pairs("   ").is_empty());
}

#[test]
fn key_value_pairs_roundtrip_of_written_pairs() {
    let line = "ID=\"ubuntu\" NAME=\"Ubuntu Linux\" EMPTY=\"\"";
    let p = key_value_pairs(line);
    let rewritten: Vec<String> = p.iter().map(|(k, v)| format!("{k}=\"{v}\"")).collect();
    assert_eq!(rewritten.join(" "), line);
}

fn sample() -> Json {
    Json::Object(vec![
        ("a".to_string(), Json::U64(1)),
        ("b".to_string(), Json::Array(vec![Json::Str("x".to_string()), Json::Null, Json::Bool(false)])),
        ("c".to_string(), Json::Object(vec![])),
        ("d".to_string(), Json::Array(vec![])),
        ("e".to_string(), Json::I64(-42)),
        ("f".to_string(), Json::F64("2.5".to_string())),
    ])
}

#[test]
fn json_pretty_uses_two_space_indent_without_trailing_newline() {
    let expected = "{\n  \"a\": 1,\n  \"b\": [\n    \"x\",\n    null,\n    false\n  ],\n  \"c\": {},\n  \"d\": [],\n  \"e\": -42,\n  \"f\": 2.5\n}";
    assert_eq!(sample().to_pretty_string(), expected);
}

#[test]
fn json_compact_is_one_line_without_whitespace() {
    assert_eq!(
        sample().to_compact_string(),
        "{\"a\":1,\"b\":[\"x\",null,false],\"c\":{},\"d\":[],\"e\":-42,\"f\":2.5}"
    );
}

#[test]
fn json_scalars() {
    assert_eq!(Json::Null.to_pretty_string(), "null");
    assert_eq!(Json::Bool(true).to_compact_string(), "true");
    assert_eq!(Json::U64(u64::MAX).to_compact_string(), "18446744073709551615");
    assert_eq!(Json::I64(i64::MIN).to_compact_string(), "-9223372036854775808");
    assert_eq!(Json::I64(0).to_compact_string(), "0");
}

#[test]
fn json_escapes_strings() {
    let j = Json::Str("a\"b\\c\nd\re\tf\u{1}g\u{1f}h/é".to_string());
    assert_eq!(j.to_compact_string(), "\"a\\\"b\\\\c\\nd\\re\\tf\\u0001g\\u001fh/é\"");
}

#[test]
fn json_escaped_keys_too() {
    let j = Json::Object(vec![("k\"ey".to_string(), Json::Str("line\nbreak".to_string()))]);
    assert_eq!(j.to_pretty_string(), "{\n  \"k\\\"ey\": \"line\\nbreak\"\n}");
}

#[test]
fn json_compact_never_breaks_lines() {
    let j = Json::Array(vec![
        Json::Str("one\ntwo\r\n".to_string()),
        Json::Object(vec![("x\ny".to_string(), Json::Array(vec![Json::Str("\n".to_string())]))]),
    ]);
    let s = j.to_compact_string();
    assert!(!s.contains('\n'));
    assert_eq!(s, "[\"one\\ntwo\\r\\n\",{\"x\\ny\":[\"\\n\"]}]");
}

#[test]
fn json_escape_decodes_back() {
    // Decoding the escaped body with a standard JSON reading gives the text back.
    let text = "q\"b\\s\nn\u{7}bell";
    let body = Json::Str(text.to_string()).to_compact_string();
    let inner = &body[1..body.len() - 1];
    let mut out = String::new();
    let mut chars = inner.chars();
    while let Some(c) = chars.next() {
        if c != '\\' {
            out.push(c);
            continue;
        }
        match chars.next().unwrap() {
            '"' => out.push('"'),
            '\\' => out.push('\\'),
            'n' => out.push('\n'),
            'r' => out.push('\r'),
            't' => out.push('\t'),
            'u' => {
                let hex: String = chars.by_ref().take(4).collect();
                out.push(char::from_u32(u32::from_str_radix(&hex, 16).unwrap()).unwrap());
            }
            other => panic!("unexpected escape {other}"),
        }
    }
    assert_eq!(out, text);
}

#[test]
fn json_from_conversions() {
    assert!(matches!(Json::from(7u64), Json::U64(7)));
    assert!(matches!(Json::from(-7i64), Json::I64(-7)));
    assert!(matches!(Json::from(true), Json::Bool(true)));
    assert_eq!(Json::from("hi".to_string()).to_compact_string(), "\"hi\"");
}

#[test]
fn emit_text_by_format() {
    let j = || Json::Object(vec![("k".to_string(), Json::U64(1))]);
    assert_eq!(emit_text(Format::Table, j, || "T\n-\n".to_string()), "T\n-\n");
    assert_eq!(emit_text(Format::Json, j, || "unused".to_string()), "{\n  \"k\": 1\n}\n");
    assert_eq!(emit_text(Format::JsonCompact, j, || "unused".to_string()), "{\"k\":1}\n");
}

#[test]
fn human_byte_counts() {
    assert_eq!(human(0), "0 B");
    assert_eq!(human(1023), "1023 B");
    assert_eq!(human(1024), "1.0 KiB");
    assert_eq!(human(1536), "1.5 KiB");
    assert_eq!(human(1048575), "1023.9 KiB");
    assert_eq!(human(1048576), "1.0 MiB");
    assert_eq!(human(3 * 1073741824), "3.0 GiB");
    assert_eq!(human(u64::MAX), "15.9 EiB");
}

#[test]
fn decimal_text_parses_back() {
    for n in [0u64, 7, 10, 99, 12345, u64::MAX] {
        let s = u64_to_string(n);
        assert_eq!(s, n.to_string());
        assert_eq!(parse_u64_exec(&chars_of(&s)), Some(n));
    }
    assert_eq!(parse_u64_exec(&chars_of("+5")), Some(5));
    assert_eq!(parse_u64_exec(&chars_of("18446744073709551616")), None);
    assert_eq!(parse_u64_exec(&chars_of("")), None);
    assert_eq!(parse_u64_exec(&chars_of("-1")), None);
    assert_eq!(parse_u64_exec(&chars_of(" 1")), None);
}

#[test]
fn command_failure_messages() {
    assert_eq!(
        spawn_failure("ps", "No such file or directory (os error 2)"),
        "failed to run ps: No such file or directory (os error 2)"
    );
    assert_eq!(exit_failure("crontab", "  no crontab for user \n", "exit status: 1"), "crontab failed: no crontab for user");
    assert_eq!(exit_failure("xrandr", " \n\t", "exit status: 1"), "xrandr exited with status exit status: 1");
}

#[test]
fn iso8601_timestamps() {
    assert_eq!(iso8601_utc(0), "1970-01-01T00:00:00Z");
    assert_eq!(iso8601_utc(86399), "1970-01-01T23:59:59Z");
    assert_eq!(iso8601_utc(951782400), "2000-02-29T00:00:00Z");
    assert_eq!(iso8601_utc(1234567890), "2009-02-13T23:31:30Z");
    assert_eq!(iso8601_utc(1709251199), "2024-02-29T23:59:59Z");
    assert_eq!(iso8601_utc(1709251200), "2024-03-01T00:00:00Z");
    assert_eq!(iso8601_utc(4102444800), "2100-01-01T00:00:00Z");
}

#[test]
fn json_clone_is_the_same_value() {
    let j = sample();
    let c = j.clone();
    assert_eq!(c.to_compact_string(), j.to_compact_string());
    assert_eq!(c.to_pretty_string(), j.to_pretty_string());
}

#[test]
fn write_escaped_appends_a_quoted_string() {
    let mut out: Vec<char> = "x=".chars().collect();
    mudshark_core::json::write_escaped(&mut out, &"a\"\n\u{2}".to_string());
    assert_eq!(out.iter().collect::<String>(), "x=\"a\\\"\\n\\u0002\"");
}

#[test]
fn json_write_at_a_nesting_level() {
    let mut out: Vec<char> = "x".chars().collect();
    sample().write(&mut out, 2);
    let expected = format!("x{}", sample().to_pretty_string().replace('\n', "\n    "));
    assert_eq!(out.iter().collect::<String>(), expected);
    let mut empty: Vec<char> = Vec::new();
    Json::Array(vec![]).write(&mut empty, 3);
    Json::Object(vec![]).write(&mut empty, 1);
    assert_eq!(empty.iter().collect::<String>(), "[]{}");
}

#[test]
fn json_pretty_without_layout_is_compact() {
    let j = Json::Array(vec![
        sample(),
        Json::Str("spaces in \"quotes\" \\ and\nlines".to_string()),
        Json::Object(vec![("k e y".to_string(), Json::Array(vec![Json::Null]))]),
    ]);
    let pretty = j.to_pretty_string();
    let mut stripped = String::new();
    let (mut in_str, mut esc) = (false, false);
    for c in pretty.chars() {
        if in_str {
            stripped.push(c);
            if esc {
                esc = false;
            } else if c == '\\' {
                esc = true;
            } else if c == '"' {
                in_str = false;
            }
        } else if c != ' ' && c != '\n' {
            stripped.push(c);
            if c == '"' {
                in_str = true;
            }
        }
    }
    assert_eq!(stripped, j.to_compact_string());
}
