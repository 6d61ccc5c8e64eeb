//! `get-processor`: CPU information from `lscpu`, one `Key:   Value` pair
//! per line, with keys normalised to snake_case (e.g. "CPU(s)" becomes
//! "cpus", "Model name" becomes "model_name").
use vstd::prelude::*;
use crate::commands::fields::{field_of, fields_view, parse_field, Field, FieldV};
use crate::text::{chars_of, lemma_filter_map_step, lines, lines_exec, views};

pub use crate::commands::common::normalize_key;
pub use crate::commands::fields::{to_json, to_table};

verus! {

pub open spec fn field_parser() -> spec_fn(Seq<char>) -> Option<FieldV> {
    |l: Seq<char>| field_of(l)
}

/// The fields of `lscpu` output: each line with a colon and a non-empty
/// value, in order.
pub open spec fn lscpu_fields(text: Seq<char>) -> Seq<FieldV> {
    lines(text).filter_map(field_parser())
}

/// Parse each `Key: Value` line of `lscpu` output.
pub fn parse_lscpu(text: &str) -> (r: Vec<Field>)
    ensures
        fields_view(r@) == lscpu_fields(text@),
{
    let t = chars_of(text);
    let ls = lines_exec(&t);
    let ghost lv = views(ls@);
    let mut out: Vec<Field> = Vec::new();
    let mut i: usize = 0;
    while i < ls.len()
        invariant
            i <= ls.len(),
            lv == views(ls@),
            lv == lines(text@),
            fields_view(out@) == lv.take(i as int).filter_map(field_parser()),
        decreases ls.len() - i,
    {
        proof {
            lemma_filter_map_step(lv, field_parser(), i as int);
        }
        assert(lv[i as int] == ls@[i as int]@);
        let ghost before = out@;
        match parse_field(&ls[i]) {
            Some(f) => {
                out.push(f);
                assert(fields_view(out@) =~= fields_view(before).push(f@));
            },
            None => {},
        }
        i = i + 1;
    }
    assert(lv.take(ls.len() as int) =~= lv);
    out
}

} // verus!
