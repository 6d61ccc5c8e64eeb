//! `get-bios`: BIOS / firmware information from `dmidecode -t bios`, taken
//! from the indented `Key: Value` lines of the "BIOS Information" block.
use vstd::prelude::*;
use crate::commands::fields::{field_of, fields_view, parse_field, Field, FieldV};
use crate::text::{chars_of, eq, lines, lines_exec, trim, trim_exec, views};

pub use crate::commands::common::normalize_key;
pub use crate::commands::fields::{to_json, to_table};

verus! {

/// Whether a line is indented (starts with a tab or a space).
pub open spec fn indented(line: Seq<char>) -> bool {
    line.len() > 0 && (line[0] == '\t' || line[0] == ' ')
}

/// The fields of the section named `section`, given whether the lines so far
/// are inside it. A top-level (non-indented) line is either a section header
/// or a boundary: it opens the section exactly when its trimmed text is the
/// section name. Inside the section, each indented `Key: Value` line with a
/// non-empty value is a field.
pub open spec fn section_fields(ls: Seq<Seq<char>>, section: Seq<char>, inside: bool) -> Seq<FieldV>
    decreases ls.len(),
{
    if ls.len() == 0 {
        seq![]
    } else {
        let line = ls[0];
        if !indented(line) {
            section_fields(ls.drop_first(), section, trim(line) == section)
        } else if !inside {
            section_fields(ls.drop_first(), section, inside)
        } else {
            match field_of(trim(line)) {
                Some(f) => seq![f] + section_fields(ls.drop_first(), section, inside),
                None => section_fields(ls.drop_first(), section, inside),
            }
        }
    }
}

/// Collect the indented `Key: Value` lines belonging to the named top-level
/// dmidecode section (e.g. "BIOS Information").
pub fn parse_section(text: &str, section: &str) -> (r: Vec<Field>)
    ensures
        fields_view(r@) == section_fields(lines(text@), section@, false),
{
    let t = chars_of(text);
    let sec = chars_of(section);
    let ls = lines_exec(&t);
    let ghost lv = views(ls@);
    let mut out: Vec<Field> = Vec::new();
    let mut inside = false;
    let mut i: usize = 0;
    assert(lv.skip(0) =~= lv);
    while i < ls.len()
        invariant
            i <= ls.len(),
            lv == views(ls@),
            lv == lines(text@),
            sec@ == section@,
            fields_view(out@) + section_fields(lv.skip(i as int), section@, inside)
                == section_fields(lv, section@, false),
        decreases ls.len() - i,
    {
        let line = &ls[i];
        assert(lv.skip(i as int)[0] == line@);
        assert(lv.skip(i as int).drop_first() =~= lv.skip(i + 1));
        let ind = line.len() > 0 && (line[0] == '\t' || line[0] == ' ');
        if !ind {
            let tl = trim_exec(line);
            inside = eq(&tl, &sec);
        } else if inside {
            let tl = trim_exec(line);
            let ghost before = out@;
            match parse_field(&tl) {
                Some(f) => {
                    out.push(f);
                    assert(fields_view(out@) =~= fields_view(before).push(f@));
                    assert(fields_view(before).push(f@) + section_fields(lv.skip(i + 1), section@, inside)
                        =~= fields_view(before) + (seq![f@] + section_fields(lv.skip(i + 1), section@, inside)));
                },
                None => {},
            }
        }
        i = i + 1;
    }
    assert(lv.skip(i as int) =~= Seq::<Seq<char>>::empty());
    assert(fields_view(out@) + Seq::<FieldV>::empty() =~= fields_view(out@));
    out
}

} // verus!
