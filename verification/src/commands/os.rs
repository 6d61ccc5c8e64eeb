//! `get-operating-system`: OS identity from `/etc/os-release` plus kernel
//! information from `uname -s -r -m`.
use vstd::prelude::*;
use crate::json::{jstr, jv, jv_entries, push_member, Json, JsonV};
use crate::parse::{key_value_pairs, last_value, last_value_or_empty, lemma_last_value_push, pairs_in_lines, pairs_view};
use crate::table::{cells_view, headers_view, render, rows_view, table, Align};
use crate::text::{chars_of, chars_of_string, eq_str, lines, lines_exec, string_of, to_string, views, words, words_exec};

verus! {

pub struct OperatingSystem {
    pub name: String,
    pub version: String,
    pub id: String,
    pub version_id: String,
    pub pretty_name: String,
    pub kernel_name: String,
    pub kernel_release: String,
    pub kernel_machine: String,
}

/// The `i`-th token, or the empty text when there are fewer tokens.
pub open spec fn nth_or_empty(t: Seq<Seq<char>>, i: int) -> Seq<char> {
    if 0 <= i < t.len() {
        t[i]
    } else {
        seq![]
    }
}

/// The facts gathered from the text of `/etc/os-release` (empty when the
/// file is missing; for each key the last assignment wins) and from the
/// `uname -s -r -m` line (kernel name, release and machine).
pub open spec fn os_of(os_release: Seq<char>, uname: Seq<char>, o: OperatingSystem) -> bool {
    let ps = pairs_in_lines(lines(os_release));
    let u = words(uname);
    &&& o.name@ == last_value_or_empty(ps, "NAME"@)
    &&& o.version@ == last_value_or_empty(ps, "VERSION"@)
    &&& o.id@ == last_value_or_empty(ps, "ID"@)
    &&& o.version_id@ == last_value_or_empty(ps, "VERSION_ID"@)
    &&& o.pretty_name@ == last_value_or_empty(ps, "PRETTY_NAME"@)
    &&& o.kernel_name@ == nth_or_empty(u, 0)
    &&& o.kernel_release@ == nth_or_empty(u, 1)
    &&& o.kernel_machine@ == nth_or_empty(u, 2)
}

fn token_or_empty(t: &Vec<Vec<char>>, i: usize) -> (r: String)
    ensures
        r@ == nth_or_empty(views(t@), i as int),
{
    if i < t.len() {
        assert(views(t@)[i as int] == t@[i as int]@);
        to_string(&t[i])
    } else {
        to_string(&Vec::new())
    }
}

/// Collect OS identity from the os-release text and kernel info from the
/// `uname` output.
pub fn operating_system(os_release: &str, uname: &str) -> (r: OperatingSystem)
    ensures
        os_of(os_release@, uname@, r),
{
    let t = chars_of(os_release);
    let ls = lines_exec(&t);
    let ghost lv = views(ls@);
    let mut name = String::new();
    let mut version = String::new();
    let mut id = String::new();
    let mut version_id = String::new();
    let mut pretty_name = String::new();
    let mut i: usize = 0;
    while i < ls.len()
        invariant
            i <= ls.len(),
            lv == views(ls@),
            lv == lines(os_release@),
            ({
                let ps = pairs_in_lines(lv.take(i as int));
                &&& name@ == last_value_or_empty(ps, "NAME"@)
                &&& version@ == last_value_or_empty(ps, "VERSION"@)
                &&& id@ == last_value_or_empty(ps, "ID"@)
                &&& version_id@ == last_value_or_empty(ps, "VERSION_ID"@)
                &&& pretty_name@ == last_value_or_empty(ps, "PRETTY_NAME"@)
            }),
        decreases ls.len() - i,
    {
        let ghost done = pairs_in_lines(lv.take(i as int));
        assert(lv.take(i + 1).drop_last() =~= lv.take(i as int));
        assert(lv[i as int] == ls@[i as int]@);
        let line = to_string(&ls[i]);
        let pairs = key_value_pairs(line.as_str());
        let ghost pv = pairs_view(pairs@);
        let mut j: usize = 0;
        while j < pairs.len()
            invariant
                j <= pairs.len(),
                pv == pairs_view(pairs@),
                ({
                    let ps = done + pv.take(j as int);
                    &&& name@ == last_value_or_empty(ps, "NAME"@)
                    &&& version@ == last_value_or_empty(ps, "VERSION"@)
                    &&& id@ == last_value_or_empty(ps, "ID"@)
                    &&& version_id@ == last_value_or_empty(ps, "VERSION_ID"@)
                    &&& pretty_name@ == last_value_or_empty(ps, "PRETTY_NAME"@)
                }),
            decreases pairs.len() - j,
        {
            let ghost p = pv[j as int];
            proof {
                assert(done + pv.take(j + 1) =~= (done + pv.take(j as int)).push(p));
                lemma_last_value_push(done + pv.take(j as int), p, "NAME"@);
                lemma_last_value_push(done + pv.take(j as int), p, "VERSION"@);
                lemma_last_value_push(done + pv.take(j as int), p, "ID"@);
                lemma_last_value_push(done + pv.take(j as int), p, "VERSION_ID"@);
                lemma_last_value_push(done + pv.take(j as int), p, "PRETTY_NAME"@);
            }
            let k = chars_of_string(&pairs[j].0);
            let v = pairs[j].1.clone();
            if eq_str(&k, "NAME") {
                name = v;
            } else if eq_str(&k, "VERSION") {
                version = v;
            } else if eq_str(&k, "ID") {
                id = v;
            } else if eq_str(&k, "VERSION_ID") {
                version_id = v;
            } else if eq_str(&k, "PRETTY_NAME") {
                pretty_name = v;
            }
            proof {
                reveal_strlit("NAME");
                reveal_strlit("VERSION");
                reveal_strlit("ID");
                reveal_strlit("VERSION_ID");
                reveal_strlit("PRETTY_NAME");
                assert("NAME"@.len() == 4 && "VERSION"@.len() == 7 && "ID"@.len() == 2);
                assert("VERSION_ID"@.len() == 10 && "PRETTY_NAME"@.len() == 11);
            }
            j = j + 1;
        }
        assert(pv.take(pairs.len() as int) =~= pv);
        i = i + 1;
    }
    assert(lv.take(ls.len() as int) =~= lv);
    let u = chars_of(uname);
    let parts = words_exec(&u);
    OperatingSystem {
        name,
        version,
        id,
        version_id,
        pretty_name,
        kernel_name: token_or_empty(&parts, 0),
        kernel_release: token_or_empty(&parts, 1),
        kernel_machine: token_or_empty(&parts, 2),
    }
}

/// The document: a single object of OS facts.
pub open spec fn os_jv(timestamp: Seq<char>, o: OperatingSystem) -> JsonV {
    JsonV::Object(
        seq![
            ("timestamp"@, JsonV::Str(timestamp)),
            ("name"@, JsonV::Str(o.name@)),
            ("version"@, JsonV::Str(o.version@)),
            ("id"@, JsonV::Str(o.id@)),
            ("version_id"@, JsonV::Str(o.version_id@)),
            ("pretty_name"@, JsonV::Str(o.pretty_name@)),
            ("kernel_name"@, JsonV::Str(o.kernel_name@)),
            ("kernel_release"@, JsonV::Str(o.kernel_release@)),
            ("kernel_machine"@, JsonV::Str(o.kernel_machine@)),
        ],
    )
}

/// Build the structured JSON value (single object of OS facts).
pub fn to_json(os: &OperatingSystem, timestamp: &String) -> (r: Json)
    ensures
        jv(r) == os_jv(timestamp@, *os),
{
    let mut e: Vec<(String, Json)> = Vec::new();
    push_member(&mut e, "timestamp", jstr(timestamp));
    push_member(&mut e, "name", jstr(&os.name));
    push_member(&mut e, "version", jstr(&os.version));
    push_member(&mut e, "id", jstr(&os.id));
    push_member(&mut e, "version_id", jstr(&os.version_id));
    push_member(&mut e, "pretty_name", jstr(&os.pretty_name));
    push_member(&mut e, "kernel_name", jstr(&os.kernel_name));
    push_member(&mut e, "kernel_release", jstr(&os.kernel_release));
    push_member(&mut e, "kernel_machine", jstr(&os.kernel_machine));
    assert(jv_entries(e@) =~= seq![
        ("timestamp"@, JsonV::Str(timestamp@)),
        ("name"@, JsonV::Str(os.name@)),
        ("version"@, JsonV::Str(os.version@)),
        ("id"@, JsonV::Str(os.id@)),
        ("version_id"@, JsonV::Str(os.version_id@)),
        ("pretty_name"@, JsonV::Str(os.pretty_name@)),
        ("kernel_name"@, JsonV::Str(os.kernel_name@)),
        ("kernel_release"@, JsonV::Str(os.kernel_release@)),
        ("kernel_machine"@, JsonV::Str(os.kernel_machine@)),
    ]);
    Json::Object(e)
}

pub open spec fn os_rows(o: OperatingSystem) -> Seq<Seq<Seq<char>>> {
    seq![
        seq!["Name"@, o.name@],
        seq!["Version"@, o.version@],
        seq!["ID"@, o.id@],
        seq!["Version ID"@, o.version_id@],
        seq!["Pretty Name"@, o.pretty_name@],
        seq!["Kernel Name"@, o.kernel_name@],
        seq!["Kernel Release"@, o.kernel_release@],
        seq!["Kernel Machine"@, o.kernel_machine@],
    ]
}

/// Build the human-readable table via the shared renderer.
pub fn to_table(os: &OperatingSystem) -> (r: String)
    ensures
        r@ == table(seq!["Field"@, "Value"@], os_rows(*os), seq![Align::Left, Align::Left]),
{
    let rows = vec![
        vec![string_of("Name"), os.name.clone()],
        vec![string_of("Version"), os.version.clone()],
        vec![string_of("ID"), os.id.clone()],
        vec![string_of("Version ID"), os.version_id.clone()],
        vec![string_of("Pretty Name"), os.pretty_name.clone()],
        vec![string_of("Kernel Name"), os.kernel_name.clone()],
        vec![string_of("Kernel Release"), os.kernel_release.clone()],
        vec![string_of("Kernel Machine"), os.kernel_machine.clone()],
    ];
    assert(rows_view(rows@) =~= os_rows(*os)) by {
        assert(cells_view(rows@[0]) =~= os_rows(*os)[0]);
        assert(cells_view(rows@[1]) =~= os_rows(*os)[1]);
        assert(cells_view(rows@[2]) =~= os_rows(*os)[2]);
        assert(cells_view(rows@[3]) =~= os_rows(*os)[3]);
        assert(cells_view(rows@[4]) =~= os_rows(*os)[4]);
        assert(cells_view(rows@[5]) =~= os_rows(*os)[5]);
        assert(cells_view(rows@[6]) =~= os_rows(*os)[6]);
        assert(cells_view(rows@[7]) =~= os_rows(*os)[7]);
    }
    let headers = ["Field", "Value"];
    let align = [Align::Left, Align::Left];
    assert(headers_view(headers@) =~= seq!["Field"@, "Value"@]);
    assert(align@ =~= seq![Align::Left, Align::Left]);
    render(&headers, &rows, &align)
}

} // verus!
