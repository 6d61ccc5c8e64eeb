//! `get-user`: local user accounts, from `getent passwd`
//! (colon-separated: `name:x:uid:gid:gecos:home:shell`).
use vstd::prelude::*;
use crate::json::{jstr, jv, jv_entries, jv_items, listing, listing_jv, push_item, push_member, Json, JsonV};
use crate::table::{cells_view, headers_view, render, rows_view, table, Align};
use crate::text::{
    chars_of, dec, lemma_filter_map_step, lines, lines_exec, parse_u64_or_zero,
    parse_u64_or_zero_exec, splitn, splitn_exec, to_string, u64_to_string, views,
};

verus! {

pub struct User {
    pub name: String,
    pub uid: u64,
    pub gid: u64,
    pub gecos: String,
    pub home: String,
    pub shell: String,
}

pub struct UserV {
    pub name: Seq<char>,
    pub uid: u64,
    pub gid: u64,
    pub gecos: Seq<char>,
    pub home: Seq<char>,
    pub shell: Seq<char>,
}

impl View for User {
    type V = UserV;

    open spec fn view(&self) -> UserV {
        UserV {
            name: self.name@,
            uid: self.uid,
            gid: self.gid,
            gecos: self.gecos@,
            home: self.home@,
            shell: self.shell@,
        }
    }
}

pub open spec fn users_view(v: Seq<User>) -> Seq<UserV> {
    v.map_values(|u: User| u@)
}

/// One `name:x:uid:gid:gecos:home:shell` record (the gecos field may hold
/// commas but never a colon); lines with fewer than seven fields hold no
/// user, and unparsable ids read as 0.
pub open spec fn user_line(line: Seq<char>) -> Option<UserV> {
    let f = splitn(line, 7, ':');
    if f.len() < 7 {
        None
    } else {
        Some(
            UserV {
                name: f[0],
                uid: parse_u64_or_zero(f[2]),
                gid: parse_u64_or_zero(f[3]),
                gecos: f[4],
                home: f[5],
                shell: f[6],
            },
        )
    }
}

pub open spec fn user_parser() -> spec_fn(Seq<char>) -> Option<UserV> {
    |l: Seq<char>| user_line(l)
}

/// The users listed by `getent passwd`, in order.
pub open spec fn users_of(text: Seq<char>) -> Seq<UserV> {
    lines(text).filter_map(user_parser())
}

fn parse_user_line(line: &Vec<char>) -> (r: Option<User>)
    ensures
        match user_line(line@) {
            Some(u) => r is Some && r->0@ == u,
            None => r is None,
        },
{
    let f = splitn_exec(line, 7, ':');
    if f.len() < 7 {
        return None;
    }
    assert(views(f@)[0] == f@[0]@);
    assert(views(f@)[2] == f@[2]@);
    assert(views(f@)[3] == f@[3]@);
    assert(views(f@)[4] == f@[4]@);
    assert(views(f@)[5] == f@[5]@);
    assert(views(f@)[6] == f@[6]@);
    Some(
        User {
            name: to_string(&f[0]),
            uid: parse_u64_or_zero_exec(&f[2]),
            gid: parse_u64_or_zero_exec(&f[3]),
            gecos: to_string(&f[4]),
            home: to_string(&f[5]),
            shell: to_string(&f[6]),
        },
    )
}

/// Parse `getent passwd` output.
pub fn parse_users(text: &str) -> (r: Vec<User>)
    ensures
        users_view(r@) == users_of(text@),
{
    let t = chars_of(text);
    let ls = lines_exec(&t);
    let ghost lv = views(ls@);
    let mut out: Vec<User> = Vec::new();
    let mut i: usize = 0;
    while i < ls.len()
        invariant
            i <= ls.len(),
            lv == views(ls@),
            lv == lines(text@),
            users_view(out@) == lv.take(i as int).filter_map(user_parser()),
        decreases ls.len() - i,
    {
        proof {
            lemma_filter_map_step(lv, user_parser(), i as int);
        }
        assert(lv[i as int] == ls@[i as int]@);
        let ghost before = out@;
        match parse_user_line(&ls[i]) {
            Some(u) => {
                out.push(u);
                assert(users_view(out@) =~= users_view(before).push(u@));
            },
            None => {},
        }
        i = i + 1;
    }
    assert(lv.take(ls.len() as int) =~= lv);
    out
}

pub open spec fn user_jv(u: UserV) -> JsonV {
    JsonV::Object(
        seq![
            ("name"@, JsonV::Str(u.name)),
            ("uid"@, JsonV::U64(u.uid)),
            ("gid"@, JsonV::U64(u.gid)),
            ("gecos"@, JsonV::Str(u.gecos)),
            ("home"@, JsonV::Str(u.home)),
            ("shell"@, JsonV::Str(u.shell)),
        ],
    )
}

/// Build the structured JSON value: `{ timestamp, users: [...] }`.
pub fn to_json(users: &[User], timestamp: &String) -> (r: Json)
    ensures
        jv(r) == listing_jv(timestamp@, "users"@, users_view(users@).map_values(|u: UserV| user_jv(u))),
{
    let mut items: Vec<Json> = Vec::new();
    let mut i: usize = 0;
    while i < users.len()
        invariant
            i <= users.len(),
            jv_items(items@) == users_view(users@).take(i as int).map_values(|u: UserV| user_jv(u)),
        decreases users.len() - i,
    {
        let u = &users[i];
        let mut e: Vec<(String, Json)> = Vec::new();
        push_member(&mut e, "name", jstr(&u.name));
        push_member(&mut e, "uid", Json::U64(u.uid));
        push_member(&mut e, "gid", Json::U64(u.gid));
        push_member(&mut e, "gecos", jstr(&u.gecos));
        push_member(&mut e, "home", jstr(&u.home));
        push_member(&mut e, "shell", jstr(&u.shell));
        assert(jv_entries(e@) =~= seq![
            ("name"@, JsonV::Str(u.name@)),
            ("uid"@, JsonV::U64(u.uid)),
            ("gid"@, JsonV::U64(u.gid)),
            ("gecos"@, JsonV::Str(u.gecos@)),
            ("home"@, JsonV::Str(u.home@)),
            ("shell"@, JsonV::Str(u.shell@)),
        ]);
        push_item(&mut items, Json::Object(e));
        assert(users_view(users@).take(i + 1).map_values(|u: UserV| user_jv(u)) =~= users_view(users@).take(i as int).map_values(|u: UserV| user_jv(u)).push(user_jv(users@[i as int]@)));
        i = i + 1;
    }
    assert(users_view(users@).take(users.len() as int) =~= users_view(users@));
    listing(timestamp, "users", items)
}

pub open spec fn user_row(u: UserV) -> Seq<Seq<char>> {
    seq![u.name, dec(u.uid as nat), dec(u.gid as nat), u.gecos, u.home, u.shell]
}

/// Build the human-readable table via the shared renderer.
pub fn to_table(users: &[User]) -> (r: String)
    ensures
        r@ == table(
            seq!["Name"@, "UID"@, "GID"@, "Gecos"@, "Home"@, "Shell"@],
            users_view(users@).map_values(|u: UserV| user_row(u)),
            seq![Align::Left, Align::Right, Align::Right, Align::Left, Align::Left, Align::Left],
        ),
{
    let mut rows: Vec<Vec<String>> = Vec::new();
    let mut i: usize = 0;
    while i < users.len()
        invariant
            i <= users.len(),
            rows_view(rows@) == users_view(users@).take(i as int).map_values(|u: UserV| user_row(u)),
        decreases users.len() - i,
    {
        let u = &users[i];
        let row = vec![
            u.name.clone(),
            u64_to_string(u.uid),
            u64_to_string(u.gid),
            u.gecos.clone(),
            u.home.clone(),
            u.shell.clone(),
        ];
        assert(cells_view(row) =~= user_row(u@));
        let ghost before = rows@;
        rows.push(row);
        assert(rows_view(rows@) =~= rows_view(before).push(user_row(u@)));
        assert(users_view(users@).take(i + 1).map_values(|u: UserV| user_row(u)) =~= users_view(users@).take(i as int).map_values(|u: UserV| user_row(u)).push(user_row(users@[i as int]@)));
        i = i + 1;
    }
    assert(users_view(users@).take(users.len() as int) =~= users_view(users@));
    let headers = ["Name", "UID", "GID", "Gecos", "Home", "Shell"];
    let align = [Align::Left, Align::Right, Align::Right, Align::Left, Align::Left, Align::Left];
    assert(headers_view(headers@) =~= seq!["Name"@, "UID"@, "GID"@, "Gecos"@, "Home"@, "Shell"@]);
    assert(align@ =~= seq![Align::Left, Align::Right, Align::Right, Align::Left, Align::Left, Align::Left]);
    render(&headers, &rows, &align)
}

} // verus!
