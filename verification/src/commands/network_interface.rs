//! `get-network-interface`: configured OS network interfaces, from
//! `ip -o link` (per-interface link state) and `ip -o addr` (per-address
//! records); `-o` keeps each record on one line.
use vstd::prelude::*;
use crate::commands::common::{trim_end_char, trim_end_char_exec};
use crate::json::{jstr, jv, jv_entries, jv_items, listing, listing_jv, push_item, push_member, Json, JsonV};
use crate::table::{cells_view, headers_view, render, rows_view, table, Align};
use crate::text::{
    chars_of, chars_of_string, dec, eq, eq_str, join, join_exec, lemma_filter_map_step, lines,
    lines_exec, parse_u64_or_zero, parse_u64_or_zero_exec, split_once, split_once_exec, starts_with_str,
    string_of, to_string, u64_to_string, views, words, words_exec, extend, extend_str, dec_exec,
};

verus! {

pub struct Address {
    pub family: String,
    pub address: String,
    pub prefixlen: u64,
}

pub struct AddressV {
    pub family: Seq<char>,
    pub address: Seq<char>,
    pub prefixlen: u64,
}

impl View for Address {
    type V = AddressV;

    open spec fn view(&self) -> AddressV {
        AddressV { family: self.family@, address: self.address@, prefixlen: self.prefixlen }
    }
}

pub open spec fn addresses_view(v: Seq<Address>) -> Seq<AddressV> {
    v.map_values(|a: Address| a@)
}

/// Link facts of one interface: name, state, MAC, MTU.
pub struct LinkV {
    pub name: Seq<char>,
    pub state: Seq<char>,
    pub mac: Seq<char>,
    pub mtu: u64,
}

pub struct Interface {
    pub name: String,
    pub state: String,
    pub mac: String,
    pub mtu: u64,
    pub addresses: Vec<Address>,
}

pub struct InterfaceV {
    pub name: Seq<char>,
    pub state: Seq<char>,
    pub mac: Seq<char>,
    pub mtu: u64,
    pub addresses: Seq<AddressV>,
}

impl View for Interface {
    type V = InterfaceV;

    open spec fn view(&self) -> InterfaceV {
        InterfaceV {
            name: self.name@,
            state: self.state@,
            mac: self.mac@,
            mtu: self.mtu,
            addresses: addresses_view(self.addresses@),
        }
    }
}

pub open spec fn interfaces_view(v: Seq<Interface>) -> Seq<InterfaceV> {
    v.map_values(|i: Interface| i@)
}

/// Which tokens introduce an attribute of an `ip -o link` record.
pub enum LinkTag {
    Mtu,
    State,
    Link,
}

pub open spec fn tag_matches(t: LinkTag, tok: Seq<char>) -> bool {
    match t {
        LinkTag::Mtu => tok == "mtu"@,
        LinkTag::State => tok == "state"@,
        LinkTag::Link => "link/"@.is_prefix_of(tok),
    }
}

/// The token after the last of the first `n` tokens that carries tag `t`
/// and has a successor: later occurrences win.
pub open spec fn attr_in(f: Seq<Seq<char>>, n: int, t: LinkTag) -> Option<Seq<char>>
    decreases n,
{
    if n <= 0 {
        None
    } else if tag_matches(t, f[n - 1]) && n < f.len() {
        Some(f[n])
    } else {
        attr_in(f, n - 1, t)
    }
}

pub open spec fn or_empty(v: Option<Seq<char>>) -> Seq<char> {
    match v {
        Some(t) => t,
        None => seq![],
    }
}

/// One `ip -o link` record, e.g.
/// `2: enp0s31f6: <...> mtu 1500 qdisc ... state UP mode ...\    link/ether aa:bb ...`:
/// the name is the second token without trailing colons; the MTU, state and
/// MAC are the tokens after `mtu`, `state` and `link/...` (empty, or 0 for
/// the MTU, when absent or unparsable). Lines with fewer than two tokens hold
/// no interface.
pub open spec fn link_line(line: Seq<char>) -> Option<LinkV> {
    let f = words(line);
    if f.len() < 2 {
        None
    } else {
        Some(
            LinkV {
                name: trim_end_char(f[1], ':'),
                state: or_empty(attr_in(f, f.len() as int, LinkTag::State)),
                mac: or_empty(attr_in(f, f.len() as int, LinkTag::Link)),
                mtu: match attr_in(f, f.len() as int, LinkTag::Mtu) {
                    Some(v) => parse_u64_or_zero(v),
                    None => 0,
                },
            },
        )
    }
}

/// Parse one `ip -o link` record into (name, state, mac, mtu).
pub fn parse_link(line: &str) -> (r: Option<(String, String, String, u64)>)
    ensures
        match link_line(line@) {
            Some(l) => r is Some && (r->0).0@ == l.name && (r->0).1@ == l.state && (r->0).2@ == l.mac && (r->0).3 == l.mtu,
            None => r is None,
        },
{
    let l = chars_of(line);
    let fields = words_exec(&l);
    let ghost fv = views(fields@);
    if fields.len() < 2 {
        return None;
    }
    assert(fv[1] == fields@[1]@);
    let name = to_string(&trim_end_char_exec(&fields[1], ':'));
    let mut state = String::new();
    let mut mac = String::new();
    let mut mtu: u64 = 0;
    let mut i: usize = 0;
    while i < fields.len()
        invariant
            i <= fields.len(),
            fv == views(fields@),
            state@ == or_empty(attr_in(fv, i as int, LinkTag::State)),
            mac@ == or_empty(attr_in(fv, i as int, LinkTag::Link)),
            mtu == match attr_in(fv, i as int, LinkTag::Mtu) {
                Some(v) => parse_u64_or_zero(v),
                None => 0,
            },
        decreases fields.len() - i,
    {
        let f = &fields[i];
        assert(fv[i as int] == f@);
        if i + 1 < fields.len() {
            assert(fv[i + 1] == fields@[i + 1]@);
        }
        let is_mtu = eq_str(f, "mtu");
        let is_state = eq_str(f, "state");
        let is_link = starts_with_str(f, "link/");
        if is_mtu {
            if i + 1 < fields.len() {
                mtu = parse_u64_or_zero_exec(&fields[i + 1]);
            }
        } else if is_state {
            if i + 1 < fields.len() {
                state = to_string(&fields[i + 1]);
            }
        } else if is_link {
            if i + 1 < fields.len() {
                mac = to_string(&fields[i + 1]);
            }
        }
        proof {
            reveal_strlit("mtu");
            reveal_strlit("state");
            reveal_strlit("link/");
            assert("mtu"@.len() == 3 && "state"@.len() == 5);
            if is_link {
                assert("link/"@[0] == f@[0]);
                assert(f@[0] == 'l');
            }
            if is_mtu {
                assert(f@[0] == 'm');
                assert(!"link/"@.is_prefix_of(f@));
            }
            if is_state {
                assert(f@[0] == 's');
                assert(!"link/"@.is_prefix_of(f@));
            }
        }
        i = i + 1;
    }
    Some((name, state, mac, mtu))
}

/// One `ip -o addr` record, e.g. `2: enp0s31f6    inet 10.0.0.2/22 brd ...`:
/// the interface name (second token) with the address: `inet` reads as
/// `ipv4`, `inet6` as `ipv6` (other families unchanged), and the
/// `address/prefix` token splits at its first `/` (prefix 0 when absent or
/// unparsable). Lines with fewer than four tokens hold no address.
pub open spec fn addr_line(line: Seq<char>) -> Option<(Seq<char>, AddressV)> {
    let f = words(line);
    if f.len() < 4 {
        None
    } else {
        let family = if f[2] == "inet"@ {
            "ipv4"@
        } else if f[2] == "inet6"@ {
            "ipv6"@
        } else {
            f[2]
        };
        let (address, prefixlen) = match split_once(f[3], '/') {
            Some((a, p)) => (a, parse_u64_or_zero(p)),
            None => (f[3], 0u64),
        };
        Some((f[1], AddressV { family, address, prefixlen }))
    }
}

/// Parse one `ip -o addr` record into (interface name, address).
pub fn parse_addr(line: &str) -> (r: Option<(String, Address)>)
    ensures
        match addr_line(line@) {
            Some((n, a)) => r is Some && (r->0).0@ == n && (r->0).1@ == a,
            None => r is None,
        },
{
    let l = chars_of(line);
    let f = words_exec(&l);
    if f.len() < 4 {
        return None;
    }
    assert(views(f@)[1] == f@[1]@);
    assert(views(f@)[2] == f@[2]@);
    assert(views(f@)[3] == f@[3]@);
    let family = if eq_str(&f[2], "inet") {
        string_of("ipv4")
    } else if eq_str(&f[2], "inet6") {
        string_of("ipv6")
    } else {
        to_string(&f[2])
    };
    let (address, prefixlen) = match split_once_exec(&f[3], '/') {
        Some((a, p)) => (to_string(&a), parse_u64_or_zero_exec(&p)),
        None => (to_string(&f[3]), 0u64),
    };
    Some((to_string(&f[1]), Address { family, address, prefixlen }))
}

pub open spec fn link_parser() -> spec_fn(Seq<char>) -> Option<LinkV> {
    |l: Seq<char>| link_line(l)
}

pub open spec fn addr_parser() -> spec_fn(Seq<char>) -> Option<(Seq<char>, AddressV)> {
    |l: Seq<char>| addr_line(l)
}

/// The addresses recorded for interface `name`, in order.
pub open spec fn addrs_for(addrs: Seq<(Seq<char>, AddressV)>, name: Seq<char>) -> Seq<AddressV>
    decreases addrs.len(),
{
    if addrs.len() == 0 {
        seq![]
    } else {
        addrs_for(addrs.drop_last(), name) + if addrs.last().0 == name {
            seq![addrs.last().1]
        } else {
            seq![]
        }
    }
}

/// The interfaces: one per `ip -o link` record, in order; each address
/// record is attached to the first interface of its name (records naming no
/// interface are dropped).
pub open spec fn interfaces_of(link_text: Seq<char>, addr_text: Seq<char>) -> Seq<InterfaceV> {
    let ls = lines(link_text).filter_map(link_parser());
    let addrs = lines(addr_text).filter_map(addr_parser());
    Seq::new(
        ls.len(),
        |i: int|
            InterfaceV {
                name: ls[i].name,
                state: ls[i].state,
                mac: ls[i].mac,
                mtu: ls[i].mtu,
                addresses: if exists|j: int| 0 <= j < i && ls[j].name == ls[i].name {
                    seq![]
                } else {
                    addrs_for(addrs, ls[i].name)
                },
            },
    )
}

fn clone_address(a: &Address) -> (r: Address)
    ensures
        r@ == a@,
{
    Address { family: a.family.clone(), address: a.address.clone(), prefixlen: a.prefixlen }
}

/// Collect interfaces from the `ip -o link` and `ip -o addr` outputs,
/// attaching addresses to their interface.
pub fn build_interfaces(link_text: &str, addr_text: &str) -> (r: Vec<Interface>)
    ensures
        interfaces_view(r@) == interfaces_of(link_text@, addr_text@),
{
    // Link records.
    let lt = chars_of(link_text);
    let lls = lines_exec(&lt);
    let ghost llv = views(lls@);
    let mut links: Vec<(String, String, String, u64)> = Vec::new();
    let mut i: usize = 0;
    while i < lls.len()
        invariant
            i <= lls.len(),
            llv == views(lls@),
            llv == lines(link_text@),
            links@.map_values(|l: (String, String, String, u64)| LinkV { name: l.0@, state: l.1@, mac: l.2@, mtu: l.3 })
                == llv.take(i as int).filter_map(link_parser()),
        decreases lls.len() - i,
    {
        proof {
            lemma_filter_map_step(llv, link_parser(), i as int);
        }
        assert(llv[i as int] == lls@[i as int]@);
        let s = to_string(&lls[i]);
        let ghost before = links@;
        match parse_link(s.as_str()) {
            Some(l) => {
                links.push(l);
                assert(links@.map_values(|l: (String, String, String, u64)| LinkV { name: l.0@, state: l.1@, mac: l.2@, mtu: l.3 })
                    =~= before.map_values(|l: (String, String, String, u64)| LinkV { name: l.0@, state: l.1@, mac: l.2@, mtu: l.3 }).push(link_line(s@)->0));
            },
            None => {},
        }
        i = i + 1;
    }
    assert(llv.take(lls.len() as int) =~= llv);
    let ghost lsv = lines(link_text@).filter_map(link_parser());
    // Address records.
    let at = chars_of(addr_text);
    let als = lines_exec(&at);
    let ghost alv = views(als@);
    let mut addrs: Vec<(String, Address)> = Vec::new();
    let mut k: usize = 0;
    while k < als.len()
        invariant
            k <= als.len(),
            alv == views(als@),
            alv == lines(addr_text@),
            addrs@.map_values(|p: (String, Address)| (p.0@, p.1@)) == alv.take(k as int).filter_map(addr_parser()),
        decreases als.len() - k,
    {
        proof {
            lemma_filter_map_step(alv, addr_parser(), k as int);
        }
        assert(alv[k as int] == als@[k as int]@);
        let s = to_string(&als[k]);
        let ghost before = addrs@;
        match parse_addr(s.as_str()) {
            Some(p) => {
                addrs.push(p);
                assert(addrs@.map_values(|p: (String, Address)| (p.0@, p.1@)) =~= before.map_values(|p: (String, Address)| (p.0@, p.1@)).push(addr_line(s@)->0));
            },
            None => {},
        }
        k = k + 1;
    }
    assert(alv.take(als.len() as int) =~= alv);
    let ghost av = addrs@.map_values(|p: (String, Address)| (p.0@, p.1@));
    // Interfaces with their addresses.
    let mut out: Vec<Interface> = Vec::new();
    let mut j: usize = 0;
    while j < links.len()
        invariant
            j <= links.len(),
            av == addrs@.map_values(|p: (String, Address)| (p.0@, p.1@)),
            av == lines(addr_text@).filter_map(addr_parser()),
            lsv == lines(link_text@).filter_map(link_parser()),
            lsv == links@.map_values(|l: (String, String, String, u64)| LinkV { name: l.0@, state: l.1@, mac: l.2@, mtu: l.3 }),
            interfaces_view(out@) == interfaces_of(link_text@, addr_text@).take(j as int),
        decreases links.len() - j,
    {
        let name = chars_of_string(&links[j].0);
        assert(lsv[j as int].name == name@);
        // Is there an earlier interface of the same name?
        let mut seen = false;
        let mut q: usize = 0;
        while q < j
            invariant
                q <= j < links.len(),
                lsv == links@.map_values(|l: (String, String, String, u64)| LinkV { name: l.0@, state: l.1@, mac: l.2@, mtu: l.3 }),
                name@ == lsv[j as int].name,
                seen == exists|x: int| 0 <= x < q && lsv[x].name == lsv[j as int].name,
            decreases j - q,
        {
            let other = chars_of_string(&links[q].0);
            assert(lsv[q as int].name == other@);
            if eq(&other, &name) {
                seen = true;
            }
            q = q + 1;
        }
        let mut mine: Vec<Address> = Vec::new();
        if !seen {
            let mut x: usize = 0;
            while x < addrs.len()
                invariant
                    x <= addrs.len(),
                    av == addrs@.map_values(|p: (String, Address)| (p.0@, p.1@)),
                    addresses_view(mine@) == addrs_for(av.take(x as int), name@),
                decreases addrs.len() - x,
            {
                assert(av.take(x + 1).drop_last() =~= av.take(x as int));
                assert(av[x as int] == (addrs@[x as int].0@, addrs@[x as int].1@));
                let an = chars_of_string(&addrs[x].0);
                let ghost before = mine@;
                if eq(&an, &name) {
                    mine.push(clone_address(&addrs[x].1));
                    assert(addresses_view(mine@) =~= addresses_view(before) + seq![addrs@[x as int].1@]);
                } else {
                    assert(addresses_view(mine@) =~= addresses_view(before) + Seq::<AddressV>::empty());
                }
                x = x + 1;
            }
            assert(av.take(addrs.len() as int) =~= av);
        } else {
            assert(addresses_view(mine@) =~= Seq::<AddressV>::empty());
        }
        let iface = Interface {
            name: links[j].0.clone(),
            state: links[j].1.clone(),
            mac: links[j].2.clone(),
            mtu: links[j].3,
            addresses: mine,
        };
        proof {
            let full = interfaces_of(link_text@, addr_text@);
            assert(lsv[j as int] == LinkV {
                name: links@[j as int].0@,
                state: links@[j as int].1@,
                mac: links@[j as int].2@,
                mtu: links@[j as int].3,
            });
            assert(full.len() == lsv.len());
            assert(iface@.addresses == full[j as int].addresses);
            assert(iface@ == full[j as int]);
        }
        let ghost before = out@;
        out.push(iface);
        assert(interfaces_view(out@) =~= interfaces_view(before).push(iface@));
        assert(interfaces_of(link_text@, addr_text@).take(j + 1) =~= interfaces_of(link_text@, addr_text@).take(j as int).push(iface@));
        j = j + 1;
    }
    assert(interfaces_of(link_text@, addr_text@).take(links.len() as int) =~= interfaces_of(link_text@, addr_text@));
    out
}

pub open spec fn address_jv(a: AddressV) -> JsonV {
    JsonV::Object(
        seq![
            ("family"@, JsonV::Str(a.family)),
            ("address"@, JsonV::Str(a.address)),
            ("prefixlen"@, JsonV::U64(a.prefixlen)),
        ],
    )
}

pub open spec fn interface_jv(i: InterfaceV) -> JsonV {
    JsonV::Object(
        seq![
            ("name"@, JsonV::Str(i.name)),
            ("state"@, JsonV::Str(i.state)),
            ("mac"@, JsonV::Str(i.mac)),
            ("mtu"@, JsonV::U64(i.mtu)),
            ("addresses"@, JsonV::Array(i.addresses.map_values(|a: AddressV| address_jv(a)))),
        ],
    )
}

fn interface_json(it: &Interface) -> (r: Json)
    ensures
        jv(r) == interface_jv(it@),
{
    let mut addrs: Vec<Json> = Vec::new();
    let mut k: usize = 0;
    while k < it.addresses.len()
        invariant
            k <= it.addresses.len(),
            jv_items(addrs@) == addresses_view(it.addresses@).take(k as int).map_values(|a: AddressV| address_jv(a)),
        decreases it.addresses.len() - k,
    {
        let a = &it.addresses[k];
        let mut e: Vec<(String, Json)> = Vec::new();
        push_member(&mut e, "family", jstr(&a.family));
        push_member(&mut e, "address", jstr(&a.address));
        push_member(&mut e, "prefixlen", Json::U64(a.prefixlen));
        assert(jv_entries(e@) =~= seq![
            ("family"@, JsonV::Str(a.family@)),
            ("address"@, JsonV::Str(a.address@)),
            ("prefixlen"@, JsonV::U64(a.prefixlen)),
        ]);
        push_item(&mut addrs, Json::Object(e));
        assert(addresses_view(it.addresses@).take(k + 1).map_values(|a: AddressV| address_jv(a)) =~= addresses_view(it.addresses@).take(k as int).map_values(|a: AddressV| address_jv(a)).push(address_jv(it.addresses@[k as int]@)));
        k = k + 1;
    }
    assert(addresses_view(it.addresses@).take(it.addresses.len() as int) =~= addresses_view(it.addresses@));
    let mut e: Vec<(String, Json)> = Vec::new();
    push_member(&mut e, "name", jstr(&it.name));
    push_member(&mut e, "state", jstr(&it.state));
    push_member(&mut e, "mac", jstr(&it.mac));
    push_member(&mut e, "mtu", Json::U64(it.mtu));
    push_member(&mut e, "addresses", Json::Array(addrs));
    assert(jv_entries(e@) =~= seq![
        ("name"@, JsonV::Str(it.name@)),
        ("state"@, JsonV::Str(it.state@)),
        ("mac"@, JsonV::Str(it.mac@)),
        ("mtu"@, JsonV::U64(it.mtu)),
        ("addresses"@, JsonV::Array(it@.addresses.map_values(|a: AddressV| address_jv(a)))),
    ]);
    Json::Object(e)
}

/// Build the structured JSON value: `{ timestamp, interfaces: [...] }`.
pub fn to_json(interfaces: &[Interface], timestamp: &String) -> (r: Json)
    ensures
        jv(r) == listing_jv(timestamp@, "interfaces"@, interfaces_view(interfaces@).map_values(|i: InterfaceV| interface_jv(i))),
{
    let mut items: Vec<Json> = Vec::new();
    let mut i: usize = 0;
    while i < interfaces.len()
        invariant
            i <= interfaces.len(),
            jv_items(items@) == interfaces_view(interfaces@).take(i as int).map_values(|i: InterfaceV| interface_jv(i)),
        decreases interfaces.len() - i,
    {
        push_item(&mut items, interface_json(&interfaces[i]));
        assert(interfaces_view(interfaces@).take(i + 1).map_values(|i: InterfaceV| interface_jv(i)) =~= interfaces_view(interfaces@).take(i as int).map_values(|i: InterfaceV| interface_jv(i)).push(interface_jv(interfaces@[i as int]@)));
        i = i + 1;
    }
    assert(interfaces_view(interfaces@).take(interfaces.len() as int) =~= interfaces_view(interfaces@));
    listing(timestamp, "interfaces", items)
}

/// `address/prefix` for one address.
pub open spec fn address_text(a: AddressV) -> Seq<char> {
    a.address + seq!['/'] + dec(a.prefixlen as nat)
}

pub open spec fn interface_row(i: InterfaceV) -> Seq<Seq<char>> {
    seq![
        i.name,
        i.state,
        i.mac,
        dec(i.mtu as nat),
        join(i.addresses.map_values(|a: AddressV| address_text(a)), seq![',', ' ']),
    ]
}

fn addresses_text(it: &Interface) -> (r: String)
    ensures
        r@ == join(it@.addresses.map_values(|a: AddressV| address_text(a)), seq![',', ' ']),
{
    let mut parts: Vec<Vec<char>> = Vec::new();
    let mut k: usize = 0;
    while k < it.addresses.len()
        invariant
            k <= it.addresses.len(),
            views(parts@) == addresses_view(it.addresses@).take(k as int).map_values(|a: AddressV| address_text(a)),
        decreases it.addresses.len() - k,
    {
        let a = &it.addresses[k];
        let mut t = chars_of_string(&a.address);
        t.push('/');
        let d = dec_exec(a.prefixlen);
        extend(&mut t, &d);
        assert(t@ =~= address_text(a@));
        let ghost before = parts@;
        parts.push(t);
        assert(views(parts@) =~= views(before).push(address_text(a@)));
        assert(addresses_view(it.addresses@).take(k + 1).map_values(|a: AddressV| address_text(a)) =~= addresses_view(it.addresses@).take(k as int).map_values(|a: AddressV| address_text(a)).push(address_text(it.addresses@[k as int]@)));
        k = k + 1;
    }
    assert(addresses_view(it.addresses@).take(it.addresses.len() as int) =~= addresses_view(it.addresses@));
    let sep = [',', ' '];
    assert(sep@ =~= seq![',', ' ']);
    to_string(&join_exec(&parts, &sep))
}

/// Build the human-readable table; addresses are summarised per row.
pub fn to_table(interfaces: &[Interface]) -> (r: String)
    ensures
        r@ == table(
            seq!["Name"@, "State"@, "MAC"@, "MTU"@, "Addresses"@],
            interfaces_view(interfaces@).map_values(|i: InterfaceV| interface_row(i)),
            seq![Align::Left, Align::Left, Align::Left, Align::Right, Align::Left],
        ),
{
    let mut rows: Vec<Vec<String>> = Vec::new();
    let mut i: usize = 0;
    while i < interfaces.len()
        invariant
            i <= interfaces.len(),
            rows_view(rows@) == interfaces_view(interfaces@).take(i as int).map_values(|i: InterfaceV| interface_row(i)),
        decreases interfaces.len() - i,
    {
        let it = &interfaces[i];
        let row = vec![it.name.clone(), it.state.clone(), it.mac.clone(), u64_to_string(it.mtu), addresses_text(it)];
        assert(cells_view(row) =~= interface_row(it@));
        let ghost before = rows@;
        rows.push(row);
        assert(rows_view(rows@) =~= rows_view(before).push(interface_row(it@)));
        assert(interfaces_view(interfaces@).take(i + 1).map_values(|i: InterfaceV| interface_row(i)) =~= interfaces_view(interfaces@).take(i as int).map_values(|i: InterfaceV| interface_row(i)).push(interface_row(interfaces@[i as int]@)));
        i = i + 1;
    }
    assert(interfaces_view(interfaces@).take(interfaces.len() as int) =~= interfaces_view(interfaces@));
    let headers = ["Name", "State", "MAC", "MTU", "Addresses"];
    let align = [Align::Left, Align::Left, Align::Left, Align::Right, Align::Left];
    assert(headers_view(headers@) =~= seq!["Name"@, "State"@, "MAC"@, "MTU"@, "Addresses"@]);
    assert(align@ =~= seq![Align::Left, Align::Left, Align::Left, Align::Right, Align::Left]);
    render(&headers, &rows, &align)
}

} // verus!
