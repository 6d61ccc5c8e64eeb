//! `get-video-device`: video/display PCI controllers and their kernel
//! drivers, from `lspci -k`, keeping the VGA / 3D / Display controller classes.
use vstd::prelude::*;
use crate::commands::common::{opt_text, or_text};
use crate::commands::network_adapter::opt_seq;
use crate::json::{jopt_str, jstr, jv, jv_entries, jv_items, listing, listing_jv, opt_str_jv, push_item, push_member, Json, JsonV};
use crate::table::{cells_view, headers_view, render, rows_view, table, Align};
use crate::text::{
    chars_of, contains, contains_exec, lines, lines_exec, split_once, split_once_exec, split_once_str,
    split_once_str_exec, strip_prefix, strip_prefix_exec, to_string, trim, trim_exec, views, find, find_str,
    lemma_find, lemma_find_unique, lemma_find_str_unique, occurs_at,
};

verus! {

pub struct VideoDevice {
    pub slot: String,
    pub description: String,
    /// Value of `Kernel driver in use`, or `None` when no driver is bound.
    pub driver: Option<String>,
}

pub struct VideoDeviceV {
    pub slot: Seq<char>,
    pub description: Seq<char>,
    pub driver: Option<Seq<char>>,
}

impl View for VideoDevice {
    type V = VideoDeviceV;

    open spec fn view(&self) -> VideoDeviceV {
        VideoDeviceV {
            slot: self.slot@,
            description: self.description@,
            driver: match self.driver {
                Some(d) => Some(d@),
                None => None,
            },
        }
    }
}

pub open spec fn video_devices_view(v: Seq<VideoDevice>) -> Seq<VideoDeviceV> {
    v.map_values(|d: VideoDevice| d@)
}

/// True for PCI classes that represent a video/display adapter.
pub open spec fn display_class(class: Seq<char>) -> bool {
    contains(class, "VGA compatible controller"@) || contains(class, "3D controller"@) || contains(
        class,
        "Display controller"@,
    )
}

/// True for PCI classes that represent a video/display adapter.
pub fn is_display_class(class: &str) -> (r: bool)
    ensures
        r == display_class(class@),
{
    let c = chars_of(class);
    contains_exec(&c, "VGA compatible controller") || contains_exec(&c, "3D controller")
        || contains_exec(&c, "Display controller")
}

/// The device a header line `<slot> <class>: <description>` starts, if its
/// class is a display class.
pub open spec fn header_device(line: Seq<char>) -> Option<VideoDeviceV> {
    match split_once(line, ' ') {
        Some((slot, rest)) => match split_once_str(rest, ": "@) {
            Some((class, description)) => if display_class(class) {
                Some(VideoDeviceV { slot, description, driver: None })
            } else {
                None
            },
            None => None,
        },
        None => None,
    }
}

/// Law: a device header line `<slot> <class>: <description>` (a slot without
/// spaces, a class without colons) starts a video device exactly when its
/// class names a VGA compatible, 3D or Display controller; the device then
/// has that slot and description and no driver yet.
pub proof fn lemma_display_header(slot: Seq<char>, class: Seq<char>, description: Seq<char>)
    requires
        forall|k: int| 0 <= k < slot.len() ==> slot[k] != ' ',
        forall|k: int| 0 <= k < class.len() ==> class[k] != ':',
    ensures
        header_device(slot + seq![' '] + class + ": "@ + description) == if contains(class, "VGA compatible controller"@)
            || contains(class, "3D controller"@) || contains(class, "Display controller"@) {
            Some(VideoDeviceV { slot, description, driver: None })
        } else {
            None
        },
{
    reveal_strlit(": ");
    let line = slot + seq![' '] + class + ": "@ + description;
    let rest = class + ": "@ + description;
    assert(line =~= slot + seq![' '] + rest);
    assert(line[slot.len() as int] == ' ');
    assert forall|j: int| 0 <= j < slot.len() implies line[j] != ' ' by {
        assert(line[j] == slot[j]);
    }
    lemma_find_unique(line, ' ', slot.len() as int);
    assert(line.take(slot.len() as int) =~= slot);
    assert(line.skip(slot.len() as int + 1) =~= rest);
    assert forall|j: int| 0 <= j < class.len() implies !occurs_at(rest, ": "@, j) by {
        assert(rest[j] == class[j]);
        if occurs_at(rest, ": "@, j) {
            assert(rest.subrange(j, j + 2)[0] == rest[j]);
        }
    }
    lemma_find_str_unique(rest, ": "@, class.len() as int);
    assert(rest.skip(class.len() as int) =~= ": "@ + description);
    assert(": "@.is_prefix_of(rest.skip(class.len() as int)));
    assert(rest.take(class.len() as int) =~= class);
    assert(rest.skip(class.len() as int + 2) =~= description);
}

/// Law (the `Display controller` class): `<slot> Display controller: <description>`
/// starts a device for every slot without spaces and every description.
pub proof fn lemma_display_controller_header(slot: Seq<char>, description: Seq<char>)
    requires
        forall|k: int| 0 <= k < slot.len() ==> slot[k] != ' ',
    ensures
        header_device(slot + seq![' '] + "Display controller"@ + ": "@ + description) == Some(
            VideoDeviceV { slot, description, driver: None },
        ),
{
    reveal_strlit("Display controller");
    let c = "Display controller"@;
    assert(occurs_at(c, c, 0)) by {
        assert(c.subrange(0, c.len() as int) =~= c);
    }
    lemma_display_header(slot, c, description);
}

/// A device after one of its indented detail lines.
pub open spec fn with_driver_line(d: VideoDeviceV, line: Seq<char>) -> VideoDeviceV {
    match strip_prefix(trim(line), "Kernel driver in use:"@) {
        Some(drv) => VideoDeviceV { driver: Some(trim(drv)), ..d },
        None => d,
    }
}

/// The display devices of `lspci -k` lines, with `cur` the device whose
/// record is under way. Lines starting with a space or tab are details.
pub open spec fn devices_from(ls: Seq<Seq<char>>, cur: Option<VideoDeviceV>) -> Seq<VideoDeviceV>
    decreases ls.len(),
{
    if ls.len() == 0 {
        opt_seq(cur)
    } else {
        let line = ls[0];
        if !(line.len() > 0 && (line[0] == ' ' || line[0] == '\t')) {
            opt_seq(cur) + devices_from(ls.drop_first(), header_device(line))
        } else {
            devices_from(
                ls.drop_first(),
                match cur {
                    Some(d) => Some(with_driver_line(d, line)),
                    None => None,
                },
            )
        }
    }
}

fn parse_header(line: &Vec<char>) -> (r: Option<VideoDevice>)
    ensures
        match header_device(line@) {
            Some(d) => r is Some && r->0@ == d,
            None => r is None,
        },
{
    match split_once_exec(line, ' ') {
        Some((slot, rest)) => match split_once_str_exec(&rest, ": ") {
            Some((class, description)) => {
                let cs = to_string(&class);
                if is_display_class(cs.as_str()) {
                    Some(VideoDevice { slot: to_string(&slot), description: to_string(&description), driver: None })
                } else {
                    None
                }
            },
            None => None,
        },
        None => None,
    }
}

fn apply_detail(d: &mut VideoDevice, line: &Vec<char>)
    ensures
        final(d)@ == with_driver_line(old(d)@, line@),
{
    let t = trim_exec(line);
    match strip_prefix_exec(&t, "Kernel driver in use:") {
        Some(drv) => {
            d.driver = Some(to_string(&trim_exec(&drv)));
        },
        None => {},
    }
}

/// Parse `lspci -k` output, keeping only display devices and their bound driver.
pub fn parse_devices(text: &str) -> (r: Vec<VideoDevice>)
    ensures
        video_devices_view(r@) == devices_from(lines(text@), None),
{
    let t = chars_of(text);
    let ls = lines_exec(&t);
    let ghost lv = views(ls@);
    let mut devices: Vec<VideoDevice> = Vec::new();
    let mut current: Option<VideoDevice> = None;
    let mut i: usize = 0;
    assert(lv.skip(0) =~= lv);
    while i < ls.len()
        invariant
            i <= ls.len(),
            lv == views(ls@),
            lv == lines(text@),
            video_devices_view(devices@) + devices_from(
                lv.skip(i as int),
                match current {
                    Some(d) => Some(d@),
                    None => None,
                },
            ) == devices_from(lv, None),
        decreases ls.len() - i,
    {
        let line = &ls[i];
        assert(lv.skip(i as int)[0] == line@);
        assert(lv.skip(i as int).drop_first() =~= lv.skip(i + 1));
        let indented = line.len() > 0 && (line[0] == ' ' || line[0] == '\t');
        if !indented {
            let ghost before = devices@;
            match current {
                Some(d) => {
                    devices.push(d);
                    assert(video_devices_view(devices@) =~= video_devices_view(before) + seq![d@]);
                },
                None => {
                    assert(video_devices_view(devices@) =~= video_devices_view(before) + Seq::<VideoDeviceV>::empty());
                },
            }
            current = parse_header(line);
        } else {
            match current {
                Some(mut d) => {
                    apply_detail(&mut d, line);
                    current = Some(d);
                },
                None => {},
            }
        }
        i = i + 1;
    }
    assert(lv.skip(i as int) =~= Seq::<Seq<char>>::empty());
    let ghost before = devices@;
    match current {
        Some(d) => {
            devices.push(d);
            assert(video_devices_view(devices@) =~= video_devices_view(before) + seq![d@]);
        },
        None => {
            assert(video_devices_view(devices@) =~= video_devices_view(before) + Seq::<VideoDeviceV>::empty());
        },
    }
    devices
}

pub open spec fn opt_jv(v: Option<Seq<char>>) -> JsonV {
    match v {
        Some(t) => JsonV::Str(t),
        None => JsonV::Null,
    }
}

pub open spec fn video_device_jv(d: VideoDeviceV) -> JsonV {
    JsonV::Object(
        seq![
            ("slot"@, JsonV::Str(d.slot)),
            ("description"@, JsonV::Str(d.description)),
            ("driver"@, opt_jv(d.driver)),
        ],
    )
}

/// Build the structured JSON value: `{ timestamp, devices: [...] }`.
pub fn to_json(devices: &[VideoDevice], timestamp: &String) -> (r: Json)
    ensures
        jv(r) == listing_jv(timestamp@, "devices"@, video_devices_view(devices@).map_values(|d: VideoDeviceV| video_device_jv(d))),
{
    let mut items: Vec<Json> = Vec::new();
    let mut i: usize = 0;
    while i < devices.len()
        invariant
            i <= devices.len(),
            jv_items(items@) == video_devices_view(devices@).take(i as int).map_values(|d: VideoDeviceV| video_device_jv(d)),
        decreases devices.len() - i,
    {
        let d = &devices[i];
        let mut e: Vec<(String, Json)> = Vec::new();
        push_member(&mut e, "slot", jstr(&d.slot));
        push_member(&mut e, "description", jstr(&d.description));
        push_member(&mut e, "driver", jopt_str(&d.driver));
        assert(opt_str_jv(d.driver) == opt_jv(d@.driver));
        assert(jv_entries(e@) =~= seq![
            ("slot"@, JsonV::Str(d.slot@)),
            ("description"@, JsonV::Str(d.description@)),
            ("driver"@, opt_jv(d@.driver)),
        ]);
        push_item(&mut items, Json::Object(e));
        assert(video_devices_view(devices@).take(i + 1).map_values(|d: VideoDeviceV| video_device_jv(d)) =~= video_devices_view(devices@).take(i as int).map_values(|d: VideoDeviceV| video_device_jv(d)).push(video_device_jv(devices@[i as int]@)));
        i = i + 1;
    }
    assert(video_devices_view(devices@).take(devices.len() as int) =~= video_devices_view(devices@));
    listing(timestamp, "devices", items)
}

pub open spec fn video_device_row(d: VideoDeviceV) -> Seq<Seq<char>> {
    seq![d.slot, d.description, opt_text(d.driver)]
}

/// Build the human-readable table via the shared renderer.
pub fn to_table(devices: &[VideoDevice]) -> (r: String)
    ensures
        r@ == table(
            seq!["Slot"@, "Description"@, "Driver"@],
            video_devices_view(devices@).map_values(|d: VideoDeviceV| video_device_row(d)),
            seq![Align::Left, Align::Left, Align::Left],
        ),
{
    let mut rows: Vec<Vec<String>> = Vec::new();
    let mut i: usize = 0;
    while i < devices.len()
        invariant
            i <= devices.len(),
            rows_view(rows@) == video_devices_view(devices@).take(i as int).map_values(|d: VideoDeviceV| video_device_row(d)),
        decreases devices.len() - i,
    {
        let d = &devices[i];
        let row = vec![d.slot.clone(), d.description.clone(), or_text(&d.driver, "-")];
        assert(cells_view(row) =~= video_device_row(d@));
        let ghost before = rows@;
        rows.push(row);
        assert(rows_view(rows@) =~= rows_view(before).push(video_device_row(d@)));
        assert(video_devices_view(devices@).take(i + 1).map_values(|d: VideoDeviceV| video_device_row(d)) =~= video_devices_view(devices@).take(i as int).map_values(|d: VideoDeviceV| video_device_row(d)).push(video_device_row(devices@[i as int]@)));
        i = i + 1;
    }
    assert(video_devices_view(devices@).take(devices.len() as int) =~= video_devices_view(devices@));
    let headers = ["Slot", "Description", "Driver"];
    let align = [Align::Left, Align::Left, Align::Left];
    assert(headers_view(headers@) =~= seq!["Slot"@, "Description"@, "Driver"@]);
    assert(align@ =~= seq![Align::Left, Align::Left, Align::Left]);
    render(&headers, &rows, &align)
}

} // verus!
