//! The device picker's list: devices in order, each a rounded container
//! holding the cards of its connected apps (or a waiting row), with the
//! ids of the selectable apps in list order.

use vstd::prelude::*;
use crate::text::strings::{owned, same_text, views};
use crate::transport::device::{Device, DeviceKind};
use crate::ui::device_picker::{short_id_spec, shorten_id};
use crate::ui::picker_rows::{
    app_card_rows, blank_span, device_bottom_row, device_row, device_top_row, gap, lines_view,
    push_app_card, push_device_bottom, push_device_inner_blank, push_device_top, push_waiting_row,
    waiting_interior, LineView, PickerLine, Tone,
};

verus! {

/// A connected app as the picker lists it.
pub struct PickerApp {
    pub id: String,
    pub device_id: String,
    pub app_name: String,
    pub app_version: String,
    pub package_name: String,
    pub os: String,
    pub build_mode: String,
    pub port: u16,
}

/// Columns between the modal edge and a device container.
pub const DEVICE_GUTTER: u16 = 1;

/// Columns between a device container's side and an app card.
pub const CARD_INDENT: u16 = 3;

/// The width of a device container in a modal interior `inner_w` wide.
pub open spec fn device_width(inner_w: nat) -> nat {
    gap(inner_w as int, 2)
}

/// The width of an app card in a modal interior `inner_w` wide.
pub open spec fn card_width(inner_w: nat) -> nat {
    gap(device_width(inner_w) as int, 6)
}

/// A row of base background across the interior.
pub open spec fn plain_row(inner_w: nat) -> LineView {
    (seq![blank_span(inner_w, Tone::Base)], None)
}

/// The blank row inside a device container.
pub open spec fn inner_blank_row(inner_w: nat) -> LineView {
    device_row(inner_w, device_width(inner_w), 1, seq![blank_span(gap(device_width(inner_w) as int, 2), Tone::Mantle)])
}

/// `i` is the first device with id `id`.
pub open spec fn is_first_device(devs: Seq<Device>, id: Seq<char>, i: int) -> bool {
    &&& 0 <= i < devs.len()
    &&& devs[i].id@ == id
    &&& forall|j: int| 0 <= j < i ==> devs[j].id@ != id
}

/// The name and kind shown for a device id: those of the discovered
/// device with that id, or the id itself on a local device.
pub open spec fn device_label(devs: Seq<Device>, id: Seq<char>) -> (Seq<char>, DeviceKind) {
    if exists|i: int| is_first_device(devs, id, i) {
        let i = choose|i: int| is_first_device(devs, id, i);
        (devs[i].name@, devs[i].kind)
    } else {
        (id, DeviceKind::Local)
    }
}

/// The platform tag of a device kind.
pub open spec fn platform_tag(kind: DeviceKind) -> Seq<char> {
    match kind {
        DeviceKind::Android => "Android"@,
        DeviceKind::IosUsb { .. } => "iOS"@,
        DeviceKind::Local => "Simulator"@,
    }
}

/// How a device kind is connected.
pub open spec fn conn_label(kind: DeviceKind) -> Seq<char> {
    match kind {
        DeviceKind::Android => "ADB"@,
        DeviceKind::IosUsb { .. } => "USB"@,
        DeviceKind::Local => "localhost"@,
    }
}

/// The apps of device `dev`, in list order.
pub open spec fn apps_of(apps: Seq<PickerApp>, dev: Seq<char>) -> Seq<PickerApp>
    decreases apps.len(),
{
    if apps.len() == 0 {
        seq![]
    } else {
        let prev = apps_of(apps.drop_last(), dev);
        if apps.last().device_id@ == dev { prev.push(apps.last()) } else { prev }
    }
}

/// Whether app `a` is the active one.
pub open spec fn is_active_app(active: Option<&str>, a: PickerApp) -> bool {
    match active {
        Some(x) => x@ == a.id@,
        None => false,
    }
}

/// The card rows of device `dev`'s apps, a blank row between two cards;
/// the cards are numbered from `sel0`.
pub open spec fn device_cards(apps: Seq<PickerApp>, dev: Seq<char>, sel0: nat, active: Option<&str>,
    selected: usize, inner_w: nat) -> Seq<LineView>
    decreases apps.len(),
{
    if apps.len() == 0 {
        seq![]
    } else {
        let prev = device_cards(apps.drop_last(), dev, sel0, active, selected, inner_w);
        let a = apps.last();
        if a.device_id@ == dev {
            let k = apps_of(apps.drop_last(), dev).len();
            let sel = (sel0 + k) as usize;
            prev + (if k > 0 { seq![inner_blank_row(inner_w)] } else { seq![] }) + app_card_rows(inner_w,
                device_width(inner_w), 1, 3, card_width(inner_w), sel, is_active_app(active, a),
                selected == sel, a.app_name@, a.app_version@, a.package_name@, a.os@, a.build_mode@, a.port)
        } else {
            prev
        }
    }
}

/// A device's container: top border with tag, name, connection and short
/// id; a blank row; its app cards or a waiting row; a blank row; the
/// bottom border.
pub open spec fn device_block(dev: Seq<char>, devs: Seq<Device>, apps: Seq<PickerApp>, sel0: nat,
    active: Option<&str>, selected: usize, inner_w: nat) -> Seq<LineView> {
    let (name, kind) = device_label(devs, dev);
    let dev_w = device_width(inner_w);
    seq![
        device_top_row(inner_w, dev_w, 1, platform_tag(kind), name, conn_label(kind), short_id_spec(dev)),
        inner_blank_row(inner_w),
    ] + (if apps_of(apps, dev).len() == 0 {
        seq![device_row(inner_w, dev_w, 1, waiting_interior(dev_w))]
    } else {
        device_cards(apps, dev, sel0, active, selected, inner_w)
    }) + seq![inner_blank_row(inner_w), device_bottom_row(inner_w, dev_w, 1)]
}

/// The ids of the selectable apps of the devices in `order`, in list order.
pub open spec fn picker_ids(order: Seq<Seq<char>>, apps: Seq<PickerApp>) -> Seq<Seq<char>>
    decreases order.len(),
{
    if order.len() == 0 {
        seq![]
    } else {
        picker_ids(order.drop_last(), apps) + apps_of(apps, order.last()).map_values(|a: PickerApp| a.id@)
    }
}

/// The device containers of `order`, a base row between two of them.
pub open spec fn picker_body(order: Seq<Seq<char>>, devs: Seq<Device>, apps: Seq<PickerApp>,
    active: Option<&str>, selected: usize, inner_w: nat) -> Seq<LineView>
    decreases order.len(),
{
    if order.len() == 0 {
        seq![]
    } else {
        let prefix = order.drop_last();
        picker_body(prefix, devs, apps, active, selected, inner_w)
            + (if prefix.len() > 0 { seq![plain_row(inner_w)] } else { seq![] })
            + device_block(order.last(), devs, apps, picker_ids(prefix, apps).len(), active, selected, inner_w)
    }
}

/// The whole list: a base row, the device containers, a base row.
pub open spec fn picker_lines(order: Seq<Seq<char>>, devs: Seq<Device>, apps: Seq<PickerApp>,
    active: Option<&str>, selected: usize, inner_w: nat) -> Seq<LineView> {
    seq![plain_row(inner_w)] + picker_body(order, devs, apps, active, selected, inner_w)
        + seq![plain_row(inner_w)]
}

/// Every row of `rows` that selects a card selects one in `lo..hi`.
pub open spec fn targets_within(rows: Seq<LineView>, lo: int, hi: int) -> bool {
    forall|i: int| 0 <= i < rows.len() ==> match (#[trigger] rows[i]).1 {
        Some(t) => lo <= t < hi,
        None => true,
    }
}

proof fn lemma_targets_concat(a: Seq<LineView>, b: Seq<LineView>, lo: int, hi: int)
    requires
        targets_within(a, lo, hi),
        targets_within(b, lo, hi),
    ensures
        targets_within(a + b, lo, hi),
{
    assert forall|i: int| 0 <= i < (a + b).len() implies match (#[trigger] (a + b)[i]).1 {
        Some(t) => lo <= t < hi,
        None => true,
    } by {
        if i < a.len() {
            assert((a + b)[i] == a[i]);
        } else {
            assert((a + b)[i] == b[i - a.len()]);
        }
    }
}

proof fn lemma_targets_widen(a: Seq<LineView>, lo: int, hi: int, lo2: int, hi2: int)
    requires
        targets_within(a, lo, hi),
        lo2 <= lo,
        hi <= hi2,
    ensures
        targets_within(a, lo2, hi2),
{
    assert forall|i: int| 0 <= i < a.len() implies match (#[trigger] a[i]).1 {
        Some(t) => lo2 <= t < hi2,
        None => true,
    } by {
        assert(match a[i].1 { Some(t) => lo <= t < hi, None => true });
    }
}

/// The cards of a device select the indices counted from `sel0`.
proof fn lemma_cards_targets(apps: Seq<PickerApp>, dev: Seq<char>, sel0: nat, active: Option<&str>,
    selected: usize, inner_w: nat)
    requires
        sel0 + apps.len() <= usize::MAX,
    ensures
        targets_within(device_cards(apps, dev, sel0, active, selected, inner_w), sel0 as int,
            (sel0 + apps_of(apps, dev).len()) as int),
    decreases apps.len(),
{
    if apps.len() > 0 {
        let p = apps.drop_last();
        lemma_cards_targets(p, dev, sel0, active, selected, inner_w);
        lemma_apps_of_len(p, dev);
        let a = apps.last();
        if a.device_id@ == dev {
            let k = apps_of(p, dev).len();
            let sel = (sel0 + k) as usize;
            let prev = device_cards(p, dev, sel0, active, selected, inner_w);
            lemma_targets_widen(prev, sel0 as int, (sel0 + k) as int, sel0 as int, (sel0 + k + 1) as int);
            let blank: Seq<LineView> = if k > 0 { seq![inner_blank_row(inner_w)] } else { seq![] };
            assert(targets_within(blank, sel0 as int, (sel0 + k + 1) as int));
            let card = app_card_rows(inner_w, device_width(inner_w), 1, 3, card_width(inner_w), sel,
                is_active_app(active, a), selected == sel, a.app_name@, a.app_version@, a.package_name@, a.os@,
                a.build_mode@, a.port);
            assert(targets_within(card, sel0 as int, (sel0 + k + 1) as int));
            lemma_targets_concat(prev, blank, sel0 as int, (sel0 + k + 1) as int);
            lemma_targets_concat(prev + blank, card, sel0 as int, (sel0 + k + 1) as int);
        }
    }
}

/// The rows of a device's container select its cards' indices.
proof fn lemma_block_targets(dev: Seq<char>, devs: Seq<Device>, apps: Seq<PickerApp>, sel0: nat,
    active: Option<&str>, selected: usize, inner_w: nat)
    requires
        sel0 + apps.len() <= usize::MAX,
    ensures
        targets_within(device_block(dev, devs, apps, sel0, active, selected, inner_w), sel0 as int,
            (sel0 + apps_of(apps, dev).len()) as int),
{
    let (name, kind) = device_label(devs, dev);
    let dev_w = device_width(inner_w);
    let lo = sel0 as int;
    let hi = (sel0 + apps_of(apps, dev).len()) as int;
    let head = seq![
        device_top_row(inner_w, dev_w, 1, platform_tag(kind), name, conn_label(kind), short_id_spec(dev)),
        inner_blank_row(inner_w),
    ];
    let mid = if apps_of(apps, dev).len() == 0 {
        seq![device_row(inner_w, dev_w, 1, waiting_interior(dev_w))]
    } else {
        device_cards(apps, dev, sel0, active, selected, inner_w)
    };
    let tail = seq![inner_blank_row(inner_w), device_bottom_row(inner_w, dev_w, 1)];
    assert(targets_within(head, lo, hi));
    assert(targets_within(tail, lo, hi));
    if apps_of(apps, dev).len() > 0 {
        lemma_cards_targets(apps, dev, sel0, active, selected, inner_w);
    }
    assert(targets_within(mid, lo, hi));
    lemma_targets_concat(head, mid, lo, hi);
    lemma_targets_concat(head + mid, tail, lo, hi);
}

/// The ids listed for some devices are at most all the apps per device.
proof fn lemma_picker_ids_len(order: Seq<Seq<char>>, apps: Seq<PickerApp>)
    ensures
        picker_ids(order, apps).len() <= order.len() * apps.len(),
    decreases order.len(),
{
    if order.len() > 0 {
        lemma_picker_ids_len(order.drop_last(), apps);
        lemma_apps_of_len(apps, order.last());
        assert((order.len() - 1) * apps.len() + apps.len() == order.len() * apps.len()) by (nonlinear_arith);
    }
}

proof fn lemma_body_targets(order: Seq<Seq<char>>, devs: Seq<Device>, apps: Seq<PickerApp>,
    active: Option<&str>, selected: usize, inner_w: nat)
    requires
        order.len() * apps.len() <= usize::MAX,
    ensures
        targets_within(picker_body(order, devs, apps, active, selected, inner_w), 0,
            picker_ids(order, apps).len() as int),
    decreases order.len(),
{
    if order.len() > 0 {
        let prefix = order.drop_last();
        assert(prefix.len() * apps.len() <= order.len() * apps.len()) by (nonlinear_arith)
            requires prefix.len() <= order.len();
        lemma_body_targets(prefix, devs, apps, active, selected, inner_w);
        let sel0 = picker_ids(prefix, apps).len();
        let n = picker_ids(order, apps).len() as int;
        assert(picker_ids(order, apps).len() == sel0 + apps_of(apps, order.last()).len());
        lemma_picker_ids_len(order, apps);
        lemma_apps_of_len(apps, order.last());
        lemma_picker_ids_len(prefix, apps);
        assert(sel0 + apps.len() <= usize::MAX) by (nonlinear_arith)
            requires
                sel0 <= prefix.len() * apps.len(),
                prefix.len() + 1 == order.len(),
                order.len() * apps.len() <= usize::MAX;
        let prev = picker_body(prefix, devs, apps, active, selected, inner_w);
        lemma_targets_widen(prev, 0, sel0 as int, 0, n);
        let sep: Seq<LineView> = if prefix.len() > 0 { seq![plain_row(inner_w)] } else { seq![] };
        assert(targets_within(sep, 0, n));
        lemma_block_targets(order.last(), devs, apps, sel0, active, selected, inner_w);
        let block = device_block(order.last(), devs, apps, sel0, active, selected, inner_w);
        lemma_targets_widen(block, sel0 as int, n, 0, n);
        lemma_targets_concat(prev, sep, 0, n);
        lemma_targets_concat(prev + sep, block, 0, n);
    }
}

/// Every row of the picker that a click selects a card with selects one
/// of the listed apps: its index is below the number of selectable ids.
pub proof fn lemma_click_targets_listed(order: Seq<Seq<char>>, devs: Seq<Device>, apps: Seq<PickerApp>,
    active: Option<&str>, selected: usize, inner_w: nat)
    requires
        order.len() * apps.len() <= usize::MAX,
    ensures
        targets_within(picker_lines(order, devs, apps, active, selected, inner_w), 0,
            picker_ids(order, apps).len() as int),
{
    let n = picker_ids(order, apps).len() as int;
    lemma_body_targets(order, devs, apps, active, selected, inner_w);
    let first: Seq<LineView> = seq![plain_row(inner_w)];
    assert(targets_within(first, 0, n));
    lemma_targets_concat(first, picker_body(order, devs, apps, active, selected, inner_w), 0, n);
    lemma_targets_concat(first + picker_body(order, devs, apps, active, selected, inner_w), first, 0, n);
}

/// The picker's rows and the ids of its selectable apps, in list order.
pub struct PickerContent {
    pub lines: Vec<PickerLine>,
    pub selectable_ids: Vec<String>,
}

/// The index of the first device with id `id`.
fn lookup_device(devices: &[Device], id: &str) -> (r: Option<usize>)
    ensures
        match r {
            Some(i) => is_first_device(devices@, id@, i as int),
            None => forall|i: int| 0 <= i < devices@.len() ==> devices@[i].id@ != id@,
        },
{
    let mut i: usize = 0;
    while i < devices.len()
        invariant
            i <= devices@.len(),
            forall|j: int| 0 <= j < i ==> devices@[j].id@ != id@,
        decreases devices@.len() - i,
    {
        if same_text(devices[i].id.as_str(), id) {
            return Some(i);
        }
        i = i + 1;
    }
    None
}

/// Only one device is the first with an id.
proof fn lemma_first_device_unique(devs: Seq<Device>, id: Seq<char>, i: int, j: int)
    requires
        is_first_device(devs, id, i),
        is_first_device(devs, id, j),
    ensures
        i == j,
{
    if i < j {
        assert(devs[i].id@ != id);
    } else if j < i {
        assert(devs[j].id@ != id);
    }
}

/// The platform tag and connection label of a device kind.
fn tags_of(kind: &DeviceKind) -> (r: (&'static str, &'static str))
    ensures
        r.0@ == platform_tag(*kind),
        r.1@ == conn_label(*kind),
{
    match kind {
        DeviceKind::Android => ("Android", "ADB"),
        DeviceKind::IosUsb { .. } => ("iOS", "USB"),
        DeviceKind::Local => ("Simulator", "localhost"),
    }
}

/// The name, platform tag and connection label shown for a device id.
fn label_of(devices: &[Device], id: &str) -> (r: (String, &'static str, &'static str))
    ensures
        r.0@ == device_label(devices@, id@).0,
        r.1@ == platform_tag(device_label(devices@, id@).1),
        r.2@ == conn_label(device_label(devices@, id@).1),
{
    match lookup_device(devices, id) {
        Some(i) => {
            proof {
                let c = choose|k: int| is_first_device(devices@, id@, k);
                lemma_first_device_unique(devices@, id@, i as int, c);
            }
            let (tag, conn) = tags_of(&devices[i].kind);
            (devices[i].name.clone(), tag, conn)
        },
        None => {
            assert(!exists|k: int| is_first_device(devices@, id@, k));
            let (tag, conn) = tags_of(&DeviceKind::Local);
            (owned(id), tag, conn)
        },
    }
}

/// Whether `app` is the active app.
fn is_active(active_app_id: Option<&str>, app: &PickerApp) -> (r: bool)
    ensures
        r == is_active_app(active_app_id, *app),
{
    match active_app_id {
        Some(x) => same_text(x, app.id.as_str()),
        None => false,
    }
}

/// A device's apps are among all apps.
proof fn lemma_apps_of_len(apps: Seq<PickerApp>, dev: Seq<char>)
    ensures
        apps_of(apps, dev).len() <= apps.len(),
    decreases apps.len(),
{
    if apps.len() > 0 {
        lemma_apps_of_len(apps.drop_last(), dev);
    }
}

/// A device without apps has no card rows.
proof fn lemma_no_cards(apps: Seq<PickerApp>, dev: Seq<char>, sel0: nat, active: Option<&str>,
    selected: usize, inner_w: nat)
    requires
        apps_of(apps, dev).len() == 0,
    ensures
        device_cards(apps, dev, sel0, active, selected, inner_w) == Seq::<LineView>::empty(),
    decreases apps.len(),
{
    if apps.len() > 0 {
        lemma_no_cards(apps.drop_last(), dev, sel0, active, selected, inner_w);
    }
}

/// Append a device's container and the ids of its apps.
fn push_device_block(lines: &mut Vec<PickerLine>, ids: &mut Vec<String>, dev: &str, devices: &[Device],
    apps: &[PickerApp], active_app_id: Option<&str>, selected: usize, inner_w: usize)
    ensures
        lines_view(final(lines)@) == lines_view(old(lines)@) + device_block(dev@, devices@, apps@,
            old(ids)@.len() as nat, active_app_id, selected, inner_w as nat),
        views(final(ids)@) == views(old(ids)@) + apps_of(apps@, dev@).map_values(|a: PickerApp| a.id@),
{
    let dev_w = inner_w.saturating_sub(2);
    let card_w = dev_w.saturating_sub(6);
    let ghost l0 = lines_view(lines@);
    let ghost i0 = views(ids@);
    let sel0 = ids.len();
    let (name, tag, conn) = label_of(devices, dev);
    let id_short = shorten_id(dev);
    push_device_top(lines, inner_w, dev_w, DEVICE_GUTTER, tag, name.as_str(), conn, id_short.as_str());
    push_device_inner_blank(lines, inner_w, dev_w, DEVICE_GUTTER);
    let ghost l1 = lines_view(lines@);
    let mut k: usize = 0;
    let mut j: usize = 0;
    while j < apps.len()
        invariant
            j <= apps@.len(),
            dev_w == device_width(inner_w as nat),
            card_w == card_width(inner_w as nat),
            lines_view(lines@) == l1 + device_cards(apps@.take(j as int), dev@, sel0 as nat,
                active_app_id, selected, inner_w as nat),
            views(ids@) == i0 + apps_of(apps@.take(j as int), dev@).map_values(|a: PickerApp| a.id@),
            k == apps_of(apps@.take(j as int), dev@).len(),
            ids@.len() == sel0 + k,
        decreases apps@.len() - j,
    {
        let ghost before_l = lines_view(lines@);
        let ghost before_i = views(ids@);
        let a = &apps[j];
        assert(apps@.take(j + 1).drop_last() =~= apps@.take(j as int));
        assert(apps@.take(j + 1).last() == apps@[j as int]);
        if same_text(a.device_id.as_str(), dev) {
            if k > 0 {
                push_device_inner_blank(lines, inner_w, dev_w, DEVICE_GUTTER);
            }
            let ghost mid = lines_view(lines@);
            assert(mid == before_l + (if k > 0 { seq![inner_blank_row(inner_w as nat)] } else { seq![] }));
            let sel_idx = ids.len();
            ids.push(a.id.clone());
            assert(views(ids@) =~= before_i.push(a.id@));
            let act = is_active(active_app_id, a);
            push_app_card(lines, inner_w, dev_w, DEVICE_GUTTER, CARD_INDENT, card_w, sel_idx, act,
                selected == sel_idx, a.app_name.as_str(), a.app_version.as_str(), a.package_name.as_str(),
                a.os.as_str(), a.build_mode.as_str(), a.port);
            proof { lemma_apps_of_len(apps@.take(j as int), dev@); }
            k = k + 1;
            assert(apps_of(apps@.take(j + 1), dev@) == apps_of(apps@.take(j as int), dev@).push(apps@[j as int]));
            assert(apps_of(apps@.take(j + 1), dev@).map_values(|a: PickerApp| a.id@) =~=
                apps_of(apps@.take(j as int), dev@).map_values(|a: PickerApp| a.id@).push(apps@[j as int].id@));
        }
        j = j + 1;
    }
    assert(apps@.take(apps@.len() as int) =~= apps@);
    let ghost l2 = lines_view(lines@);
    if k == 0 {
        proof { lemma_no_cards(apps@, dev@, sel0 as nat, active_app_id, selected, inner_w as nat); }
        push_waiting_row(lines, inner_w, dev_w, DEVICE_GUTTER);
    }
    let ghost l3 = lines_view(lines@);
    assert(l3 == l1 + (if apps_of(apps@, dev@).len() == 0 {
        seq![device_row(inner_w as nat, dev_w as nat, 1, waiting_interior(dev_w as nat))]
    } else {
        device_cards(apps@, dev@, sel0 as nat, active_app_id, selected, inner_w as nat)
    }));
    push_device_inner_blank(lines, inner_w, dev_w, DEVICE_GUTTER);
    push_device_bottom(lines, inner_w, dev_w, DEVICE_GUTTER);
    assert(lines_view(lines@) =~= l0 + device_block(dev@, devices@, apps@, sel0 as nat, active_app_id,
        selected, inner_w as nat));
}

/// Build the picker's rows for the devices in `order`: a base row, each
/// device's container (a base row between two), a base row; with the ids
/// of the selectable apps in the order their cards appear.
pub fn build_picker_lines(order: &[String], devices: &[Device], apps: &[PickerApp],
    active_app_id: Option<&str>, selected: usize, inner_w: usize) -> (r: PickerContent)
    ensures
        lines_view(r.lines@) == picker_lines(views(order@), devices@, apps@, active_app_id, selected,
            inner_w as nat),
        views(r.selectable_ids@) == picker_ids(views(order@), apps@),
{
    let ghost ord = views(order@);
    let mut lines: Vec<PickerLine> = Vec::new();
    let mut ids: Vec<String> = Vec::new();
    let first = PickerLine::plain(inner_w, Tone::Base);
    lines.push(first);
    assert(lines_view(lines@) =~= seq![plain_row(inner_w as nat)]);
    let mut di: usize = 0;
    while di < order.len()
        invariant
            di <= order@.len(),
            ord == views(order@),
            lines_view(lines@) == seq![plain_row(inner_w as nat)] + picker_body(ord.take(di as int),
                devices@, apps@, active_app_id, selected, inner_w as nat),
            views(ids@) == picker_ids(ord.take(di as int), apps@),
        decreases order@.len() - di,
    {
        let ghost before = lines_view(lines@);
        assert(ord.take(di + 1).drop_last() =~= ord.take(di as int));
        assert(ord.take(di + 1).last() == order@[di as int]@);
        if di > 0 {
            let sep = PickerLine::plain(inner_w, Tone::Base);
            lines.push(sep);
            assert(lines_view(lines@) =~= before.push(plain_row(inner_w as nat)));
        }
        let ghost mid = lines_view(lines@);
        assert(ids@.len() == views(ids@).len());
        push_device_block(&mut lines, &mut ids, order[di].as_str(), devices, apps, active_app_id,
            selected, inner_w);
        assert(lines_view(lines@) =~= seq![plain_row(inner_w as nat)] + picker_body(ord.take(di + 1),
            devices@, apps@, active_app_id, selected, inner_w as nat));
        di = di + 1;
    }
    assert(ord.take(ord.len() as int) =~= ord);
    let ghost before = lines_view(lines@);
    let last = PickerLine::plain(inner_w, Tone::Base);
    lines.push(last);
    assert(lines_view(lines@) =~= before.push(plain_row(inner_w as nat)));
    PickerContent { lines, selectable_ids: ids }
}

/// The ids in `ids`, each once, in order of first appearance.
pub open spec fn first_seen(ids: Seq<Seq<char>>) -> Seq<Seq<char>>
    decreases ids.len(),
{
    if ids.len() == 0 {
        seq![]
    } else {
        let prev = first_seen(ids.drop_last());
        if prev.contains(ids.last()) { prev } else { prev.push(ids.last()) }
    }
}

/// Whether `v` holds a string equal to `s`.
fn holds_text(v: &Vec<String>, s: &str) -> (r: bool)
    ensures
        r == views(v@).contains(s@),
{
    let mut i: usize = 0;
    while i < v.len()
        invariant
            i <= v@.len(),
            forall|j: int| 0 <= j < i ==> v@[j]@ != s@,
        decreases v@.len() - i,
    {
        if same_text(v[i].as_str(), s) {
            assert(views(v@)[i as int] == s@);
            return true;
        }
        i = i + 1;
    }
    proof {
        if views(v@).contains(s@) {
            let j = choose|j: int| 0 <= j < views(v@).len() && views(v@)[j] == s@;
            assert(v@[j]@ == s@);
        }
    }
    false
}

/// Append `s` to `order` unless it is there already.
fn note_id(order: &mut Vec<String>, s: &String)
    ensures
        views(final(order)@) == (if views(old(order)@).contains(s@) { views(old(order)@) } else {
            views(old(order)@).push(s@) }),
{
    if !holds_text(order, s.as_str()) {
        order.push(s.clone());
        assert(views(order@) =~= views(old(order)@).push(s@));
    }
}

/// The device ids in picker order: the devices of the connected apps in
/// the order of their first app, then the other discovered devices, each
/// once.
pub fn device_order(apps: &[PickerApp], devices: &[Device]) -> (r: Vec<String>)
    ensures
        views(r@) == first_seen(apps@.map_values(|a: PickerApp| a.device_id@)
            + devices@.map_values(|d: Device| d.id@)),
{
    let ghost app_ids = apps@.map_values(|a: PickerApp| a.device_id@);
    let ghost dev_ids = devices@.map_values(|d: Device| d.id@);
    let mut order: Vec<String> = Vec::new();
    let mut i: usize = 0;
    while i < apps.len()
        invariant
            i <= apps@.len(),
            app_ids == apps@.map_values(|a: PickerApp| a.device_id@),
            views(order@) == first_seen(app_ids.take(i as int)),
        decreases apps@.len() - i,
    {
        note_id(&mut order, &apps[i].device_id);
        assert(app_ids.take(i + 1).drop_last() =~= app_ids.take(i as int));
        i = i + 1;
    }
    assert(app_ids.take(apps@.len() as int) =~= app_ids);
    let mut j: usize = 0;
    while j < devices.len()
        invariant
            j <= devices@.len(),
            app_ids == apps@.map_values(|a: PickerApp| a.device_id@),
            dev_ids == devices@.map_values(|d: Device| d.id@),
            views(order@) == first_seen(app_ids + dev_ids.take(j as int)),
        decreases devices@.len() - j,
    {
        note_id(&mut order, &devices[j].id);
        assert((app_ids + dev_ids.take(j + 1)).drop_last() =~= app_ids + dev_ids.take(j as int));
        j = j + 1;
    }
    assert(app_ids + dev_ids.take(devices@.len() as int) =~= app_ids + dev_ids);
    order
}

} // verus!
