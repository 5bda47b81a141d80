//! `adb track-devices` source: frame decoding, snapshot parsing, and the
//! display names of Android devices and emulators.

use vstd::prelude::*;
use crate::text::strings::{
    char_to_uppercase, push_char, push_str, replace_char, same_text, split_char, split_spec,
    str_starts_with, to_lowercase, trim, trim_spec, unicode_lowercase, unicode_uppercase_char,
    views, lemma_trim_parts, ws,
};
use crate::transport::device::{
    contains_string, lemma_filter_distinct, lemma_known_distinct, removed_event, DeviceTracker,
};

verus! {

/// Value of an ASCII hex digit byte, if it is one.
pub open spec fn hex_digit(b: u8) -> Option<nat> {
    if 0x30 <= b <= 0x39 {
        Some((b - 0x30) as nat)
    } else if 0x61 <= b <= 0x66 {
        Some((b - 0x61 + 10) as nat)
    } else if 0x41 <= b <= 0x46 {
        Some((b - 0x41 + 10) as nat)
    } else {
        None
    }
}

/// Value of a run of hex digits, most significant first.
pub open spec fn hex_value(bs: Seq<u8>) -> Option<nat>
    decreases bs.len(),
{
    if bs.len() == 0 {
        Some(0)
    } else {
        match (hex_value(bs.drop_last()), hex_digit(bs.last())) {
            (Some(v), Some(d)) => Some(v * 16 + d),
            _ => None,
        }
    }
}

/// The body length that a 4-byte track-devices header announces: four hex
/// digits, or a `+` sign followed by three (std's `from_str_radix` with
/// radix 16 accepts an optional leading `+`).
pub open spec fn frame_len_spec(hdr: Seq<u8>) -> Option<nat> {
    if hdr.len() == 4 && hdr[0] == 0x2B {
        hex_value(hdr.skip(1))
    } else {
        hex_value(hdr)
    }
}

fn hex_digit_value(b: u8) -> (r: Option<usize>)
    ensures
        r matches Some(v) ==> hex_digit(b) == Some(v as nat),
        r is None ==> hex_digit(b) is None,
{
    if 0x30 <= b && b <= 0x39 {
        Some((b - 0x30) as usize)
    } else if 0x61 <= b && b <= 0x66 {
        Some((b - 0x61 + 10) as usize)
    } else if 0x41 <= b && b <= 0x46 {
        Some((b - 0x41 + 10) as usize)
    } else {
        None
    }
}

/// Decode the 4-byte ASCII hex length header of a track-devices frame.
pub fn parse_frame_header(hdr: &[u8; 4]) -> (len: Option<usize>)
    ensures
        len matches Some(n) ==> frame_len_spec(hdr@) == Some(n as nat),
        len is None ==> frame_len_spec(hdr@) is None,
{
    let start: usize = if hdr[0] == 0x2B { 1 } else { 0 };
    let ghost digits = hdr@.skip(start as int);
    assert(hdr@.skip(0) == hdr@);
    assert(frame_len_spec(hdr@) == hex_value(digits));
    let mut v: usize = 0;
    let mut i: usize = start;
    assert(hdr@.skip(start as int).take(0) == Seq::<u8>::empty());
    while i < 4
        invariant
            start <= i <= 4,
            hdr@.len() == 4,
            digits == hdr@.skip(start as int),
            frame_len_spec(hdr@) == hex_value(digits),
            hex_value(digits.take(i - start)) == Some(v as nat),
            v < pow16(i - start),
        decreases 4 - i,
    {
        proof {
            assert(digits.take(i - start + 1).drop_last() == digits.take(i - start));
            assert(digits.take(i - start + 1).last() == hdr@[i as int]);
        }
        match hex_digit_value(hdr[i]) {
            Some(d) => {
                proof { lemma_pow16_step(i - start, v as nat, d as nat); }
                v = v * 16 + d;
            }
            None => {
                proof {
                    let t = digits.take(i - start + 1);
                    assert(t.drop_last() == digits.take(i - start));
                    assert(hex_digit(t.last()) is None);
                    assert(hex_value(t) is None);
                    lemma_hex_none_extends(digits, i - start + 1);
                    assert(hdr@.skip(0) == hdr@);
                }
                return None;
            }
        }
        i = i + 1;
    }
    assert(digits.take(4 - start) == digits);
    assert(hdr@.skip(0) == hdr@);
    Some(v)
}

/// A prefix that is not hex makes the whole run not hex.
proof fn lemma_hex_none_extends(bs: Seq<u8>, k: int)
    requires
        0 <= k <= bs.len(),
        hex_value(bs.take(k)) is None,
    ensures
        hex_value(bs) is None,
    decreases bs.len() - k,
{
    if k < bs.len() {
        assert(bs.take(k + 1).drop_last() == bs.take(k));
        lemma_hex_none_extends(bs, k + 1);
    } else {
        assert(bs.take(k) == bs);
    }
}

/// `16^n` for the small exponents a header needs.
pub open spec fn pow16(n: int) -> nat {
    if n <= 0 { 1 } else if n == 1 { 16 } else if n == 2 { 256 } else if n == 3 { 4096 } else { 65536 }
}

proof fn lemma_pow16_step(n: int, v: nat, d: nat)
    requires
        0 <= n < 4,
        v < pow16(n),
        d < 16,
    ensures
        v * 16 + d < pow16(n + 1),
{
}

/// The serials that one track-devices snapshot reports as online: for each
/// `\n`-separated line, trimmed and split at tabs, the first field when the
/// second is exactly `device` and the first is not empty.
pub open spec fn online_serial(line: Seq<char>) -> Option<Seq<char>> {
    let parts = split_spec(trim_spec(line), '\t');
    if parts.len() >= 2 && parts[1] == seq!['d', 'e', 'v', 'i', 'c', 'e'] && parts[0].len() > 0 {
        Some(parts[0])
    } else {
        None
    }
}

/// Collect the online serials of the lines, in order.
pub open spec fn online_serials_spec(lines: Seq<Seq<char>>) -> Seq<Seq<char>>
    decreases lines.len(),
{
    if lines.len() == 0 {
        seq![]
    } else {
        let prev = online_serials_spec(lines.drop_last());
        match online_serial(lines.last()) {
            Some(s) => prev.push(s),
            None => prev,
        }
    }
}

fn serial_of_line(line: &str) -> (r: Option<String>)
    ensures
        r matches Some(s) ==> online_serial(line@) == Some(s@),
        r is None ==> online_serial(line@) is None,
{
    let t = trim(line);
    let parts = split_char(t.as_str(), '\t');
    if parts.len() >= 2 {
        let status = &parts[1];
        let device = "device";
        proof { reveal_strlit("device"); }
        if same_text(status.as_str(), device) && !parts[0].as_str().is_empty() {
            assert(device@ == seq!['d', 'e', 'v', 'i', 'c', 'e']);
            return Some(parts[0].clone());
        }
        assert(device@ == seq!['d', 'e', 'v', 'i', 'c', 'e']);
    }
    None
}

/// Parse one track-devices snapshot into the serials currently online.
pub fn online_serials(text: &str) -> (serials: Vec<String>)
    ensures
        views(serials@) == online_serials_spec(split_spec(text@, '\n')),
{
    let lines = split_char(text, '\n');
    let ghost ls = views(lines@);
    let mut out: Vec<String> = Vec::new();
    let mut i: usize = 0;
    assert(ls.take(0) == Seq::<Seq<char>>::empty());
    assert(views(out@) == Seq::<Seq<char>>::empty());
    while i < lines.len()
        invariant
            ls == views(lines@),
            i <= lines.len(),
            views(out@) == online_serials_spec(ls.take(i as int)),
        decreases lines.len() - i,
    {
        proof {
            assert(ls.take(i as int + 1).drop_last() == ls.take(i as int));
            assert(ls.take(i as int + 1).last() == lines@[i as int]@);
        }
        match serial_of_line(lines[i].as_str()) {
            Some(s) => {
                let ghost before = out@;
                out.push(s);
                proof {
                    crate::text::strings::lemma_views_push(before, out@.last());
                    assert(out@ == before.push(out@.last()));
                }
            }
            None => {}
        }
        i = i + 1;
    }
    assert(ls.take(lines.len() as int) == ls);
    out
}

/// A line of a snapshot that reports an online device: trimmed and split at
/// tabs, its second field is exactly `device` and its first, the serial,
/// is not empty.
pub open spec fn line_online(line: Seq<char>) -> bool {
    let parts = split_spec(trim_spec(line), '\t');
    parts.len() >= 2 && parts[1] == seq!['d', 'e', 'v', 'i', 'c', 'e'] && parts[0].len() > 0
}

/// The serial field of a line.
pub open spec fn line_serial(line: Seq<char>) -> Seq<char> {
    split_spec(trim_spec(line), '\t')[0]
}

/// Some online line of `lines` has serial `s`.
pub open spec fn reported_by(lines: Seq<Seq<char>>, s: Seq<char>) -> bool {
    exists|k: int| 0 <= k < lines.len() && line_online(#[trigger] lines[k]) && line_serial(lines[k]) == s
}

/// Online serials of two runs of lines, one after the other, are those of
/// the first run then those of the second: no line's report depends on
/// the lines around it, so every online device of a snapshot is found.
pub proof fn lemma_online_serials_concat(a: Seq<Seq<char>>, b: Seq<Seq<char>>)
    ensures
        online_serials_spec(a + b) == online_serials_spec(a) + online_serials_spec(b),
    decreases b.len(),
{
    if b.len() == 0 {
        assert(a + b =~= a);
        assert(online_serials_spec(a) + online_serials_spec(b) =~= online_serials_spec(a));
    } else {
        assert((a + b).drop_last() =~= a + b.drop_last());
        assert((a + b).last() == b.last());
        lemma_online_serials_concat(a, b.drop_last());
        let sa = online_serials_spec(a);
        let sb = online_serials_spec(b.drop_last());
        if line_online(b.last()) {
            assert(sa + sb.push(line_serial(b.last())) =~= (sa + sb).push(line_serial(b.last())));
        }
    }
}

/// One line gives its serial when it reports an online device, and nothing
/// otherwise.
pub proof fn lemma_online_serials_line(line: Seq<char>)
    ensures
        online_serials_spec(seq![line]) == if line_online(line) { seq![line_serial(line)] } else { seq![] },
{
    assert(seq![line].drop_last() =~= Seq::<Seq<char>>::empty());
    assert(seq![line].last() == line);
    assert(online_serials_spec(Seq::<Seq<char>>::empty()) == Seq::<Seq<char>>::empty());
    assert(online_serial(line) == if line_online(line) { Some(line_serial(line)) } else { None::<Seq<char>> });
}

/// Every online line's serial is reported, and everything reported is the
/// serial of an online line; there are as many serials as online lines.
pub proof fn lemma_online_serials_exact(lines: Seq<Seq<char>>)
    ensures
        forall|k: int| 0 <= k < lines.len() && line_online(#[trigger] lines[k])
            ==> online_serials_spec(lines).contains(line_serial(lines[k])),
        forall|m: int| 0 <= m < online_serials_spec(lines).len()
            ==> reported_by(lines, #[trigger] online_serials_spec(lines)[m]),
        online_serials_spec(lines).len() == lines.filter(|l: Seq<char>| line_online(l)).len(),
    decreases lines.len(),
{
    if lines.len() > 0 {
        let q = lines.drop_last();
        let l = lines.last();
        lemma_online_serials_exact(q);
        lemma_online_serials_concat(q, seq![l]);
        lemma_online_serials_line(l);
        assert(q + seq![l] =~= lines);
        let sq = online_serials_spec(q);
        let sl = online_serials_spec(lines);
        assert(sl == sq + if line_online(l) { seq![line_serial(l)] } else { Seq::<Seq<char>>::empty() });
        assert(lines.filter(|l: Seq<char>| line_online(l)) == q.filter(|l: Seq<char>| line_online(l)) + if line_online(l)
            { seq![l] } else { seq![] }) by {
            reveal(Seq::filter);
            assert(lines.drop_last() == q);
            if line_online(l) {
                assert(q.filter(|l: Seq<char>| line_online(l)).push(l) =~= q.filter(|l: Seq<char>| line_online(l)) + seq![l]);
            } else {
                assert(q.filter(|l: Seq<char>| line_online(l)) + Seq::<Seq<char>>::empty() =~= q.filter(|l: Seq<char>| line_online(l)));
            }
        }
        assert forall|k: int| 0 <= k < lines.len() && line_online(#[trigger] lines[k])
            implies sl.contains(line_serial(lines[k])) by {
            if k < q.len() {
                assert(lines[k] == q[k]);
                let m = choose|m: int| 0 <= m < sq.len() && sq[m] == line_serial(q[k]);
                assert(sl[m] == sq[m]);
            } else {
                assert(sl[sl.len() - 1] == line_serial(l));
            }
        }
        assert forall|m: int| 0 <= m < sl.len() implies reported_by(lines, #[trigger] sl[m]) by {
            if m < sq.len() {
                assert(sl[m] == sq[m]);
                assert(reported_by(q, sq[m]));
                let k = choose|k: int| 0 <= k < q.len() && line_online(#[trigger] q[k]) && line_serial(q[k]) == sq[m];
                assert(lines[k] == q[k]);
                assert(reported_by(lines, sl[m]));
            } else {
                let k = lines.len() - 1;
                assert(lines[k] == l);
                assert(line_online(l));
                assert(sl[m] == line_serial(l));
                assert(line_online(lines[k]) && line_serial(lines[k]) == sl[m]);
                assert(reported_by(lines, sl[m]));
            }
        }
    } else {
        assert(lines.filter(|l: Seq<char>| line_online(l)) =~= Seq::<Seq<char>>::empty()) by { reveal(Seq::filter); }
    }
}

/// Serials of a snapshot that the tracker does not know yet: the devices
/// whose names must be looked up and added.
pub fn unknown_serials(tracker: &DeviceTracker, current: &Vec<String>) -> (fresh: Vec<String>)
    ensures
        views(fresh@) == views(current@).filter(|x: Seq<char>| !tracker.known_ids().contains(x)),
{
    let mut fresh: Vec<String> = Vec::new();
    let mut i: usize = 0;
    let ghost cur = views(current@);
    let ghost pred = |x: Seq<char>| !tracker.known_ids().contains(x);
    assert(cur.take(0) =~= Seq::<Seq<char>>::empty());
    assert(views(fresh@) =~= Seq::<Seq<char>>::empty());
    while i < current.len()
        invariant
            i <= current.len(),
            cur == views(current@),
            pred == |x: Seq<char>| !tracker.known_ids().contains(x),
            views(fresh@) == cur.take(i as int).filter(pred),
        decreases current.len() - i,
    {
        proof {
            reveal_with_fuel(Seq::<_>::filter, 1);
            assert(cur.take(i as int + 1).drop_last() =~= cur.take(i as int));
        }
        if !tracker.contains(current[i].as_str()) {
            let ghost before = fresh@;
            fresh.push(current[i].clone());
            proof { crate::text::strings::lemma_views_push(before, fresh@.last()); assert(fresh@ == before.push(fresh@.last())); }
        }
        i = i + 1;
    }
    assert(cur.take(current.len() as int) =~= cur);
    fresh
}

/// After a snapshot, emit Removed for every known serial the snapshot no
/// longer lists. Afterwards the tracker knows exactly the ids it knew that
/// the snapshot still lists.
pub fn retire_missing(tracker: &mut DeviceTracker, current: &Vec<String>)
    requires
        old(tracker).wf(),
    ensures
        final(tracker).wf(),
        forall|x: Seq<char>| #[trigger] final(tracker).known_ids().contains(x)
            == (old(tracker).known_ids().contains(x) && views(current@).contains(x)),
        ({
            let gone = old(tracker).known_ids().filter(|x: Seq<char>| !views(current@).contains(x));
            &&& final(tracker).pending().len() == old(tracker).pending().len() + gone.len()
            &&& final(tracker).pending().take(old(tracker).pending().len() as int) == old(tracker).pending()
            &&& forall|k: int| 0 <= k < gone.len() ==>
                removed_event(#[trigger] final(tracker).pending()[old(tracker).pending().len() + k], gone[k])
        }),
{
    let gone = tracker.removed_since(current);
    let ghost start = tracker.known_ids();
    let ghost p0 = tracker.pending();
    let ghost g = views(gone@);
    let ghost pred = |x: Seq<char>| !views(current@).contains(x);
    proof {
        lemma_known_distinct(tracker);
        lemma_filter_distinct(start, pred);
    }
    let mut i: usize = 0;
    while i < gone.len()
        invariant
            tracker.wf(),
            i <= gone.len(),
            g == views(gone@),
            g == start.filter(pred),
            g.no_duplicates(),
            pred == |x: Seq<char>| !views(current@).contains(x),
            forall|x: Seq<char>| #[trigger] tracker.known_ids().contains(x)
                == (start.contains(x) && !g.take(i as int).contains(x)),
            tracker.pending().len() == p0.len() + i,
            tracker.pending().take(p0.len() as int) == p0,
            forall|k: int| 0 <= k < i ==> removed_event(#[trigger] tracker.pending()[p0.len() + k], g[k]),
        decreases gone.len() - i,
    {
        let ghost before = tracker.pending();
        proof {
            start.lemma_filter_contains_rev(pred, g[i as int]);
            assert(g.contains(g[i as int]));
            if g.take(i as int).contains(g[i as int]) {
                let k = choose|k: int| 0 <= k < i && g.take(i as int)[k] == g[i as int];
                assert(g[k] == g[i as int]);
            }
            assert(tracker.known_ids().contains(g[i as int]));
        }
        tracker.remove(gone[i].as_str());
        proof {
            assert forall|x: Seq<char>| #[trigger] tracker.known_ids().contains(x)
                == (start.contains(x) && !g.take(i as int + 1).contains(x)) by {
                assert(g.take(i as int + 1) == g.take(i as int).push(g[i as int]));
                crate::transport::device::lemma_contains_push(g.take(i as int), g[i as int], x);
            }
            assert(tracker.pending() == before.push(tracker.pending().last()));
            assert(tracker.pending().take(p0.len() as int) =~= p0) by {
                assert forall|k: int| 0 <= k < p0.len() implies tracker.pending()[k] == p0[k] by {
                    assert(before.take(p0.len() as int)[k] == p0[k]);
                }
            }
            assert forall|k: int| 0 <= k < i + 1 implies
                removed_event(#[trigger] tracker.pending()[p0.len() + k], g[k]) by {
                if k < i {
                    assert(tracker.pending()[p0.len() + k] == before[p0.len() + k]);
                }
            }
        }
        i = i + 1;
    }
    proof {
        assert(g.take(gone.len() as int) == g);
        assert forall|x: Seq<char>| #[trigger] tracker.known_ids().contains(x)
            == (start.contains(x) && views(current@).contains(x)) by {
            if g.contains(x) {
                start.lemma_filter_contains_rev(pred, x);
                start.lemma_filter_pred(pred, choose|k: int| 0 <= k < g.len() && g[k] == x);
            }
            if start.contains(x) && !views(current@).contains(x) {
                let k = choose|k: int| 0 <= k < start.len() && start[k] == x;
                start.lemma_filter_contains(pred, k);
            }
        }
    }
}

/// What std's `String::from_utf8_lossy` gives for a byte string.
pub uninterp spec fn utf8_lossy(bytes: Seq<u8>) -> Seq<char>;

/// std's `String::from_utf8_lossy`: the named decoding, which std
/// documents as replacing each invalid sequence with U+FFFD; valid UTF-8
/// decodes exactly.
#[verifier::external_body]
fn from_utf8_lossy(bytes: &[u8]) -> (r: String)
    ensures
        r@ == utf8_lossy(bytes@),
        vstd::utf8::valid_utf8(bytes@) ==> r@ == vstd::utf8::decode_utf8(bytes@),
{
    String::from_utf8_lossy(bytes).into_owned()
}

/// The value of a `getprop` property: the trimmed output, absent when
/// empty.
pub open spec fn prop_value_spec(stdout: Seq<u8>) -> Option<Seq<char>> {
    let v = trim_spec(utf8_lossy(stdout));
    if v.len() == 0 { None } else { Some(v) }
}

/// Turn the stdout of a successful `adb shell getprop` into the property
/// value.
pub fn prop_value(stdout: &[u8]) -> (r: Option<String>)
    ensures
        r matches Some(v) ==> prop_value_spec(stdout@) == Some(v@),
        r is None ==> prop_value_spec(stdout@) is None,
{
    let raw = from_utf8_lossy(stdout);
    let v = trim(raw.as_str());
    if v.as_str().is_empty() { None } else { Some(v) }
}

/// A present property value is the decoded output with blanks removed from
/// both ends: the output is blanks, the value, then blanks, and the value
/// neither starts nor ends with whitespace. No value means the output was
/// all blanks.
pub proof fn lemma_prop_value_trimmed(stdout: Seq<u8>)
    ensures
        ({
            let raw = utf8_lossy(stdout);
            match prop_value_spec(stdout) {
                Some(v) => {
                    &&& v.len() > 0
                    &&& !ws(v[0]) && !ws(v.last())
                    &&& exists|a: int| 0 <= a && a + v.len() <= raw.len() && #[trigger] raw.subrange(a, a + v.len()) == v
                        && (forall|k: int| 0 <= k < a ==> ws(#[trigger] raw[k]))
                        && (forall|k: int| a + v.len() <= k < raw.len() ==> ws(#[trigger] raw[k]))
                },
                None => forall|k: int| 0 <= k < raw.len() ==> ws(#[trigger] raw[k]),
            }
        }),
{
    let raw = utf8_lossy(stdout);
    lemma_trim_parts(raw);
    let a = crate::text::strings::lead_ws(raw) as int;
    let t = trim_spec(raw);
    if t.len() > 0 {
        assert(raw.subrange(a, a + t.len()) == t);
    } else {
        assert forall|k: int| 0 <= k < raw.len() implies ws(#[trigger] raw[k]) by {
            if k >= a { assert(a + t.len() <= k); }
        }
    }
}

/// Whether a serial names an emulator by its prefix.
pub open spec fn emulator_serial(serial: Seq<char>) -> bool {
    seq!['e', 'm', 'u', 'l', 'a', 't', 'o', 'r', '-'].is_prefix_of(serial)
}

/// Serials of the form `emulator-NNNN` are emulators without asking the
/// device.
pub fn is_emulator_serial(serial: &str) -> (r: bool)
    ensures
        r == emulator_serial(serial@),
{
    let p = "emulator-";
    proof { reveal_strlit("emulator-"); }
    str_starts_with(serial, p)
}

/// The `ro.kernel.qemu` property marks an emulator when it is `1`.
pub fn qemu_flag_set(prop: &Option<String>) -> (r: bool)
    ensures
        r == (prop matches Some(v) && v@ == seq!['1']),
{
    match prop {
        Some(v) => {
            let one = "1";
            proof { reveal_strlit("1"); }
            assert(one@ =~= seq!['1']);
            same_text(v.as_str(), one)
        }
        None => false,
    }
}

/// Underscores shown as spaces.
pub open spec fn spaced(s: Seq<char>) -> Seq<char> {
    s.map_values(|c: char| if c == '_' { ' ' } else { c })
}

/// The display name of an emulator from its AVD name and API level.
pub open spec fn emulator_name_spec(avd: Option<Seq<char>>, api: Option<Seq<char>>) -> Seq<char> {
    match (avd, api) {
        (Some(a), Some(l)) => spaced(a) + seq![' ', '(', 'A', 'P', 'I', ' '] + l
            + seq![',', ' ', 'E', 'm', 'u', 'l', 'a', 't', 'o', 'r', ')'],
        (Some(a), None) => spaced(a) + seq![' ', '(', 'E', 'm', 'u', 'l', 'a', 't', 'o', 'r', ')'],
        (None, Some(l)) => seq!['A', 'n', 'd', 'r', 'o', 'i', 'd', ' ', 'E', 'm', 'u', 'l', 'a', 't', 'o', 'r', ' ', '(', 'A', 'P', 'I', ' ']
            + l + seq![')'],
        (None, None) => seq!['A', 'n', 'd', 'r', 'o', 'i', 'd', ' ', 'E', 'm', 'u', 'l', 'a', 't', 'o', 'r'],
    }
}

/// The view of an optional string.
pub open spec fn opt_view(o: Option<String>) -> Option<Seq<char>> {
    match o {
        Some(s) => Some(s@),
        None => None,
    }
}

/// Build an emulator display name from the optional AVD name and API
/// level; underscores in the AVD name become spaces.
pub fn emulator_name(avd: Option<String>, api: Option<String>) -> (name: String)
    ensures
        name@ == emulator_name_spec(opt_view(avd), opt_view(api)),
{
    proof {
        reveal_strlit(" (API ");
        reveal_strlit(", Emulator)");
        reveal_strlit(" (Emulator)");
        reveal_strlit("Android Emulator (API ");
        reveal_strlit(")");
        reveal_strlit("Android Emulator");
    }
    match (avd, api) {
        (Some(a), Some(l)) => {
            let mut r = replace_char(a.as_str(), '_', ' ');
            push_str(&mut r, " (API ");
            push_str(&mut r, l.as_str());
            push_str(&mut r, ", Emulator)");
            r
        }
        (Some(a), None) => {
            let mut r = replace_char(a.as_str(), '_', ' ');
            push_str(&mut r, " (Emulator)");
            r
        }
        (None, Some(l)) => {
            let mut r = "Android Emulator (API ".to_owned();
            push_str(&mut r, l.as_str());
            push_str(&mut r, ")");
            r
        }
        (None, None) => "Android Emulator".to_owned(),
    }
}

/// `s` with its first char replaced by that char's uppercase mapping.
pub open spec fn capitalize_spec(s: Seq<char>) -> Seq<char> {
    if s.len() == 0 { seq![] } else { unicode_uppercase_char(s[0]) + s.drop_first() }
}

/// Uppercase the first char of `s`, keeping the rest.
pub fn capitalize_first(s: &str) -> (r: String)
    ensures
        r@ == capitalize_spec(s@),
{
    let mut r = String::new();
    let mut first = true;
    for c in it: s.chars()
        invariant
            it.seq() == s@,
            first == (it.index() == 0),
            it.index() > 0 ==> r@ == unicode_uppercase_char(s@[0]) + s@.subrange(1, it.index() as int),
            it.index() == 0 ==> r@ == Seq::<char>::empty(),
    {
        if first {
            r = char_to_uppercase(c);
            first = false;
            assert(s@.subrange(1, 1) == Seq::<char>::empty());
            assert(r@ + Seq::<char>::empty() == r@);
        } else {
            let ghost i = it.index();
            push_char(&mut r, c);
            assert(s@.subrange(1, i as int + 1) == s@.subrange(1, i as int).push(c));
            assert(unicode_uppercase_char(s@[0]) + s@.subrange(1, i as int).push(c)
                == (unicode_uppercase_char(s@[0]) + s@.subrange(1, i as int)).push(c));
        }
    }
    proof {
        if s@.len() > 0 {
            assert(s@.subrange(1, s@.len() as int) == s@.drop_first());
        }
    }
    r
}

/// The display name of a real Android device: the model alone when it
/// already starts with the brand (case-insensitively), otherwise the
/// capitalized brand and the model; whichever is present; the serial when
/// neither is.
pub open spec fn real_device_name_spec(serial: Seq<char>, brand: Option<Seq<char>>, model: Option<Seq<char>>) -> Seq<char> {
    match (brand, model) {
        (Some(b), Some(m)) => if unicode_lowercase(b).is_prefix_of(unicode_lowercase(m)) {
            m
        } else {
            capitalize_spec(b) + seq![' '] + m
        },
        (None, Some(m)) => m,
        (Some(b), None) => capitalize_spec(b),
        (None, None) => serial,
    }
}

/// Build a real device's display name from brand, model and serial.
pub fn real_device_name(serial: &str, brand: Option<String>, model: Option<String>) -> (name: String)
    ensures
        name@ == real_device_name_spec(serial@, opt_view(brand), opt_view(model)),
{
    match (brand, model) {
        (Some(b), Some(m)) => {
            let ml = to_lowercase(m.as_str());
            let bl = to_lowercase(b.as_str());
            if str_starts_with(ml.as_str(), bl.as_str()) {
                m
            } else {
                let mut r = capitalize_first(b.as_str());
                push_char(&mut r, ' ');
                push_str(&mut r, m.as_str());
                r
            }
        }
        (None, Some(m)) => m,
        (Some(b), None) => capitalize_first(b.as_str()),
        (None, None) => serial.to_owned(),
    }
}

} // verus!
