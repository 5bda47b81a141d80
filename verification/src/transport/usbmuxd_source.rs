//! usbmuxd `Listen` source: the Listen request, and the bookkeeping of
//! Attached / Detached notifications across a device's interfaces.

use vstd::prelude::*;
use std::collections::HashMap;
use vstd::std_specs::iter::IteratorSpec;
use crate::text::strings::same_text;
use crate::transport::device::{Device, DeviceKind, DeviceTracker, removed_event};
use crate::transport::usbmuxd::{
    encode_plist_frame, entries_view, frame_header, plist_xml, PlistItem, PlistScalar,
};

verus! {

/// The entries of the Listen request.
pub open spec fn listen_entries() -> Seq<(Seq<char>, crate::transport::usbmuxd::PlistScalarView)> {
    seq![
        (seq!['M', 'e', 's', 's', 'a', 'g', 'e', 'T', 'y', 'p', 'e'],
            crate::transport::usbmuxd::PlistScalarView::Str(seq!['L', 'i', 's', 't', 'e', 'n'])),
        (seq!['C', 'l', 'i', 'e', 'n', 't', 'V', 'e', 'r', 's', 'i', 'o', 'n', 'S', 't', 'r', 'i', 'n', 'g'],
            crate::transport::usbmuxd::PlistScalarView::Str(seq!['f', 'l', 'o', 'g'])),
        (seq!['P', 'r', 'o', 'g', 'N', 'a', 'm', 'e'],
            crate::transport::usbmuxd::PlistScalarView::Str(seq!['f', 'l', 'o', 'g'])),
    ]
}

/// The (header, body) of the Listen request: a plist dictionary with
/// MessageType `Listen` and the client name, in a frame with tag 1.
pub fn encode_listen_frame() -> (r: Option<(Vec<u8>, Vec<u8>)>)
    ensures
        r is Some <==> plist_xml(listen_entries()) is Some,
        r matches Some((h, b)) ==> plist_xml(listen_entries()) == Some(b@) && h@ == frame_header(b@.len(), 1),
{
    proof {
        reveal_strlit("MessageType");
        reveal_strlit("Listen");
        reveal_strlit("ClientVersionString");
        reveal_strlit("flog");
        reveal_strlit("ProgName");
    }
    let k1 = "MessageType";
    let v1 = "Listen";
    let k2 = "ClientVersionString";
    let v2 = "flog";
    let k3 = "ProgName";
    assert(k1@ =~= seq!['M', 'e', 's', 's', 'a', 'g', 'e', 'T', 'y', 'p', 'e']);
    assert(v1@ =~= seq!['L', 'i', 's', 't', 'e', 'n']);
    assert(k2@ =~= seq!['C', 'l', 'i', 'e', 'n', 't', 'V', 'e', 'r', 's', 'i', 'o', 'n', 'S', 't', 'r', 'i', 'n', 'g']);
    assert(v2@ =~= seq!['f', 'l', 'o', 'g']);
    assert(k3@ =~= seq!['P', 'r', 'o', 'g', 'N', 'a', 'm', 'e']);
    let mut entries: Vec<(String, PlistScalar)> = Vec::new();
    entries.push((k1.to_owned(), PlistScalar::Str(v1.to_owned())));
    entries.push((k2.to_owned(), PlistScalar::Str(v2.to_owned())));
    entries.push((k3.to_owned(), PlistScalar::Str(v2.to_owned())));
    assert(entries_view(entries@) =~= listen_entries());
    encode_plist_frame(&entries, 1)
}

/// The first entry of a dictionary with this key.
pub open spec fn dict_get(d: Seq<(String, PlistItem)>, key: Seq<char>) -> Option<PlistItem>
    decreases d.len(),
{
    if d.len() == 0 {
        None
    } else if d[0].0@ == key {
        Some(d[0].1)
    } else {
        dict_get(d.drop_first(), key)
    }
}

/// Look up `key` in a dictionary.
pub fn get<'a>(d: &'a Vec<(String, PlistItem)>, key: &str) -> (r: Option<&'a PlistItem>)
    ensures
        match r {
            Some(v) => dict_get(d@, key@) == Some(*v),
            None => dict_get(d@, key@) is None,
        },
{
    let mut i: usize = 0;
    assert(d@.skip(0) == d@);
    while i < d.len()
        invariant
            i <= d.len(),
            dict_get(d@, key@) == dict_get(d@.skip(i as int), key@),
        decreases d.len() - i,
    {
        assert(d@.skip(i as int)[0] == d@[i as int]);
        assert(d@.skip(i as int).drop_first() == d@.skip(i as int + 1));
        if same_text(d[i].0.as_str(), key) {
            return Some(&d[i].1);
        }
        i = i + 1;
    }
    None
}

/// The string a dictionary holds under `key`, if any.
pub open spec fn get_str(d: Seq<(String, PlistItem)>, key: Seq<char>) -> Option<String> {
    match dict_get(d, key) {
        Some(PlistItem::Str(s)) => Some(s),
        _ => None,
    }
}

/// The `u64` a dictionary holds under `key`, if any.
pub open spec fn get_uint(d: Seq<(String, PlistItem)>, key: Seq<char>) -> Option<u64> {
    match dict_get(d, key) {
        Some(PlistItem::Int(Some(n))) => Some(n),
        _ => None,
    }
}

/// The device id a dictionary holds: its `DeviceID` as an unsigned
/// integer truncated to 32 bits, or 0 when missing.
pub open spec fn device_id_of(d: Seq<(String, PlistItem)>) -> u32 {
    match get_uint(d, seq!['D', 'e', 'v', 'i', 'c', 'e', 'I', 'D']) {
        Some(n) => (n % 0x1_0000_0000) as u32,
        None => 0,
    }
}

fn device_id_field(d: &Vec<(String, PlistItem)>) -> (id: u32)
    ensures
        id == device_id_of(d@),
{
    let k = "DeviceID";
    proof { reveal_strlit("DeviceID"); }
    assert(k@ =~= seq!['D', 'e', 'v', 'i', 'c', 'e', 'I', 'D']);
    match get(d, k) {
        Some(PlistItem::Int(Some(n))) => (*n % 0x1_0000_0000) as u32,
        _ => 0,
    }
}

/// State of one usbmuxd Listen session: the discovered devices, and which
/// serial each attached interface (device id) belongs to. A phone attached
/// over several interfaces is one device.
pub struct UsbmuxdSession {
    pub tracker: DeviceTracker,
    pub interfaces: HashMap<u32, String>,
}

/// What a session asks the caller to do after an Attached notification.
pub enum AttachOutcome {
    /// The notification carried nothing to act on.
    Ignored,
    /// The serial is already known; only the interface was recorded.
    KnownDevice,
    /// A new device: add it under this name. When `lookup` holds, the name
    /// is the fallback `iPhone` and a lockdownd name query may replace it.
    NewDevice { device_id: u32, serial: String, name: String, lookup: bool },
}

/// The serial recorded for interface `id`.
pub open spec fn ids_serial(ifs: Map<u32, String>, id: u32) -> Option<Seq<char>> {
    if ifs.contains_key(id) { Some(ifs[id]@) } else { None }
}

/// Whether some interface is recorded for `serial`.
pub open spec fn serial_attached(ifs: Map<u32, String>, serial: Seq<char>) -> bool {
    exists|id: u32| ifs.contains_key(id) && #[trigger] ifs[id]@ == serial
}

impl UsbmuxdSession {
    /// The interfaces attached, with their serials.
    pub open spec fn interfaces(&self) -> Map<u32, String> {
        self.interfaces@
    }

    /// Well-formedness: the tracker is well formed.
    pub open spec fn wf(&self) -> bool {
        self.tracker.wf()
    }

    /// A fresh session.
    pub fn new() -> (s: Self)
        ensures
            s.wf(),
            s.interfaces() == Map::<u32, String>::empty(),
            s.tracker.known_ids() == Seq::<Seq<char>>::empty(),
            s.tracker.pending() == Seq::<crate::transport::device::DeviceEvent>::empty(),
    {
        broadcast use vstd::std_specs::hash::group_hash_axioms;
        UsbmuxdSession { tracker: DeviceTracker::new(), interfaces: HashMap::new() }
    }

    /// Remember that interface `id` belongs to `serial`, replacing what
    /// was recorded for `id`.
    fn record_interface(&mut self, id: u32, serial: String)
        ensures
            final(self).tracker == old(self).tracker,
            forall|x: u32| #[trigger] ids_serial(final(self).interfaces@, x)
                == if x == id { Some(serial@) } else { ids_serial(old(self).interfaces@, x) },
    {
        broadcast use vstd::std_specs::hash::group_hash_axioms;
        let ghost s = serial@;
        self.interfaces.insert(id, serial);
        assert(self.interfaces@[id]@ == s);
    }

    /// Handle an Attached notification: record the interface, and report a
    /// new device unless its serial is already known. Notifications without
    /// a Properties dictionary or with an empty serial are ignored.
    pub fn handle_attached(&mut self, msg: &Vec<(String, PlistItem)>) -> (out: AttachOutcome)
        requires
            old(self).wf(),
        ensures
            final(self).wf(),
            final(self).tracker == old(self).tracker,
            attach_spec(msg@, old(self).tracker.known_ids(), old(self).interfaces@, out, final(self).interfaces@),
    {
        proof {
            reveal_strlit("Properties");
            reveal_strlit("SerialNumber");
            reveal_strlit("DeviceName");
            reveal_strlit("iPhone");
        }
        let kp = "Properties";
        assert(kp@ =~= properties_key());
        let props = match get(msg, kp) {
            Some(PlistItem::Dict(p)) => p,
            _ => {
                return AttachOutcome::Ignored;
            }
        };
        let device_id = device_id_field(props);
        let ks = "SerialNumber";
        assert(ks@ =~= serial_key());
        let serial = match get(props, ks) {
            Some(PlistItem::Str(v)) => v.clone(),
            _ => String::new(),
        };
        if serial.as_str().is_empty() {
            return AttachOutcome::Ignored;
        }
        self.record_interface(device_id, serial.clone());
        if self.tracker.contains(serial.as_str()) {
            return AttachOutcome::KnownDevice;
        }
        let kn = "DeviceName";
        assert(kn@ =~= name_key());
        let fallback = "iPhone";
        assert(fallback@ =~= iphone());
        let name = match get(props, kn) {
            Some(PlistItem::Str(n)) => if n.as_str().is_empty() { fallback.to_owned() } else { n.clone() },
            _ => fallback.to_owned(),
        };
        let lookup = same_text(name.as_str(), fallback);
        AttachOutcome::NewDevice { device_id, serial, name, lookup }
    }

    /// Handle a Detached notification: forget the interface, and remove the
    /// device only when no other interface of the same serial remains.
    pub fn handle_detached(&mut self, msg: &Vec<(String, PlistItem)>)
        requires
            old(self).wf(),
        ensures
            final(self).wf(),
            detach_spec(msg@, old(self).tracker, old(self).interfaces@, final(self).tracker, final(self).interfaces@),
    {
        broadcast use vstd::std_specs::hash::group_hash_axioms;
        let id = device_id_field(msg);
        let ghost old_ifs = self.interfaces@;
        match self.interfaces.remove(&id) {
            None => {
                assert(ids_serial(old_ifs, id) is None);
            }
            Some(serial) => {
                assert(ids_serial(old_ifs, id) == Some(serial@));
                assert forall|x: u32| #[trigger] ids_serial(self.interfaces@, x)
                    == if x == id { None } else { ids_serial(old_ifs, x) } by {
                    if x != id {
                        assert(self.interfaces@.contains_key(x) == old_ifs.contains_key(x));
                    }
                }
                if !self.serial_still_attached(serial.as_str()) {
                    self.tracker.remove(serial.as_str());
                }
            }
        }
    }

    /// Whether some recorded interface belongs to `serial`.
    fn serial_still_attached(&self, serial: &str) -> (r: bool)
        ensures
            r == serial_attached(self.interfaces@, serial@),
    {
        broadcast use vstd::std_specs::hash::group_hash_axioms;
        let ghost all = vstd::std_specs::hash::spec_hash_map_iter(&self.interfaces).remaining();
        for e in it: self.interfaces.iter()
            invariant
                it.seq() == all,
                all == vstd::std_specs::hash::spec_hash_map_iter(&self.interfaces).remaining(),
                forall|i: int| 0 <= i < it.index() ==> (*(#[trigger] it.seq()[i]).1)@ != serial@,
        {
            let (k, v) = e;
            if same_text(v.as_str(), serial) {
                assert(self.interfaces@.contains_key(*k) && self.interfaces@[*k] == *v);
                return true;
            }
        }
        assert forall|id: u32| self.interfaces@.contains_key(id) implies #[trigger] self.interfaces@[id]@ != serial@ by {
            assert(all.contains((&id, &self.interfaces@[id])));
        }
        false
    }

    /// Route a notification by its MessageType: Attached and Detached are
    /// handled, everything else is ignored.
    pub fn dispatch(&mut self, msg: &Vec<(String, PlistItem)>) -> (out: AttachOutcome)
        requires
            old(self).wf(),
        ensures
            final(self).wf(),
            message_type(msg@) == Some(attached_text()) ==> attach_spec(msg@, old(self).tracker.known_ids(), old(self).interfaces@, out, final(self).interfaces@)
                && final(self).tracker == old(self).tracker,
            message_type(msg@) != Some(attached_text()) ==> out is Ignored,
            message_type(msg@) == Some(detached_text())
                ==> detach_spec(msg@, old(self).tracker, old(self).interfaces@, final(self).tracker, final(self).interfaces@),
            message_type(msg@) != Some(attached_text()) && message_type(msg@) != Some(detached_text())
                ==> final(self).interfaces@ == old(self).interfaces@ && final(self).tracker == old(self).tracker,
    {
        proof {
            reveal_strlit("MessageType");
            reveal_strlit("Attached");
            reveal_strlit("Detached");
        }
        let km = "MessageType";
        assert(km@ =~= type_key());
        let a = "Attached";
        assert(a@ =~= attached_text());
        let d = "Detached";
        assert(d@ =~= detached_text());
        match get(msg, km) {
            Some(PlistItem::Str(t)) => {
                if same_text(t.as_str(), a) {
                    self.handle_attached(msg)
                } else if same_text(t.as_str(), d) {
                    self.handle_detached(msg);
                    AttachOutcome::Ignored
                } else {
                    AttachOutcome::Ignored
                }
            }
            _ => AttachOutcome::Ignored,
        }
    }
}

/// What a Detached notification does: the interface named by its DeviceID
/// is forgotten; when it was the last interface of its serial, the serial
/// leaves the known devices and, if it was known, one `Removed` event for it
/// is queued; otherwise the tracker is unchanged.
pub open spec fn detach_spec(
    msg: Seq<(String, PlistItem)>,
    t0: DeviceTracker,
    ifs0: Map<u32, String>,
    t1: DeviceTracker,
    ifs1: Map<u32, String>,
) -> bool {
    let id = device_id_of(msg);
    &&& forall|x: u32| #[trigger] ids_serial(ifs1, x) == if x == id { None } else { ids_serial(ifs0, x) }
    &&& match ids_serial(ifs0, id) {
        None => t1 == t0,
        Some(serial) => if serial_attached(ifs1, serial) {
            t1 == t0
        } else {
            &&& t1.wf()
            &&& forall|x: Seq<char>| #[trigger] t1.known_ids().contains(x)
                == (t0.known_ids().contains(x) && x != serial)
            &&& t0.known_ids().contains(serial) ==> {
                &&& t1.pending() == t0.pending().push(t1.pending().last())
                &&& removed_event(t1.pending().last(), serial)
            }
            &&& !t0.known_ids().contains(serial) ==> t1.pending() == t0.pending()
        },
    }
}

/// `Properties`
pub open spec fn properties_key() -> Seq<char> { seq!['P', 'r', 'o', 'p', 'e', 'r', 't', 'i', 'e', 's'] }
/// `SerialNumber`
pub open spec fn serial_key() -> Seq<char> { seq!['S', 'e', 'r', 'i', 'a', 'l', 'N', 'u', 'm', 'b', 'e', 'r'] }
/// `DeviceName`
pub open spec fn name_key() -> Seq<char> { seq!['D', 'e', 'v', 'i', 'c', 'e', 'N', 'a', 'm', 'e'] }
/// `MessageType`
pub open spec fn type_key() -> Seq<char> { seq!['M', 'e', 's', 's', 'a', 'g', 'e', 'T', 'y', 'p', 'e'] }
/// `iPhone`
pub open spec fn iphone() -> Seq<char> { seq!['i', 'P', 'h', 'o', 'n', 'e'] }
/// `Attached`
pub open spec fn attached_text() -> Seq<char> { seq!['A', 't', 't', 'a', 'c', 'h', 'e', 'd'] }
/// `Detached`
pub open spec fn detached_text() -> Seq<char> { seq!['D', 'e', 't', 'a', 'c', 'h', 'e', 'd'] }

/// The MessageType of a notification.
pub open spec fn message_type(msg: Seq<(String, PlistItem)>) -> Option<Seq<char>> {
    match get_str(msg, type_key()) {
        Some(t) => Some(t@),
        None => None,
    }
}

/// What an Attached notification does: with a Properties dictionary and a
/// non-empty SerialNumber it records the interface, and reports a new
/// device (named by a non-empty DeviceName, else `iPhone`, with a lookup
/// asked for exactly when the name is `iPhone`) unless the serial is known;
/// otherwise it changes nothing.
pub open spec fn attach_spec(
    msg: Seq<(String, PlistItem)>,
    known: Seq<Seq<char>>,
    ifs: Map<u32, String>,
    out: AttachOutcome,
    ifs2: Map<u32, String>,
) -> bool {
    match dict_get(msg, properties_key()) {
        Some(PlistItem::Dict(p)) => {
            let id = device_id_of(p@);
            let serial = match get_str(p@, serial_key()) { Some(s) => s@, None => seq![] };
            if serial.len() == 0 {
                out is Ignored && ifs2 == ifs
            } else {
                &&& forall|x: u32| #[trigger] ids_serial(ifs2, x) == if x == id { Some(serial) } else { ids_serial(ifs, x) }
                &&& if known.contains(serial) {
                    out is KnownDevice
                } else {
                    let name = match get_str(p@, name_key()) {
                        Some(n) => if n@.len() == 0 { iphone() } else { n@ },
                        None => iphone(),
                    };
                    out matches AttachOutcome::NewDevice { device_id, serial: s, name: nm, lookup }
                        && device_id == id && s@ == serial && nm@ == name && lookup == (name == iphone())
                }
            }
        }
        _ => out is Ignored && ifs2 == ifs,
    }
}

} // verus!
