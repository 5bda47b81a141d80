//! Discovered devices, how to reach them, and the per-source bookkeeping
//! that turns snapshots into Added / Removed events.

use vstd::prelude::*;
use crate::text::strings::{same_text, views};

verus! {

/// A discovered device.
#[derive(Debug, Clone, PartialEq)]
pub struct Device {
    pub id: String,
    pub name: String,
    pub kind: DeviceKind,
}

/// The platform a device was discovered on.
#[derive(Debug, Clone, PartialEq)]
pub enum DeviceKind {
    Android,
    IosUsb { device_id: u32 },
    Local,
}

/// How a device's VM service is reached.
pub enum ConnectionMethod {
    Localhost,
    AdbForward { serial: String },
    Usbmuxd { device_id: u32 },
}

/// The connection method that a device of each kind uses.
pub open spec fn connection_method_spec(d: Device) -> ConnectionMethod {
    match d.kind {
        DeviceKind::Android => ConnectionMethod::AdbForward { serial: d.id },
        DeviceKind::IosUsb { device_id } => ConnectionMethod::Usbmuxd { device_id },
        DeviceKind::Local => ConnectionMethod::Localhost,
    }
}

impl Device {
    /// Android devices go through `adb forward` with their serial, USB iOS
    /// devices through usbmuxd with their device id, local apps through
    /// loopback.
    pub fn connection_method(&self) -> (m: ConnectionMethod)
        ensures
            m == connection_method_spec(*self),
    {
        match &self.kind {
            DeviceKind::Android => ConnectionMethod::AdbForward { serial: self.id.clone() },
            DeviceKind::IosUsb { device_id } => ConnectionMethod::Usbmuxd { device_id: *device_id },
            DeviceKind::Local => ConnectionMethod::Localhost,
        }
    }
}

/// A change in the set of reachable devices.
#[derive(Debug)]
pub enum DeviceEvent {
    Added(Device),
    Removed(String),
}

/// The id that an event is about.
pub open spec fn event_id(e: DeviceEvent) -> Seq<char> {
    match e {
        DeviceEvent::Added(d) => d.id@,
        DeviceEvent::Removed(id) => id@,
    }
}

/// Added events minus Removed events for `id` over an event history.
pub open spec fn balance(h: Seq<DeviceEvent>, id: Seq<char>) -> int
    decreases h.len(),
{
    if h.len() == 0 {
        0
    } else {
        balance(h.drop_last(), id) + match h.last() {
            DeviceEvent::Added(d) => if d.id@ == id { 1int } else { 0int },
            DeviceEvent::Removed(x) => if x@ == id { -1int } else { 0int },
        }
    }
}

/// The balance of a history extended by one event.
pub proof fn lemma_balance_push(h: Seq<DeviceEvent>, e: DeviceEvent, id: Seq<char>)
    ensures
        balance(h.push(e), id) == balance(h, id) + match e {
            DeviceEvent::Added(d) => if d.id@ == id { 1int } else { 0int },
            DeviceEvent::Removed(x) => if x@ == id { -1int } else { 0int },
        },
{
    assert(h.push(e).drop_last() == h);
}

/// The set of device ids one discovery source currently reports, and the
/// events it has produced. Every Added is emitted once per id, and every
/// Added id gets a Removed when it disappears or when the source drains.
pub struct DeviceTracker {
    known: Vec<String>,
    outbox: Vec<DeviceEvent>,
    history: Ghost<Seq<DeviceEvent>>,
}

impl DeviceTracker {
    /// The ids currently known, in the order they were added.
    pub closed spec fn known_ids(&self) -> Seq<Seq<char>> {
        views(self.known@)
    }

    /// Events produced and not yet taken.
    pub closed spec fn pending(&self) -> Seq<DeviceEvent> {
        self.outbox@
    }

    /// Every event this tracker has produced.
    pub closed spec fn history(&self) -> Seq<DeviceEvent> {
        self.history@
    }

    /// Well-formedness: no id is known twice, and for every id the Added
    /// events so far outnumber the Removed ones by one exactly when the id
    /// is known.
    pub closed spec fn wf(&self) -> bool {
        &&& self.known_ids().no_duplicates()
        &&& forall|id: Seq<char>| #[trigger] balance(self.history@, id)
            == if self.known_ids().contains(id) { 1int } else { 0int }
    }

    /// A tracker that knows no device.
    pub fn new() -> (t: Self)
        ensures
            t.wf(),
            t.known_ids() == Seq::<Seq<char>>::empty(),
            t.pending() == Seq::<DeviceEvent>::empty(),
            t.history() == Seq::<DeviceEvent>::empty(),
    {
        let t = DeviceTracker { known: Vec::new(), outbox: Vec::new(), history: Ghost(Seq::empty()) };
        assert(t.known_ids() =~= Seq::<Seq<char>>::empty());
        t
    }

    /// Whether `id` is currently known.
    pub fn contains(&self, id: &str) -> (r: bool)
        ensures
            r == self.known_ids().contains(id@),
    {
        let mut i: usize = 0;
        while i < self.known.len()
            invariant
                i <= self.known.len(),
                forall|k: int| 0 <= k < i ==> self.known_ids()[k] != id@,
            decreases self.known.len() - i,
        {
            if same_text(self.known[i].as_str(), id) {
                assert(self.known_ids()[i as int] == id@);
                return true;
            }
            i = i + 1;
        }
        false
    }

    /// Position of `id` among the known ids.
    fn find(&self, id: &str) -> (r: Option<usize>)
        ensures
            match r {
                Some(i) => i < self.known_ids().len() && self.known_ids()[i as int] == id@,
                None => !self.known_ids().contains(id@),
            },
    {
        let mut i: usize = 0;
        while i < self.known.len()
            invariant
                i <= self.known.len(),
                forall|k: int| 0 <= k < i ==> self.known_ids()[k] != id@,
            decreases self.known.len() - i,
        {
            if same_text(self.known[i].as_str(), id) {
                return Some(i);
            }
            i = i + 1;
        }
        None
    }

    /// Emit Added if the device id has not been seen yet; returns whether
    /// an event was emitted.
    pub fn add(&mut self, device: Device) -> (added: bool)
        requires
            old(self).wf(),
        ensures
            final(self).wf(),
            added == !old(self).known_ids().contains(device.id@),
            added ==> final(self).known_ids() == old(self).known_ids().push(device.id@),
            added ==> final(self).pending() == old(self).pending().push(DeviceEvent::Added(device)),
            added ==> final(self).history() == old(self).history().push(DeviceEvent::Added(device)),
            !added ==> final(self).known_ids() == old(self).known_ids(),
            !added ==> final(self).pending() == old(self).pending(),
            !added ==> final(self).history() == old(self).history(),
    {
        if self.contains(device.id.as_str()) {
            return false;
        }
        let ghost old_ids = self.known_ids();
        let ghost old_h = self.history@;
        let id = device.id.clone();
        self.known.push(id);
        let ev = DeviceEvent::Added(device);
        proof {
            assert(self.known_ids() =~= old_ids.push(device.id@));
            assert forall|x: Seq<char>| #[trigger] balance(old_h.push(ev), x)
                == if self.known_ids().contains(x) { 1int } else { 0int } by {
                lemma_balance_push(old_h, ev, x);
                lemma_contains_push(old_ids, device.id@, x);
            }
            assert(self.known_ids().no_duplicates()) by {
                assert forall|a: int, b: int| 0 <= a < b < self.known_ids().len() implies
                    self.known_ids()[a] != self.known_ids()[b] by {
                    if b == self.known_ids().len() - 1 {
                        assert(old_ids[a] == self.known_ids()[a]);
                    }
                }
            }
        }
        self.history = Ghost(self.history@.push(ev));
        self.outbox.push(ev);
        true
    }

    /// Forget `id` and emit Removed for it; silent when `id` is unknown.
    pub fn remove(&mut self, id: &str)
        requires
            old(self).wf(),
        ensures
            final(self).wf(),
            forall|x: Seq<char>| #[trigger] final(self).known_ids().contains(x)
                == (old(self).known_ids().contains(x) && x != id@),
            old(self).known_ids().contains(id@) ==> {
                &&& final(self).pending() == old(self).pending().push(final(self).pending().last())
                &&& final(self).history() == old(self).history().push(final(self).pending().last())
                &&& removed_event(final(self).pending().last(), id@)
            },
            !old(self).known_ids().contains(id@) ==> final(self).known_ids() == old(self).known_ids()
                && final(self).pending() == old(self).pending()
                && final(self).history() == old(self).history(),
    {
        match self.find(id) {
            None => {},
            Some(i) => {
                let ghost old_ids = self.known_ids();
                let ghost old_h = self.history@;
                let _gone = self.known.remove(i);
                let ev = DeviceEvent::Removed(id.to_owned());
                proof {
                    assert(self.known_ids() =~= old_ids.remove(i as int));
                    assert forall|x: Seq<char>| #[trigger] self.known_ids().contains(x)
                        == (old_ids.contains(x) && x != id@) by {
                        lemma_contains_after_remove(old_ids, i as int, x);
                    }
                    assert forall|x: Seq<char>| #[trigger] balance(old_h.push(ev), x)
                        == if self.known_ids().contains(x) { 1int } else { 0int } by {
                        lemma_balance_push(old_h, ev, x);
                    }
                    assert(self.known_ids().no_duplicates()) by {
                        assert forall|a: int, b: int| 0 <= a < b < self.known_ids().len() implies
                            self.known_ids()[a] != self.known_ids()[b] by {
                            let a0 = if a < i { a } else { a + 1 };
                            let b0 = if b < i { b } else { b + 1 };
                            assert(self.known_ids()[a] == old_ids[a0]);
                            assert(self.known_ids()[b] == old_ids[b0]);
                        }
                    }
                }
                self.history = Ghost(self.history@.push(ev));
                self.outbox.push(ev);
            },
        }
    }

    /// The known ids that `current` no longer lists, in known order.
    pub fn removed_since(&self, current: &Vec<String>) -> (gone: Vec<String>)
        ensures
            views(gone@) == self.known_ids().filter(|x: Seq<char>| !views(current@).contains(x)),
    {
        let mut gone: Vec<String> = Vec::new();
        let mut i: usize = 0;
        let ghost pred = |x: Seq<char>| !views(current@).contains(x);
        assert(self.known_ids().take(0) =~= Seq::<Seq<char>>::empty());
        assert(views(gone@) =~= Seq::<Seq<char>>::empty());
        while i < self.known.len()
            invariant
                i <= self.known.len(),
                pred == |x: Seq<char>| !views(current@).contains(x),
                views(gone@) == self.known_ids().take(i as int).filter(pred),
            decreases self.known.len() - i,
        {
            proof {
                reveal_with_fuel(Seq::<_>::filter, 1);
                assert(self.known_ids().take(i as int + 1).drop_last() =~= self.known_ids().take(i as int));
            }
            let listed = contains_string(current, self.known[i].as_str());
            if !listed {
                let ghost before = gone@;
                gone.push(self.known[i].clone());
                proof { crate::text::strings::lemma_views_push(before, gone@.last()); assert(gone@ == before.push(gone@.last())); }
            }
            i = i + 1;
        }
        assert(self.known_ids().take(self.known.len() as int) =~= self.known_ids());
        gone
    }

    /// Emit Removed for every known id and forget them all. After a drain,
    /// every Added this tracker ever emitted has a matching Removed.
    pub fn drain(&mut self)
        requires
            old(self).wf(),
        ensures
            final(self).wf(),
            final(self).known_ids() == Seq::<Seq<char>>::empty(),
            final(self).pending().len() == old(self).pending().len() + old(self).known_ids().len(),
            final(self).pending().take(old(self).pending().len() as int) == old(self).pending(),
            forall|k: int| 0 <= k < old(self).known_ids().len() ==>
                removed_event(#[trigger] final(self).pending()[old(self).pending().len() + k], old(self).known_ids()[k]),
            forall|id: Seq<char>| #[trigger] balance(final(self).history(), id) == 0,
    {
        let ghost old_ids = self.known_ids();
        let ghost old_pending = self.outbox@;
        let ghost old_h = self.history@;
        let mut i: usize = 0;
        let n = self.known.len();
        assert(old_ids.skip(0) == old_ids);
        while i < n
            invariant
                n == self.known.len(),
                old_ids == views(self.known@),
                old_ids.no_duplicates(),
                i <= n,
                self.outbox@.len() == old_pending.len() + i,
                self.outbox@.take(old_pending.len() as int) == old_pending,
                forall|k: int| 0 <= k < i ==> removed_event(#[trigger] self.outbox@[old_pending.len() + k], old_ids[k]),
                forall|x: Seq<char>| #[trigger] balance(self.history@, x)
                    == if old_ids.skip(i as int).contains(x) { 1int } else { 0int },
            decreases n - i,
        {
            let ev = DeviceEvent::Removed(self.known[i].clone());
            let ghost h = self.history@;
            proof {
                assert forall|x: Seq<char>| #[trigger] balance(h.push(ev), x)
                    == if old_ids.skip(i as int + 1).contains(x) { 1int } else { 0int } by {
                    lemma_balance_push(h, ev, x);
                    lemma_skip_step_contains(old_ids, i as int, x);
                }
            }
            self.history = Ghost(self.history@.push(ev));
            let ghost ob = self.outbox@;
            self.outbox.push(ev);
            assert(self.outbox@.take(old_pending.len() as int) =~= ob.take(old_pending.len() as int));
            i = i + 1;
        }
        self.known.clear();
        proof {
            assert(self.known_ids() =~= Seq::<Seq<char>>::empty());
            assert forall|x: Seq<char>| #[trigger] balance(self.history@, x) == 0 by {
                assert(old_ids.skip(n as int) =~= Seq::<Seq<char>>::empty());
            }
        }
    }

    /// Hand out the pending events in the order they were produced.
    pub fn take_events(&mut self) -> (events: Vec<DeviceEvent>)
        requires
            old(self).wf(),
        ensures
            final(self).wf(),
            events@ == old(self).pending(),
            final(self).pending() == Seq::<DeviceEvent>::empty(),
            final(self).known_ids() == old(self).known_ids(),
            final(self).history() == old(self).history(),
    {
        let mut events: Vec<DeviceEvent> = Vec::new();
        std::mem::swap(&mut events, &mut self.outbox);
        events
    }
}

/// `e` is a Removed event for `id`.
pub open spec fn removed_event(e: DeviceEvent, id: Seq<char>) -> bool {
    e matches DeviceEvent::Removed(x) && x@ == id
}

/// Whether `v` holds a string equal to `s`.
pub fn contains_string(v: &Vec<String>, s: &str) -> (r: bool)
    ensures
        r == views(v@).contains(s@),
{
    let mut i: usize = 0;
    while i < v.len()
        invariant
            i <= v.len(),
            forall|k: int| 0 <= k < i ==> views(v@)[k] != s@,
        decreases v.len() - i,
    {
        if same_text(v[i].as_str(), s) {
            assert(views(v@)[i as int] == s@);
            return true;
        }
        i = i + 1;
    }
    false
}

/// A well-formed tracker knows each id once.
pub proof fn lemma_known_distinct(t: &DeviceTracker)
    requires
        t.wf(),
    ensures
        t.known_ids().no_duplicates(),
{
}

/// Filtering keeps a sequence free of duplicates.
pub proof fn lemma_filter_distinct(s: Seq<Seq<char>>, p: spec_fn(Seq<char>) -> bool)
    requires
        s.no_duplicates(),
    ensures
        s.filter(p).no_duplicates(),
    decreases s.len(),
{
    if s.len() > 0 {
        let init = s.drop_last();
        let last = s.last();
        assert(init.push(last) =~= s);
        assert(init.no_duplicates()) by {
            assert forall|a: int, b: int| 0 <= a < b < init.len() implies init[a] != init[b] by {
                assert(s[a] == init[a] && s[b] == init[b]);
            }
        }
        lemma_filter_distinct(init, p);
        init.lemma_filter_push(last, p);
        if p(last) {
            let f = init.filter(p);
            assert(!f.contains(last)) by {
                if f.contains(last) {
                    init.lemma_filter_contains_rev(p, last);
                    let k = choose|k: int| 0 <= k < init.len() && init[k] == last;
                    assert(s[k] == s[s.len() - 1]);
                }
            }
            assert forall|a: int, b: int| 0 <= a < b < f.push(last).len() implies
                f.push(last)[a] != f.push(last)[b] by {
                if b == f.len() {
                    assert(f.push(last)[a] == f[a]);
                    if f[a] == last {
                        assert(f.contains(last));
                    }
                } else {
                    assert(f.push(last)[a] == f[a] && f.push(last)[b] == f[b]);
                }
            }
        }
    }
}

/// Membership after a push.
pub proof fn lemma_contains_push(s: Seq<Seq<char>>, a: Seq<char>, x: Seq<char>)
    ensures
        s.push(a).contains(x) == (s.contains(x) || x == a),
{
    if s.push(a).contains(x) {
        let t = s.push(a);
        let k = choose|k: int| 0 <= k < t.len() && #[trigger] t[k] == x;
        if k < s.len() {
            assert(s[k] == x);
        }
    }
    if s.contains(x) {
        let k = choose|k: int| 0 <= k < s.len() && #[trigger] s[k] == x;
        assert(s.push(a)[k] == x);
    }
    if x == a {
        assert(s.push(a)[s.len() as int] == x);
    }
}

/// Membership after removing a position from a duplicate-free sequence.
proof fn lemma_contains_after_remove(s: Seq<Seq<char>>, i: int, x: Seq<char>)
    requires
        0 <= i < s.len(),
        s.no_duplicates(),
    ensures
        s.remove(i).contains(x) == (s.contains(x) && x != s[i]),
{
    if s.remove(i).contains(x) {
        let k = choose|k: int| 0 <= k < s.remove(i).len() && s.remove(i)[k] == x;
        let k0 = if k < i { k } else { k + 1 };
        assert(s[k0] == x);
    }
    if s.contains(x) && x != s[i] {
        let k = choose|k: int| 0 <= k < s.len() && s[k] == x;
        let k1 = if k < i { k } else { k - 1 };
        assert(s.remove(i)[k1] == x);
    }
}

/// Membership in the suffix after one more step, for a duplicate-free
/// sequence.
proof fn lemma_skip_step_contains(s: Seq<Seq<char>>, i: int, x: Seq<char>)
    requires
        0 <= i < s.len(),
        s.no_duplicates(),
    ensures
        s.skip(i).contains(x) == (s.skip(i + 1).contains(x) || x == s[i]),
        s.skip(i + 1).contains(x) ==> x != s[i],
{
    assert(s.skip(i)[0] == s[i]);
    if s.skip(i + 1).contains(x) {
        let t = s.skip(i + 1);
        let k = choose|k: int| 0 <= k < t.len() && #[trigger] t[k] == x;
        assert(s.skip(i)[k + 1] == x);
        assert(s[i + 1 + k] == x);
    }
    if s.skip(i).contains(x) && x != s[i] {
        let t = s.skip(i);
        let k = choose|k: int| 0 <= k < t.len() && #[trigger] t[k] == x;
        assert(k != 0);
        assert(s.skip(i + 1)[k - 1] == x);
    }
}

} // verus!
