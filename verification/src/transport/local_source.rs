//! Localhost discovery: a flog server on the host or an iOS simulator
//! listens on one of ten ports from a base port. A listening port alone is
//! no proof — the peer must greet with a `hello` frame — and ports that
//! failed the handshake are skipped until they close.

use vstd::prelude::*;
use std::collections::HashSet;
use crate::json::{
    JsonValue, JsonView, get_key, json_as_str, json_bytes_value, json_get, json_text_value, json_view,
    lemma_array_view, lemma_object_view, opt_view, parse_json, parse_json_bytes, str_of,
};
use crate::text::strings::{same_text, to_lowercase, unicode_lowercase};

verus! {

/// What a flog server says of itself in its `hello` frame.
#[derive(Debug)]
pub struct Hello {
    pub os: String,
    pub app: String,
}

/// `type`
pub open spec fn key_type() -> Seq<char> { seq!['t', 'y', 'p', 'e'] }
/// `hello`
pub open spec fn word_hello() -> Seq<char> { seq!['h', 'e', 'l', 'l', 'o'] }
/// `os`
pub open spec fn key_os() -> Seq<char> { seq!['o', 's'] }
/// `app`
pub open spec fn key_app() -> Seq<char> { seq!['a', 'p', 'p'] }
/// `devices`
pub open spec fn key_devices() -> Seq<char> { seq!['d', 'e', 'v', 'i', 'c', 'e', 's'] }
/// `state`
pub open spec fn key_state() -> Seq<char> { seq!['s', 't', 'a', 't', 'e'] }
/// `Booted`
pub open spec fn word_booted() -> Seq<char> { seq!['B', 'o', 'o', 't', 'e', 'd'] }
/// `name`
pub open spec fn key_name() -> Seq<char> { seq!['n', 'a', 'm', 'e'] }
/// `ios`
pub open spec fn word_ios() -> Seq<char> { seq!['i', 'o', 's'] }
/// `Simulator`
pub open spec fn word_simulator() -> Seq<char> { seq!['S', 'i', 'm', 'u', 'l', 'a', 't', 'o', 'r'] }

/// A string or the empty string.
pub open spec fn or_empty(o: Option<Seq<char>>) -> Seq<char> {
    match o { Some(t) => t, None => seq![] }
}

/// The greeting a value holds: an object whose `type` is `"hello"`, with
/// its `os` and `app` strings (empty when missing or not strings).
pub open spec fn hello_spec(v: JsonView) -> Option<(Seq<char>, Seq<char>)> {
    if str_of(get_key(v, key_type())) == Some(word_hello()) {
        Some((or_empty(str_of(get_key(v, key_os()))), or_empty(str_of(get_key(v, key_app())))))
    } else {
        None
    }
}

/// The view of an optional greeting.
pub open spec fn hello_view(h: Option<Hello>) -> Option<(Seq<char>, Seq<char>)> {
    match h { Some(h) => Some((h.os@, h.app@)), None => None }
}

/// A copy of an optional string, or an empty string.
fn owned_or_empty(s: Option<&String>) -> (r: String)
    ensures
        r@ == or_empty(match s { Some(t) => Some(t@), None => None }),
{
    match s {
        Some(t) => t.clone(),
        None => String::new(),
    }
}

/// The greeting in a parsed frame.
pub fn hello_from_value(v: &JsonValue) -> (r: Option<Hello>)
    ensures
        hello_view(r) == hello_spec(json_view(*v)),
{
    let hello = "hello";
    proof {
        reveal_strlit("type");
        reveal_strlit("hello");
        reveal_strlit("os");
        reveal_strlit("app");
        assert("type"@ =~= key_type());
        assert(hello@ =~= word_hello());
        assert("os"@ =~= key_os());
        assert("app"@ =~= key_app());
    }
    match json_as_str(json_get(v, "type")) {
        Some(t) => {
            if !same_text(t.as_str(), hello) {
                return None;
            }
        },
        None => {
            return None;
        },
    }
    let os = owned_or_empty(json_as_str(json_get(v, "os")));
    let app = owned_or_empty(json_as_str(json_get(v, "app")));
    Some(Hello { os, app })
}

/// The greeting in the first text frame a peer sent, when it is a JSON
/// `hello` object.
pub fn parse_hello(text: &str) -> (r: Option<Hello>)
    ensures
        hello_view(r) == match json_text_value(text@) {
            Some(v) => hello_spec(v),
            None => None,
        },
{
    match parse_json(text) {
        Ok(v) => hello_from_value(&v),
        Err(_) => None,
    }
}

/// Whether naming the device needs the booted simulator's name: the
/// peer runs on iOS.
pub fn needs_simctl(hello: &Hello) -> (r: bool)
    ensures
        r == (unicode_lowercase(hello.os@) == word_ios()),
{
    let os = to_lowercase(hello.os.as_str());
    proof { reveal_strlit("ios"); assert("ios"@ =~= word_ios()); }
    same_text(os.as_str(), "ios")
}

/// The device name for a greeting: on iOS the booted simulator's name, or
/// `Simulator` when none is known; elsewhere the app's name, or
/// `Simulator` when it is empty.
pub open spec fn local_name_spec(os: Seq<char>, app: Seq<char>, booted: Option<Seq<char>>) -> Seq<char> {
    if unicode_lowercase(os) == word_ios() {
        match booted { Some(b) => b, None => word_simulator() }
    } else if app.len() > 0 {
        app
    } else {
        word_simulator()
    }
}

/// Name the local device from its greeting and, for iOS, the booted
/// simulator's name as `simctl` reported it.
pub fn device_name(hello: &Hello, booted: Option<String>) -> (name: String)
    ensures
        name@ == local_name_spec(hello.os@, hello.app@, match booted { Some(b) => Some(b@), None => None }),
{
    let mut fallback = String::new();
    proof { reveal_strlit("Simulator"); assert("Simulator"@ =~= word_simulator()); }
    crate::text::strings::push_str(&mut fallback, "Simulator");
    if needs_simctl(hello) {
        match booted {
            Some(b) => b,
            None => fallback,
        }
    } else if !hello.app.as_str().is_empty() {
        hello.app.clone()
    } else {
        fallback
    }
}

/// The first booted device's name among an array's devices.
pub open spec fn booted_in(items: Seq<JsonView>) -> Option<Seq<char>>
    decreases items.len(),
{
    if items.len() == 0 {
        None
    } else if str_of(get_key(items[0], key_state())) == Some(word_booted())
        && str_of(get_key(items[0], key_name())) is Some {
        str_of(get_key(items[0], key_name()))
    } else {
        booted_in(items.drop_first())
    }
}

/// The first booted device's name across runtimes, in order; a runtime
/// whose value is not an array is skipped.
pub open spec fn booted_in_runtimes(rts: Seq<(Seq<char>, JsonView)>) -> Option<Seq<char>>
    decreases rts.len(),
{
    if rts.len() == 0 {
        None
    } else {
        match rts[0].1 {
            JsonView::Array(items) => match booted_in(items) {
                Some(n) => Some(n),
                None => booted_in_runtimes(rts.drop_first()),
            },
            _ => booted_in_runtimes(rts.drop_first()),
        }
    }
}

/// The booted simulator named in `simctl list devices booted --json`
/// output: the first device with state `Booted` and a name, under
/// `devices`.
pub open spec fn simctl_booted_spec(v: JsonView) -> Option<Seq<char>> {
    match get_key(v, key_devices()) {
        Some(JsonView::Object(rts)) => booted_in_runtimes(rts),
        _ => None,
    }
}

/// A device entry that is booted and named: its `state` is the string
/// `Booted` and its `name` is a string.
pub open spec fn booted_device(d: JsonView) -> bool {
    str_of(get_key(d, key_state())) == Some(word_booted()) && str_of(get_key(d, key_name())) is Some
}

/// The device entries of a runtime: its array's items, none when it is
/// not an array.
pub open spec fn runtime_devices(x: JsonView) -> Seq<JsonView> {
    match x { JsonView::Array(items) => items, _ => seq![] }
}

proof fn lemma_booted_in_first(items: Seq<JsonView>, i: int)
    requires
        0 <= i < items.len(),
        booted_device(items[i]),
        forall|j: int| 0 <= j < i ==> !booted_device(#[trigger] items[j]),
    ensures
        booted_in(items) == str_of(get_key(items[i], key_name())),
    decreases i,
{
    if i > 0 {
        assert(!booted_device(items[0]));
        assert forall|j: int| 0 <= j < i - 1 implies !booted_device(#[trigger] items.drop_first()[j]) by {
            assert(items.drop_first()[j] == items[j + 1]);
        }
        lemma_booted_in_first(items.drop_first(), i - 1);
    }
}

proof fn lemma_booted_in_none(items: Seq<JsonView>)
    requires
        forall|j: int| 0 <= j < items.len() ==> !booted_device(#[trigger] items[j]),
    ensures
        booted_in(items) is None,
    decreases items.len(),
{
    if items.len() > 0 {
        assert(!booted_device(items[0]));
        assert forall|j: int| 0 <= j < items.len() - 1 implies !booted_device(#[trigger] items.drop_first()[j]) by {
            assert(items.drop_first()[j] == items[j + 1]);
        }
        lemma_booted_in_none(items.drop_first());
    }
}

proof fn lemma_runtimes_first(rts: Seq<(Seq<char>, JsonView)>, r: int, i: int)
    requires
        0 <= r < rts.len(),
        0 <= i < runtime_devices(rts[r].1).len(),
        booted_device(runtime_devices(rts[r].1)[i]),
        forall|j: int| 0 <= j < i ==> !booted_device(#[trigger] runtime_devices(rts[r].1)[j]),
        forall|q: int, j: int| 0 <= q < r && 0 <= j < runtime_devices(rts[q].1).len()
            ==> !booted_device(#[trigger] runtime_devices(rts[q].1)[j]),
    ensures
        booted_in_runtimes(rts) == str_of(get_key(runtime_devices(rts[r].1)[i], key_name())),
    decreases r,
{
    if r == 0 {
        lemma_booted_in_first(runtime_devices(rts[0].1), i);
    } else {
        lemma_booted_in_none(runtime_devices(rts[0].1));
        let rest = rts.drop_first();
        assert forall|q: int, j: int| 0 <= q < r - 1 && 0 <= j < runtime_devices(rest[q].1).len()
            implies !booted_device(#[trigger] runtime_devices(rest[q].1)[j]) by {
            assert(rest[q] == rts[q + 1]);
        }
        assert(rest[r - 1] == rts[r]);
        lemma_runtimes_first(rest, r - 1, i);
    }
}

proof fn lemma_runtimes_none(rts: Seq<(Seq<char>, JsonView)>)
    requires
        forall|q: int, j: int| 0 <= q < rts.len() && 0 <= j < runtime_devices(rts[q].1).len()
            ==> !booted_device(#[trigger] runtime_devices(rts[q].1)[j]),
    ensures
        booted_in_runtimes(rts) is None,
    decreases rts.len(),
{
    if rts.len() > 0 {
        lemma_booted_in_none(runtime_devices(rts[0].1));
        let rest = rts.drop_first();
        assert forall|q: int, j: int| 0 <= q < rest.len() && 0 <= j < runtime_devices(rest[q].1).len()
            implies !booted_device(#[trigger] runtime_devices(rest[q].1)[j]) by {
            assert(rest[q] == rts[q + 1]);
        }
        lemma_runtimes_none(rest);
    }
}

/// The booted simulator is found in whichever runtime holds it: when the
/// first booted, named device (runtimes in order, devices in order) is
/// device `i` of runtime `r`, the result is its name, however many
/// runtimes before it hold no booted device.
pub proof fn lemma_simctl_booted_first(v: JsonView, r: int, i: int)
    requires
        get_key(v, key_devices()) matches Some(JsonView::Object(rts)) && {
            &&& 0 <= r < rts.len()
            &&& 0 <= i < runtime_devices(rts[r].1).len()
            &&& booted_device(runtime_devices(rts[r].1)[i])
            &&& forall|j: int| 0 <= j < i ==> !booted_device(#[trigger] runtime_devices(rts[r].1)[j])
            &&& forall|q: int, j: int| 0 <= q < r && 0 <= j < runtime_devices(rts[q].1).len()
                ==> !booted_device(#[trigger] runtime_devices(rts[q].1)[j])
        },
    ensures
        get_key(v, key_devices()) matches Some(JsonView::Object(rts)) && {
            &&& simctl_booted_spec(v) is Some
            &&& simctl_booted_spec(v) == str_of(get_key(runtime_devices(rts[r].1)[i], key_name()))
        },
{
    if let Some(JsonView::Object(rts)) = get_key(v, key_devices()) {
        lemma_runtimes_first(rts, r, i);
    }
}

/// No simulator is named only when no runtime holds a booted, named
/// device.
pub proof fn lemma_simctl_booted_none(v: JsonView)
    requires
        get_key(v, key_devices()) matches Some(JsonView::Object(rts)) && forall|q: int, j: int|
            0 <= q < rts.len() && 0 <= j < runtime_devices(rts[q].1).len()
            ==> !booted_device(#[trigger] runtime_devices(rts[q].1)[j]),
    ensures
        simctl_booted_spec(v) is None,
{
    if let Some(JsonView::Object(rts)) = get_key(v, key_devices()) {
        lemma_runtimes_none(rts);
    }
}

/// The view of an optional string.
pub open spec fn text_opt(o: Option<String>) -> Option<Seq<char>> {
    match o { Some(t) => Some(t@), None => None }
}

/// The first booted device's name among some devices.
fn booted_among(items: &Vec<JsonValue>) -> (r: Option<String>)
    ensures
        text_opt(r) == booted_in(Seq::new(items@.len(), |k: int| json_view(items@[k]))),
{
    let ghost s = Seq::new(items@.len(), |k: int| json_view(items@[k]));
    proof {
        reveal_strlit("state");
        reveal_strlit("Booted");
        reveal_strlit("name");
        assert("state"@ =~= key_state());
        assert("Booted"@ =~= word_booted());
        assert("name"@ =~= key_name());
        assert(s.skip(0) == s);
    }
    let mut k: usize = 0;
    while k < items.len()
        invariant
            k <= items@.len(),
            s == Seq::new(items@.len(), |k: int| json_view(items@[k])),
            booted_in(s.skip(k as int)) == booted_in(s),
            "state"@ == key_state(),
            "Booted"@ == word_booted(),
            "name"@ == key_name(),
        decreases items@.len() - k,
    {
        assert(s.skip(k as int)[0] == s[k as int]);
        assert(s.skip(k as int).drop_first() == s.skip(k as int + 1));
        let dev = &items[k];
        let booted = match json_as_str(json_get(dev, "state")) {
            Some(st) => same_text(st.as_str(), "Booted"),
            None => false,
        };
        if booted {
            match json_as_str(json_get(dev, "name")) {
                Some(n) => { return Some(n.clone()); },
                None => {},
            }
        }
        k = k + 1;
    }
    None
}

/// The booted simulator's name in parsed `simctl` output.
pub fn booted_from_value(v: &JsonValue) -> (r: Option<String>)
    ensures
        text_opt(r) == simctl_booted_spec(json_view(*v)),
{
    proof { reveal_strlit("devices"); assert("devices"@ =~= key_devices()); }
    match json_get(v, "devices") {
        Some(JsonValue::Object(m)) => {
            let ghost rts = Seq::new(m@.len(), |k: int| (m@[k].0@, json_view(m@[k].1)));
            proof { lemma_object_view(*m); assert(rts.skip(0) == rts); }
            let mut k: usize = 0;
            while k < m.len()
                invariant
                    k <= m@.len(),
                    rts == Seq::new(m@.len(), |k: int| (m@[k].0@, json_view(m@[k].1))),
                    simctl_booted_spec(json_view(*v)) == booted_in_runtimes(rts),
                    booted_in_runtimes(rts.skip(k as int)) == booted_in_runtimes(rts),
                decreases m@.len() - k,
            {
                assert(rts.skip(k as int)[0] == rts[k as int]);
                assert(rts.skip(k as int).drop_first() == rts.skip(k as int + 1));
                match &m[k].1 {
                    JsonValue::Array(items) => {
                        proof { lemma_array_view(*items); }
                        match booted_among(items) {
                            Some(n) => { return Some(n); },
                            None => {},
                        }
                    },
                    _ => {},
                }
                k = k + 1;
            }
            None
        },
        _ => None,
    }
}

/// The name of the booted simulator in `xcrun simctl list devices booted
/// --json` output, if the output is JSON and names one.
pub fn parse_simctl_booted(stdout: &[u8]) -> (r: Option<String>)
    ensures
        text_opt(r) == match json_bytes_value(stdout@) {
            Some(v) => simctl_booted_spec(v),
            None => None,
        },
{
    match parse_json_bytes(stdout) {
        Ok(v) => booted_from_value(&v),
        Err(_) => None,
    }
}

/// Number of consecutive ports a flog server may listen on.
pub const PORT_SCAN_RANGE: u16 = 10;

/// The ports to scan: `base_port` and the nine after it.
pub fn scan_ports(base_port: u16) -> (ports: Vec<u16>)
    requires
        base_port + PORT_SCAN_RANGE - 1 <= u16::MAX,
    ensures
        ports@ == Seq::new(PORT_SCAN_RANGE as nat, |o: int| (base_port + o) as u16),
{
    let mut ports: Vec<u16> = Vec::new();
    let mut o: u16 = 0;
    while o < PORT_SCAN_RANGE
        invariant
            o <= PORT_SCAN_RANGE,
            base_port + PORT_SCAN_RANGE - 1 <= u16::MAX,
            ports@ == Seq::new(o as nat, |j: int| (base_port + j) as u16),
        decreases PORT_SCAN_RANGE - o,
    {
        ports.push(base_port + o);
        o = o + 1;
        assert(ports@ =~= Seq::new(o as nat, |j: int| (base_port + j) as u16));
    }
    ports
}

/// Whether the localhost device is currently confirmed, which open ports
/// failed the handshake, and the events announced so far (`true` for
/// Added, `false` for Removed).
pub struct ProbeState {
    pub verified: bool,
    pub non_flog: HashSet<u16>,
    pub events: Ghost<Seq<bool>>,
}

/// Announcements alternate: Added first, then Removed, then Added, and so
/// on; never two of the same kind in a row.
pub open spec fn alternating(h: Seq<bool>) -> bool {
    forall|k: int| 0 <= k < h.len() ==> #[trigger] h[k] == (k % 2 == 0)
}

/// What a scan asks of the prober.
#[derive(Debug, PartialEq, Eq)]
pub enum ProbeStep {
    /// The confirmed device's ports all closed: report it removed.
    Lost,
    /// Nothing to do until the next scan.
    Idle,
    /// Handshake these ports in order until one greets.
    Handshake(Vec<u16>),
}

/// The failed ports that are still open.
pub open spec fn still_open(non_flog: Set<u16>, open: Seq<u16>) -> Set<u16> {
    non_flog.filter(|p: u16| open.contains(p))
}

/// The open ports not known to have failed, in scan order.
pub open spec fn untried(open: Seq<u16>, failed: Set<u16>) -> Seq<u16> {
    open.filter(|p: u16| !failed.contains(p))
}

/// The ports of `failed` that `open` lists.
fn keep_open(failed: &HashSet<u16>, open: &Vec<u16>) -> (r: HashSet<u16>)
    ensures
        r@ == still_open(failed@, open@),
{
    broadcast use vstd::std_specs::hash::group_hash_axioms;
    let mut r: HashSet<u16> = HashSet::new();
    let mut k: usize = 0;
    while k < open.len()
        invariant
            k <= open@.len(),
            r@ == failed@.filter(|p: u16| open@.take(k as int).contains(p)),
        decreases open@.len() - k,
    {
        let x = open[k];
        let ghost before = r@;
        if failed.contains(&x) {
            r.insert(x);
        }
        proof {
            assert(open@.take(k as int + 1) == open@.take(k as int).push(x));
            assert forall|p: u16| r@.contains(p) == failed@.filter(|q: u16| open@.take(k as int + 1).contains(q)).contains(p) by {
                crate::transport::local_source::lemma_u16_contains_push(open@.take(k as int), x, p);
            }
            assert(r@ =~= failed@.filter(|p: u16| open@.take(k as int + 1).contains(p)));
        }
        k = k + 1;
    }
    assert(open@.take(k as int) == open@);
    r
}

/// Membership after a push.
proof fn lemma_u16_contains_push(s: Seq<u16>, a: u16, x: u16)
    ensures
        s.push(a).contains(x) == (s.contains(x) || x == a),
{
    if s.push(a).contains(x) {
        let t = s.push(a);
        let k = choose|k: int| 0 <= k < t.len() && #[trigger] t[k] == x;
        if k < s.len() {
            assert(s[k] == x);
        }
    }
    if s.contains(x) {
        let k = choose|k: int| 0 <= k < s.len() && #[trigger] s[k] == x;
        assert(s.push(a)[k] == x);
    }
    if x == a {
        assert(s.push(a)[s.len() as int] == x);
    }
}

/// The ports of `open`, in order, that `failed` does not hold.
fn not_failed(open: &Vec<u16>, failed: &HashSet<u16>) -> (r: Vec<u16>)
    ensures
        r@ == untried(open@, failed@),
{
    broadcast use vstd::std_specs::hash::group_hash_axioms;
    proof { reveal(Seq::filter); }
    let ghost no = |p: u16| !failed@.contains(p);
    let mut r: Vec<u16> = Vec::new();
    let mut k: usize = 0;
    assert(open@.take(0) =~= Seq::<u16>::empty());
    while k < open.len()
        invariant
            k <= open@.len(),
            no == (|p: u16| !failed@.contains(p)),
            r@ == open@.take(k as int).filter(no),
        decreases open@.len() - k,
    {
        let x = open[k];
        let found = failed.contains(&x);
        proof { reveal(Seq::filter); }
        let ghost t = open@.take(k as int + 1);
        assert(t.drop_last() == open@.take(k as int));
        assert(t.last() == x);
        assert(t.filter(no) == (if no(x) { t.drop_last().filter(no).push(x) } else { t.drop_last().filter(no) }));
        if !found {
            r.push(x);
        }
        k = k + 1;
    }
    assert(open@.take(k as int) == open@);
    r
}

impl ProbeState {
    /// The prober's invariant: its announcements alternate, and the device
    /// counts as confirmed exactly when the last one was Added.
    pub open spec fn wf(&self) -> bool {
        alternating(self.events@) && self.verified == (self.events@.len() % 2 == 1)
    }

    /// Nothing confirmed, no port failed yet, nothing announced.
    pub fn new() -> (s: Self)
        ensures
            s.wf(),
            !s.verified,
            s.non_flog@ == Set::<u16>::empty(),
            s.events@ == Seq::<bool>::empty(),
    {
        broadcast use vstd::std_specs::hash::group_hash_axioms;
        ProbeState { verified: false, non_flog: HashSet::new(), events: Ghost(Seq::empty()) }
    }

    /// Take the result of a scan. Failed ports that closed are forgotten,
    /// so they get a fresh handshake when they reopen. A confirmed device
    /// whose ports all closed is lost; a confirmed device with open ports
    /// needs nothing; otherwise the open ports not known to fail are
    /// handshaken in order.
    pub fn on_scan(&mut self, open_ports: &Vec<u16>) -> (step: ProbeStep)
        requires
            old(self).wf(),
        ensures
            final(self).wf(),
            step == ProbeStep::Lost ==> final(self).events@ == old(self).events@.push(false),
            step != ProbeStep::Lost ==> final(self).events@ == old(self).events@,
            old(self).verified && open_ports@.len() == 0 ==> step == ProbeStep::Lost
                && !final(self).verified && final(self).non_flog@ == Set::<u16>::empty(),
            old(self).verified && open_ports@.len() > 0 ==> step == ProbeStep::Idle
                && final(self).verified
                && final(self).non_flog@ == still_open(old(self).non_flog@, open_ports@),
            !old(self).verified ==> !final(self).verified
                && final(self).non_flog@ == still_open(old(self).non_flog@, open_ports@)
                && (step matches ProbeStep::Handshake(ports)
                && ports@ == untried(open_ports@, still_open(old(self).non_flog@, open_ports@))),
    {
        broadcast use vstd::std_specs::hash::group_hash_axioms;
        let kept = keep_open(&self.non_flog, open_ports);
        self.non_flog = kept;
        if self.verified {
            if open_ports.len() == 0 {
                self.verified = false;
                self.non_flog = HashSet::new();
                let ghost h = self.events@;
                self.events = Ghost(h.push(false));
                assert(alternating(self.events@)) by {
                    assert forall|k: int| 0 <= k < self.events@.len() implies
                        #[trigger] self.events@[k] == (k % 2 == 0) by {
                        if k < h.len() { assert(self.events@[k] == h[k]); }
                    }
                }
                ProbeStep::Lost
            } else {
                ProbeStep::Idle
            }
        } else {
            let ports = not_failed(open_ports, &self.non_flog);
            ProbeStep::Handshake(ports)
        }
    }

    /// Take the outcome of a handshake on `port`: a greeting confirms the
    /// device, and when it was not confirmed yet the device is to be
    /// announced as Added (the result) and no further port handshaken; a
    /// failure marks the port until it closes.
    pub fn on_handshake(&mut self, port: u16, greeted: bool) -> (announce: bool)
        requires
            old(self).wf(),
        ensures
            final(self).wf(),
            announce == (greeted && !old(self).verified),
            announce ==> final(self).events@ == old(self).events@.push(true),
            !announce ==> final(self).events@ == old(self).events@,
            greeted ==> final(self).verified && final(self).non_flog@ == old(self).non_flog@,
            !greeted ==> final(self).verified == old(self).verified
                && final(self).non_flog@ == old(self).non_flog@.insert(port),
    {
        broadcast use vstd::std_specs::hash::group_hash_axioms;
        if greeted {
            if self.verified {
                return false;
            }
            self.verified = true;
            let ghost h = self.events@;
            self.events = Ghost(h.push(true));
            assert(alternating(self.events@)) by {
                assert forall|k: int| 0 <= k < self.events@.len() implies
                    #[trigger] self.events@[k] == (k % 2 == 0) by {
                    if k < h.len() { assert(self.events@[k] == h[k]); }
                }
            }
            true
        } else {
            self.non_flog.insert(port);
            false
        }
    }
}

} // verus!
