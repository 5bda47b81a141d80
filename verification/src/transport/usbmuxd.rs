//! usbmuxd wire format: 16-byte little-endian frame headers around XML
//! plist bodies, and the requests flog sends.

use vstd::prelude::*;

verus! {

/// Size of a usbmuxd frame header.
pub const HEADER_SIZE: usize = 16;

/// A plist value as the usbmuxd protocol uses it.
#[derive(Debug)]
pub enum PlistItem {
    Str(String),
    /// An integer, with its value when it fits in a `u64`.
    Int(Option<u64>),
    Dict(Vec<(String, PlistItem)>),
    Other,
}

/// A scalar entry of a request dictionary.
#[derive(Debug, Clone, PartialEq)]
pub enum PlistScalar {
    Str(String),
    UInt(u64),
}

/// The view of a scalar entry.
pub enum PlistScalarView {
    Str(Seq<char>),
    UInt(u64),
}

/// The view of a scalar.
pub open spec fn scalar_view(s: PlistScalar) -> PlistScalarView {
    match s {
        PlistScalar::Str(t) => PlistScalarView::Str(t@),
        PlistScalar::UInt(n) => PlistScalarView::UInt(n),
    }
}

/// The view of a request dictionary's entries, in order.
pub open spec fn entries_view(v: Seq<(String, PlistScalar)>) -> Seq<(Seq<char>, PlistScalarView)> {
    v.map_values(|e: (String, PlistScalar)| (e.0@, scalar_view(e.1)))
}

/// The XML plist encoding that the `plist` crate produces for a
/// dictionary with these entries in this order, when it produces one.
pub uninterp spec fn plist_xml(entries: Seq<(Seq<char>, PlistScalarView)>) -> Option<Seq<u8>>;

/// `plist::Value::to_writer_xml` on a dictionary built from `entries` in
/// order. Claims only that the outcome is the named encoding of the
/// entries; the crate documents no further property of the bytes.
#[verifier::external_body]
pub(crate) fn encode_plist_xml(entries: &Vec<(String, PlistScalar)>) -> (r: Option<Vec<u8>>)
    ensures
        r is Some <==> plist_xml(entries_view(entries@)) is Some,
        r matches Some(b) ==> plist_xml(entries_view(entries@)) == Some(b@),
{
    let mut d = plist::Dictionary::new();
    for (k, v) in entries.iter() {
        let pv = match v {
            PlistScalar::Str(s) => plist::Value::String(s.clone()),
            PlistScalar::UInt(n) => plist::Value::Integer((*n).into()),
        };
        d.insert(k.clone(), pv);
    }
    let mut body = Vec::new();
    plist::Value::Dictionary(d).to_writer_xml(&mut body).ok().map(|_| body)
}

/// The dictionary that the `plist` crate reads from a byte string, when the
/// bytes are a plist whose top level is a dictionary, as entries in order.
pub uninterp spec fn plist_dict(bytes: Seq<u8>) -> Option<Seq<(String, PlistItem)>>;

/// `plist::Value::from_reader` followed by `into_dictionary`. Claims only
/// that the outcome is the named parse of the bytes.
#[verifier::external_body]
pub(crate) fn decode_plist_dict(bytes: Vec<u8>) -> (r: Option<Vec<(String, PlistItem)>>)
    ensures
        r is Some <==> plist_dict(bytes@) is Some,
        r matches Some(d) ==> plist_dict(bytes@) == Some(d@),
{
    let value = plist::Value::from_reader(std::io::Cursor::new(bytes)).ok()?;
    value.into_dictionary().map(|d| d.into_iter().map(|(k, v)| (k, plist_item(v))).collect())
}

/// The dictionary a usbmuxd or lockdownd frame body carries, when the body
/// is a plist whose top level is a dictionary.
pub fn message_dict(body: Vec<u8>) -> (r: Option<Vec<(String, PlistItem)>>)
    ensures
        r is Some <==> plist_dict(body@) is Some,
        r matches Some(d) ==> plist_dict(body@) == Some(d@),
{
    decode_plist_dict(body)
}

/// Convert a `plist::Value` into the library's plist item, one variant for
/// one variant; values the protocol does not use become `Other`.
#[verifier::external_body]
fn plist_item(v: plist::Value) -> PlistItem {
    match v {
        plist::Value::String(s) => PlistItem::Str(s),
        plist::Value::Integer(i) => PlistItem::Int(i.as_unsigned()),
        plist::Value::Dictionary(d) => PlistItem::Dict(d.into_iter().map(|(k, v)| (k, plist_item(v))).collect()),
        _ => PlistItem::Other,
    }
}

/// The external declaration of `plist::Value`.
#[verifier::external_type_specification]
#[verifier::external_body]
pub struct ExPlistValue(plist::Value);

/// Little-endian bytes of a 32-bit value.
pub open spec fn le32(n: u32) -> Seq<u8> {
    seq![(n % 256) as u8, ((n / 256) % 256) as u8, ((n / 65536) % 256) as u8, (n / 16777216) as u8]
}

/// The value of four little-endian bytes.
pub open spec fn le32_value(b0: u8, b1: u8, b2: u8, b3: u8) -> nat {
    (b0 as nat) + 256 * (b1 as nat) + 65536 * (b2 as nat) + 16777216 * (b3 as nat)
}

/// Append the little-endian bytes of `n`.
fn push_le32(out: &mut Vec<u8>, n: u32)
    ensures
        final(out)@ == old(out)@ + le32(n),
{
    out.push((n % 256) as u8);
    out.push(((n / 256) % 256) as u8);
    out.push(((n / 65536) % 256) as u8);
    out.push((n / 16777216) as u8);
    assert(final(out)@ =~= old(out)@ + le32(n));
}

/// The header of a plist frame whose body is `body_len` bytes: the total
/// length (header included, taken modulo 2^32 as the wire field is 32
/// bits), version 1, message type 8 (plist), and the tag.
pub open spec fn frame_header(body_len: nat, tag: u32) -> Seq<u8> {
    le32(((HEADER_SIZE + body_len) % 0x1_0000_0000) as u32) + le32(1) + le32(8) + le32(tag)
}

/// Four little-endian bytes read back give the value written.
proof fn lemma_le32_round_trip(n: u32)
    ensures
        le32_value(le32(n)[0], le32(n)[1], le32(n)[2], le32(n)[3]) == n,
{
    let b0 = n % 256;
    let b1 = (n / 256) % 256;
    let b2 = (n / 65536) % 256;
    let b3 = n / 16777216;
    assert(b0 + 256 * b1 + 65536 * b2 + 16777216 * b3 == n) by (nonlinear_arith)
        requires
            b0 == n % 256,
            b1 == (n / 256) % 256,
            b2 == (n / 65536) % 256,
            b3 == n / 16777216,
            n < 0x1_0000_0000,
    {
        assert(n == 256 * (n / 256) + n % 256);
        assert(n / 256 == 256 * (n / 65536) + (n / 256) % 256);
        assert(n / 65536 == 256 * (n / 16777216) + (n / 65536) % 256);
    }
}

/// A frame header decodes to the tag and body length it was built with,
/// for bodies whose frame length fits the 32-bit length field.
pub proof fn lemma_frame_header_round_trip(body_len: nat, tag: u32)
    requires
        HEADER_SIZE + body_len < 0x1_0000_0000,
    ensures
        decoded_header(frame_header(body_len, tag)) == (tag, body_len),
{
    let total = ((HEADER_SIZE + body_len) % 0x1_0000_0000) as u32;
    lemma_le32_round_trip(total);
    lemma_le32_round_trip(tag);
    let h = frame_header(body_len, tag);
    assert(h[0] == le32(total)[0] && h[1] == le32(total)[1] && h[2] == le32(total)[2] && h[3] == le32(total)[3]);
    assert(h[12] == le32(tag)[0] && h[13] == le32(tag)[1] && h[14] == le32(tag)[2] && h[15] == le32(tag)[3]);
}

/// Build the header for a plist frame of `body_len` body bytes.
pub fn encode_frame_header(body_len: usize, tag: u32) -> (header: Vec<u8>)
    ensures
        header@ == frame_header(body_len as nat, tag),
        header.len() == HEADER_SIZE,
{
    let total: u32 = ((body_len as u64 % 0x1_0000_0000 + 16) % 0x1_0000_0000) as u32;
    assert(total == ((HEADER_SIZE + body_len) % 0x1_0000_0000)) by (nonlinear_arith)
        requires total == ((body_len as u64 % 0x1_0000_0000 + 16) % 0x1_0000_0000);
    let mut header: Vec<u8> = Vec::new();
    push_le32(&mut header, total);
    push_le32(&mut header, 1);
    push_le32(&mut header, 8);
    push_le32(&mut header, tag);
    header
}

/// Encode a request dictionary as a usbmuxd frame `(header, body)`; `None`
/// when the plist encoder fails.
pub fn encode_plist_frame(entries: &Vec<(String, PlistScalar)>, tag: u32) -> (r: Option<(Vec<u8>, Vec<u8>)>)
    ensures
        r is Some <==> plist_xml(entries_view(entries@)) is Some,
        r matches Some((h, b)) ==> plist_xml(entries_view(entries@)) == Some(b@)
            && h@ == frame_header(b@.len(), tag),
{
    match encode_plist_xml(entries) {
        Some(body) => {
            let header = encode_frame_header(body.len(), tag);
            Some((header, body))
        }
        None => None,
    }
}

/// `(tag, body length)` that a frame header announces; the body length is
/// the total length minus the header, or zero when the total is shorter.
pub open spec fn decoded_header(h: Seq<u8>) -> (u32, nat) {
    let length = le32_value(h[0], h[1], h[2], h[3]);
    let tag = le32_value(h[12], h[13], h[14], h[15]);
    (tag as u32, if length >= HEADER_SIZE { (length - HEADER_SIZE) as nat } else { 0 })
}

fn read_le32(b0: u8, b1: u8, b2: u8, b3: u8) -> (n: u32)
    ensures
        n as nat == le32_value(b0, b1, b2, b3),
{
    (b0 as u32) + (b1 as u32) * 256 + (b2 as u32) * 65536 + (b3 as u32) * 16777216
}

/// Split a frame header into `(tag, body length)`.
pub fn decode_plist_header(header: &[u8; 16]) -> (r: (u32, usize))
    ensures
        r.0 == decoded_header(header@).0,
        r.1 as nat == decoded_header(header@).1,
{
    let length = read_le32(header[0], header[1], header[2], header[3]) as usize;
    let tag = read_le32(header[12], header[13], header[14], header[15]);
    (tag, length.saturating_sub(HEADER_SIZE))
}

/// `port` with its two bytes swapped (network order), widened to 32 bits.
pub open spec fn swapped(port: u16) -> nat {
    ((port % 256) as nat) * 256 + ((port / 256) as nat)
}

/// The PortNumber field of a Connect request: the port in network byte
/// order, zero-extended.
pub fn connect_port_field(port: u16) -> (f: u32)
    ensures
        f as nat == swapped(port),
        f <= 0xFFFF,
{
    ((port % 256) as u32) * 256 + ((port / 256) as u32)
}

/// Swapping the bytes twice gives the port back.
pub proof fn lemma_port_swap_involution(port: u16)
    ensures
        swapped(port) <= 0xFFFF,
        swapped(swapped(port) as u16) == port,
{
}

/// The entries of a Connect request for `port` on `device_id`.
pub open spec fn connect_entries(device_id: u32, port: u16) -> Seq<(Seq<char>, PlistScalarView)> {
    seq![
        (seq!['M', 'e', 's', 's', 'a', 'g', 'e', 'T', 'y', 'p', 'e'], PlistScalarView::Str(seq!['C', 'o', 'n', 'n', 'e', 'c', 't'])),
        (seq!['D', 'e', 'v', 'i', 'c', 'e', 'I', 'D'], PlistScalarView::UInt(device_id as u64)),
        (seq!['P', 'o', 'r', 't', 'N', 'u', 'm', 'b', 'e', 'r'], PlistScalarView::UInt(swapped(port) as u64)),
        (seq!['C', 'l', 'i', 'e', 'n', 't', 'V', 'e', 'r', 's', 'i', 'o', 'n', 'S', 't', 'r', 'i', 'n', 'g'], PlistScalarView::Str(seq!['f', 'l', 'o', 'g'])),
        (seq!['P', 'r', 'o', 'g', 'N', 'a', 'm', 'e'], PlistScalarView::Str(seq!['f', 'l', 'o', 'g'])),
    ]
}

/// The dictionary of a usbmuxd Connect request: MessageType `Connect`,
/// the device id, the port in network byte order, and the client name.
pub fn build_connect_request(device_id: u32, port: u16) -> (entries: Vec<(String, PlistScalar)>)
    ensures
        entries_view(entries@) == connect_entries(device_id, port),
{
    proof {
        reveal_strlit("MessageType");
        reveal_strlit("Connect");
        reveal_strlit("DeviceID");
        reveal_strlit("PortNumber");
        reveal_strlit("ClientVersionString");
        reveal_strlit("flog");
        reveal_strlit("ProgName");
    }
    let k1 = "MessageType";
    let v1 = "Connect";
    let k2 = "DeviceID";
    let k3 = "PortNumber";
    let k4 = "ClientVersionString";
    let v4 = "flog";
    let k5 = "ProgName";
    assert(k1@ =~= seq!['M', 'e', 's', 's', 'a', 'g', 'e', 'T', 'y', 'p', 'e']);
    assert(v1@ =~= seq!['C', 'o', 'n', 'n', 'e', 'c', 't']);
    assert(k2@ =~= seq!['D', 'e', 'v', 'i', 'c', 'e', 'I', 'D']);
    assert(k3@ =~= seq!['P', 'o', 'r', 't', 'N', 'u', 'm', 'b', 'e', 'r']);
    assert(k4@ =~= seq!['C', 'l', 'i', 'e', 'n', 't', 'V', 'e', 'r', 's', 'i', 'o', 'n', 'S', 't', 'r', 'i', 'n', 'g']);
    assert(v4@ =~= seq!['f', 'l', 'o', 'g']);
    assert(k5@ =~= seq!['P', 'r', 'o', 'g', 'N', 'a', 'm', 'e']);
    let mut entries: Vec<(String, PlistScalar)> = Vec::new();
    entries.push((k1.to_owned(), PlistScalar::Str(v1.to_owned())));
    entries.push((k2.to_owned(), PlistScalar::UInt(device_id as u64)));
    entries.push((k3.to_owned(), PlistScalar::UInt(connect_port_field(port) as u64)));
    entries.push((k4.to_owned(), PlistScalar::Str(v4.to_owned())));
    entries.push((k5.to_owned(), PlistScalar::Str(v4.to_owned())));
    assert(entries_view(entries@) =~= connect_entries(device_id, port));
    entries
}

} // verus!
