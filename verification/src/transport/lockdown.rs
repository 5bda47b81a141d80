//! Talking to lockdownd through a usbmuxd tunnel: whether the Connect was
//! accepted, GetValue requests framed with a big-endian length, the value
//! in a reply, and the device name made of the names it reports.

use vstd::prelude::*;
use crate::transport::usbmuxd::{
    PlistItem, PlistScalar, PlistScalarView, decode_plist_dict, encode_plist_xml, entries_view, plist_dict,
    plist_xml,
};
use crate::transport::usbmuxd_source::{get, get_str, get_uint};
use crate::text::strings::{owned, push_char, push_str};

verus! {

/// Big-endian bytes of a 32-bit value.
pub open spec fn be32(n: u32) -> Seq<u8> {
    seq![(n / 16777216) as u8, ((n / 65536) % 256) as u8, ((n / 256) % 256) as u8, (n % 256) as u8]
}

/// The value of four big-endian bytes.
pub open spec fn be32_value(b: Seq<u8>) -> nat {
    16777216 * (b[0] as nat) + 65536 * (b[1] as nat) + 256 * (b[2] as nat) + (b[3] as nat)
}

/// A big-endian length prefix read back gives the length written.
pub proof fn lemma_be32_round_trip(n: u32)
    ensures
        be32_value(be32(n)) == n,
{
    let b3 = n % 256;
    let b2 = (n / 256) % 256;
    let b1 = (n / 65536) % 256;
    let b0 = n / 16777216;
    assert(16777216 * b0 + 65536 * b1 + 256 * b2 + b3 == n) by (nonlinear_arith)
        requires
            b3 == n % 256,
            b2 == (n / 256) % 256,
            b1 == (n / 65536) % 256,
            b0 == n / 16777216,
            n < 0x1_0000_0000,
    {
        assert(n == 256 * (n / 256) + n % 256);
        assert(n / 256 == 256 * (n / 65536) + (n / 256) % 256);
        assert(n / 65536 == 256 * (n / 16777216) + (n / 65536) % 256);
    }
}

/// `Number`
pub open spec fn number_key() -> Seq<char> { seq!['N', 'u', 'm', 'b', 'e', 'r'] }

/// `Value`
pub open spec fn value_key() -> Seq<char> { seq!['V', 'a', 'l', 'u', 'e'] }

/// Whether usbmuxd accepted a Connect: its reply's `Number` is the
/// unsigned integer 0.
pub fn connect_accepted(reply: &Vec<(String, PlistItem)>) -> (ok: bool)
    ensures
        ok == (get_uint(reply@, number_key()) == Some(0u64)),
{
    proof { reveal_strlit("Number"); assert("Number"@ =~= number_key()); }
    match get(reply, "Number") {
        Some(PlistItem::Int(Some(n))) => *n == 0,
        _ => false,
    }
}

/// The entries of a lockdownd GetValue request for `key`.
pub open spec fn get_value_entries(key: Seq<char>) -> Seq<(Seq<char>, PlistScalarView)> {
    seq![
        (seq!['R', 'e', 'q', 'u', 'e', 's', 't'], PlistScalarView::Str(seq!['G', 'e', 't', 'V', 'a', 'l', 'u', 'e'])),
        (seq!['K', 'e', 'y'], PlistScalarView::Str(key)),
    ]
}

/// The lockdownd message for a plist body: its length as a big-endian
/// 32-bit number (modulo 2^32, as the wire field is 32 bits), then the
/// body.
pub open spec fn lockdown_message(body: Seq<u8>) -> Seq<u8> {
    be32((body.len() % 0x1_0000_0000) as u32) + body
}

/// A GetValue request for `key`, framed for lockdownd; `None` when the
/// plist encoder fails.
pub fn lockdown_request(key: &str) -> (r: Option<Vec<u8>>)
    ensures
        r is Some <==> plist_xml(get_value_entries(key@)) is Some,
        r matches Some(m) ==> plist_xml(get_value_entries(key@)) matches Some(body) && m@ == lockdown_message(body),
{
    proof {
        reveal_strlit("Request");
        reveal_strlit("GetValue");
        reveal_strlit("Key");
        assert("Request"@ =~= seq!['R', 'e', 'q', 'u', 'e', 's', 't']);
        assert("GetValue"@ =~= seq!['G', 'e', 't', 'V', 'a', 'l', 'u', 'e']);
        assert("Key"@ =~= seq!['K', 'e', 'y']);
    }
    let mut entries: Vec<(String, PlistScalar)> = Vec::new();
    entries.push((owned("Request"), PlistScalar::Str(owned("GetValue"))));
    entries.push((owned("Key"), PlistScalar::Str(owned(key))));
    assert(entries_view(entries@) =~= get_value_entries(key@));
    match encode_plist_xml(&entries) {
        Some(body) => {
            let n: u32 = (body.len() as u64 % 0x1_0000_0000) as u32;
            let mut m: Vec<u8> = Vec::new();
            m.push((n / 16777216) as u8);
            m.push(((n / 65536) % 256) as u8);
            m.push(((n / 256) % 256) as u8);
            m.push((n % 256) as u8);
            let mut b = body;
            let ghost bv = b@;
            m.append(&mut b);
            assert(m@ =~= lockdown_message(bv));
            Some(m)
        },
        None => None,
    }
}

/// The body length a lockdownd reply announces.
pub fn reply_length(len_buf: &[u8; 4]) -> (n: u32)
    ensures
        n as nat == be32_value(len_buf@),
{
    (len_buf[0] as u32) * 16777216 + (len_buf[1] as u32) * 65536 + (len_buf[2] as u32) * 256 + (len_buf[3] as u32)
}

/// The string value of a lockdownd reply body: its dictionary's `Value`,
/// when the body is a plist dictionary holding a string there.
pub fn lockdown_value(reply_body: Vec<u8>) -> (r: Option<String>)
    ensures
        r matches Some(v) ==> plist_dict(reply_body@) matches Some(d) && get_str(d, value_key()) == Some(v),
        r is None ==> (plist_dict(reply_body@) matches Some(d) ==> get_str(d, value_key()) is None),
{
    proof { reveal_strlit("Value"); assert("Value"@ =~= value_key()); }
    match decode_plist_dict(reply_body) {
        Some(d) => match get(&d, "Value") {
            Some(PlistItem::Str(s)) => Some(s.clone()),
            _ => None,
        },
        None => None,
    }
}

/// The device name from lockdownd's answers: `MarketingName (DeviceName)`
/// when both came, else whichever came.
pub open spec fn lockdown_name_spec(device_name: Option<Seq<char>>, marketing_name: Option<Seq<char>>) -> Option<Seq<char>> {
    match (device_name, marketing_name) {
        (Some(dn), Some(mn)) => Some(mn + seq![' ', '('] + dn + seq![')']),
        (Some(dn), None) => Some(dn),
        (None, Some(mn)) => Some(mn),
        (None, None) => None,
    }
}

/// The view of an optional string.
pub open spec fn text_opt(o: Option<String>) -> Option<Seq<char>> {
    match o { Some(t) => Some(t@), None => None }
}

/// Name the device from its DeviceName and MarketingName answers.
pub fn lockdown_name(device_name: Option<String>, marketing_name: Option<String>) -> (r: Option<String>)
    ensures
        text_opt(r) == lockdown_name_spec(text_opt(device_name), text_opt(marketing_name)),
{
    match (device_name, marketing_name) {
        (Some(dn), Some(mn)) => {
            let mut s = mn;
            let ghost m0 = s@;
            push_char(&mut s, ' ');
            push_char(&mut s, '(');
            push_str(&mut s, dn.as_str());
            push_char(&mut s, ')');
            assert(s@ =~= m0 + seq![' ', '('] + dn@ + seq![')']);
            Some(s)
        },
        (Some(dn), None) => Some(dn),
        (None, Some(mn)) => Some(mn),
        (None, None) => None,
    }
}

} // verus!
