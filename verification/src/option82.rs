//! Where a DHCP client sits: the switch and port that relayed its request,
//! read from the relay agent information that the DHCP server hands over as
//! two colon-separated strings of hexadecimal bytes.

use vstd::prelude::*;
use crate::text::{decimal, push_decimal};

verus! {

/// The fields of a text that `:` separates. A text without `:` is one field,
/// and so is the empty text.
pub open spec fn fields(s: Seq<char>) -> Seq<Seq<char>>
    decreases s.len(),
{
    if s.len() == 0 {
        seq![Seq::<char>::empty()]
    } else {
        let head = fields(s.drop_last());
        if s.last() == ':' {
            head.push(Seq::<char>::empty())
        } else {
            head.drop_last().push(head.last().push(s.last()))
        }
    }
}

/// What a vector of strings stands for, in order.
pub open spec fn texts(v: Seq<String>) -> Seq<Seq<char>> {
    v.map_values(|s: String| s@)
}

/// Splits a text at each `:`.
pub fn split_fields(s: &String) -> (out: Vec<String>)
    ensures
        texts(out@) == fields(s@),
{
    let text = s.as_str();
    let n = text.unicode_len();
    let mut out: Vec<String> = Vec::new();
    let mut start: usize = 0;
    let mut i: usize = 0;
    proof {
        assert(s@.subrange(0, 0) =~= Seq::<char>::empty());
        assert(texts(out@).push(s@.subrange(0, 0)) =~= fields(s@.subrange(0, 0)));
    }
    while i < n
        invariant
            text@ == s@,
            n == s@.len(),
            start <= i <= n,
            fields(s@.subrange(0, i as int)) == texts(out@).push(
                s@.subrange(start as int, i as int),
            ),
        decreases n - i,
    {
        let c = text.get_char(i);
        let ghost prev = texts(out@);
        let ghost cur = s@.subrange(start as int, i as int);
        proof {
            assert(s@.subrange(0, i + 1).drop_last() =~= s@.subrange(0, i as int));
            assert(s@.subrange(0, i + 1).last() == c);
            assert(prev.push(cur).drop_last() =~= prev);
        }
        if c == ':' {
            let field = String::from_str(text.substring_char(start, i));
            out.push(field);
            start = i + 1;
            proof {
                assert(texts(out@) =~= prev.push(cur));
                assert(s@.subrange(start as int, i + 1) =~= Seq::<char>::empty());
            }
        } else {
            proof {
                assert(s@.subrange(start as int, i + 1) =~= cur.push(c));
            }
        }
        i += 1;
    }
    let ghost prev = texts(out@);
    let last = String::from_str(text.substring_char(start, n));
    out.push(last);
    proof {
        assert(s@.subrange(0, n as int) =~= s@);
        assert(texts(out@) =~= prev.push(s@.subrange(start as int, n as int)));
    }
    out
}

/// The value of a hexadecimal digit, in either case.
pub open spec fn hex_digit(c: char) -> Option<int> {
    if '0' <= c <= '9' {
        Some(c as int - '0' as int)
    } else if 'a' <= c <= 'f' {
        Some(c as int - 'a' as int + 10)
    } else if 'A' <= c <= 'F' {
        Some(c as int - 'A' as int + 10)
    } else {
        None
    }
}

/// The number that a text of hexadecimal digits writes: `None` where a
/// character is no digit. The empty text writes 0.
pub open spec fn hex_magnitude(s: Seq<char>) -> Option<int>
    decreases s.len(),
{
    if s.len() == 0 {
        Some(0)
    } else {
        match (hex_magnitude(s.drop_last()), hex_digit(s.last())) {
            (Some(h), Some(d)) => Some(16 * h + d),
            _ => None,
        }
    }
}

/// The 32-bit signed number of a magnitude and a sign, where there is a
/// magnitude and the number fits.
pub open spec fn signed_i32(negative: bool, magnitude: Option<int>) -> Option<i32> {
    match magnitude {
        Some(m) => {
            let v = if negative {
                -m
            } else {
                m
            };
            if i32::MIN <= v <= i32::MAX {
                Some(v as i32)
            } else {
                None
            }
        },
        None => None,
    }
}

/// The 32-bit signed number that a text writes in base 16: an optional `+`
/// or `-`, then at least one hexadecimal digit and nothing else. `None`
/// where the text has another shape or the number does not fit.
pub open spec fn hex_i32(s: Seq<char>) -> Option<i32> {
    let signed = s.len() > 0 && (s[0] == '-' || s[0] == '+');
    let digits = if signed {
        s.subrange(1, s.len() as int)
    } else {
        s
    };
    if digits.len() == 0 {
        None
    } else {
        signed_i32(signed && s[0] == '-', hex_magnitude(digits))
    }
}

/// A longer text of digits writes no smaller number, and a text with a
/// character that is no digit stays without a number however it goes on.
proof fn lemma_magnitude_grows(s: Seq<char>, k: int)
    requires
        0 <= k <= s.len(),
    ensures
        hex_magnitude(s.subrange(0, k)) is None ==> hex_magnitude(s) is None,
        hex_magnitude(s) is Some ==> hex_magnitude(s.subrange(0, k)) is Some && 0
            <= hex_magnitude(s.subrange(0, k))->0 <= hex_magnitude(s)->0,
    decreases s.len() - k,
{
    if k == s.len() {
        assert(s.subrange(0, k) =~= s);
        lemma_magnitude_nonnegative(s);
    } else {
        lemma_magnitude_grows(s, k + 1);
        assert(s.subrange(0, k + 1).drop_last() =~= s.subrange(0, k));
        lemma_magnitude_nonnegative(s.subrange(0, k));
    }
}

/// No text of digits writes a negative number.
proof fn lemma_magnitude_nonnegative(s: Seq<char>)
    ensures
        hex_magnitude(s) is Some ==> hex_magnitude(s)->0 >= 0,
    decreases s.len(),
{
    if s.len() > 0 {
        lemma_magnitude_nonnegative(s.drop_last());
    }
}

/// Reads one hexadecimal digit.
fn read_hex_digit(c: char) -> (r: Option<u8>)
    ensures
        r is Some <==> hex_digit(c) is Some,
        r is Some ==> r->0 == hex_digit(c)->0 && r->0 < 16,
{
    if '0' <= c && c <= '9' {
        Some((c as u32 - '0' as u32) as u8)
    } else if 'a' <= c && c <= 'f' {
        Some((c as u32 - 'a' as u32 + 10) as u8)
    } else if 'A' <= c && c <= 'F' {
        Some((c as u32 - 'A' as u32 + 10) as u8)
    } else {
        None
    }
}

/// Reads a 32-bit signed number written in base 16.
pub fn parse_hex_i32(s: &String) -> (r: Option<i32>)
    ensures
        r == hex_i32(s@),
{
    let text = s.as_str();
    let n = text.unicode_len();
    if n == 0 {
        return None;
    }
    let first = text.get_char(0);
    let negative = first == '-';
    let begin: usize = if first == '-' || first == '+' {
        1
    } else {
        0
    };
    if begin == n {
        return None;
    }
    let ghost digits = s@.subrange(begin as int, n as int);
    let mut magnitude: i64 = 0;
    let mut i: usize = begin;
    proof {
        assert(digits.subrange(0, 0) =~= Seq::<char>::empty());
        assert(s@.subrange(0, n as int) =~= s@);
    }
    while i < n
        invariant
            text@ == s@,
            n == s@.len(),
            begin <= i <= n,
            digits == s@.subrange(begin as int, n as int),
            hex_i32(s@) == signed_i32(negative, hex_magnitude(digits)),
            hex_magnitude(digits.subrange(0, i - begin)) == Some(magnitude as int),
            0 <= magnitude <= 0x8000_0000,
        decreases n - i,
    {
        let c = text.get_char(i);
        proof {
            assert(digits.subrange(0, i + 1 - begin).drop_last() =~= digits.subrange(
                0,
                i - begin,
            ));
            assert(digits.subrange(0, i + 1 - begin).last() == c);
            lemma_magnitude_grows(digits, i + 1 - begin);
        }
        match read_hex_digit(c) {
            Some(d) => {
                let next: i64 = magnitude * 16 + d as i64;
                if next > 0x8000_0000 {
                    return None;
                }
                magnitude = next;
            },
            None => {
                return None;
            },
        }
        i += 1;
    }
    proof {
        assert(digits.subrange(0, n - begin) =~= digits);
    }
    if negative {
        Some((-magnitude) as i32)
    } else if magnitude > 0x7fff_ffff {
        None
    } else {
        Some(magnitude as i32)
    }
}

/// What a client's place stands for.
pub struct ClientPortView {
    pub port_info: Seq<char>,
    pub switch_base_mac: Seq<char>,
}

/// A client's place: the port of the switch it is plugged into, as module
/// and port number, and the base MAC address of that switch.
#[derive(Debug)]
pub struct ClientPort {
    pub port_info: String,
    pub switch_base_mac: String,
}

impl View for ClientPort {
    type V = ClientPortView;

    open spec fn view(&self) -> ClientPortView {
        ClientPortView { port_info: self.port_info@, switch_base_mac: self.switch_base_mac@ }
    }
}

/// What an optional place stands for.
pub open spec fn optional_port(o: Option<ClientPort>) -> Option<ClientPortView> {
    match o {
        Some(p) => Some(p@),
        None => None,
    }
}

/// The port written as module, `/`, port, both in decimal.
pub open spec fn port_text(module: i32, port: i32) -> Seq<char> {
    decimal(module as int) + seq!['/'] + decimal(port as int)
}

/// The last six of the eight fields of a remote identifier, joined by `:`.
pub open spec fn mac_text(f: Seq<Seq<char>>) -> Seq<char> {
    f[2] + seq![':'] + f[3] + seq![':'] + f[4] + seq![':'] + f[5] + seq![':'] + f[6] + seq![':']
        + f[7]
}

/// The place that the two options tell. The circuit identifier must have six
/// fields, of which the fifth and the sixth are the module and the port in
/// base 16. The remote identifier must have eight fields, of which the last
/// six are the switch's base MAC address. `None` where either has another
/// shape.
pub open spec fn client_port(circuit_id: Seq<char>, remote_id: Seq<char>) -> Option<
    ClientPortView,
> {
    let c = fields(circuit_id);
    let r = fields(remote_id);
    if c.len() == 6 && r.len() == 8 && hex_i32(c[4]) is Some && hex_i32(c[5]) is Some {
        Some(
            ClientPortView {
                port_info: port_text(hex_i32(c[4])->0, hex_i32(c[5])->0),
                switch_base_mac: mac_text(r),
            },
        )
    } else {
        None
    }
}

/// Reads a client's place from the circuit identifier and the remote
/// identifier of its relay agent information.
pub fn locate_client(circuit_id: &String, remote_id: &String) -> (r: Option<ClientPort>)
    ensures
        optional_port(r) == client_port(circuit_id@, remote_id@),
{
    let c = split_fields(circuit_id);
    let r = split_fields(remote_id);
    if c.len() != 6 || r.len() != 8 {
        return None;
    }
    let module = match parse_hex_i32(&c[4]) {
        Some(v) => v,
        None => {
            return None;
        },
    };
    let port = match parse_hex_i32(&c[5]) {
        Some(v) => v,
        None => {
            return None;
        },
    };
    let mut port_info = String::new();
    push_decimal(&mut port_info, module as i64);
    port_info.append("/");
    push_decimal(&mut port_info, port as i64);
    let mut mac = r[2].clone();
    proof {
        reveal_strlit("/");
        reveal_strlit(":");
        assert(port_info@ =~= port_text(module, port));
    }
    mac.append(":");
    mac.append(r[3].as_str());
    mac.append(":");
    mac.append(r[4].as_str());
    mac.append(":");
    mac.append(r[5].as_str());
    mac.append(":");
    mac.append(r[6].as_str());
    mac.append(":");
    mac.append(r[7].as_str());
    proof {
        assert(mac@ =~= mac_text(texts(r@)));
    }
    Some(ClientPort { port_info, switch_base_mac: mac })
}

/// What the inventory holds of a client's place: the device and the port.
pub struct ClientLocationView {
    pub device_id: i32,
    pub port_info: Seq<char>,
}

/// What the inventory holds of a client's place.
#[derive(Debug)]
pub struct ClientLocation {
    pub device_id: i32,
    pub port_info: String,
}

impl View for ClientLocation {
    type V = ClientLocationView;

    open spec fn view(&self) -> ClientLocationView {
        ClientLocationView { device_id: self.device_id, port_info: self.port_info@ }
    }
}

/// What an optional recorded place stands for.
pub open spec fn optional_location(o: Option<&ClientLocation>) -> Option<ClientLocationView> {
    match o {
        Some(l) => Some(l@),
        None => None,
    }
}

/// What a sighting of a client does to the record of its place.
#[derive(Clone, Copy, Debug, PartialEq, Eq, Structural)]
pub enum ClientLocationWrite {
    /// The record already tells this place: nothing is written.
    Keep,
    /// The record tells another place: it is updated.
    Update,
    /// There is no record: one is created.
    Create,
}

/// What a sighting of a client on port `port_info` of device `device_id`
/// does, given what the inventory holds of the client.
pub open spec fn location_write(
    existing: Option<ClientLocationView>,
    device_id: i32,
    port_info: Seq<char>,
) -> ClientLocationWrite {
    match existing {
        None => ClientLocationWrite::Create,
        Some(l) => if l.port_info != port_info || l.device_id != device_id {
            ClientLocationWrite::Update
        } else {
            ClientLocationWrite::Keep
        },
    }
}

/// Decides what a sighting of a client does to the record of its place.
pub fn put_clientlocation(
    existing: Option<&ClientLocation>,
    device_id: i32,
    port_info: &String,
) -> (w: ClientLocationWrite)
    ensures
        w == location_write(optional_location(existing), device_id, port_info@),
{
    match existing {
        None => ClientLocationWrite::Create,
        Some(l) => {
            if l.port_info != *port_info || l.device_id != device_id {
                ClientLocationWrite::Update
            } else {
                ClientLocationWrite::Keep
            }
        },
    }
}

} // verus!
