//! Peer addresses as the tracker collaborator hands them over: the peer
//! record, the tracker's reply, and the decoding of the compact 6-byte
//! peer entries into address/port pairs.

use vstd::prelude::*;

verus! {

/// One remote peer as announced by the tracker.
#[derive(Clone, Debug)]
pub struct Peer {
    pub peer_id: Option<String>,
    pub ip: String,
    pub port: i64,
}

/// The tracker's answer to an announce: bookkeeping fields and the list of
/// peer addresses to try.
#[derive(Debug)]
pub struct TrackerResponse {
    pub failure_reason: Option<bool>,
    pub warning_message: Option<bool>,
    /// Seconds the client should wait between regular tracker requests.
    pub interval: u32,
    pub tracker_id: Option<String>,
    pub complete: u32,
    pub incomplete: u32,
    pub peers: Vec<Peer>,
}

/// The decimal digit character for `n < 10`.
pub open spec fn digit_char(n: u8) -> char
    recommends
        n < 10,
{
    ((n + 0x30) as u8) as char
}

/// The decimal rendering of a byte, without padding.
pub open spec fn dec_u8(n: u8) -> Seq<char> {
    if n < 10 {
        seq![digit_char(n)]
    } else if n < 100 {
        seq![digit_char(n / 10), digit_char(n % 10)]
    } else {
        seq![digit_char(n / 100), digit_char((n / 10) % 10), digit_char(n % 10)]
    }
}

/// The dotted-quad rendering of an IPv4 address.
pub open spec fn ipv4_chars(a: u8, b: u8, c: u8, d: u8) -> Seq<char> {
    dec_u8(a) + seq!['.'] + dec_u8(b) + seq!['.'] + dec_u8(c) + seq!['.'] + dec_u8(d)
}

/// Relies on `format!` (std's `Display` for `u8`): each byte renders as its
/// decimal digits without padding, joined with dots.
#[verifier::external_body]
fn ipv4_string(a: u8, b: u8, c: u8, d: u8) -> (r: String)
    ensures
        r@ == ipv4_chars(a, b, c, d),
{
    format!("{}.{}.{}.{}", a, b, c, d)
}

/// Decode the tracker's compact peer list: each whole 6-byte entry is four
/// address bytes followed by a big-endian port; a trailing short entry is
/// ignored.
pub fn compact_peers(bytes: &Vec<u8>) -> (r: Vec<Peer>)
    ensures
        r@.len() == bytes@.len() / 6,
        forall|k: int|
            0 <= k < r@.len() ==> {
                &&& (#[trigger] r@[k]).peer_id is None
                &&& r@[k].ip@ == ipv4_chars(
                    bytes@[6 * k],
                    bytes@[6 * k + 1],
                    bytes@[6 * k + 2],
                    bytes@[6 * k + 3],
                )
                &&& r@[k].port == (bytes@[6 * k + 4] as int) * 256 + bytes@[6 * k + 5]
            },
{
    let total = bytes.len();
    let n = total / 6;
    let mut out: Vec<Peer> = Vec::new();
    let mut k: usize = 0;
    while k < n
        invariant
            total == bytes@.len(),
            n == total as int / 6,
            k <= n,
            out@.len() == k,
            forall|j: int|
                0 <= j < k ==> {
                    &&& (#[trigger] out@[j]).peer_id is None
                    &&& out@[j].ip@ == ipv4_chars(
                        bytes@[6 * j],
                        bytes@[6 * j + 1],
                        bytes@[6 * j + 2],
                        bytes@[6 * j + 3],
                    )
                    &&& out@[j].port == (bytes@[6 * j + 4] as int) * 256 + bytes@[6 * j + 5]
                },
        decreases n - k,
    {
        proof {
            assert(6 * (k as int) + 5 < total) by (nonlinear_arith)
                requires
                    k < n,
                    n == total as int / 6,
            ;
        }
        let base = 6 * k;
        let ip = ipv4_string(bytes[base], bytes[base + 1], bytes[base + 2], bytes[base + 3]);
        let port: i64 = (bytes[base + 4] as i64) * 256 + (bytes[base + 5] as i64);
        out.push(Peer { peer_id: None, ip, port });
        k = k + 1;
    }
    out
}

} // verus!
