//! The text of IP addresses, as std's `Display` writes them.
use vstd::prelude::*;
use vstd::string::*;

use crate::text::{decimal, decimal_text, hex, hex_text, join, join_with};

verus! {

/// Dotted decimal: `a.b.c.d`.
pub open spec fn ipv4_text(o: Seq<u8>) -> Seq<char> {
    decimal_text(o[0] as nat) + "."@ + decimal_text(o[1] as nat) + "."@ + decimal_text(
        o[2] as nat,
    ) + "."@ + decimal_text(o[3] as nat)
}

/// The text of the four octets of an IPv4 address.
pub fn ipv4_to_string(o: &[u8; 4]) -> (r: String)
    ensures
        r@ == ipv4_text(o@),
{
    let s = decimal(o[0] as u64).concat(".").concat(decimal(o[1] as u64).as_str()).concat(
        ".",
    ).concat(decimal(o[2] as u64).as_str()).concat(".").concat(decimal(o[3] as u64).as_str());
    s
}

/// The first longest run of zero segments from `i` on, given the run under
/// way and the longest one so far, as (start, length).
pub open spec fn zero_run(
    s: Seq<u16>,
    i: int,
    cur_start: int,
    cur_len: int,
    best_start: int,
    best_len: int,
) -> (int, int)
    decreases s.len() - i,
{
    if i >= s.len() || i < 0 {
        (best_start, best_len)
    } else if s[i] == 0 {
        let st = if cur_len == 0 { i } else { cur_start };
        let ln = cur_len + 1;
        if ln > best_len {
            zero_run(s, i + 1, st, ln, st, ln)
        } else {
            zero_run(s, i + 1, st, ln, best_start, best_len)
        }
    } else {
        zero_run(s, i + 1, 0, 0, best_start, best_len)
    }
}

/// Segments in lowercase hexadecimal, joined by colons.
pub open spec fn hex_segments(s: Seq<u16>) -> Seq<char> {
    join_with(s.map_values(|x: u16| hex_text(x as nat)), ":"@)
}

/// The address is an IPv4 address mapped into IPv6 (`::ffff:a.b.c.d`).
pub open spec fn is_ipv4_mapped(s: Seq<u16>) -> bool {
    s[0] == 0 && s[1] == 0 && s[2] == 0 && s[3] == 0 && s[4] == 0 && s[5] == 0xffff
}

/// The text of the eight segments of an IPv6 address: a mapped IPv4 address
/// as `::ffff:a.b.c.d`; else hexadecimal segments with the first longest run
/// of two or more zero segments written `::`.
pub open spec fn ipv6_text(s: Seq<u16>) -> Seq<char> {
    if is_ipv4_mapped(s) {
        "::ffff:"@ + ipv4_text(
            seq![(s[6] / 256) as u8, (s[6] % 256) as u8, (s[7] / 256) as u8, (s[7] % 256) as u8],
        )
    } else {
        let (st, ln) = zero_run(s, 0, 0, 0, 0, 0);
        if ln > 1 {
            hex_segments(s.subrange(0, st)) + "::"@ + hex_segments(s.subrange(st + ln, 8))
        } else {
            hex_segments(s)
        }
    }
}

fn hex_join(s: &[u16; 8], from: usize, to: usize) -> (r: String)
    requires
        from <= to <= 8,
    ensures
        r@ == hex_segments(s@.subrange(from as int, to as int)),
{
    let mut parts: Vec<String> = Vec::new();
    let mut i: usize = from;
    while i < to
        invariant
            from <= i <= to <= 8,
            parts@.map_values(|p: String| p@) == s@.subrange(from as int, i as int).map_values(
                |x: u16| hex_text(x as nat),
            ),
        decreases to - i,
    {
        let h = hex(s[i] as u64);
        let ghost p0 = parts@;
        parts.push(h);
        proof {
            let f = |x: u16| hex_text(x as nat);
            let g = |p: String| p@;
            assert(parts@ == p0.push(h));
            assert(parts@.map_values(g) =~= p0.map_values(g).push(h@));
            assert(s@.subrange(from as int, i + 1) =~= s@.subrange(from as int, i as int).push(
                s@[i as int],
            ));
            assert(s@.subrange(from as int, i + 1).map_values(f) =~= s@.subrange(
                from as int,
                i as int,
            ).map_values(f).push(f(s@[i as int])));
        }
        i = i + 1;
    }
    join(&parts, ":")
}

/// The text of the eight segments of an IPv6 address.
pub fn ipv6_to_string(s: &[u16; 8]) -> (r: String)
    ensures
        r@ == ipv6_text(s@),
{
    if s[0] == 0 && s[1] == 0 && s[2] == 0 && s[3] == 0 && s[4] == 0 && s[5] == 0xffff {
        let o = [(s[6] / 256) as u8, (s[6] % 256) as u8, (s[7] / 256) as u8, (s[7] % 256) as u8];
        assert(o@ =~= seq![
            (s@[6] / 256) as u8,
            (s@[6] % 256) as u8,
            (s@[7] / 256) as u8,
            (s@[7] % 256) as u8,
        ]);
        return String::from_str("::ffff:").concat(ipv4_to_string(&o).as_str());
    }
    let mut cur_start: usize = 0;
    let mut cur_len: usize = 0;
    let mut best_start: usize = 0;
    let mut best_len: usize = 0;
    let mut i: usize = 0;
    while i < 8
        invariant
            0 <= i <= 8,
            cur_start + cur_len <= i,
            best_start + best_len <= 8,
            zero_run(
                s@,
                i as int,
                cur_start as int,
                cur_len as int,
                best_start as int,
                best_len as int,
            ) == zero_run(s@, 0, 0, 0, 0, 0),
        decreases 8 - i,
    {
        if s[i] == 0 {
            if cur_len == 0 {
                cur_start = i;
            }
            cur_len = cur_len + 1;
            if cur_len > best_len {
                best_start = cur_start;
                best_len = cur_len;
            }
        } else {
            cur_start = 0;
            cur_len = 0;
        }
        i = i + 1;
    }
    if best_len > 1 {
        hex_join(s, 0, best_start).concat("::").concat(hex_join(s, best_start + best_len, 8).as_str())
    } else {
        assert(s@.subrange(0, 8) =~= s@);
        hex_join(s, 0, 8)
    }
}

} // verus!
