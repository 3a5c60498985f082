//! The network-address model: a parsed IPv4 or IPv6 address held as plain
//! numeric fields, with a total order, a canonical textual form, and a parser
//! for the usual textual forms.

use vstd::prelude::*;
use vstd::arithmetic::div_mod::{lemma_div_denominator, lemma_fundamental_div_mod};
use crate::text::{
    dec_text, digit_char, digit_val, hex_char, hex_text, hex_val, is_digit_char, is_hex_char,
    push_dec, push_hex, dec_value, hex_value,
};

verus! {

/// A syntactically valid network address: four octets for IPv4, eight
/// 16-bit segments for IPv6.
#[derive(Clone, Copy, Debug, PartialEq, Eq, Structural)]
pub enum IpAddr {
    /// An IPv4 address `a.b.c.d`.
    V4 { a: u8, b: u8, c: u8, d: u8 },
    /// An IPv6 address of eight 16-bit segments, most significant first.
    V6 { s0: u16, s1: u16, s2: u16, s3: u16, s4: u16, s5: u16, s6: u16, s7: u16 },
}

impl IpAddr {
    /// The eight segments of an IPv6 address; empty for IPv4.
    pub open spec fn segments(self) -> Seq<u16> {
        match self {
            IpAddr::V4 { .. } => Seq::empty(),
            IpAddr::V6 { s0, s1, s2, s3, s4, s5, s6, s7 } => seq![s0, s1, s2, s3, s4, s5, s6, s7],
        }
    }

    /// Builds an IPv4 address from its four octets.
    pub fn v4(a: u8, b: u8, c: u8, d: u8) -> (r: IpAddr)
        ensures
            r == (IpAddr::V4 { a, b, c, d }),
    {
        IpAddr::V4 { a, b, c, d }
    }

    /// Builds an IPv6 address from its eight segments.
    pub fn v6(s0: u16, s1: u16, s2: u16, s3: u16, s4: u16, s5: u16, s6: u16, s7: u16) -> (r: IpAddr)
        ensures
            r == (IpAddr::V6 { s0, s1, s2, s3, s4, s5, s6, s7 }),
    {
        IpAddr::V6 { s0, s1, s2, s3, s4, s5, s6, s7 }
    }
}

// ---------------------------------------------------------------------------
// Total order: IPv4 before IPv6, then field-lexicographic
// ---------------------------------------------------------------------------

/// Total order on addresses: every IPv4 address sorts before every IPv6
/// address; within a family, addresses compare lexicographically by their
/// numeric fields, most significant first.
pub open spec fn addr_le(x: IpAddr, y: IpAddr) -> bool {
    match (x, y) {
        (IpAddr::V4 { .. }, IpAddr::V6 { .. }) => true,
        (IpAddr::V6 { .. }, IpAddr::V4 { .. }) => false,
        (
            IpAddr::V4 { a: a1, b: b1, c: c1, d: d1 },
            IpAddr::V4 { a: a2, b: b2, c: c2, d: d2 },
        ) => {
            if a1 != a2 { a1 < a2 }
            else if b1 != b2 { b1 < b2 }
            else if c1 != c2 { c1 < c2 }
            else { d1 <= d2 }
        },
        (
            IpAddr::V6 { s0: x0, s1: x1, s2: x2, s3: x3, s4: x4, s5: x5, s6: x6, s7: x7 },
            IpAddr::V6 { s0: y0, s1: y1, s2: y2, s3: y3, s4: y4, s5: y5, s6: y6, s7: y7 },
        ) => {
            if x0 != y0 { x0 < y0 }
            else if x1 != y1 { x1 < y1 }
            else if x2 != y2 { x2 < y2 }
            else if x3 != y3 { x3 < y3 }
            else if x4 != y4 { x4 < y4 }
            else if x5 != y5 { x5 < y5 }
            else if x6 != y6 { x6 < y6 }
            else { x7 <= y7 }
        },
    }
}

/// `addr_le` is a total order.
pub proof fn lemma_addr_le_total_ordering()
    ensures
        forall|x: IpAddr| #[trigger] addr_le(x, x),
        forall|x: IpAddr, y: IpAddr| #[trigger] addr_le(x, y) || #[trigger] addr_le(y, x),
        forall|x: IpAddr, y: IpAddr| #[trigger] addr_le(x, y) && addr_le(y, x) ==> x == y,
        forall|x: IpAddr, y: IpAddr, z: IpAddr|
            #[trigger] addr_le(x, y) && #[trigger] addr_le(y, z) ==> addr_le(x, z),
{
}

impl IpAddr {
    /// Executable comparison deciding `addr_le`.
    pub fn le(&self, other: &IpAddr) -> (r: bool)
        ensures
            r == addr_le(*self, *other),
    {
        match (self, other) {
            (IpAddr::V4 { .. }, IpAddr::V6 { .. }) => true,
            (IpAddr::V6 { .. }, IpAddr::V4 { .. }) => false,
            (
                IpAddr::V4 { a: a1, b: b1, c: c1, d: d1 },
                IpAddr::V4 { a: a2, b: b2, c: c2, d: d2 },
            ) => {
                if a1 != a2 { a1 < a2 }
                else if b1 != b2 { b1 < b2 }
                else if c1 != c2 { c1 < c2 }
                else { d1 <= d2 }
            },
            (
                IpAddr::V6 { s0: x0, s1: x1, s2: x2, s3: x3, s4: x4, s5: x5, s6: x6, s7: x7 },
                IpAddr::V6 { s0: y0, s1: y1, s2: y2, s3: y3, s4: y4, s5: y5, s6: y6, s7: y7 },
            ) => {
                if x0 != y0 { x0 < y0 }
                else if x1 != y1 { x1 < y1 }
                else if x2 != y2 { x2 < y2 }
                else if x3 != y3 { x3 < y3 }
                else if x4 != y4 { x4 < y4 }
                else if x5 != y5 { x5 < y5 }
                else if x6 != y6 { x6 < y6 }
                else { x7 <= y7 }
            },
        }
    }
}

// ---------------------------------------------------------------------------
// Canonical text
// ---------------------------------------------------------------------------

/// The dotted-quad text of an IPv4 address.
pub open spec fn v4_text(a: int, b: int, c: int, d: int) -> Seq<char> {
    dec_text(a) + seq!['.'] + dec_text(b) + seq!['.'] + dec_text(c) + seq!['.'] + dec_text(d)
}

/// Length of the run of zero segments starting at index `i`.
pub open spec fn zero_run_at(segs: Seq<u16>, i: int) -> int
    decreases segs.len() - i,
{
    if i < 0 || i >= segs.len() || segs[i] != 0 {
        0
    } else {
        1 + zero_run_at(segs, i + 1)
    }
}

/// The start of the leftmost longest zero run of length at least two, found
/// among start positions `i` and later.
pub open spec fn best_zero_run_from(segs: Seq<u16>, i: int) -> Option<int>
    decreases segs.len() - i,
{
    if i >= segs.len() {
        None
    } else {
        let here = zero_run_at(segs, i);
        match best_zero_run_from(segs, i + 1) {
            None => if here >= 2 { Some(i) } else { None },
            Some(j) => if here >= 2 && here >= zero_run_at(segs, j) { Some(i) } else { Some(j) },
        }
    }
}

/// The start of the leftmost longest zero run of length at least two, if any.
pub open spec fn best_zero_run(segs: Seq<u16>) -> Option<int> {
    best_zero_run_from(segs, 0)
}

/// Hexadecimal segment texts joined with `:`.
pub open spec fn join_hex(segs: Seq<u16>) -> Seq<char>
    decreases segs.len(),
{
    if segs.len() == 0 {
        Seq::empty()
    } else if segs.len() == 1 {
        hex_text(segs[0] as int)
    } else {
        hex_text(segs[0] as int) + seq![':'] + join_hex(segs.drop_first())
    }
}

/// The canonical text of an IPv6 address: lower-case hexadecimal segments
/// joined with `:`, with the leftmost longest run of two or more zero
/// segments compressed to `::`.
pub open spec fn v6_text(segs: Seq<u16>) -> Seq<char> {
    match best_zero_run(segs) {
        None => join_hex(segs),
        Some(j) => {
            let run = zero_run_at(segs, j);
            join_hex(segs.take(j)) + seq![':'] + seq![':'] + join_hex(segs.skip(j + run))
        },
    }
}

/// The canonical text of an address.
pub open spec fn addr_text(a: IpAddr) -> Seq<char> {
    match a {
        IpAddr::V4 { a, b, c, d } => v4_text(a as int, b as int, c as int, d as int),
        IpAddr::V6 { .. } => v6_text(a.segments()),
    }
}

/// Appends `:`-joined hexadecimal texts of `segs[from..to]` to `out`.
fn push_join_hex(out: &mut String, segs: &Vec<u16>, from: usize, to: usize)
    requires
        from <= to <= segs@.len(),
    ensures
        final(out)@ == old(out)@ + join_hex(segs@.subrange(from as int, to as int)),
    decreases to - from,
{
    proof {
        reveal_strlit(":");
    }
    if from < to {
        push_hex(out, segs[from]);
        if from + 1 < to {
            out.append(":");
        }
        push_join_hex(out, segs, from + 1, to);
        proof {
            let sub = segs@.subrange(from as int, to as int);
            assert(sub.drop_first() =~= segs@.subrange(from as int + 1, to as int));
            assert(":"@ =~= seq![':']);
            assert(final(out)@ =~= old(out)@ + join_hex(sub));
        }
    } else {
        proof {
            assert(segs@.subrange(from as int, to as int).len() == 0);
            assert(final(out)@ =~= old(out)@ + join_hex(segs@.subrange(from as int, to as int)));
        }
    }
}

/// Length of the zero run starting at `i` in `segs`.
fn run_at(segs: &Vec<u16>, i: usize) -> (r: usize)
    requires
        i <= segs@.len(),
    ensures
        r == zero_run_at(segs@, i as int),
        i + r <= segs@.len(),
    decreases segs@.len() - i,
{
    if i < segs.len() && segs[i] == 0 {
        let rest = run_at(segs, i + 1);
        1 + rest
    } else {
        0
    }
}

/// The start of the leftmost longest zero run of length at least two.
fn find_best_zero_run(segs: &Vec<u16>) -> (r: Option<usize>)
    ensures
        match r {
            None => best_zero_run(segs@) is None,
            Some(j) => best_zero_run(segs@) == Some(j as int) && j < segs@.len(),
        },
{
    let n = segs.len();
    let mut best: Option<usize> = None;
    let mut i: usize = n;
    while i > 0
        invariant
            i <= n,
            n == segs@.len(),
            match best {
                None => best_zero_run_from(segs@, i as int) is None,
                Some(j) => best_zero_run_from(segs@, i as int) == Some(j as int) && j < n,
            },
        decreases i,
    {
        i = i - 1;
        let here = run_at(segs, i);
        match best {
            None => {
                if here >= 2 {
                    best = Some(i);
                }
            },
            Some(j) => {
                let there = run_at(segs, j);
                if here >= 2 && here >= there {
                    best = Some(i);
                }
            },
        }
    }
    best
}

impl IpAddr {
    /// The canonical textual form of the address.
    pub fn to_string(&self) -> (s: String)
        ensures
            s@ == addr_text(*self),
    {
        match self {
            IpAddr::V4 { a, b, c, d } => {
                proof {
                    reveal_strlit(".");
                }
                let mut out = String::new();
                push_dec(&mut out, *a);
                out.append(".");
                push_dec(&mut out, *b);
                out.append(".");
                push_dec(&mut out, *c);
                out.append(".");
                push_dec(&mut out, *d);
                proof {
                    assert("."@ =~= seq!['.']);
                    assert(out@ =~= addr_text(*self));
                }
                out
            },
            IpAddr::V6 { s0, s1, s2, s3, s4, s5, s6, s7 } => {
                proof {
                    reveal_strlit(":");
                }
                let mut segs: Vec<u16> = Vec::new();
                segs.push(*s0);
                segs.push(*s1);
                segs.push(*s2);
                segs.push(*s3);
                segs.push(*s4);
                segs.push(*s5);
                segs.push(*s6);
                segs.push(*s7);
                proof {
                    assert(segs@ =~= self.segments());
                }
                let mut out = String::new();
                match find_best_zero_run(&segs) {
                    None => {
                        push_join_hex(&mut out, &segs, 0, 8);
                        proof {
                            assert(segs@.subrange(0, 8) =~= segs@);
                            assert(out@ =~= addr_text(*self));
                        }
                    },
                    Some(j) => {
                        let run = run_at(&segs, j);
                        push_join_hex(&mut out, &segs, 0, j);
                        out.append(":");
                        out.append(":");
                        push_join_hex(&mut out, &segs, j + run, 8);
                        proof {
                            assert(":"@ =~= seq![':']);
                            assert(segs@.subrange(0, j as int) =~= segs@.take(j as int));
                            assert(segs@.subrange(j + run, 8) =~= segs@.skip(j + run));
                            assert(out@ =~= addr_text(*self));
                        }
                    },
                }
                out
            },
        }
    }
}

// ---------------------------------------------------------------------------
// Parsing: specification
// ---------------------------------------------------------------------------

/// Does `s` contain a colon anywhere?  Every IPv6 text does; no IPv4 text
/// does, so this picks the family to parse `s` as.
pub open spec fn has_colon(s: Seq<char>) -> bool {
    exists|i: int| 0 <= i < s.len() && #[trigger] s[i] == ':'
}

/// Length of the longest prefix of decimal digits.
pub open spec fn digit_prefix_len(s: Seq<char>) -> int
    decreases s.len(),
{
    if s.len() > 0 && is_digit_char(s[0]) {
        1 + digit_prefix_len(s.drop_first())
    } else {
        0
    }
}

/// Length of the longest prefix of hexadecimal digits.
pub open spec fn hex_prefix_len(s: Seq<char>) -> int
    decreases s.len(),
{
    if s.len() > 0 && is_hex_char(s[0]) {
        1 + hex_prefix_len(s.drop_first())
    } else {
        0
    }
}

/// Parses one decimal octet at the head of `s`: one to three digits, no
/// leading zero, value at most 255.  Yields the value and the digit count.
pub open spec fn spec_octet(s: Seq<char>) -> Option<(int, int)> {
    let n = digit_prefix_len(s);
    if 1 <= n <= 3 && (n == 1 || s[0] != '0') && dec_value(s.take(n)) <= 255 {
        Some((dec_value(s.take(n)), n))
    } else {
        None
    }
}

/// Parses all of `s` as a dotted quad `a.b.c.d`.
pub open spec fn spec_parse_v4(s: Seq<char>) -> Option<IpAddr> {
    match spec_octet(s) {
        None => None,
        Some((a, n1)) => {
            if n1 < s.len() && s[n1] == '.' {
                let s2 = s.skip(n1 + 1);
                match spec_octet(s2) {
                    None => None,
                    Some((b, n2)) => {
                        if n2 < s2.len() && s2[n2] == '.' {
                            let s3 = s2.skip(n2 + 1);
                            match spec_octet(s3) {
                                None => None,
                                Some((c, n3)) => {
                                    if n3 < s3.len() && s3[n3] == '.' {
                                        let s4 = s3.skip(n3 + 1);
                                        match spec_octet(s4) {
                                            None => None,
                                            Some((d, n4)) => {
                                                if n4 == s4.len() {
                                                    Some(IpAddr::V4 {
                                                        a: a as u8,
                                                        b: b as u8,
                                                        c: c as u8,
                                                        d: d as u8,
                                                    })
                                                } else {
                                                    None
                                                }
                                            },
                                        }
                                    } else {
                                        None
                                    }
                                },
                            }
                        } else {
                            None
                        }
                    },
                }
            } else {
                None
            }
        },
    }
}

/// Parses all of `s` as a non-empty `:`-separated list of IPv6 segment
/// groups, each one to four hexadecimal digits.  When `allow_v4` holds, the
/// list may instead end in a dotted quad standing for the last two segments.
pub open spec fn spec_groups(s: Seq<char>, allow_v4: bool) -> Option<Seq<u16>>
    decreases s.len(),
{
    if s.len() == 0 {
        None
    } else if allow_v4 && spec_parse_v4(s) is Some {
        match spec_parse_v4(s) {
            Some(IpAddr::V4 { a, b, c, d }) => Some(
                seq![((a as int) * 256 + (b as int)) as u16, ((c as int) * 256 + (d as int)) as u16],
            ),
            _ => None,
        }
    } else {
        let n = hex_prefix_len(s);
        if 1 <= n <= 4 {
            let v = hex_value(s.take(n)) as u16;
            if n == s.len() {
                Some(seq![v])
            } else if n < s.len() && s[n] == ':' {
                match spec_groups(s.skip(n + 1), allow_v4) {
                    None => None,
                    Some(rest) => Some(seq![v] + rest),
                }
            } else {
                None
            }
        } else {
            None
        }
    }
}

/// The position of the first `::` at or after index `i`.
pub open spec fn find_dcolon_from(s: Seq<char>, i: int) -> Option<int>
    decreases s.len() - i,
{
    if i < 0 || i + 2 > s.len() {
        None
    } else if s[i] == ':' && s[i + 1] == ':' {
        Some(i)
    } else {
        find_dcolon_from(s, i + 1)
    }
}

/// A run of `n` zero segments.
pub open spec fn zero_segs(n: int) -> Seq<u16> {
    Seq::new(n as nat, |i: int| 0u16)
}

/// The IPv6 address with the given eight segments.
pub open spec fn v6_of_segs(g: Seq<u16>) -> IpAddr {
    IpAddr::V6 { s0: g[0], s1: g[1], s2: g[2], s3: g[3], s4: g[4], s5: g[5], s6: g[6], s7: g[7] }
}

/// Parses all of `s` as an IPv6 text: either eight groups, or two group
/// lists (possibly empty) joined by one `::` standing for the omitted zero
/// segments, of which there is at least one.
pub open spec fn spec_parse_v6(s: Seq<char>) -> Option<IpAddr> {
    match find_dcolon_from(s, 0) {
        None => match spec_groups(s, true) {
            Some(g) => if g.len() == 8 {
                Some(v6_of_segs(g))
            } else {
                None
            },
            None => None,
        },
        Some(i) => {
            let left = s.take(i);
            let right = s.skip(i + 2);
            let lg = if left.len() == 0 {
                Some(Seq::<u16>::empty())
            } else {
                spec_groups(left, false)
            };
            let rg = if right.len() == 0 {
                Some(Seq::<u16>::empty())
            } else {
                spec_groups(right, true)
            };
            match (lg, rg) {
                (Some(l), Some(r)) => {
                    if l.len() + r.len() <= 7 {
                        Some(v6_of_segs(l + zero_segs(8 - l.len() - r.len()) + r))
                    } else {
                        None
                    }
                },
                _ => None,
            }
        },
    }
}

/// Parses a textual network address, IPv4 or IPv6.
pub open spec fn spec_parse_addr(s: Seq<char>) -> Option<IpAddr> {
    if has_colon(s) {
        spec_parse_v6(s)
    } else {
        spec_parse_v4(s)
    }
}

// ---------------------------------------------------------------------------
// Parsing: digit-value bounds
// ---------------------------------------------------------------------------

/// Bounds on the value of a short digit string.
proof fn lemma_dec_value_bound(ds: Seq<char>)
    requires
        forall|k: int| 0 <= k < ds.len() ==> is_digit_char(#[trigger] ds[k]),
    ensures
        0 <= dec_value(ds),
        ds.len() <= 1 ==> dec_value(ds) <= 9,
        ds.len() <= 2 ==> dec_value(ds) <= 99,
        ds.len() <= 3 ==> dec_value(ds) <= 999,
    decreases ds.len(),
{
    if ds.len() > 0 {
        lemma_dec_value_bound(ds.drop_last());
    }
}

/// Bounds on the value of a short hexadecimal digit string.
proof fn lemma_hex_value_bound(ds: Seq<char>)
    requires
        forall|k: int| 0 <= k < ds.len() ==> is_hex_char(#[trigger] ds[k]),
    ensures
        0 <= hex_value(ds),
        ds.len() <= 1 ==> hex_value(ds) <= 0xf,
        ds.len() <= 2 ==> hex_value(ds) <= 0xff,
        ds.len() <= 3 ==> hex_value(ds) <= 0xfff,
        ds.len() <= 4 ==> hex_value(ds) <= 0xffff,
    decreases ds.len(),
{
    if ds.len() > 0 {
        lemma_hex_value_bound(ds.drop_last());
    }
}

/// Every character inside a digit prefix is a digit.
proof fn lemma_digit_prefix_chars(s: Seq<char>)
    ensures
        0 <= digit_prefix_len(s) <= s.len(),
        forall|k: int| 0 <= k < digit_prefix_len(s) ==> is_digit_char(#[trigger] s[k]),
    decreases s.len(),
{
    if s.len() > 0 && is_digit_char(s[0]) {
        lemma_digit_prefix_chars(s.drop_first());
        assert forall|k: int| 0 <= k < digit_prefix_len(s) implies is_digit_char(#[trigger] s[k]) by {
            if k > 0 {
                assert(is_digit_char(s.drop_first()[k - 1]));
            }
        }
    }
}

/// Every character inside a hexadecimal prefix is a hexadecimal digit.
proof fn lemma_hex_prefix_chars(s: Seq<char>)
    ensures
        0 <= hex_prefix_len(s) <= s.len(),
        forall|k: int| 0 <= k < hex_prefix_len(s) ==> is_hex_char(#[trigger] s[k]),
    decreases s.len(),
{
    if s.len() > 0 && is_hex_char(s[0]) {
        lemma_hex_prefix_chars(s.drop_first());
        assert forall|k: int| 0 <= k < hex_prefix_len(s) implies is_hex_char(#[trigger] s[k]) by {
            if k > 0 {
                assert(is_hex_char(s.drop_first()[k - 1]));
            }
        }
    }
}

// ---------------------------------------------------------------------------
// Parsing: executable
// ---------------------------------------------------------------------------

/// Is this character a decimal digit?
fn is_digit(c: char) -> (r: bool)
    ensures
        r == is_digit_char(c),
{
    let v = c as u32;
    48 <= v && v <= 57
}

/// Is this character a hexadecimal digit?
fn is_hex(c: char) -> (r: bool)
    ensures
        r == is_hex_char(c),
{
    let v = c as u32;
    (48 <= v && v <= 57) || (97 <= v && v <= 102) || (65 <= v && v <= 70)
}

/// Numeric value of a decimal digit character.
fn digit_value_of(c: char) -> (v: u8)
    requires
        is_digit_char(c),
    ensures
        v == digit_val(c),
{
    ((c as u32) - 48) as u8
}

/// Numeric value of a hexadecimal digit character.
fn hex_value_of(c: char) -> (v: u8)
    requires
        is_hex_char(c),
    ensures
        v == hex_val(c),
{
    let u = c as u32;
    if 48 <= u && u <= 57 {
        (u - 48) as u8
    } else if 97 <= u && u <= 102 {
        (u - 87) as u8
    } else {
        (u - 55) as u8
    }
}

/// Length of the run of decimal digits starting at `i`.
fn digit_run(s: &str, i: usize) -> (n: usize)
    requires
        i <= s@.len(),
    ensures
        n == digit_prefix_len(s@.skip(i as int)),
        i + n <= s@.len(),
    decreases s@.len() - i,
{
    if i < s.unicode_len() && is_digit(s.get_char(i)) {
        proof {
            assert(s@.skip(i as int)[0] == s@[i as int]);
            assert(s@.skip(i as int).drop_first() =~= s@.skip(i as int + 1));
        }
        1 + digit_run(s, i + 1)
    } else {
        proof {
            if i < s@.len() {
                assert(s@.skip(i as int)[0] == s@[i as int]);
            }
        }
        0
    }
}

/// Length of the run of hexadecimal digits starting at `i`.
fn hex_run(s: &str, i: usize) -> (n: usize)
    requires
        i <= s@.len(),
    ensures
        n == hex_prefix_len(s@.skip(i as int)),
        i + n <= s@.len(),
    decreases s@.len() - i,
{
    if i < s.unicode_len() && is_hex(s.get_char(i)) {
        proof {
            assert(s@.skip(i as int)[0] == s@[i as int]);
            assert(s@.skip(i as int).drop_first() =~= s@.skip(i as int + 1));
        }
        1 + hex_run(s, i + 1)
    } else {
        proof {
            if i < s@.len() {
                assert(s@.skip(i as int)[0] == s@[i as int]);
            }
        }
        0
    }
}

/// Parses one decimal octet starting at `i`, as `spec_octet` describes.
fn parse_octet_at(s: &str, i: usize) -> (r: Option<(u8, usize)>)
    requires
        i <= s@.len(),
    ensures
        match r {
            None => spec_octet(s@.skip(i as int)) is None,
            Some((v, n)) => spec_octet(s@.skip(i as int)) == Some((v as int, n as int)) && 1 <= n
                && i + n <= s@.len(),
        },
{
    let ghost suf = s@.skip(i as int);
    let len = s.unicode_len();
    let n = digit_run(s, i);
    proof {
        lemma_digit_prefix_chars(suf);
    }
    if n < 1 || n > 3 {
        return None;
    }
    if n > 1 && s.get_char(i) == '0' {
        proof {
            assert(suf[0] == s@[i as int]);
        }
        return None;
    }
    let mut v: u16 = 0;
    let mut k: usize = 0;
    proof {
        assert(suf.take(0) =~= Seq::<char>::empty());
    }
    while k < n
        invariant
            k <= n,
            1 <= n <= 3,
            i + n <= len,
            len == s@.len(),
            suf == s@.skip(i as int),
            n == digit_prefix_len(suf),
            forall|q: int| 0 <= q < n ==> is_digit_char(#[trigger] suf[q]),
            v == dec_value(suf.take(k as int)),
        decreases n - k,
    {
        let c = s.get_char(i + k);
        proof {
            assert(suf[k as int] == s@[i as int + k as int]);
            lemma_dec_value_bound(suf.take(k as int));
            assert(suf.take(k as int).len() <= 2);
            assert(suf.take(k as int + 1).drop_last() =~= suf.take(k as int));
            assert(suf.take(k as int + 1).last() == suf[k as int]);
        }
        v = v * 10 + digit_value_of(c) as u16;
        k = k + 1;
    }
    proof {
        assert(suf.take(n as int).len() == n);
    }
    if v <= 255 {
        proof {
            if n > 1 {
                assert(suf[0] != '0');
            }
        }
        Some((v as u8, n))
    } else {
        None
    }
}

/// Parses all of the text from `i` on as a dotted quad.
fn parse_v4_at(s: &str, i: usize) -> (r: Option<IpAddr>)
    requires
        i <= s@.len(),
    ensures
        r == spec_parse_v4(s@.skip(i as int)),
{
    let len = s.unicode_len();
    let ghost s1 = s@.skip(i as int);
    let (a, n1) = match parse_octet_at(s, i) {
        None => { return None; },
        Some(p) => p,
    };
    if i + n1 >= len || s.get_char(i + n1) != '.' {
        proof {
            if i + n1 < len {
                assert(s1[n1 as int] == s@[i as int + n1 as int]);
            }
        }
        return None;
    }
    proof {
        assert(s1[n1 as int] == s@[i as int + n1 as int]);
    }
    let i2 = i + n1 + 1;
    let ghost s2 = s@.skip(i2 as int);
    proof {
        assert(s1.skip(n1 as int + 1) =~= s2);
    }
    let (b, n2) = match parse_octet_at(s, i2) {
        None => { return None; },
        Some(p) => p,
    };
    if i2 + n2 >= len || s.get_char(i2 + n2) != '.' {
        proof {
            if i2 + n2 < len {
                assert(s2[n2 as int] == s@[i2 as int + n2 as int]);
            }
        }
        return None;
    }
    proof {
        assert(s2[n2 as int] == s@[i2 as int + n2 as int]);
    }
    let i3 = i2 + n2 + 1;
    let ghost s3 = s@.skip(i3 as int);
    proof {
        assert(s2.skip(n2 as int + 1) =~= s3);
    }
    let (c, n3) = match parse_octet_at(s, i3) {
        None => { return None; },
        Some(p) => p,
    };
    if i3 + n3 >= len || s.get_char(i3 + n3) != '.' {
        proof {
            if i3 + n3 < len {
                assert(s3[n3 as int] == s@[i3 as int + n3 as int]);
            }
        }
        return None;
    }
    proof {
        assert(s3[n3 as int] == s@[i3 as int + n3 as int]);
    }
    let i4 = i3 + n3 + 1;
    let ghost s4 = s@.skip(i4 as int);
    proof {
        assert(s3.skip(n3 as int + 1) =~= s4);
    }
    let (d, n4) = match parse_octet_at(s, i4) {
        None => { return None; },
        Some(p) => p,
    };
    if i4 + n4 == len {
        Some(IpAddr::V4 { a, b, c, d })
    } else {
        None
    }
}

/// Parses all of the text from `i` on as a group list, as `spec_groups`
/// describes.
fn parse_groups_at(s: &str, i: usize, allow_v4: bool) -> (r: Option<Vec<u16>>)
    requires
        i <= s@.len(),
    ensures
        match r {
            None => spec_groups(s@.skip(i as int), allow_v4) is None,
            Some(g) => spec_groups(s@.skip(i as int), allow_v4) == Some(g@),
        },
    decreases s@.len() - i,
{
    let len = s.unicode_len();
    let ghost suf = s@.skip(i as int);
    if i >= len {
        return None;
    }
    if allow_v4 {
        match parse_v4_at(s, i) {
            Some(IpAddr::V4 { a, b, c, d }) => {
                let mut g: Vec<u16> = Vec::new();
                g.push((a as u16) * 256 + (b as u16));
                g.push((c as u16) * 256 + (d as u16));
                proof {
                    assert(g@ =~= seq![
                        ((a as int) * 256 + (b as int)) as u16,
                        ((c as int) * 256 + (d as int)) as u16,
                    ]);
                }
                return Some(g);
            },
            _ => {},
        }
    }
    let n = hex_run(s, i);
    proof {
        lemma_hex_prefix_chars(suf);
    }
    if n < 1 || n > 4 {
        return None;
    }
    let mut v: u16 = 0;
    let mut k: usize = 0;
    proof {
        assert(suf.take(0) =~= Seq::<char>::empty());
    }
    while k < n
        invariant
            k <= n,
            1 <= n <= 4,
            i + n <= len,
            len == s@.len(),
            suf == s@.skip(i as int),
            n == hex_prefix_len(suf),
            forall|q: int| 0 <= q < n ==> is_hex_char(#[trigger] suf[q]),
            v == hex_value(suf.take(k as int)),
        decreases n - k,
    {
        let c = s.get_char(i + k);
        proof {
            assert(suf[k as int] == s@[i as int + k as int]);
            lemma_hex_value_bound(suf.take(k as int));
            assert(suf.take(k as int).len() <= 3);
            assert(suf.take(k as int + 1).drop_last() =~= suf.take(k as int));
            assert(suf.take(k as int + 1).last() == suf[k as int]);
        }
        v = v * 16 + hex_value_of(c) as u16;
        k = k + 1;
    }
    proof {
        lemma_hex_value_bound(suf.take(n as int));
        assert(suf.take(n as int).len() == n);
    }
    if i + n == len {
        let mut g: Vec<u16> = Vec::new();
        g.push(v);
        proof {
            assert(g@ =~= seq![(hex_value(suf.take(n as int)) as u16)]);
        }
        Some(g)
    } else if s.get_char(i + n) == ':' {
        proof {
            assert(suf[n as int] == s@[i as int + n as int]);
            assert(suf.skip(n as int + 1) =~= s@.skip(i as int + n as int + 1));
        }
        match parse_groups_at(s, i + n + 1, allow_v4) {
            None => None,
            Some(mut rest) => {
                rest.insert(0, v);
                proof {
                    assert(rest@ =~= seq![(hex_value(suf.take(n as int)) as u16)]
                        + rest@.skip(1));
                }
                Some(rest)
            },
        }
    } else {
        proof {
            assert(suf[n as int] == s@[i as int + n as int]);
        }
        None
    }
}

/// The position of the first `::` at or after `i`.
fn find_dcolon_at(s: &str, i: usize) -> (r: Option<usize>)
    requires
        i <= s@.len(),
    ensures
        match r {
            None => find_dcolon_from(s@, i as int) is None,
            Some(j) => find_dcolon_from(s@, i as int) == Some(j as int) && i <= j
                && j + 2 <= s@.len(),
        },
    decreases s@.len() - i,
{
    let len = s.unicode_len();
    if len < 2 || i > len - 2 {
        None
    } else if s.get_char(i) == ':' && s.get_char(i + 1) == ':' {
        Some(i)
    } else {
        find_dcolon_at(s, i + 1)
    }
}

/// Parses all of `s` as an IPv6 text.
fn parse_v6(s: &str) -> (r: Option<IpAddr>)
    ensures
        r == spec_parse_v6(s@),
{
    let len = s.unicode_len();
    proof {
        assert(s@.skip(0) =~= s@);
    }
    match find_dcolon_at(s, 0) {
        None => {
            match parse_groups_at(s, 0, true) {
                None => None,
                Some(g) => {
                    if g.len() == 8 {
                        Some(IpAddr::V6 {
                            s0: g[0], s1: g[1], s2: g[2], s3: g[3],
                            s4: g[4], s5: g[5], s6: g[6], s7: g[7],
                        })
                    } else {
                        None
                    }
                },
            }
        },
        Some(j) => {
            let left = s.substring_char(0, j);
            let right = s.substring_char(j + 2, len);
            proof {
                assert(left@ =~= s@.take(j as int));
                assert(right@ =~= s@.skip(j as int + 2));
            }
            let lg: Vec<u16> = if j == 0 {
                Vec::new()
            } else {
                proof {
                    assert(left@.skip(0) =~= left@);
                }
                match parse_groups_at(left, 0, false) {
                    None => { return None; },
                    Some(g) => g,
                }
            };
            let rg: Vec<u16> = if j + 2 == len {
                Vec::new()
            } else {
                proof {
                    assert(right@.skip(0) =~= right@);
                }
                match parse_groups_at(right, 0, true) {
                    None => { return None; },
                    Some(g) => g,
                }
            };
            if lg.len() <= 7 && rg.len() <= 7 - lg.len() {
                let mut g: Vec<u16> = lg;
                let fill = 8 - g.len() - rg.len();
                let mut z: usize = 0;
                while z < fill
                    invariant
                        z <= fill,
                        g@ =~= lg@ + zero_segs(z as int),
                        fill == 8 - lg@.len() - rg@.len(),
                    decreases fill - z,
                {
                    g.push(0);
                    proof {
                        assert(zero_segs(z as int).push(0u16) =~= zero_segs(z as int + 1));
                    }
                    z = z + 1;
                }
                let mut q: usize = 0;
                while q < rg.len()
                    invariant
                        q <= rg@.len(),
                        g@ =~= lg@ + zero_segs(fill as int) + rg@.take(q as int),
                        fill == 8 - lg@.len() - rg@.len(),
                    decreases rg@.len() - q,
                {
                    let x = rg[q];
                    g.push(x);
                    proof {
                        assert(rg@.take(q as int).push(rg@[q as int]) =~= rg@.take(q as int + 1));
                    }
                    q = q + 1;
                }
                proof {
                    assert(rg@.take(rg@.len() as int) =~= rg@);
                    assert(g@.len() == 8);
                }
                Some(IpAddr::V6 {
                    s0: g[0], s1: g[1], s2: g[2], s3: g[3],
                    s4: g[4], s5: g[5], s6: g[6], s7: g[7],
                })
            } else {
                None
            }
        },
    }
}

impl IpAddr {
    /// Parses a textual address, as `spec_parse_addr` describes: a dotted
    /// quad when the text has no colon, an IPv6 text otherwise.
    pub fn parse(s: &str) -> (r: Option<IpAddr>)
        ensures
            r == spec_parse_addr(s@),
    {
        let len = s.unicode_len();
        let mut i: usize = 0;
        let mut found = false;
        while i < len
            invariant
                i <= len,
                len == s@.len(),
                found ==> has_colon(s@),
                !found ==> forall|k: int| 0 <= k < i ==> s@[k] != ':',
            decreases len - i,
        {
            if s.get_char(i) == ':' {
                found = true;
                proof {
                    assert(s@[i as int] == ':');
                }
            }
            i = i + 1;
        }
        if found {
            parse_v6(s)
        } else {
            proof {
                assert(!has_colon(s@));
            }
            parse_v4(s)
        }
    }
}

/// Parses all of `s` as a dotted quad.
fn parse_v4(s: &str) -> (r: Option<IpAddr>)
    ensures
        r == spec_parse_v4(s@),
{
    proof {
        assert(s@.skip(0) =~= s@);
    }
    parse_v4_at(s, 0)
}

// ---------------------------------------------------------------------------
// The codec round trip for IPv4
// ---------------------------------------------------------------------------

/// The digit character of `d` is a digit with value `d`, and only zero's is
/// `'0'`.
proof fn lemma_digit_char_props(d: int)
    requires
        0 <= d <= 9,
    ensures
        is_digit_char(digit_char(d)),
        digit_val(digit_char(d)) == d,
        d != 0 ==> digit_char(d) != '0',
        digit_char(d) != '.',
        digit_char(d) != ':',
{
}

/// The decimal text of an octet consists of digits, has its value, and
/// carries no leading zero.
proof fn lemma_dec_text_props(n: int)
    requires
        0 <= n <= 255,
    ensures
        1 <= dec_text(n).len() <= 3,
        forall|k: int| 0 <= k < dec_text(n).len() ==> is_digit_char(#[trigger] dec_text(n)[k]),
        dec_value(dec_text(n)) == n,
        dec_text(n).len() > 1 ==> dec_text(n)[0] != '0',
{
    reveal_with_fuel(dec_value, 4);
    if n < 10 {
        lemma_digit_char_props(n);
        assert(dec_text(n).drop_last() =~= Seq::<char>::empty());
    } else if n < 100 {
        lemma_fundamental_div_mod(n, 10);
        lemma_digit_char_props(n / 10);
        lemma_digit_char_props(n % 10);
        let s = dec_text(n);
        assert(s.drop_last() =~= seq![digit_char(n / 10)]);
        assert(seq![digit_char(n / 10)].drop_last() =~= Seq::<char>::empty());
    } else {
        lemma_fundamental_div_mod(n, 10);
        lemma_fundamental_div_mod(n / 10, 10);
        lemma_div_denominator(n, 10, 10);
        lemma_digit_char_props(n / 100);
        lemma_digit_char_props((n / 10) % 10);
        lemma_digit_char_props(n % 10);
        let s = dec_text(n);
        assert(s.drop_last() =~= seq![digit_char(n / 100), digit_char((n / 10) % 10)]);
        assert(s.drop_last().drop_last() =~= seq![digit_char(n / 100)]);
        assert(seq![digit_char(n / 100)].drop_last() =~= Seq::<char>::empty());
    }
}

/// A run of digits followed by a non-digit (or by nothing) is exactly the
/// digit prefix.
proof fn lemma_digit_prefix_concat(ds: Seq<char>, rest: Seq<char>)
    requires
        forall|k: int| 0 <= k < ds.len() ==> is_digit_char(#[trigger] ds[k]),
        rest.len() == 0 || !is_digit_char(rest[0]),
    ensures
        digit_prefix_len(ds + rest) == ds.len(),
    decreases ds.len(),
{
    let s = ds + rest;
    if ds.len() == 0 {
        assert(s =~= rest);
    } else {
        assert(s[0] == ds[0]);
        assert(s.drop_first() =~= ds.drop_first() + rest);
        lemma_digit_prefix_concat(ds.drop_first(), rest);
    }
}

/// An octet's decimal text at the head of a string parses back to the
/// octet, when what follows is empty or starts with a dot.
proof fn lemma_octet_parses(n: int, rest: Seq<char>)
    requires
        0 <= n <= 255,
        rest.len() == 0 || rest[0] == '.',
    ensures
        spec_octet(dec_text(n) + rest) == Some((n, dec_text(n).len() as int)),
        (dec_text(n) + rest).take(dec_text(n).len() as int) == dec_text(n),
        (dec_text(n) + rest).skip(dec_text(n).len() as int) == rest,
{
    lemma_dec_text_props(n);
    lemma_digit_prefix_concat(dec_text(n), rest);
    let s = dec_text(n) + rest;
    assert(s.take(dec_text(n).len() as int) =~= dec_text(n));
    assert(s.skip(dec_text(n).len() as int) =~= rest);
}

/// No character of an IPv4 text is a colon.
proof fn lemma_v4_text_no_colon(a: IpAddr)
    requires
        a is V4,
    ensures
        !has_colon(addr_text(a)),
{
    let (x, y, z, w) = match a {
        IpAddr::V4 { a, b, c, d } => (a as int, b as int, c as int, d as int),
        _ => (0int, 0int, 0int, 0int),
    };
    lemma_dec_text_props(x);
    lemma_dec_text_props(y);
    lemma_dec_text_props(z);
    lemma_dec_text_props(w);
    let s = addr_text(a);
    assert forall|k: int| 0 <= k < s.len() implies s[k] != ':' by {
        lemma_digit_char_props(0);
    }
}

/// The tail of an IPv4 text after its second dot.
spec fn tail3(z: int, w: int) -> Seq<char> {
    dec_text(z) + seq!['.'] + dec_text(w)
}

/// The tail of an IPv4 text after its first dot.
spec fn tail2(y: int, z: int, w: int) -> Seq<char> {
    dec_text(y) + seq!['.'] + tail3(z, w)
}

/// Parsing peels the third octet and its dot off `tail3`.
proof fn lemma_peel3(z: int, w: int)
    requires
        0 <= z <= 255,
        0 <= w <= 255,
    ensures
        spec_octet(tail3(z, w)) == Some((z, dec_text(z).len() as int)),
        tail3(z, w)[dec_text(z).len() as int] == '.',
        tail3(z, w).skip(dec_text(z).len() as int + 1) == dec_text(w),
        dec_text(z).len() < tail3(z, w).len(),
{
    let rest = seq!['.'] + dec_text(w);
    assert(tail3(z, w) =~= dec_text(z) + rest);
    lemma_octet_parses(z, rest);
    assert(rest.skip(1) =~= dec_text(w));
    assert(tail3(z, w).skip(dec_text(z).len() as int + 1) =~= rest.skip(1));
}

/// Parsing peels the second octet and its dot off `tail2`.
proof fn lemma_peel2(y: int, z: int, w: int)
    requires
        0 <= y <= 255,
        0 <= z <= 255,
        0 <= w <= 255,
    ensures
        spec_octet(tail2(y, z, w)) == Some((y, dec_text(y).len() as int)),
        tail2(y, z, w)[dec_text(y).len() as int] == '.',
        tail2(y, z, w).skip(dec_text(y).len() as int + 1) == tail3(z, w),
        dec_text(y).len() < tail2(y, z, w).len(),
{
    let rest = seq!['.'] + tail3(z, w);
    assert(tail2(y, z, w) =~= dec_text(y) + rest);
    lemma_octet_parses(y, rest);
    assert(rest.skip(1) =~= tail3(z, w));
    assert(tail2(y, z, w).skip(dec_text(y).len() as int + 1) =~= rest.skip(1));
}

/// Parsing peels the first octet and its dot off the whole text.
proof fn lemma_peel1(x: int, y: int, z: int, w: int)
    requires
        0 <= x <= 255,
        0 <= y <= 255,
        0 <= z <= 255,
        0 <= w <= 255,
    ensures
        spec_octet(v4_text(x, y, z, w)) == Some((x, dec_text(x).len() as int)),
        v4_text(x, y, z, w)[dec_text(x).len() as int] == '.',
        v4_text(x, y, z, w).skip(dec_text(x).len() as int + 1) == tail2(y, z, w),
        dec_text(x).len() < v4_text(x, y, z, w).len(),
{
    let rest = seq!['.'] + tail2(y, z, w);
    assert(v4_text(x, y, z, w) =~= dec_text(x) + rest);
    lemma_octet_parses(x, rest);
    assert(rest.skip(1) =~= tail2(y, z, w));
    assert(v4_text(x, y, z, w).skip(dec_text(x).len() as int + 1) =~= rest.skip(1));
}

/// The canonical text of an IPv4 address parses back to that address.
proof fn lemma_v4_text_parses(a: IpAddr)
    requires
        a is V4,
    ensures
        spec_parse_v4(addr_text(a)) == Some(a),
{
    let (x, y, z, w) = match a {
        IpAddr::V4 { a, b, c, d } => (a as int, b as int, c as int, d as int),
        _ => (0int, 0int, 0int, 0int),
    };
    lemma_peel1(x, y, z, w);
    lemma_peel2(y, z, w);
    lemma_peel3(z, w);
    lemma_octet_parses(w, Seq::<char>::empty());
    assert(dec_text(w) + Seq::<char>::empty() =~= dec_text(w));
    assert(spec_parse_v4(addr_text(a)) == Some(a));
}

// ---------------------------------------------------------------------------
// The codec round trip for IPv6
// ---------------------------------------------------------------------------

/// The hexadecimal digit character of `d` is a hexadecimal digit with
/// value `d`, and is neither a dot nor a colon.
proof fn lemma_hex_char_props(d: int)
    requires
        0 <= d <= 15,
    ensures
        is_hex_char(hex_char(d)),
        hex_val(hex_char(d)) == d,
        hex_char(d) != '.',
        hex_char(d) != ':',
{
}

/// The hexadecimal text of a segment consists of hexadecimal digits and
/// has its value.
proof fn lemma_hex_text_props(n: int)
    requires
        0 <= n <= 0xffff,
    ensures
        1 <= hex_text(n).len() <= 4,
        forall|k: int| 0 <= k < hex_text(n).len() ==> is_hex_char(#[trigger] hex_text(n)[k]),
        hex_value(hex_text(n)) == n,
{
    reveal_with_fuel(hex_value, 5);
    if n < 16 {
        lemma_hex_char_props(n);
        assert(hex_text(n).drop_last() =~= Seq::<char>::empty());
    } else if n < 256 {
        lemma_fundamental_div_mod(n, 16);
        lemma_hex_char_props(n / 16);
        lemma_hex_char_props(n % 16);
        let s = hex_text(n);
        assert(s.drop_last() =~= seq![hex_char(n / 16)]);
        assert(seq![hex_char(n / 16)].drop_last() =~= Seq::<char>::empty());
    } else if n < 4096 {
        lemma_fundamental_div_mod(n, 16);
        lemma_fundamental_div_mod(n / 16, 16);
        lemma_div_denominator(n, 16, 16);
        lemma_hex_char_props(n / 256);
        lemma_hex_char_props((n / 16) % 16);
        lemma_hex_char_props(n % 16);
        let s = hex_text(n);
        assert(s.drop_last() =~= seq![hex_char(n / 256), hex_char((n / 16) % 16)]);
        assert(s.drop_last().drop_last() =~= seq![hex_char(n / 256)]);
        assert(seq![hex_char(n / 256)].drop_last() =~= Seq::<char>::empty());
    } else {
        lemma_fundamental_div_mod(n, 16);
        lemma_fundamental_div_mod(n / 16, 16);
        lemma_fundamental_div_mod(n / 256, 16);
        lemma_div_denominator(n, 16, 16);
        lemma_div_denominator(n, 256, 16);
        lemma_hex_char_props(n / 4096);
        lemma_hex_char_props((n / 256) % 16);
        lemma_hex_char_props((n / 16) % 16);
        lemma_hex_char_props(n % 16);
        let s = hex_text(n);
        assert(s.drop_last() =~= seq![
            hex_char(n / 4096),
            hex_char((n / 256) % 16),
            hex_char((n / 16) % 16),
        ]);
        assert(s.drop_last().drop_last() =~= seq![hex_char(n / 4096), hex_char((n / 256) % 16)]);
        assert(s.drop_last().drop_last().drop_last() =~= seq![hex_char(n / 4096)]);
        assert(seq![hex_char(n / 4096)].drop_last() =~= Seq::<char>::empty());
    }
}

/// A run of hexadecimal digits followed by a non-hex character (or by
/// nothing) is exactly the hexadecimal prefix.
proof fn lemma_hex_prefix_concat(ds: Seq<char>, rest: Seq<char>)
    requires
        forall|k: int| 0 <= k < ds.len() ==> is_hex_char(#[trigger] ds[k]),
        rest.len() == 0 || !is_hex_char(rest[0]),
    ensures
        hex_prefix_len(ds + rest) == ds.len(),
    decreases ds.len(),
{
    let s = ds + rest;
    if ds.len() == 0 {
        assert(s =~= rest);
    } else {
        assert(s[0] == ds[0]);
        assert(s.drop_first() =~= ds.drop_first() + rest);
        lemma_hex_prefix_concat(ds.drop_first(), rest);
    }
}

/// Every character of a joined group text is a hexadecimal digit or a
/// colon; the first and last are hexadecimal digits.
proof fn lemma_join_hex_chars(segs: Seq<u16>)
    requires
        segs.len() >= 1,
    ensures
        join_hex(segs).len() >= 1,
        is_hex_char(join_hex(segs)[0]),
        is_hex_char(join_hex(segs).last()),
        forall|k: int| 0 <= k < join_hex(segs).len() ==> (is_hex_char(
            #[trigger] join_hex(segs)[k],
        ) || join_hex(segs)[k] == ':'),
    decreases segs.len(),
{
    lemma_hex_text_props(segs[0] as int);
    if segs.len() > 1 {
        lemma_join_hex_chars(segs.drop_first());
        let h0 = hex_text(segs[0] as int);
        let rest = join_hex(segs.drop_first());
        let s = join_hex(segs);
        assert(s =~= h0 + seq![':'] + rest);
        assert(s.last() == rest.last());
        assert forall|k: int| 0 <= k < s.len() implies (is_hex_char(#[trigger] s[k]) || s[k]
            == ':') by {
            if k < h0.len() {
                assert(s[k] == h0[k]);
            } else if k > h0.len() {
                assert(s[k] == rest[k - h0.len() - 1]);
            }
        }
    }
}

/// A string without a dot holds no dotted quad.
proof fn lemma_parse_v4_none(s: Seq<char>)
    requires
        forall|k: int| 0 <= k < s.len() ==> #[trigger] s[k] != '.',
    ensures
        spec_parse_v4(s) is None,
{
}

/// A joined group text parses back to its segments, whether or not a
/// trailing dotted quad would be admitted.
proof fn lemma_join_hex_parses(segs: Seq<u16>, allow_v4: bool)
    requires
        1 <= segs.len(),
    ensures
        spec_groups(join_hex(segs), allow_v4) == Some(segs),
    decreases segs.len(),
{
    let s = join_hex(segs);
    lemma_join_hex_chars(segs);
    assert forall|k: int| 0 <= k < s.len() implies #[trigger] s[k] != '.' by {
        assert(is_hex_char(s[k]) || s[k] == ':');
    }
    lemma_parse_v4_none(s);
    lemma_hex_text_props(segs[0] as int);
    let h0 = hex_text(segs[0] as int);
    if segs.len() == 1 {
        assert(s == h0);
        lemma_hex_prefix_concat(h0, Seq::<char>::empty());
        assert(h0 + Seq::<char>::empty() =~= h0);
        assert(s.take(h0.len() as int) =~= h0);
        assert(seq![segs[0]] =~= segs);
    } else {
        let rest = join_hex(segs.drop_first());
        assert(s =~= h0 + (seq![':'] + rest));
        lemma_hex_prefix_concat(h0, seq![':'] + rest);
        assert(s.take(h0.len() as int) =~= h0);
        assert(s[h0.len() as int] == ':');
        assert(s.skip(h0.len() as int + 1) =~= rest);
        lemma_join_hex_parses(segs.drop_first(), allow_v4);
        assert(seq![segs[0]] + segs.drop_first() =~= segs);
    }
}

/// No two adjacent characters of a joined group text are both colons.
proof fn lemma_join_hex_no_dcolon(segs: Seq<u16>)
    requires
        segs.len() >= 1,
    ensures
        forall|k: int| 0 <= k && k + 1 < join_hex(segs).len() ==> !((#[trigger] join_hex(
            segs,
        )[k]) == ':' && join_hex(segs)[k + 1] == ':'),
    decreases segs.len(),
{
    let s = join_hex(segs);
    lemma_hex_text_props(segs[0] as int);
    let h0 = hex_text(segs[0] as int);
    if segs.len() == 1 {
        assert forall|k: int| 0 <= k && k + 1 < s.len() implies !((#[trigger] s[k]) == ':' && s[k
            + 1] == ':') by {
            assert(is_hex_char(s[k]));
        }
    } else {
        lemma_join_hex_no_dcolon(segs.drop_first());
        lemma_join_hex_chars(segs.drop_first());
        let rest = join_hex(segs.drop_first());
        assert(s =~= h0 + seq![':'] + rest);
        assert forall|k: int| 0 <= k && k + 1 < s.len() implies !((#[trigger] s[k]) == ':' && s[k
            + 1] == ':') by {
            if k < h0.len() {
                assert(s[k] == h0[k]);
                assert(is_hex_char(s[k]));
            } else if k == h0.len() {
                // the separating colon is followed by the rest's first
                // character, a hexadecimal digit
                assert(s[k + 1] == rest[0]);
                assert(is_hex_char(s[k + 1]));
            } else {
                assert(s[k] == rest[k - h0.len() - 1]);
                assert(s[k + 1] == rest[k - h0.len()]);
            }
        }
    }
}

/// Scanning finds no double colon where none exists.
proof fn lemma_find_dcolon_none(s: Seq<char>, i: int)
    requires
        0 <= i,
        forall|k: int| i <= k && k + 1 < s.len() ==> !((#[trigger] s[k]) == ':' && s[k + 1] == ':'),
    ensures
        find_dcolon_from(s, i) is None,
    decreases s.len() - i,
{
    if i + 2 <= s.len() {
        lemma_find_dcolon_none(s, i + 1);
    }
}

/// Scanning finds the first double colon.
proof fn lemma_find_dcolon_at(s: Seq<char>, i: int, j: int)
    requires
        0 <= i <= j,
        j + 2 <= s.len(),
        s[j] == ':' && s[j + 1] == ':',
        forall|k: int| i <= k < j ==> !((#[trigger] s[k]) == ':' && s[k + 1] == ':'),
    ensures
        find_dcolon_from(s, i) == Some(j),
    decreases j - i,
{
    if i < j {
        lemma_find_dcolon_at(s, i + 1, j);
    }
}

/// A zero run stays in bounds and covers zero segments only.
proof fn lemma_zero_run_props(segs: Seq<u16>, i: int)
    requires
        0 <= i <= segs.len(),
    ensures
        0 <= zero_run_at(segs, i),
        i + zero_run_at(segs, i) <= segs.len(),
        forall|k: int| i <= k < i + zero_run_at(segs, i) ==> segs[k] == 0,
    decreases segs.len() - i,
{
    if i < segs.len() && segs[i] == 0 {
        lemma_zero_run_props(segs, i + 1);
    }
}

/// A chosen best run starts in bounds and has length at least two.
proof fn lemma_best_run_props(segs: Seq<u16>, i: int)
    requires
        0 <= i,
    ensures
        best_zero_run_from(segs, i) matches Some(j) ==> i <= j < segs.len() && zero_run_at(
            segs,
            j,
        ) >= 2,
    decreases segs.len() - i,
{
    if i < segs.len() {
        lemma_best_run_props(segs, i + 1);
    }
}

/// The canonical text of an IPv6 address parses back to that address.
#[verifier::rlimit(100)]
proof fn lemma_v6_round_trip(a: IpAddr)
    requires
        a is V6,
    ensures
        spec_parse_addr(addr_text(a)) == Some(a),
{
    let segs = a.segments();
    let s = addr_text(a);
    assert(segs.len() == 8);
    assert(v6_of_segs(segs) == a);
    match best_zero_run(segs) {
        None => {
            assert(s == join_hex(segs));
            lemma_join_hex_chars(segs);
            lemma_join_hex_no_dcolon(segs);
            lemma_find_dcolon_none(s, 0);
            lemma_join_hex_parses(segs, true);
            // the separator after the first segment witnesses a colon
            lemma_hex_text_props(segs[0] as int);
            let h0 = hex_text(segs[0] as int);
            assert(s =~= h0 + seq![':'] + join_hex(segs.drop_first()));
            assert(s[h0.len() as int] == ':');
            assert(has_colon(s));
        },
        Some(j) => {
            lemma_best_run_props(segs, 0);
            let run = zero_run_at(segs, j);
            lemma_zero_run_props(segs, j);
            let left_segs = segs.take(j);
            let right_segs = segs.skip(j + run);
            let lh = join_hex(left_segs);
            let rh = join_hex(right_segs);
            assert(s == lh + seq![':'] + seq![':'] + rh);
            let i = lh.len() as int;
            assert(s[i] == ':' && s[i + 1] == ':');
            assert(has_colon(s));

            // the compression marker is the first double colon
            assert forall|k: int| 0 <= k < i implies !((#[trigger] s[k]) == ':' && s[k + 1]
                == ':') by {
                lemma_join_hex_no_dcolon(left_segs);
                lemma_join_hex_chars(left_segs);
                assert(s[k] == lh[k]);
                if k + 1 < i {
                    assert(s[k + 1] == lh[k + 1]);
                } else {
                    // the last character of the left text is a digit
                    assert(is_hex_char(lh[k]));
                }
            }
            lemma_find_dcolon_at(s, 0, i);

            assert(s.take(i) =~= lh);
            assert(s.skip(i + 2) =~= rh);
            if j > 0 {
                lemma_join_hex_chars(left_segs);
                lemma_join_hex_parses(left_segs, false);
            } else {
                assert(left_segs =~= Seq::<u16>::empty());
                assert(lh.len() == 0);
            }
            if j + run < 8 {
                lemma_join_hex_chars(right_segs);
                lemma_join_hex_parses(right_segs, true);
            } else {
                assert(right_segs =~= Seq::<u16>::empty());
                assert(rh.len() == 0);
            }
            assert(left_segs.len() + right_segs.len() <= 7);

            // reassembly: the omitted middle is exactly the zero run
            assert(zero_segs(8 - left_segs.len() - right_segs.len()) =~= segs.subrange(
                j,
                j + run,
            ));
            assert(left_segs + zero_segs(8 - left_segs.len() - right_segs.len()) + right_segs
                =~= segs);
        },
    }
}

/// The canonical text of an IPv4 address parses back to that address.
proof fn lemma_v4_round_trip(a: IpAddr)
    requires
        a is V4,
    ensures
        spec_parse_addr(addr_text(a)) == Some(a),
{
    lemma_v4_text_no_colon(a);
    lemma_v4_text_parses(a);
}

/// The codec round trip: the canonical text of any address parses back to
/// exactly that address, so formatting loses nothing and the canonical
/// form is a faithful name for the value.
pub proof fn lemma_addr_round_trip(a: IpAddr)
    ensures
        spec_parse_addr(addr_text(a)) == Some(a),
{
    match a {
        IpAddr::V4 { .. } => lemma_v4_round_trip(a),
        IpAddr::V6 { .. } => lemma_v6_round_trip(a),
    }
}

} // verus!
