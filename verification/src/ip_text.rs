//! Text forms of IP and socket addresses, with the grammar std's `FromStr` impls accept and
//! the output std's `Display` impls write.
use vstd::prelude::*;

use crate::text::{
    all_digits, decimal_text, digit_value, digits_value, is_digit, is_space,
    lemma_decimal_text_digits, push_decimal,
};

verus! {

// ---------------------------------------------------------------------------------------
// Grammar (the reader std's address parsers use, on characters)
// ---------------------------------------------------------------------------------------

pub open spec fn radix_digit(c: char, radix: nat) -> Option<nat> {
    if is_digit(c) {
        Some(digit_value(c))
    } else if radix == 16 && 'a' <= c <= 'f' {
        Some((c as u32 - 'a' as u32 + 10) as nat)
    } else if radix == 16 && 'A' <= c <= 'F' {
        Some((c as u32 - 'A' as u32 + 10) as nat)
    } else {
        None
    }
}

/// Number of consecutive digits of `radix` starting at `pos`.
pub open spec fn digit_run(s: Seq<char>, pos: int, radix: nat) -> nat
    decreases s.len() - pos,
{
    if 0 <= pos < s.len() && radix_digit(s[pos], radix) is Some {
        1 + digit_run(s, pos + 1, radix)
    } else {
        0
    }
}

/// Value of the `n` digits starting at `pos`.
pub open spec fn run_value(s: Seq<char>, pos: int, n: nat, radix: nat) -> nat
    decreases n,
{
    if n == 0 {
        0
    } else {
        run_value(s, pos, (n - 1) as nat, radix) * radix + radix_digit(
            s[pos + n - 1],
            radix,
        ).unwrap_or(0)
    }
}

/// A number at `pos`: all the digits there (at least one, at most `max_digits`), no leading
/// zero unless `allow_zero_prefix`, a value up to `max_value`. Gives the value and the
/// position after it.
pub open spec fn read_number(
    s: Seq<char>,
    pos: int,
    radix: nat,
    max_digits: nat,
    allow_zero_prefix: bool,
    max_value: nat,
) -> Option<(nat, int)> {
    let n = digit_run(s, pos, radix);
    if n == 0 || n > max_digits {
        None
    } else if !allow_zero_prefix && s[pos] == '0' && n > 1 {
        None
    } else if run_value(s, pos, n, radix) > max_value {
        None
    } else {
        Some((run_value(s, pos, n, radix), pos + n))
    }
}

/// Position after the separator `c` at `pos` (none before the first item).
pub open spec fn after_separator(s: Seq<char>, pos: int, first: bool, c: char) -> Option<int> {
    if first {
        Some(pos)
    } else if 0 <= pos < s.len() && s[pos] == c {
        Some(pos + 1)
    } else {
        None
    }
}

/// Octets `i..4` of a dotted quad.
pub open spec fn read_octets(s: Seq<char>, pos: int, i: nat) -> Option<(nat, int)>
    decreases 4 - i,
{
    if i >= 4 {
        Some((0, pos))
    } else {
        match after_separator(s, pos, i == 0, '.') {
            None => None,
            Some(p) => match read_number(s, p, 10, 3, false, 255) {
                None => None,
                Some((octet, q)) => match read_octets(s, q, i + 1) {
                    None => None,
                    Some((rest, r)) => Some((octet * pow256(3 - i) + rest, r)),
                },
            },
        }
    }
}

pub open spec fn pow256(k: int) -> nat
    decreases k,
{
    if k <= 0 {
        1
    } else {
        256 * pow256(k - 1)
    }
}

/// A dotted-quad IPv4 address at `pos`: its value and the position after it.
pub open spec fn read_ipv4(s: Seq<char>, pos: int) -> Option<(nat, int)> {
    read_octets(s, pos, 0)
}

/// Colon-separated IPv6 groups `i..limit` at `pos`, the last two possibly written as an
/// embedded IPv4 address. Gives the groups, whether an IPv4 address ended them, and the
/// position after them.
pub open spec fn read_groups(s: Seq<char>, pos: int, i: nat, limit: nat) -> (Seq<nat>, bool, int)
    decreases limit - i,
{
    if i >= limit {
        (seq![], false, pos)
    } else {
        let sep = after_separator(s, pos, i == 0, ':');
        let v4 = if i + 1 < limit {
            match sep {
                Some(p) => read_ipv4(s, p),
                None => None,
            }
        } else {
            None
        };
        match v4 {
            Some((v, q)) => (seq![v / 65536, v % 65536], true, q),
            None => match sep {
                None => (seq![], false, pos),
                Some(p) => match read_number(s, p, 16, 4, true, 0xFFFF) {
                    None => (seq![], false, pos),
                    Some((g, q)) => {
                        let rest = read_groups(s, q, i + 1, limit);
                        (seq![g] + rest.0, rest.1, rest.2)
                    },
                },
            },
        }
    }
}

/// An IPv6 address at `pos`: its eight groups and the position after it.
pub open spec fn read_ipv6(s: Seq<char>, pos: int) -> Option<(Seq<nat>, int)> {
    let head = read_groups(s, pos, 0, 8);
    if head.0.len() == 8 {
        Some((head.0, head.2))
    } else if head.1 {
        None
    } else if 0 <= head.2 && head.2 + 1 < s.len() && s[head.2] == ':' && s[head.2 + 1] == ':' {
        let tail = read_groups(s, head.2 + 2, 0, (7 - head.0.len()) as nat);
        let zeros = Seq::new((8 - head.0.len() - tail.0.len()) as nat, |k: int| 0nat);
        Some((head.0 + zeros + tail.0, tail.2))
    } else {
        None
    }
}

/// The 128-bit value of eight 16-bit groups.
pub open spec fn groups_value(g: Seq<nat>) -> nat
    decreases g.len(),
{
    if g.len() == 0 {
        0
    } else {
        groups_value(g.drop_last()) * 65536 + g.last()
    }
}

/// `Ipv4Addr::from_str`.
pub open spec fn ipv4_from_text(s: Seq<char>) -> Option<u32> {
    match read_ipv4(s, 0) {
        Some((v, p)) => if p == s.len() {
            Some(v as u32)
        } else {
            None
        },
        None => None,
    }
}

/// `Ipv6Addr::from_str`.
pub open spec fn ipv6_from_text(s: Seq<char>) -> Option<u128> {
    match read_ipv6(s, 0) {
        Some((g, p)) => if p == s.len() {
            Some(groups_value(g) as u128)
        } else {
            None
        },
        None => None,
    }
}

// ---------------------------------------------------------------------------------------
// Executable reader
// ---------------------------------------------------------------------------------------

pub fn radix_digit_of(c: char, radix: u32) -> (r: Option<u32>)
    requires
        radix == 10 || radix == 16,
    ensures
        match radix_digit(c, radix as nat) {
            Some(d) => r == Some(d as u32),
            None => r is None,
        },
{
    if '0' <= c && c <= '9' {
        Some((c as u32) - ('0' as u32))
    } else if radix == 16 && 'a' <= c && c <= 'f' {
        Some((c as u32) - ('a' as u32) + 10)
    } else if radix == 16 && 'A' <= c && c <= 'F' {
        Some((c as u32) - ('A' as u32) + 10)
    } else {
        None
    }
}

proof fn lemma_digit_run_at_least(s: Seq<char>, pos: int, radix: nat, k: nat)
    requires
        0 <= pos,
        pos + k <= s.len(),
        forall|j: int| pos <= j < pos + k ==> (#[trigger] radix_digit(s[j], radix)) is Some,
    ensures
        digit_run(s, pos, radix) >= k,
    decreases k,
{
    if k > 0 {
        lemma_digit_run_at_least(s, pos + 1, radix, (k - 1) as nat);
    }
}

proof fn lemma_digit_run_exact(s: Seq<char>, pos: int, radix: nat, k: nat)
    requires
        0 <= pos,
        pos + k <= s.len(),
        forall|j: int| pos <= j < pos + k ==> (#[trigger] radix_digit(s[j], radix)) is Some,
        pos + k == s.len() || radix_digit(s[pos + k], radix) is None,
    ensures
        digit_run(s, pos, radix) == k,
    decreases k,
{
    if k > 0 {
        lemma_digit_run_exact(s, pos + 1, radix, (k - 1) as nat);
    }
}

proof fn lemma_run_value_bound(s: Seq<char>, pos: int, n: nat, radix: nat)
    requires
        radix == 10 || radix == 16,
    ensures
        run_value(s, pos, n, radix) < crate::ip_text::pow_nat(radix, n),
    decreases n,
{
    if n > 0 {
        lemma_run_value_bound(s, pos, (n - 1) as nat, radix);
        let v = run_value(s, pos, (n - 1) as nat, radix);
        let d = radix_digit(s[pos + n - 1], radix).unwrap_or(0);
        let p = pow_nat(radix, (n - 1) as nat);
        assert(d < radix) by {
            let c = s[pos + n - 1];
            if is_digit(c) {
            } else if radix == 16 && 'a' <= c <= 'f' {
            } else if radix == 16 && 'A' <= c <= 'F' {
            }
        }
        assert(v * radix + d < p * radix) by (nonlinear_arith)
            requires
                v < p,
                d < radix,
        ;
    }
}

pub open spec fn pow_nat(b: nat, e: nat) -> nat
    decreases e,
{
    if e == 0 {
        1
    } else {
        pow_nat(b, (e - 1) as nat) * b
    }
}

/// Reads a number as [`read_number`] describes; `max_digits` at most 5.
pub fn read_number_at(
    s: &[char],
    pos: usize,
    radix: u32,
    max_digits: usize,
    allow_zero_prefix: bool,
    max_value: u32,
) -> (r: Option<(u32, usize)>)
    requires
        radix == 10 || radix == 16,
        1 <= max_digits <= 5,
        pos <= s@.len(),
    ensures
        match r {
            Some((v, q)) => read_number(
                s@,
                pos as int,
                radix as nat,
                max_digits as nat,
                allow_zero_prefix,
                max_value as nat,
            ) == Some((v as nat, q as int)),
            None => read_number(
                s@,
                pos as int,
                radix as nat,
                max_digits as nat,
                allow_zero_prefix,
                max_value as nat,
            ) is None,
        },
{
    let len = s.len();
    let mut n: usize = 0;
    let mut value: u32 = 0;
    let ghost sq = s@;
    while pos + n < len && n <= max_digits && radix_digit_of(s[pos + n], radix).is_some()
        invariant
            pos + n <= sq.len(),
            len == sq.len(),
            sq == s@,
            n <= max_digits + 1,
            1 <= max_digits <= 5,
            radix == 10 || radix == 16,
            forall|j: int| pos <= j < pos + n ==> (#[trigger] radix_digit(sq[j], radix as nat)) is Some,
            value as nat == run_value(sq, pos as int, n as nat, radix as nat),
        decreases sq.len() - n,
    {
        let d = radix_digit_of(s[pos + n], radix).unwrap();
        proof {
            lemma_run_value_bound(sq, pos as int, n as nat, radix as nat);
            assert(pow_nat(radix as nat, n as nat) <= pow_nat(16, 5)) by {
                lemma_pow_mono(radix as nat, n as nat, 5);
            }
            assert(pow_nat(16, 5) == 1048576) by {
                reveal_with_fuel(pow_nat, 6);
            }
            assert(value * radix + d < 1048576 * 16) by (nonlinear_arith)
                requires
                    value < 1048576,
                    radix <= 16,
                    d < 16,
            ;
            assert(radix_digit(sq[pos + n], radix as nat) is Some);
            let c = sq[pos + n];
            assert(d < 16) by {
                if is_digit(c) {
                } else if radix == 16 && 'a' <= c <= 'f' {
                } else if radix == 16 && 'A' <= c <= 'F' {
                }
            }
        }
        value = value * radix + d;
        n = n + 1;
    }
    if n > max_digits {
        proof {
            lemma_digit_run_at_least(sq, pos as int, radix as nat, n as nat);
        }
        return None;
    }
    proof {
        lemma_digit_run_exact(sq, pos as int, radix as nat, n as nat);
    }
    if n == 0 {
        return None;
    }
    if !allow_zero_prefix && s[pos] == '0' && n > 1 {
        return None;
    }
    if value > max_value {
        return None;
    }
    Some((value, pos + n))
}

proof fn lemma_pow_mono(b: nat, e1: nat, e2: nat)
    requires
        e1 <= e2,
        1 <= b <= 16,
    ensures
        pow_nat(b, e1) <= pow_nat(16, e2),
    decreases e2,
{
    if e2 > 0 {
        if e1 == e2 {
            lemma_pow_mono(b, (e1 - 1) as nat, (e2 - 1) as nat);
            let x = pow_nat(b, (e1 - 1) as nat);
            let y = pow_nat(16, (e2 - 1) as nat);
            assert(x * b <= y * 16) by (nonlinear_arith)
                requires
                    x <= y,
                    b <= 16,
            ;
        } else {
            lemma_pow_mono(b, e1, (e2 - 1) as nat);
            let y = pow_nat(16, (e2 - 1) as nat);
            assert(y <= y * 16) by (nonlinear_arith);
        }
    } else {
    }
}

fn after_separator_at(s: &[char], pos: usize, first: bool, c: char) -> (r: Option<usize>)
    requires
        pos <= s@.len(),
    ensures
        match r {
            Some(p) => after_separator(s@, pos as int, first, c) == Some(p as int) && p <= s@.len(),
            None => after_separator(s@, pos as int, first, c) is None,
        },
{
    if first {
        Some(pos)
    } else if pos < s.len() && s[pos] == c {
        Some(pos + 1)
    } else {
        None
    }
}

proof fn lemma_read_number_pos(
    s: Seq<char>,
    pos: int,
    radix: nat,
    max_digits: nat,
    allow_zero_prefix: bool,
    max_value: nat,
)
    requires
        0 <= pos <= s.len(),
    ensures
        match read_number(s, pos, radix, max_digits, allow_zero_prefix, max_value) {
            Some((v, q)) => pos < q <= s.len() && v <= max_value,
            None => true,
        },
{
    lemma_digit_run_le(s, pos, radix);
}

proof fn lemma_digit_run_le(s: Seq<char>, pos: int, radix: nat)
    requires
        0 <= pos <= s.len(),
    ensures
        pos + digit_run(s, pos, radix) <= s.len(),
    decreases s.len() - pos,
{
    if pos < s.len() {
        lemma_digit_run_le(s, pos + 1, radix);
    }
}

fn read_octets_at(s: &[char], pos: usize, i: usize) -> (r: Option<(u32, usize)>)
    requires
        pos <= s@.len(),
        i <= 4,
    ensures
        match r {
            Some((v, q)) => read_octets(s@, pos as int, i as nat) == Some((v as nat, q as int))
                && q <= s@.len() && v < pow256(4 - i),
            None => read_octets(s@, pos as int, i as nat) is None,
        },
    decreases 4 - i,
{
    if i >= 4 {
        return Some((0, pos));
    }
    let p = match after_separator_at(s, pos, i == 0, '.') {
        Some(p) => p,
        None => return None,
    };
    proof {
        lemma_read_number_pos(s@, p as int, 10, 3, false, 255);
    }
    let (octet, q) = match read_number_at(s, p, 10, 3, false, 255) {
        Some(x) => x,
        None => return None,
    };
    let (rest, r) = match read_octets_at(s, q, i + 1) {
        Some(x) => x,
        None => return None,
    };
    let scale: u32 = if i == 0 {
        0x100_0000
    } else if i == 1 {
        0x1_0000
    } else if i == 2 {
        0x100
    } else {
        1
    };
    proof {
        assert(pow256(0) == 1);
        assert(pow256(1) == 256);
        assert(pow256(2) == 65536);
        assert(pow256(3) == 16777216);
        assert(pow256(4) == 4294967296);
        assert(scale == pow256(3 - i));
        assert(pow256(4 - i) == 256 * pow256(3 - i));
        assert(octet * scale + rest < 256 * scale) by (nonlinear_arith)
            requires
                octet <= 255,
                rest < scale,
        ;
    }
    Some((octet * scale + rest, r))
}

/// Reads a dotted-quad IPv4 address at `pos`.
pub fn read_ipv4_at(s: &[char], pos: usize) -> (r: Option<(u32, usize)>)
    requires
        pos <= s@.len(),
    ensures
        match r {
            Some((v, q)) => read_ipv4(s@, pos as int) == Some((v as nat, q as int)) && q <= s@.len()
                && v < pow256(4),
            None => read_ipv4(s@, pos as int) is None,
        },
{
    read_octets_at(s, pos, 0)
}

fn read_groups_at(s: &[char], pos: usize, i: usize, limit: usize) -> (r: (Vec<u16>, bool, usize))
    requires
        pos <= s@.len(),
        i <= limit <= 8,
    ensures
        ({
            let g = read_groups(s@, pos as int, i as nat, limit as nat);
            &&& r.0@.len() == g.0.len()
            &&& forall|k: int| 0 <= k < g.0.len() ==> r.0@[k] as nat == #[trigger] g.0[k]
            &&& r.1 == g.1
            &&& r.2 as int == g.2
            &&& g.2 <= s@.len()
            &&& g.0.len() <= limit - i
            &&& forall|k: int| 0 <= k < g.0.len() ==> #[trigger] g.0[k] <= 0xFFFF
        }),
    decreases limit - i,
{
    if i >= limit {
        return (Vec::new(), false, pos);
    }
    let sep = after_separator_at(s, pos, i == 0, ':');
    let v4 = if i + 1 < limit {
        match sep {
            Some(p) => read_ipv4_at(s, p),
            None => None,
        }
    } else {
        None
    };
    match v4 {
        Some((v, q)) => {
            let mut out: Vec<u16> = Vec::new();
            out.push((v >> 16u32) as u16);
            out.push((v & 0xFFFFu32) as u16);
            proof {
                assert(v >> 16u32 == v / 65536) by (bit_vector);
                assert(v & 0xFFFFu32 == v % 65536) by (bit_vector);
            }
            (out, true, q)
        },
        None => match sep {
            None => (Vec::new(), false, pos),
            Some(p) => {
                proof {
                    lemma_read_number_pos(s@, p as int, 16, 4, true, 0xFFFF);
                }
                match read_number_at(s, p, 16, 4, true, 0xFFFF) {
                    None => (Vec::new(), false, pos),
                    Some((g, q)) => {
                        let (rest, b, r) = read_groups_at(s, q, i + 1, limit);
                        let mut out: Vec<u16> = Vec::new();
                        out.push(g as u16);
                        let mut k: usize = 0;
                        while k < rest.len()
                            invariant
                                k <= rest@.len(),
                                out@.len() == k + 1,
                                out@[0] as nat == g,
                                forall|j: int| 0 <= j < k ==> out@[j + 1] == rest@[j],
                            decreases rest.len() - k,
                        {
                            out.push(rest[k]);
                            k = k + 1;
                        }
                        proof {
                            let whole = read_groups(s@, pos as int, i as nat, limit as nat);
                            let tail = read_groups(s@, q as int, (i + 1) as nat, limit as nat);
                            assert(whole.0 == seq![g as nat] + tail.0);
                            assert forall|j: int| 0 <= j < whole.0.len() implies out@[j] as nat
                                == #[trigger] whole.0[j] by {
                                if j > 0 {
                                    assert(whole.0[j] == tail.0[j - 1]);
                                }
                            }
                        }
                        (out, b, r)
                    },
                }
            },
        },
    }
}

/// Reads an IPv6 address at `pos`; gives its eight groups.
pub fn read_ipv6_at(s: &[char], pos: usize) -> (r: Option<(Vec<u16>, usize)>)
    requires
        pos <= s@.len(),
    ensures
        match read_ipv6(s@, pos as int) {
            Some((g, q)) => r matches Some((rg, rq)) && rq as int == q && rg@.len() == 8
                && g.len() == 8 && (forall|k: int| 0 <= k < 8 ==> rg@[k] as nat == #[trigger] g[k])
                && q <= s@.len(),
            None => r is None,
        },
{
    let (head, head_v4, p1) = read_groups_at(s, pos, 0, 8);
    if head.len() == 8 {
        return Some((head, p1));
    }
    if head_v4 {
        return None;
    }
    if !(p1 < s.len() && p1 + 1 < s.len() && s[p1] == ':' && s[p1 + 1] == ':') {
        return None;
    }
    let limit = 7 - head.len();
    let (tail, _, p3) = read_groups_at(s, p1 + 2, 0, limit);
    let mut out: Vec<u16> = Vec::new();
    let mut k: usize = 0;
    while k < head.len()
        invariant
            k <= head@.len() < 8,
            out@ =~= head@.take(k as int),
        decreases head.len() - k,
    {
        out.push(head[k]);
        k = k + 1;
    }
    let zeros = 8 - head.len() - tail.len();
    let mut z: usize = 0;
    while z < zeros
        invariant
            z <= zeros,
            zeros == 8 - head@.len() - tail@.len(),
            out@ =~= head@ + Seq::new(z as nat, |j: int| 0u16),
        decreases zeros - z,
    {
        out.push(0);
        z = z + 1;
    }
    let mut t: usize = 0;
    while t < tail.len()
        invariant
            t <= tail@.len(),
            zeros == 8 - head@.len() - tail@.len(),
            out@ =~= head@ + Seq::new(zeros as nat, |j: int| 0u16) + tail@.take(t as int),
        decreases tail.len() - t,
    {
        out.push(tail[t]);
        t = t + 1;
    }
    proof {
        let hg = read_groups(s@, pos as int, 0, 8);
        let tg = read_groups(s@, p1 + 2, 0, limit as nat);
        let whole = read_ipv6(s@, pos as int).unwrap().0;
        let zs = Seq::new((8 - hg.0.len() - tg.0.len()) as nat, |j: int| 0nat);
        assert(whole == hg.0 + zs + tg.0);
        assert(tail@.take(tail@.len() as int) =~= tail@);
        assert forall|k: int| 0 <= k < 8 implies out@[k] as nat == #[trigger] whole[k] by {
            if k < hg.0.len() {
            } else if k < hg.0.len() + zs.len() {
            } else {
                assert(whole[k] == tg.0[k - hg.0.len() - zs.len()]);
            }
        }
    }
    Some((out, p3))
}

} // verus!

verus! {

proof fn lemma_groups_value_bound(g: Seq<nat>)
    requires
        forall|k: int| 0 <= k < g.len() ==> #[trigger] g[k] <= 0xFFFF,
    ensures
        groups_value(g) < pow_nat(65536, g.len()),
    decreases g.len(),
{
    if g.len() > 0 {
        let h = g.drop_last();
        assert forall|k: int| 0 <= k < h.len() implies #[trigger] h[k] <= 0xFFFF by {
            assert(h[k] == g[k]);
        }
        lemma_groups_value_bound(h);
        let v = groups_value(h);
        let p = pow_nat(65536, h.len());
        let x = g.last();
        assert(x <= 0xFFFF);
        assert(v * 65536 + x < p * 65536) by (nonlinear_arith)
            requires
                v < p,
                x <= 0xFFFF,
        ;
    }
}

/// The 128-bit value of eight groups.
pub fn groups_as_u128(g: &Vec<u16>) -> (r: u128)
    requires
        g@.len() == 8,
    ensures
        r as nat == groups_value(g@.map_values(|x: u16| x as nat)),
{
    let ghost gs = g@.map_values(|x: u16| x as nat);
    let mut acc: u128 = 0;
    let mut k: usize = 0;
    while k < 8
        invariant
            k <= 8,
            g@.len() == 8,
            gs == g@.map_values(|x: u16| x as nat),
            acc as nat == groups_value(gs.take(k as int)),
            acc < pow_nat(65536, k as nat),
        decreases 8 - k,
    {
        proof {
            assert(gs.take(k + 1).drop_last() =~= gs.take(k as int));
            assert(gs.take(k + 1).last() == g@[k as int] as nat);
            assert(pow_nat(65536, 8) == 0x1_0000_0000_0000_0000_0000_0000_0000_0000) by {
                reveal_with_fuel(pow_nat, 9);
            }
            lemma_pow_mono_65536(k as nat, 7);
            let p = pow_nat(65536, k as nat);
            let x = g@[k as int];
            assert(acc * 65536 + x < p * 65536) by (nonlinear_arith)
                requires
                    acc < p,
                    x <= 0xFFFF,
            ;
            assert(p * 65536 == pow_nat(65536, (k + 1) as nat));
            lemma_pow_mono_65536((k + 1) as nat, 8);
        }
        acc = acc * 65536 + g[k] as u128;
        k = k + 1;
    }
    assert(gs.take(8) =~= gs);
    acc
}

proof fn lemma_pow_mono_65536(a: nat, b: nat)
    requires
        a <= b,
    ensures
        pow_nat(65536, a) <= pow_nat(65536, b),
    decreases b,
{
    if a < b {
        lemma_pow_mono_65536(a, (b - 1) as nat);
        let y = pow_nat(65536, (b - 1) as nat);
        assert(y <= y * 65536) by (nonlinear_arith);
    }
}

/// `Ipv4Addr::from_str` on characters.
pub fn parse_ipv4(s: &[char]) -> (r: Option<u32>)
    ensures
        r == ipv4_from_text(s@),
{
    match read_ipv4_at(s, 0) {
        Some((v, p)) => if p == s.len() {
            Some(v)
        } else {
            None
        },
        None => None,
    }
}

/// `Ipv6Addr::from_str` on characters.
pub fn parse_ipv6(s: &[char]) -> (r: Option<u128>)
    ensures
        r == ipv6_from_text(s@),
{
    match read_ipv6_at(s, 0) {
        Some((g, p)) => if p == s.len() {
            proof {
                let sg = read_ipv6(s@, 0).unwrap().0;
                assert(g@.map_values(|x: u16| x as nat) =~= sg);
            }
            Some(groups_as_u128(&g))
        } else {
            None
        },
        None => None,
    }
}

// ---------------------------------------------------------------------------------------
// Display
// ---------------------------------------------------------------------------------------

pub open spec fn hex_char(d: nat) -> char {
    if d < 10 {
        ('0' as u32 + d) as char
    } else {
        ('a' as u32 + d - 10) as char
    }
}

/// Lower-case hexadecimal without leading zeros (`{:x}`).
pub open spec fn hex_text(n: nat) -> Seq<char>
    decreases n,
{
    if n < 16 {
        seq![hex_char(n)]
    } else {
        hex_text(n / 16).push(hex_char(n % 16))
    }
}

/// Groups in hexadecimal, separated by `:`.
pub open spec fn join_hex(g: Seq<nat>) -> Seq<char>
    decreases g.len(),
{
    if g.len() == 0 {
        seq![]
    } else if g.len() == 1 {
        hex_text(g[0])
    } else {
        join_hex(g.drop_last()) + seq![':'] + hex_text(g.last())
    }
}

/// Start and length of the first longest run of zero groups from `i` on, given the run in
/// progress and the longest one so far.
pub open spec fn zero_run(
    g: Seq<nat>,
    i: nat,
    cur_start: nat,
    cur_len: nat,
    best_start: nat,
    best_len: nat,
) -> (nat, nat)
    decreases g.len() - i,
{
    if i >= g.len() {
        (best_start, best_len)
    } else if g[i as int] == 0 {
        let cs = if cur_len == 0 {
            i
        } else {
            cur_start
        };
        let cl = cur_len + 1;
        if cl > best_len {
            zero_run(g, i + 1, cs, cl, cs, cl)
        } else {
            zero_run(g, i + 1, cs, cl, best_start, best_len)
        }
    } else {
        zero_run(g, i + 1, 0, 0, best_start, best_len)
    }
}

/// The eight 16-bit groups of an IPv6 address, most significant first.
pub open spec fn segments(v: u128) -> Seq<nat> {
    Seq::new(8, |k: int| ((v >> (16 * (7 - k)) as u128) & 0xFFFFu128) as nat)
}

/// `Ipv4Addr`'s `Display`: the four octets in decimal, separated by `.`.
pub open spec fn ipv4_text(v: u32) -> Seq<char> {
    decimal_text(((v >> 24u32) & 0xFFu32) as nat) + seq!['.'] + decimal_text(
        ((v >> 16u32) & 0xFFu32) as nat,
    ) + seq!['.'] + decimal_text(((v >> 8u32) & 0xFFu32) as nat) + seq!['.'] + decimal_text(
        (v & 0xFFu32) as nat,
    )
}

/// `Ipv6Addr`'s `Display`: `::ffff:a.b.c.d` for IPv4-mapped addresses; otherwise the groups
/// in hexadecimal with the first longest run of two or more zero groups written as `::`.
pub open spec fn ipv6_text(v: u128) -> Seq<char> {
    if v >> 32u128 == 0xFFFFu128 {
        seq![':', ':', 'f', 'f', 'f', 'f', ':'] + ipv4_text((v & 0xFFFF_FFFFu128) as u32)
    } else {
        let g = segments(v);
        let z = zero_run(g, 0, 0, 0, 0, 0);
        if z.1 > 1 {
            join_hex(g.take(z.0 as int)) + seq![':', ':'] + join_hex(g.skip((z.0 + z.1) as int))
        } else {
            join_hex(g)
        }
    }
}

pub fn hex_digit_char(d: u64) -> (r: char)
    requires
        d < 16,
    ensures
        r == hex_char(d as nat),
{
    if d < 10 {
        crate::text::digit_to_char(d)
    } else if d == 10 {
        'a'
    } else if d == 11 {
        'b'
    } else if d == 12 {
        'c'
    } else if d == 13 {
        'd'
    } else if d == 14 {
        'e'
    } else {
        'f'
    }
}

/// A byte as `{:#04x}` prints it: `0x` and two lower-case hexadecimal digits.
pub open spec fn byte_hex_text(v: u8) -> Seq<char> {
    seq!['0', 'x', hex_char((v / 16) as nat), hex_char((v % 16) as nat)]
}

/// Appends [`byte_hex_text`].
pub fn push_byte_hex(out: &mut Vec<char>, v: u8)
    ensures
        final(out)@ == old(out)@ + byte_hex_text(v),
{
    out.push('0');
    out.push('x');
    out.push(hex_digit_char((v / 16) as u64));
    out.push(hex_digit_char((v % 16) as u64));
    assert(final(out)@ =~= old(out)@ + byte_hex_text(v));
}

/// Appends `n` in lower-case hexadecimal.
pub fn push_hex(out: &mut Vec<char>, n: u64)
    ensures
        final(out)@ == old(out)@ + hex_text(n as nat),
    decreases n,
{
    if n >= 16 {
        push_hex(out, n / 16);
        out.push(hex_digit_char(n % 16));
        proof {
            assert(old(out)@ + hex_text(n as nat) =~= old(out)@ + hex_text((n / 16) as nat)
                + seq![hex_char((n % 16) as nat)]);
        }
    } else {
        out.push(hex_digit_char(n));
        assert(old(out)@ + hex_text(n as nat) =~= old(out)@.push(hex_char(n as nat)));
    }
}

/// Appends `g[from..to]` joined by `:`.
fn push_joined_hex(out: &mut Vec<char>, g: &Vec<u16>, from: usize, to: usize)
    requires
        from <= to <= g@.len(),
    ensures
        final(out)@ == old(out)@ + join_hex(
            g@.map_values(|x: u16| x as nat).subrange(from as int, to as int),
        ),
{
    let ghost gs = g@.map_values(|x: u16| x as nat);
    let mut k: usize = from;
    while k < to
        invariant
            from <= k <= to <= g@.len(),
            gs == g@.map_values(|x: u16| x as nat),
            out@ == old(out)@ + join_hex(gs.subrange(from as int, k as int)),
        decreases to - k,
    {
        let ghost before = out@;
        if k > from {
            out.push(':');
        }
        push_hex(out, g[k] as u64);
        proof {
            let next = gs.subrange(from as int, k + 1);
            assert(next.drop_last() =~= gs.subrange(from as int, k as int));
            assert(next.last() == g@[k as int] as nat);
            if k == from {
                assert(gs.subrange(from as int, k as int) =~= Seq::<nat>::empty());
                assert(join_hex(next) == hex_text(g@[k as int] as nat));
            }
            assert(out@ =~= old(out)@ + join_hex(next));
        }
        k = k + 1;
    }
}

/// Appends the `Display` form of an IPv4 address.
pub fn push_ipv4_text(out: &mut Vec<char>, v: u32)
    ensures
        final(out)@ == old(out)@ + ipv4_text(v),
{
    let ghost start = out@;
    push_decimal(out, ((v >> 24u32) & 0xFFu32) as u64);
    out.push('.');
    push_decimal(out, ((v >> 16u32) & 0xFFu32) as u64);
    out.push('.');
    push_decimal(out, ((v >> 8u32) & 0xFFu32) as u64);
    out.push('.');
    push_decimal(out, (v & 0xFFu32) as u64);
    assert(out@ =~= start + ipv4_text(v));
}

/// The eight groups of an IPv6 address.
fn segments_of(v: u128) -> (r: Vec<u16>)
    ensures
        r@.map_values(|x: u16| x as nat) == segments(v),
        r@.len() == 8,
{
    let mut out: Vec<u16> = Vec::new();
    let mut k: u32 = 0;
    while k < 8
        invariant
            k <= 8,
            out@.len() == k,
            forall|j: int| 0 <= j < k ==> out@[j] as nat == #[trigger] segments(v)[j],
        decreases 8 - k,
    {
        let shift: u32 = 16 * (7 - k);
        let part = (v >> shift) & 0xFFFFu128;
        assert(part <= 0xFFFF) by (bit_vector)
            requires
                part == (v >> shift) & 0xFFFFu128,
        ;
        out.push(part as u16);
        k = k + 1;
    }
    assert(out@.map_values(|x: u16| x as nat) =~= segments(v));
    out
}

/// Appends the `Display` form of an IPv6 address.
pub fn push_ipv6_text(out: &mut Vec<char>, v: u128)
    ensures
        final(out)@ == old(out)@ + ipv6_text(v),
{
    let ghost start = out@;
    if v >> 32u32 == 0xFFFFu128 {
        out.push(':');
        out.push(':');
        out.push('f');
        out.push('f');
        out.push('f');
        out.push('f');
        out.push(':');
        push_ipv4_text(out, (v & 0xFFFF_FFFFu128) as u32);
        assert(out@ =~= start + ipv6_text(v));
        return;
    }
    let g = segments_of(v);
    let ghost gs = segments(v);
    let mut i: usize = 0;
    let mut cur_start: usize = 0;
    let mut cur_len: usize = 0;
    let mut best_start: usize = 0;
    let mut best_len: usize = 0;
    while i < 8
        invariant
            i <= 8,
            g@.len() == 8,
            gs == g@.map_values(|x: u16| x as nat),
            cur_start <= i,
            cur_len <= i,
            best_start + best_len <= 8,
            zero_run(gs, 0, 0, 0, 0, 0) == zero_run(
                gs,
                i as nat,
                cur_start as nat,
                cur_len as nat,
                best_start as nat,
                best_len as nat,
            ),
            cur_len > 0 ==> cur_start + cur_len == i,
        decreases 8 - i,
    {
        assert(gs[i as int] == g@[i as int] as nat);
        if g[i] == 0 {
            if cur_len == 0 {
                cur_start = i;
            }
            cur_len = cur_len + 1;
            if cur_len > best_len {
                best_start = cur_start;
                best_len = cur_len;
            }
        } else {
            cur_start = 0;
            cur_len = 0;
        }
        i = i + 1;
    }
    if best_len > 1 {
        push_joined_hex(out, &g, 0, best_start);
        out.push(':');
        out.push(':');
        push_joined_hex(out, &g, best_start + best_len, 8);
        proof {
            assert(gs.subrange(0, best_start as int) =~= gs.take(best_start as int));
            assert(gs.subrange((best_start + best_len) as int, 8) =~= gs.skip(
                (best_start + best_len) as int,
            ));
        }
        assert(out@ =~= start + ipv6_text(v));
    } else {
        push_joined_hex(out, &g, 0, 8);
        assert(gs.subrange(0, 8) =~= gs);
        assert(out@ =~= start + ipv6_text(v));
    }
}

// ---------------------------------------------------------------------------------------
// Reading back what is printed (IPv4)
// ---------------------------------------------------------------------------------------

proof fn lemma_decimal_no_leading_zero(n: nat)
    ensures
        decimal_text(n)[0] == '0' ==> n == 0,
        n < 10 ==> decimal_text(n).len() == 1,
    decreases n,
{
    if n >= 10 {
        lemma_decimal_no_leading_zero(n / 10);
        lemma_decimal_text_digits(n / 10);
        assert(decimal_text(n)[0] == decimal_text(n / 10)[0]);
    }
}

proof fn lemma_decimal_short(n: nat)
    requires
        n < 1000,
    ensures
        decimal_text(n).len() <= 3,
{
    lemma_decimal_no_leading_zero(n);
    if n >= 10 {
        lemma_decimal_no_leading_zero(n / 10);
        if n / 10 >= 10 {
            lemma_decimal_no_leading_zero(n / 10 / 10);
            assert(decimal_text(n / 10).len() == decimal_text(n / 10 / 10).len() + 1);
        }
    }
}

proof fn lemma_run_value_digits(s: Seq<char>, pos: int, d: Seq<char>, k: nat)
    requires
        0 <= pos,
        pos + d.len() <= s.len(),
        k <= d.len(),
        all_digits(d),
        forall|j: int| 0 <= j < d.len() ==> s[pos + j] == #[trigger] d[j],
    ensures
        run_value(s, pos, k, 10) == digits_value(d.take(k as int)),
    decreases k,
{
    if k > 0 {
        lemma_run_value_digits(s, pos, d, (k - 1) as nat);
        assert(d.take(k as int).drop_last() =~= d.take(k - 1));
        assert(s[pos + k - 1] == d[k - 1]);
        assert(is_digit(d[k - 1]));
    }
}

/// The decimal text of an octet written at `pos`, and followed by the end or a non-digit,
/// reads back as the octet.
proof fn lemma_read_octet(s: Seq<char>, pos: int, n: nat)
    requires
        n <= 255,
        0 <= pos,
        pos + decimal_text(n).len() <= s.len(),
        forall|j: int|
            0 <= j < decimal_text(n).len() ==> s[pos + j] == #[trigger] decimal_text(n)[j],
        pos + decimal_text(n).len() == s.len() || !is_digit(s[pos + decimal_text(n).len()]),
    ensures
        read_number(s, pos, 10, 3, false, 255) == Some((n, pos + decimal_text(n).len())),
{
    let d = decimal_text(n);
    lemma_decimal_text_digits(n);
    lemma_decimal_short(n);
    lemma_decimal_no_leading_zero(n);
    assert forall|j: int| pos <= j < pos + d.len() implies (#[trigger] radix_digit(s[j], 10)) is Some by {
        assert(s[pos + (j - pos)] == d[j - pos]);
        assert(is_digit(d[j - pos]));
    }
    lemma_digit_run_exact(s, pos, 10, d.len());
    lemma_run_value_digits(s, pos, d, d.len());
    assert(d.take(d.len() as int) =~= d);
    assert(s[pos + 0] == d[0]);
}

/// The text of an IPv4 address is digits and dots, with a digit at each end.
pub proof fn lemma_ipv4_text_chars(v: u32)
    ensures
        ipv4_text(v).len() > 0,
        is_digit(ipv4_text(v)[0]),
        is_digit(ipv4_text(v).last()),
        forall|i: int|
            0 <= i < ipv4_text(v).len() ==> is_digit(#[trigger] ipv4_text(v)[i]) || ipv4_text(
                v,
            )[i] == '.',
{
    let d0 = decimal_text(((v >> 24u32) & 0xFFu32) as nat);
    let d1 = decimal_text(((v >> 16u32) & 0xFFu32) as nat);
    let d2 = decimal_text(((v >> 8u32) & 0xFFu32) as nat);
    let d3 = decimal_text((v & 0xFFu32) as nat);
    lemma_decimal_text_digits(((v >> 24u32) & 0xFFu32) as nat);
    lemma_decimal_text_digits(((v >> 16u32) & 0xFFu32) as nat);
    lemma_decimal_text_digits(((v >> 8u32) & 0xFFu32) as nat);
    lemma_decimal_text_digits((v & 0xFFu32) as nat);
    let dot = seq!['.'];
    let s = ipv4_text(v);
    assert(s == d0 + dot + d1 + dot + d2 + dot + d3);
    assert(s[0] == d0[0]);
    assert(s.last() == d3[d3.len() - 1]);
    assert forall|i: int| 0 <= i < s.len() implies is_digit(#[trigger] s[i]) || s[i] == '.' by {
        let p1 = d0.len() + 1;
        let p2 = p1 + d1.len() + 1;
        let p3 = p2 + d2.len() + 1;
        if i < d0.len() {
            assert(s[i] == d0[i]);
        } else if i == d0.len() {
        } else if i < p1 + d1.len() {
            assert(s[i] == d1[i - p1]);
        } else if i == p1 + d1.len() {
        } else if i < p2 + d2.len() {
            assert(s[i] == d2[i - p2]);
        } else if i == p2 + d2.len() {
        } else {
            assert(s[i] == d3[i - p3]);
        }
    }
}

/// The text of an IPv4 address written from `pos` to the end of `s` reads back as the address.
#[verifier::spinoff_prover]
proof fn lemma_read_ipv4_at(s: Seq<char>, pos: int, v: u32)
    requires
        0 <= pos <= s.len(),
        s.skip(pos) == ipv4_text(v),
    ensures
        read_ipv4(s, pos) == Some((v as nat, s.len() as int)),
{
    let o0 = ((v >> 24u32) & 0xFFu32) as nat;
    let o1 = ((v >> 16u32) & 0xFFu32) as nat;
    let o2 = ((v >> 8u32) & 0xFFu32) as nat;
    let o3 = (v & 0xFFu32) as nat;
    assert((v >> 24u32) & 0xFFu32 <= 255 && (v >> 16u32) & 0xFFu32 <= 255 && (v >> 8u32) & 0xFFu32
        <= 255 && v & 0xFFu32 <= 255) by (bit_vector);
    let d0 = decimal_text(o0);
    let d1 = decimal_text(o1);
    let d2 = decimal_text(o2);
    let d3 = decimal_text(o3);
    let dot = seq!['.'];
    let t = ipv4_text(v);
    assert(t == d0 + dot + d1 + dot + d2 + dot + d3);
    let e0 = pos + d0.len();
    let p1 = e0 + 1;
    let e1 = p1 + d1.len();
    let p2 = e1 + 1;
    let e2 = p2 + d2.len();
    let p3 = e2 + 1;
    let e3 = p3 + d3.len();
    assert(s.len() == e3);
    assert forall|j: int| 0 <= j < t.len() implies s[pos + j] == #[trigger] t[j] by {
        assert(s.skip(pos)[j] == s[pos + j]);
    }
    assert(s[e0] == t[e0 - pos] && s[e1] == t[e1 - pos] && s[e2] == t[e2 - pos]);
    assert(s[e0] == '.' && s[e1] == '.' && s[e2] == '.');
    assert forall|j: int| 0 <= j < d0.len() implies s[pos + j] == #[trigger] d0[j] by {
        assert(t[j] == d0[j]);
    }
    assert forall|j: int| 0 <= j < d1.len() implies s[p1 + j] == #[trigger] d1[j] by {
        assert(t[p1 - pos + j] == d1[j]);
    }
    assert forall|j: int| 0 <= j < d2.len() implies s[p2 + j] == #[trigger] d2[j] by {
        assert(t[p2 - pos + j] == d2[j]);
    }
    assert forall|j: int| 0 <= j < d3.len() implies s[p3 + j] == #[trigger] d3[j] by {
        assert(t[p3 - pos + j] == d3[j]);
    }
    lemma_read_octet(s, pos, o0);
    lemma_read_octet(s, p1, o1);
    lemma_read_octet(s, p2, o2);
    lemma_read_octet(s, p3, o3);
    assert(read_octets(s, e3, 4) == Some((0nat, e3)));
    assert(read_octets(s, e2, 3) == Some((o3 * pow256(0) + 0, e3)));
    assert(read_octets(s, e1, 2) == Some((o2 * pow256(1) + (o3 * pow256(0) + 0), e3)));
    assert(read_octets(s, e0, 1) == Some(
        (o1 * pow256(2) + (o2 * pow256(1) + (o3 * pow256(0) + 0)), e3),
    ));
    assert(after_separator(s, pos, true, '.') == Some(pos));
    assert(read_octets(s, pos, 0) == Some(
        (o0 * pow256(3) + (o1 * pow256(2) + (o2 * pow256(1) + (o3 * pow256(0) + 0))), e3),
    ));
    lemma_octets_value(v);
}

/// The four octets of an IPv4 address, weighed by `pow256`, are worth the address.
proof fn lemma_octets_value(v: u32)
    ensures
        ((v >> 24u32) & 0xFFu32) as nat * pow256(3) + (((v >> 16u32) & 0xFFu32) as nat * pow256(2)
            + (((v >> 8u32) & 0xFFu32) as nat * pow256(1) + ((v & 0xFFu32) as nat * pow256(0)
            + 0))) == v as nat,
{
    reveal_with_fuel(pow256, 4);
    assert(pow256(0) == 1 && pow256(1) == 256 && pow256(2) == 65536 && pow256(3) == 16777216);
    assert(v == ((v >> 24u32) & 0xFFu32) * 16777216 + ((v >> 16u32) & 0xFFu32) * 65536 + ((v
        >> 8u32) & 0xFFu32) * 256 + (v & 0xFFu32)) by (bit_vector);
}

/// An IPv4 address reads back from its own text.
pub proof fn law_ipv4_text_reads_back(v: u32)
    ensures
        ipv4_from_text(ipv4_text(v)) == Some(v),
{
    assert(ipv4_text(v).skip(0) =~= ipv4_text(v));
    lemma_read_ipv4_at(ipv4_text(v), 0, v);
}

// ---------------------------------------------------------------------------------------
// Reading back what is printed (IPv6)
// ---------------------------------------------------------------------------------------

proof fn lemma_hex_char(d: nat)
    requires
        d < 16,
    ensures
        radix_digit(hex_char(d), 16) == Some(d),
        hex_char(d) != ':',
        hex_char(d) != '.',
{
    if d < 10 {
        assert(is_digit(hex_char(d)));
        assert(digit_value(hex_char(d)) == d);
    } else {
        assert(!is_digit(hex_char(d)));
        assert('a' <= hex_char(d) <= 'f');
    }
}

proof fn lemma_hex_text_chars(n: nat)
    ensures
        hex_text(n).len() > 0,
        forall|j: int|
            0 <= j < hex_text(n).len() ==> (#[trigger] radix_digit(hex_text(n)[j], 16)) is Some
                && hex_text(n)[j] != ':' && hex_text(n)[j] != '.',
        n < 16 ==> hex_text(n).len() == 1,
        n < 256 ==> hex_text(n).len() <= 2,
        n < 4096 ==> hex_text(n).len() <= 3,
        n < 65536 ==> hex_text(n).len() <= 4,
    decreases n,
{
    lemma_hex_char(n % 16);
    if n >= 16 {
        let h = hex_text(n / 16);
        lemma_hex_text_chars(n / 16);
        assert(hex_text(n) == h.push(hex_char(n % 16)));
        assert forall|j: int| 0 <= j < hex_text(n).len() implies (#[trigger] radix_digit(
            hex_text(n)[j],
            16,
        )) is Some && hex_text(n)[j] != ':' && hex_text(n)[j] != '.' by {
            if j < h.len() {
                assert(hex_text(n)[j] == h[j]);
            }
        }
    }
}

/// The hex text of `n` written at `pos` of `s` is worth `n`.
proof fn lemma_hex_run(s: Seq<char>, pos: int, n: nat)
    requires
        0 <= pos,
        pos + hex_text(n).len() <= s.len(),
        forall|j: int| 0 <= j < hex_text(n).len() ==> s[pos + j] == #[trigger] hex_text(n)[j],
    ensures
        run_value(s, pos, hex_text(n).len(), 16) == n,
    decreases n,
{
    let d = hex_char(n % 16);
    lemma_hex_char(n % 16);
    if n >= 16 {
        let h = hex_text(n / 16);
        assert(hex_text(n) == h.push(d));
        assert forall|j: int| 0 <= j < h.len() implies s[pos + j] == #[trigger] h[j] by {
            assert(hex_text(n)[j] == h[j]);
        }
        lemma_hex_run(s, pos, n / 16);
        assert(s[pos + h.len()] == hex_text(n)[h.len() as int]);
        assert(hex_text(n).len() == h.len() + 1);
        assert(run_value(s, pos, hex_text(n).len(), 16) == run_value(s, pos, h.len(), 16) * 16
            + radix_digit(s[pos + h.len()], 16).unwrap_or(0));
        assert((n / 16) * 16 + n % 16 == n) by (nonlinear_arith);
    } else {
        assert(hex_text(n) == seq![d]);
        assert(s[pos + 0] == hex_text(n)[0]);
        assert(run_value(s, pos, 1, 16) == run_value(s, pos, 0, 16) * 16 + radix_digit(
            s[pos],
            16,
        ).unwrap_or(0));
        assert(n % 16 == n);
    }
}

/// A group written in hex at `pos`, followed by the end or a non-hex character, reads back.
proof fn lemma_read_group(s: Seq<char>, pos: int, n: nat)
    requires
        n <= 0xFFFF,
        0 <= pos,
        pos + hex_text(n).len() <= s.len(),
        forall|j: int| 0 <= j < hex_text(n).len() ==> s[pos + j] == #[trigger] hex_text(n)[j],
        pos + hex_text(n).len() == s.len() || radix_digit(s[pos + hex_text(n).len()], 16) is None,
    ensures
        read_number(s, pos, 16, 4, true, 0xFFFF) == Some((n, pos + hex_text(n).len())),
{
    let h = hex_text(n);
    lemma_hex_text_chars(n);
    lemma_hex_run(s, pos, n);
    assert forall|j: int| pos <= j < pos + h.len() implies (#[trigger] radix_digit(s[j], 16)) is Some by {
        assert(s[pos + (j - pos)] == h[j - pos]);
    }
    lemma_digit_run_exact(s, pos, 16, h.len());
}

/// Without a dot there is no embedded IPv4 address to read.
proof fn lemma_no_ipv4_without_dot(s: Seq<char>, p: int)
    requires
        0 <= p,
        forall|k: int| 0 <= k < s.len() ==> s[k] != '.',
    ensures
        read_ipv4(s, p) is None,
{
    assert(after_separator(s, p, true, '.') == Some(p));
    match read_number(s, p, 10, 3, false, 255) {
        Some((o, q)) => {
            assert(after_separator(s, q, false, '.') is None);
            assert(read_octets(s, q, 1) is None);
            assert(read_octets(s, p, 0) is None);
        },
        None => {
            assert(read_octets(s, p, 0) is None);
        },
    }
}

proof fn lemma_join_hex_front(g: Seq<nat>)
    requires
        g.len() >= 2,
    ensures
        join_hex(g) == hex_text(g[0]) + seq![':'] + join_hex(g.drop_first()),
    decreases g.len(),
{
    assert(join_hex(g) == join_hex(g.drop_last()) + seq![':'] + hex_text(g.last()));
    if g.len() == 2 {
        assert(g.drop_last().len() == 1 && g.drop_last()[0] == g[0]);
        assert(g.drop_first().len() == 1 && g.drop_first()[0] == g.last());
        assert(join_hex(g.drop_last()) == hex_text(g[0]));
        assert(join_hex(g.drop_first()) == hex_text(g.last()));
    } else {
        let d = g.drop_first();
        lemma_join_hex_front(g.drop_last());
        assert(g.drop_last().drop_first() =~= d.drop_last());
        assert(g.drop_last()[0] == g[0]);
        assert(d.last() == g.last());
        assert(join_hex(d) == join_hex(d.drop_last()) + seq![':'] + hex_text(d.last()));
        assert(join_hex(g) =~= hex_text(g[0]) + seq![':'] + join_hex(d));
    }
}

/// A character of an address text: a hexadecimal digit, `:` or `.`.
pub open spec fn address_char(c: char) -> bool {
    radix_digit(c, 16) is Some || c == ':' || c == '.'
}

/// An address character is none of white space, brackets and the slash.
pub proof fn lemma_address_char(c: char)
    requires
        address_char(c),
    ensures
        !is_space(c),
        c != '[',
        c != ']',
        c != '/',
{
}

proof fn lemma_join_hex_chars(g: Seq<nat>)
    ensures
        g.len() > 0 ==> join_hex(g).len() > 0,
        forall|j: int| 0 <= j < join_hex(g).len() ==> #[trigger] join_hex(g)[j] != '.',
        forall|j: int| 0 <= j < join_hex(g).len() ==> address_char(#[trigger] join_hex(g)[j]),
    decreases g.len(),
{
    if g.len() == 1 {
        lemma_hex_text_chars(g[0]);
        assert(join_hex(g) == hex_text(g[0]));
        assert forall|j: int| 0 <= j < join_hex(g).len() implies #[trigger] join_hex(g)[j] != '.' by {
            assert(radix_digit(hex_text(g[0])[j], 16) is Some);
        }
        assert forall|j: int| 0 <= j < join_hex(g).len() implies address_char(
            #[trigger] join_hex(g)[j],
        ) by {
            assert(radix_digit(hex_text(g[0])[j], 16) is Some);
        }
    } else if g.len() > 1 {
        let a = join_hex(g.drop_last());
        let b = hex_text(g.last());
        lemma_join_hex_chars(g.drop_last());
        lemma_hex_text_chars(g.last());
        assert(join_hex(g) == a + seq![':'] + b);
        assert forall|j: int| 0 <= j < join_hex(g).len() implies #[trigger] join_hex(g)[j] != '.' by {
            if j < a.len() {
                assert(join_hex(g)[j] == a[j]);
                assert(a[j] != '.');
            } else if j > a.len() {
                assert(join_hex(g)[j] == b[j - a.len() - 1]);
                assert(radix_digit(b[j - a.len() - 1], 16) is Some);
            } else {
                assert(join_hex(g)[j] == ':');
            }
        }
        assert forall|j: int| 0 <= j < join_hex(g).len() implies address_char(
            #[trigger] join_hex(g)[j],
        ) by {
            if j < a.len() {
                assert(join_hex(g)[j] == a[j]);
                assert(address_char(a[j]));
            } else if j > a.len() {
                assert(join_hex(g)[j] == b[j - a.len() - 1]);
                assert(radix_digit(b[j - a.len() - 1], 16) is Some);
            } else {
                assert(join_hex(g)[j] == ':');
            }
        }
    }
}

/// Groups written as `join_hex` from `start` (after a `:` at `pos` unless they come first)
/// read back, up to the end of the text or a `::`.
proof fn lemma_read_joined(s: Seq<char>, pos: int, start: int, gs: Seq<nat>, i: nat, limit: nat)
    requires
        gs.len() >= 1,
        i + gs.len() <= limit,
        forall|k: int| 0 <= k < gs.len() ==> #[trigger] gs[k] <= 0xFFFF,
        forall|k: int| 0 <= k < s.len() ==> s[k] != '.',
        0 <= pos,
        start == if i == 0 {
            pos
        } else {
            pos + 1
        },
        i > 0 ==> pos < s.len() && s[pos] == ':',
        start + join_hex(gs).len() <= s.len(),
        forall|j: int| 0 <= j < join_hex(gs).len() ==> s[start + j] == #[trigger] join_hex(gs)[j],
        start + join_hex(gs).len() == s.len() || s[start + join_hex(gs).len()] == ':',
        i + gs.len() == limit || start + join_hex(gs).len() == s.len() || (start + join_hex(
            gs,
        ).len() + 1 < s.len() && s[start + join_hex(gs).len() + 1] == ':'),
    ensures
        read_groups(s, pos, i, limit) == (gs, false, start + join_hex(gs).len()),
    decreases gs.len(),
{
    let h = hex_text(gs[0]);
    lemma_hex_text_chars(gs[0]);
    if gs.len() >= 2 {
        lemma_join_hex_front(gs);
    } else {
        assert(join_hex(gs) == h);
    }
    assert forall|j: int| 0 <= j < h.len() implies s[start + j] == #[trigger] h[j] by {
        assert(join_hex(gs)[j] == h[j]);
    }
    let q0 = start + h.len();
    if gs.len() >= 2 {
        assert(join_hex(gs)[h.len() as int] == ':');
        assert(s[q0] == ':');
    }
    assert(q0 == s.len() || s[q0] == ':');
    lemma_read_group(s, start, gs[0]);
    lemma_no_ipv4_without_dot(s, start);
    assert(after_separator(s, pos, i == 0, ':') == Some(start));
    if gs.len() >= 2 {
        let rest = gs.drop_first();
        let jr = join_hex(rest);
        assert forall|j: int| 0 <= j < jr.len() implies s[q0 + 1 + j] == #[trigger] jr[j] by {
            assert(join_hex(gs)[h.len() + 1 + j] == jr[j]);
        }
        lemma_read_joined(s, q0, q0 + 1, rest, i + 1, limit);
        assert(seq![gs[0]] + rest =~= gs);
    } else {
        if i + 1 < limit && q0 < s.len() {
            lemma_no_ipv4_without_dot(s, q0 + 1);
            assert(radix_digit(s[q0 + 1], 16) is None);
            assert(digit_run(s, q0 + 1, 16) == 0);
        }
        assert(read_groups(s, q0, i + 1, limit) == (Seq::<nat>::empty(), false, q0));
        assert(seq![gs[0]] + Seq::<nat>::empty() =~= gs);
    }
}

/// The start and length of the run `zero_run` finds lie in `g`, and the run is zeros.
proof fn lemma_zero_run(g: Seq<nat>, i: nat, cs: nat, cl: nat, bs: nat, bl: nat)
    requires
        i <= g.len(),
        cl > 0 ==> cs + cl == i,
        forall|k: int| cs <= k < cs + cl ==> #[trigger] g[k] == 0,
        bs + bl <= i,
        forall|k: int| bs <= k < bs + bl ==> #[trigger] g[k] == 0,
    ensures
        zero_run(g, i, cs, cl, bs, bl).0 + zero_run(g, i, cs, cl, bs, bl).1 <= g.len(),
        forall|k: int|
            zero_run(g, i, cs, cl, bs, bl).0 <= k < zero_run(g, i, cs, cl, bs, bl).0 + zero_run(
                g,
                i,
                cs,
                cl,
                bs,
                bl,
            ).1 ==> #[trigger] g[k] == 0,
    decreases g.len() - i,
{
    if i < g.len() {
        if g[i as int] == 0 {
            let ncs = if cl == 0 {
                i
            } else {
                cs
            };
            let ncl = cl + 1;
            assert forall|k: int| ncs <= k < ncs + ncl implies #[trigger] g[k] == 0 by {
                if k < i {
                    assert(cs <= k < cs + cl);
                }
            }
            if ncl > bl {
                lemma_zero_run(g, i + 1, ncs, ncl, ncs, ncl);
            } else {
                lemma_zero_run(g, i + 1, ncs, ncl, bs, bl);
            }
        } else {
            lemma_zero_run(g, i + 1, 0, 0, bs, bl);
        }
    }
}

proof fn lemma_segments_prefix(v: u128, k: int)
    requires
        1 <= k <= 8,
    ensures
        groups_value(segments(v).take(k)) == (v >> (16 * (8 - k)) as u128) as nat,
    decreases k,
{
    let g = segments(v);
    if k == 1 {
        assert(g.take(1).drop_last() =~= Seq::<nat>::empty());
        assert((16 * (7 - 0)) as u128 == 112u128);
        assert((16 * (8 - 1)) as u128 == 112u128);
        assert(g.take(1).last() == g[0]);
        assert(g[0] == ((v >> 112u128) & 0xFFFFu128) as nat);
        assert((v >> 112u128) & 0xFFFFu128 == v >> 112u128) by (bit_vector);
        assert(groups_value(Seq::<nat>::empty()) == 0);
        assert(groups_value(g.take(1)) == g[0]);
    } else {
        lemma_segments_prefix(v, k - 1);
        assert(g.take(k).drop_last() =~= g.take(k - 1));
        let t = (16 * (8 - k)) as u128;
        let t2 = (16 * (8 - (k - 1))) as u128;
        assert(t <= 96 && t2 == t + 16);
        let x = v >> t;
        assert(g.take(k).last() == g[k - 1]);
        assert((16 * (7 - (k - 1))) as u128 == t);
        assert(g[k - 1] == (x & 0xFFFFu128) as nat);
        assert(groups_value(g.take(k)) == groups_value(g.take(k - 1)) * 65536 + g[k - 1]);
        assert(groups_value(g.take(k - 1)) == (v >> t2) as nat);
        assert(x == (x >> 16u128) * 65536 + (x & 0xFFFFu128)) by (bit_vector);
        assert((v >> t) >> 16u128 == v >> t2) by (bit_vector)
            requires
                t <= 96,
                t2 == t + 16,
        ;
    }
}

/// The groups of an IPv6 address are 16-bit values worth the address.
proof fn lemma_segments_value(v: u128)
    ensures
        forall|k: int| 0 <= k < 8 ==> #[trigger] segments(v)[k] <= 0xFFFF,
        groups_value(segments(v)) == v,
{
    assert(forall|x: u128| #![auto] (x & 0xFFFFu128) <= 0xFFFF) by (bit_vector);
    lemma_segments_prefix(v, 8);
    assert(segments(v).take(8) =~= segments(v));
    assert(v >> 0u128 == v) by (bit_vector);
}

/// The text of an IPv4-mapped IPv6 address reads back as the address.
proof fn lemma_mapped_text_reads_back(v: u128)
    requires
        v >> 32u128 == 0xFFFFu128,
    ensures
        ipv6_from_text(ipv6_text(v)) == Some(v),
{
    let s = ipv6_text(v);
    let w = (v & 0xFFFF_FFFFu128) as u32;
    let wn = w as nat;
    let prefix = seq![':', ':', 'f', 'f', 'f', 'f', ':'];
    assert(s == prefix + ipv4_text(w));
    assert(s.skip(7) =~= ipv4_text(w));
    lemma_read_ipv4_at(s, 7, w);
    assert(radix_digit(s[0], 10) is None && radix_digit(s[0], 16) is None);
    assert(digit_run(s, 0, 10) == 0 && digit_run(s, 0, 16) == 0);
    assert(read_groups(s, 0, 0, 8) == (Seq::<nat>::empty(), false, 0int));
    assert(radix_digit(s[2], 10) is None);
    assert(digit_run(s, 2, 10) == 0);
    assert(radix_digit(s[6], 16) is None);
    assert(digit_run(s, 6, 16) == 0);
    assert(digit_run(s, 5, 16) == 1);
    assert(digit_run(s, 4, 16) == 2);
    assert(digit_run(s, 3, 16) == 3);
    assert(digit_run(s, 2, 16) == 4);
    assert(run_value(s, 2, 4, 16) == 0xFFFF) by {
        reveal_with_fuel(run_value, 5);
    }
    let hi = wn / 65536;
    let lo = wn % 65536;
    assert(after_separator(s, 6, false, ':') == Some(7int));
    assert(read_groups(s, 6, 1, 7) == (seq![hi, lo], true, s.len() as int));
    assert(read_octets(s, 2, 0) is None);
    assert(read_ipv4(s, 2) is None);
    assert(read_number(s, 2, 16, 4, true, 0xFFFF) == Some((0xFFFFnat, 6int)));
    let tail0 = seq![0xFFFFnat] + seq![hi, lo];
    assert(read_groups(s, 2, 0, 7) == (tail0, true, s.len() as int));
    let zeros = Seq::new(5, |k: int| 0nat);
    let g = seq![0nat, 0nat, 0nat, 0nat, 0nat, 0xFFFFnat, hi, lo];
    assert(read_ipv6(s, 0) matches Some((gg, p)) && gg =~= g && p == s.len());
    assert(g.take(1).drop_last() =~= Seq::<nat>::empty());
    assert(g.take(2).drop_last() =~= g.take(1));
    assert(g.take(3).drop_last() =~= g.take(2));
    assert(g.take(4).drop_last() =~= g.take(3));
    assert(g.take(5).drop_last() =~= g.take(4));
    assert(g.take(6).drop_last() =~= g.take(5));
    assert(g.take(7).drop_last() =~= g.take(6));
    assert(g.take(8).drop_last() =~= g.take(7));
    assert(g.take(8) =~= g);
    assert(groups_value(Seq::<nat>::empty()) == 0);
    assert(groups_value(g.take(1)) == 0);
    assert(groups_value(g.take(2)) == 0);
    assert(groups_value(g.take(3)) == 0);
    assert(groups_value(g.take(4)) == 0);
    assert(groups_value(g.take(5)) == 0);
    assert(groups_value(g.take(6)) == 0xFFFF);
    assert(groups_value(g.take(7)) == 0xFFFF * 65536 + hi);
    assert(groups_value(g.take(8)) == (0xFFFF * 65536 + hi) * 65536 + lo);
    assert(hi * 65536 + lo == wn) by (nonlinear_arith)
        requires
            hi == wn / 65536,
            lo == wn % 65536,
    ;
    assert((v & 0xFFFF_FFFFu128) < 0x1_0000_0000u128) by (bit_vector);
    assert(wn == (v & 0xFFFF_FFFFu128) as nat);
    assert(v == 0xFFFFu128 * 0x1_0000_0000u128 + (v & 0xFFFF_FFFFu128)) by (bit_vector)
        requires
            v >> 32u128 == 0xFFFFu128,
    ;
    assert(groups_value(g) == v);
}

/// The text of any other IPv6 address reads back as the address.
proof fn lemma_plain_text_reads_back(v: u128)
    requires
        v >> 32u128 != 0xFFFFu128,
    ensures
        ipv6_from_text(ipv6_text(v)) == Some(v),
{
    let s = ipv6_text(v);
    let g = segments(v);
    lemma_segments_value(v);
    let z = zero_run(g, 0, 0, 0, 0, 0);
    lemma_zero_run(g, 0, 0, 0, 0, 0);
    lemma_join_hex_chars(g);
    if z.1 > 1 {
        let a = z.0;
        let l = z.1;
        let head = g.take(a as int);
        let tail = g.skip((a + l) as int);
        let jh = join_hex(head);
        let jt = join_hex(tail);
        assert(s == jh + seq![':', ':'] + jt);
        lemma_join_hex_chars(head);
        lemma_join_hex_chars(tail);
        assert forall|k: int| 0 <= k < s.len() implies s[k] != '.' by {
            if k < jh.len() {
                assert(s[k] == jh[k]);
            } else if k >= jh.len() + 2 {
                assert(s[k] == jt[k - jh.len() - 2]);
            }
        }
        let q = jh.len() as int;
        assert(s[q] == ':' && s[q + 1] == ':');
        if a == 0 {
            assert(jh.len() == 0);
            lemma_no_ipv4_without_dot(s, 0);
            assert(radix_digit(s[0], 16) is None);
            assert(digit_run(s, 0, 16) == 0);
            assert(read_groups(s, 0, 0, 8) == (Seq::<nat>::empty(), false, 0int));
            assert(head =~= Seq::<nat>::empty());
        } else {
            assert forall|j: int| 0 <= j < jh.len() implies s[0 + j] == #[trigger] jh[j] by {}
            assert forall|k: int| 0 <= k < head.len() implies #[trigger] head[k] <= 0xFFFF by {
                assert(head[k] == g[k]);
            }
            lemma_read_joined(s, 0, 0, head, 0, 8);
        }
        let limit = (7 - a) as nat;
        if tail.len() == 0 {
            assert(s.len() == q + 2);
            lemma_no_ipv4_without_dot(s, q + 2);
            assert(read_groups(s, q + 2, 0, limit) == (Seq::<nat>::empty(), false, q + 2));
        } else {
            assert forall|j: int| 0 <= j < jt.len() implies s[q + 2 + j] == #[trigger] jt[j] by {}
            assert forall|k: int| 0 <= k < tail.len() implies #[trigger] tail[k] <= 0xFFFF by {
                assert(tail[k] == g[a + l + k]);
            }
            lemma_read_joined(s, q + 2, q + 2, tail, 0, limit);
        }
        let zeros = Seq::new(l, |k: int| 0nat);
        assert(head + zeros + tail =~= g);
    } else {
        assert forall|j: int| 0 <= j < s.len() implies s[0 + j] == #[trigger] join_hex(g)[j] by {}
        lemma_read_joined(s, 0, 0, g, 0, 8);
    }
}

/// An IPv6 address reads back from its own text.
pub proof fn law_ipv6_text_reads_back(v: u128)
    ensures
        ipv6_from_text(ipv6_text(v)) == Some(v),
{
    if v >> 32u128 == 0xFFFFu128 {
        lemma_mapped_text_reads_back(v);
    } else {
        lemma_plain_text_reads_back(v);
    }
}

/// The text of an IPv6 address is made of address characters and holds at least two colons.
pub proof fn lemma_ipv6_text_shape(v: u128)
    ensures
        ipv6_text(v).len() > 0,
        forall|i: int| 0 <= i < ipv6_text(v).len() ==> address_char(#[trigger] ipv6_text(v)[i]),
        exists|i: int, j: int|
            0 <= i < j < ipv6_text(v).len() && ipv6_text(v)[i] == ':' && ipv6_text(v)[j] == ':',
{
    let s = ipv6_text(v);
    if v >> 32u128 == 0xFFFFu128 {
        let w = (v & 0xFFFF_FFFFu128) as u32;
        let prefix = seq![':', ':', 'f', 'f', 'f', 'f', ':'];
        let t = ipv4_text(w);
        assert(s == prefix + t);
        lemma_ipv4_text_chars(w);
        assert forall|i: int| 0 <= i < s.len() implies address_char(#[trigger] s[i]) by {
            if i >= 7 {
                assert(s[i] == t[i - 7]);
                assert(is_digit(t[i - 7]) || t[i - 7] == '.');
            }
        }
        assert(s[0] == ':' && s[1] == ':');
    } else {
        let g = segments(v);
        let z = zero_run(g, 0, 0, 0, 0, 0);
        lemma_zero_run(g, 0, 0, 0, 0, 0);
        if z.1 > 1 {
            let jh = join_hex(g.take(z.0 as int));
            let jt = join_hex(g.skip((z.0 + z.1) as int));
            lemma_join_hex_chars(g.take(z.0 as int));
            lemma_join_hex_chars(g.skip((z.0 + z.1) as int));
            assert(s == jh + seq![':', ':'] + jt);
            assert forall|i: int| 0 <= i < s.len() implies address_char(#[trigger] s[i]) by {
                if i < jh.len() {
                    assert(s[i] == jh[i]);
                } else if i >= jh.len() + 2 {
                    assert(s[i] == jt[i - jh.len() - 2]);
                }
            }
            assert(s[jh.len() as int] == ':' && s[jh.len() as int + 1] == ':');
        } else {
            lemma_join_hex_chars(g);
            let a = join_hex(g.drop_last());
            let a2 = join_hex(g.drop_last().drop_last());
            assert(s == a + seq![':'] + hex_text(g.last()));
            assert(a == a2 + seq![':'] + hex_text(g.drop_last().last()));
            assert(s[a.len() as int] == ':');
            assert(s[a2.len() as int] == a[a2.len() as int]);
            assert(s[a2.len() as int] == ':');
        }
    }
}

/// The text of an IPv6 address is not an IPv4 address.
pub proof fn lemma_ipv6_text_is_not_ipv4(v: u128)
    ensures
        ipv4_from_text(ipv6_text(v)) is None,
{
    let s = ipv6_text(v);
    if v >> 32u128 == 0xFFFFu128 {
        let prefix = seq![':', ':', 'f', 'f', 'f', 'f', ':'];
        assert(s == prefix + ipv4_text((v & 0xFFFF_FFFFu128) as u32));
        assert(s[0] == ':');
        assert(radix_digit(s[0], 10) is None);
        assert(digit_run(s, 0, 10) == 0);
        assert(after_separator(s, 0, true, '.') == Some(0int));
        assert(read_octets(s, 0, 0) is None);
    } else {
        let g = segments(v);
        let z = zero_run(g, 0, 0, 0, 0, 0);
        lemma_zero_run(g, 0, 0, 0, 0, 0);
        if z.1 > 1 {
            let jh = join_hex(g.take(z.0 as int));
            let jt = join_hex(g.skip((z.0 + z.1) as int));
            lemma_join_hex_chars(g.take(z.0 as int));
            lemma_join_hex_chars(g.skip((z.0 + z.1) as int));
            assert(s == jh + seq![':', ':'] + jt);
            assert forall|k: int| 0 <= k < s.len() implies s[k] != '.' by {
                if k < jh.len() {
                    assert(s[k] == jh[k]);
                } else if k >= jh.len() + 2 {
                    assert(s[k] == jt[k - jh.len() - 2]);
                }
            }
        } else {
            lemma_join_hex_chars(g);
            assert forall|k: int| 0 <= k < s.len() implies s[k] != '.' by {
                assert(s[k] == join_hex(g)[k]);
            }
        }
        lemma_no_ipv4_without_dot(s, 0);
    }
}

} // verus!
