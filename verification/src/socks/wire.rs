//! Encoding helpers shared by the message types.
use vstd::prelude::*;

use super::consts::{ATYP_IPV4, ATYP_IPV6};
use super::protocol_error::ProtocolError;
use crate::net::{IpAddress, SocketAddress};

verus! {

/// `n` bytes of `v`, most significant first.
pub open spec fn be_bytes(v: nat, n: nat) -> Seq<u8>
    decreases n,
{
    if n == 0 {
        seq![]
    } else {
        be_bytes(v / 256, (n - 1) as nat).push((v % 256) as u8)
    }
}

/// The value of big-endian bytes.
pub open spec fn be_value(s: Seq<u8>) -> nat
    decreases s.len(),
{
    if s.len() == 0 {
        0
    } else {
        be_value(s.drop_last()) * 256 + s.last() as nat
    }
}

pub open spec fn pow256n(n: nat) -> nat
    decreases n,
{
    if n == 0 {
        1
    } else {
        256 * pow256n((n - 1) as nat)
    }
}

/// A field prefixed with its one-byte length.
pub open spec fn u8_prefixed(field: Seq<u8>) -> Seq<u8> {
    seq![field.len() as u8] + field
}

pub open spec fn port_bytes(port: u16) -> Seq<u8> {
    be_bytes(port as nat, 2)
}

/// `ATYP | ADDR | PORT` for an IP socket address.
pub open spec fn socket_addr_bytes(addr: SocketAddress) -> Seq<u8> {
    match addr.ip {
        IpAddress::V4(a) => seq![ATYP_IPV4] + be_bytes(a as nat, 4) + port_bytes(addr.port),
        IpAddress::V6(a) => seq![ATYP_IPV6] + be_bytes(a as nat, 16) + port_bytes(addr.port),
    }
}

pub proof fn lemma_be_bytes_len(v: nat, n: nat)
    ensures
        be_bytes(v, n).len() == n,
    decreases n,
{
    if n > 0 {
        lemma_be_bytes_len(v / 256, (n - 1) as nat);
    }
}

/// Reading back `n` big-endian bytes gives the value, when it fits.
pub proof fn lemma_be_round_trip(v: nat, n: nat)
    requires
        v < pow256n(n),
    ensures
        be_value(be_bytes(v, n)) == v,
    decreases n,
{
    if n > 0 {
        let q = v / 256;
        let r = v % 256;
        assert(v == q * 256 + r) by (nonlinear_arith)
            requires
                q == v / 256,
                r == v % 256,
        ;
        assert(q < pow256n((n - 1) as nat)) by (nonlinear_arith)
            requires
                v < 256 * pow256n((n - 1) as nat),
                q == v / 256,
        ;
        lemma_be_round_trip(q, (n - 1) as nat);
        assert(be_bytes(v, n).drop_last() =~= be_bytes(q, (n - 1) as nat));
    }
}

pub proof fn lemma_be_value_bound(s: Seq<u8>)
    ensures
        be_value(s) < pow256n(s.len()),
    decreases s.len(),
{
    if s.len() > 0 {
        lemma_be_value_bound(s.drop_last());
        let v = be_value(s.drop_last());
        let p = pow256n((s.len() - 1) as nat);
        let x = s.last();
        assert(v * 256 + x < 256 * p) by (nonlinear_arith)
            requires
                v < p,
                x < 256,
        ;
    }
}

pub proof fn lemma_pow256n_values()
    ensures
        pow256n(2) == 0x1_0000,
        pow256n(4) == 0x1_0000_0000,
        pow256n(16) == 0x1_0000_0000_0000_0000_0000_0000_0000_0000,
{
    reveal_with_fuel(pow256n, 17);
}

/// Appends `n` big-endian bytes of `v`.
pub fn push_be(out: &mut Vec<u8>, v: u128, n: usize)
    ensures
        final(out)@ == old(out)@ + be_bytes(v as nat, n as nat),
    decreases n,
{
    if n > 0 {
        push_be(out, v / 256, n - 1);
        out.push((v % 256) as u8);
        assert(old(out)@ + be_bytes(v as nat, n as nat) =~= old(out)@ + be_bytes(
            (v / 256) as nat,
            (n - 1) as nat,
        ) + seq![(v % 256) as u8]);
    } else {
        assert(old(out)@ + be_bytes(v as nat, 0) =~= old(out)@);
    }
}

/// The value of `s[pos..pos + n]`, big-endian.
pub fn read_be(s: &[u8], pos: usize, n: usize) -> (r: u128)
    requires
        pos + n <= s@.len(),
        n <= 16,
    ensures
        r as nat == be_value(s@.subrange(pos as int, pos + n)),
{
    let len = s.len();
    let mut acc: u128 = 0;
    let mut i: usize = 0;
    while i < n
        invariant
            len == s@.len(),
            i <= n <= 16,
            pos + n <= s@.len(),
            acc as nat == be_value(s@.subrange(pos as int, pos + i)),
        decreases n - i,
    {
        proof {
            let part = s@.subrange(pos as int, pos + i + 1);
            assert(part.drop_last() =~= s@.subrange(pos as int, pos + i));
            lemma_be_value_bound(s@.subrange(pos as int, pos + i));
            lemma_pow256n_values();
            lemma_pow_le_16(i as nat);
            assert(acc * 256 + s@[pos + i] < 0x1_0000_0000_0000_0000_0000_0000_0000_0000) by (
            nonlinear_arith)
                requires
                    acc < pow256n(i as nat),
                    pow256n(i as nat) * 256 <= 0x1_0000_0000_0000_0000_0000_0000_0000_0000,
                    s@[pos + i] < 256,
            ;
        }
        acc = acc * 256 + s[pos + i] as u128;
        i = i + 1;
    }
    acc
}

proof fn lemma_pow_le_16(i: nat)
    requires
        i < 16,
    ensures
        pow256n(i) * 256 <= 0x1_0000_0000_0000_0000_0000_0000_0000_0000,
    decreases 16 - i,
{
    lemma_pow256n_values();
    if i + 1 < 16 {
        lemma_pow_le_16(i + 1);
        assert(pow256n(i + 1) == 256 * pow256n(i));
        assert(pow256n(i) * 256 <= pow256n(i + 1) * 256) by (nonlinear_arith)
            requires
                pow256n(i + 1) == 256 * pow256n(i),
        ;
    } else {
        assert(pow256n(16) == 256 * pow256n(15));
    }
}

/// Appends a field prefixed with its one-byte length.
///
/// # Errors
/// The field is longer than 255 bytes (nothing is appended then).
pub fn push_u8_prefixed(out: &mut Vec<u8>, field: &[u8]) -> (r: Result<(), ProtocolError>)
    ensures
        field@.len() <= 255 ==> r is Ok && final(out)@ == old(out)@ + u8_prefixed(field@),
        field@.len() > 255 ==> (r matches Err(ProtocolError::FieldTooLong)) && final(out)@ == old(
            out,
        )@,
{
    if field.len() > 255 {
        return Err(ProtocolError::FieldTooLong);
    }
    out.push(field.len() as u8);
    let mut i: usize = 0;
    while i < field.len()
        invariant
            i <= field@.len() <= 255,
            out@ =~= old(out)@ + seq![field@.len() as u8] + field@.take(i as int),
        decreases field.len() - i,
    {
        out.push(field[i]);
        i = i + 1;
    }
    assert(field@.take(field@.len() as int) =~= field@);
    assert(out@ =~= old(out)@ + u8_prefixed(field@));
    Ok(())
}

/// Appends `ATYP | ADDR | PORT` for an IP socket address.
pub fn push_socket_addr(out: &mut Vec<u8>, addr: SocketAddress)
    ensures
        final(out)@ == old(out)@ + socket_addr_bytes(addr),
{
    let ghost start = out@;
    match addr.ip {
        IpAddress::V4(a) => {
            out.push(ATYP_IPV4);
            push_be(out, a as u128, 4);
        },
        IpAddress::V6(a) => {
            out.push(ATYP_IPV6);
            push_be(out, a, 16);
        },
    }
    push_be(out, addr.port as u128, 2);
    assert(out@ =~= start + socket_addr_bytes(addr));
}

} // verus!

verus! {

/// `s[from..to]` as a new vector.
pub fn copy_bytes(s: &[u8], from: usize, to: usize) -> (r: Vec<u8>)
    requires
        from <= to <= s@.len(),
    ensures
        r@ == s@.subrange(from as int, to as int),
{
    let mut r: Vec<u8> = Vec::new();
    let mut k: usize = from;
    while k < to
        invariant
            from <= k <= to <= s@.len(),
            r@ =~= s@.subrange(from as int, k as int),
        decreases to - k,
    {
        r.push(s[k]);
        k = k + 1;
    }
    r
}

} // verus!
