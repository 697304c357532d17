use vstd::prelude::*;

verus! {

/// Number of bytes in a frame's length prefix.
pub const HEADER_LEN: usize = 8;

/// `256` raised to the power `k`.
pub open spec fn pow256(k: nat) -> nat
    decreases k,
{
    if k == 0 {
        1
    } else {
        256 * pow256((k - 1) as nat)
    }
}

/// The unsigned number that the bytes `s` encode, least significant byte first.
pub open spec fn le_value(s: Seq<u8>) -> nat
    decreases s.len(),
{
    if s.len() == 0 {
        0
    } else {
        s[0] as nat + 256 * le_value(s.drop_first())
    }
}

/// The `k` lowest bytes of `n`, least significant byte first.
pub open spec fn le_bytes(n: nat, k: nat) -> Seq<u8>
    decreases k,
{
    if k == 0 {
        Seq::empty()
    } else {
        seq![(n % 256) as u8] + le_bytes(n / 256, (k - 1) as nat)
    }
}

/// A frame: the payload's length as 8 little-endian bytes, then the payload.
pub open spec fn frame(payload: Seq<u8>) -> Seq<u8> {
    le_bytes(payload.len(), 8) + payload
}

/// What a complete frame holds: the payload when the prefix gives exactly the
/// number of bytes that follow it, and nothing otherwise.
pub open spec fn parse_frame(bytes: Seq<u8>) -> Option<Seq<u8>> {
    if bytes.len() >= 8 && le_value(bytes.subrange(0, 8)) == bytes.len() - 8 {
        Some(bytes.subrange(8, bytes.len() as int))
    } else {
        None
    }
}

pub proof fn lemma_le_bytes_len(n: nat, k: nat)
    ensures
        le_bytes(n, k).len() == k,
    decreases k,
{
    if k > 0 {
        lemma_le_bytes_len(n / 256, (k - 1) as nat);
    }
}

pub proof fn lemma_le_value_bound(s: Seq<u8>)
    ensures
        le_value(s) < pow256(s.len()),
    decreases s.len(),
{
    if s.len() > 0 {
        let t = s.drop_first();
        lemma_le_value_bound(t);
        let v = le_value(t);
        let p = pow256(t.len());
        assert(v < p);
        assert(s[0] as nat + 256 * v < 256 * p) by (nonlinear_arith)
            requires
                v < p,
                s[0] < 256,
        ;
    }
}

/// Decoding the `k` low bytes of a number below `256^k` gives the number back.
pub proof fn lemma_le_round_trip(n: nat, k: nat)
    requires
        n < pow256(k),
    ensures
        le_value(le_bytes(n, k)) == n,
    decreases k,
{
    if k > 0 {
        let p = pow256((k - 1) as nat);
        assert(n / 256 < p) by (nonlinear_arith)
            requires
                n < 256 * p,
        ;
        lemma_le_round_trip(n / 256, (k - 1) as nat);
        let s = le_bytes(n, k);
        assert(s.drop_first() =~= le_bytes(n / 256, (k - 1) as nat));
        assert(n == (n % 256) + 256 * (n / 256)) by (nonlinear_arith);
    } else {
        assert(pow256(0) == 1);
    }
}

pub proof fn lemma_pow256_8()
    ensures
        pow256(8) == 0x1_0000_0000_0000_0000,
{
    reveal_with_fuel(pow256, 9);
}

/// Encodes `n` as 8 little-endian bytes.
pub fn encode_length(n: u64) -> (r: Vec<u8>)
    ensures
        r@ == le_bytes(n as nat, 8),
        r@.len() == 8,
{
    let mut r: Vec<u8> = Vec::new();
    let mut x: u64 = n;
    let mut i: usize = 0;
    while i < 8
        invariant
            i <= 8,
            r@ + le_bytes(x as nat, (8 - i) as nat) == le_bytes(n as nat, 8),
        decreases 8 - i,
    {
        let ghost before = r@;
        let ghost rest = le_bytes(x as nat, (8 - i) as nat);
        assert(rest == seq![(x % 256) as u8] + le_bytes((x / 256) as nat, (8 - i - 1) as nat));
        r.push((x % 256) as u8);
        x = x / 256;
        i = i + 1;
        assert(r@ + le_bytes(x as nat, (8 - i) as nat) =~= before + rest);
    }
    proof {
        lemma_le_bytes_len(n as nat, 8);
        assert(r@ =~= le_bytes(n as nat, 8));
    }
    r
}

/// Decodes 8 little-endian bytes into a number.
pub fn decode_length(header: &[u8]) -> (r: u64)
    requires
        header@.len() == 8,
    ensures
        r as nat == le_value(header@),
{
    let mut v: u64 = 0;
    let mut i: usize = 8;
    proof {
        lemma_pow256_8();
    }
    while i > 0
        invariant
            i <= 8,
            header@.len() == 8,
            pow256(8) == 0x1_0000_0000_0000_0000,
            v as nat == le_value(header@.subrange(i as int, 8)),
        decreases i,
    {
        i = i - 1;
        let ghost tail = header@.subrange(i as int + 1, 8);
        proof {
            lemma_le_value_bound(tail);
            assert(header@.subrange(i as int, 8).drop_first() =~= tail);
            let p = pow256(tail.len());
            assert(p <= pow256(7)) by {
                lemma_pow256_mono(tail.len(), 7);
            }
            reveal_with_fuel(pow256, 8);
            assert(v * 256 + header@[i as int] < 0x1_0000_0000_0000_0000) by (nonlinear_arith)
                requires
                    v < p,
                    p <= 0x100_0000_0000_0000,
                    header@[i as int] < 256,
            ;
        }
        v = header[i] as u64 + 256 * v;
    }
    assert(header@.subrange(0, 8) =~= header@);
    v
}

pub proof fn lemma_pow256_mono(a: nat, b: nat)
    requires
        a <= b,
    ensures
        pow256(a) <= pow256(b),
    decreases b,
{
    if a < b {
        lemma_pow256_mono(a, (b - 1) as nat);
    }
}

/// Frames `payload`: its length as 8 little-endian bytes, then the payload itself.
pub fn encode_frame(payload: &[u8]) -> (r: Vec<u8>)
    ensures
        r@ == frame(payload@),
{
    let mut r = encode_length(payload.len() as u64);
    let mut i: usize = 0;
    while i < payload.len()
        invariant
            i <= payload@.len(),
            r@ == le_bytes(payload@.len(), 8) + payload@.subrange(0, i as int),
        decreases payload@.len() - i,
    {
        r.push(payload[i]);
        i = i + 1;
        assert(r@ =~= le_bytes(payload@.len(), 8) + payload@.subrange(0, i as int));
    }
    assert(payload@.subrange(0, i as int) =~= payload@);
    r
}

/// Reads one complete frame: the payload when the length prefix matches the
/// number of bytes that follow it, `None` otherwise.
pub fn decode_frame(bytes: &[u8]) -> (r: Option<Vec<u8>>)
    ensures
        r matches Some(p) ==> parse_frame(bytes@) == Some(p@),
        r is None ==> parse_frame(bytes@) is None,
{
    if bytes.len() < HEADER_LEN {
        return None;
    }
    let mut header: Vec<u8> = Vec::new();
    let mut i: usize = 0;
    while i < HEADER_LEN
        invariant
            i <= 8,
            bytes@.len() >= 8,
            header@ == bytes@.subrange(0, i as int),
        decreases 8 - i,
    {
        header.push(bytes[i]);
        i = i + 1;
        assert(header@ =~= bytes@.subrange(0, i as int));
    }
    let n = decode_length(header.as_slice());
    if n != (bytes.len() - HEADER_LEN) as u64 {
        return None;
    }
    let mut payload: Vec<u8> = Vec::new();
    let mut j: usize = HEADER_LEN;
    while j < bytes.len()
        invariant
            8 <= j <= bytes@.len(),
            payload@ == bytes@.subrange(8, j as int),
        decreases bytes@.len() - j,
    {
        payload.push(bytes[j]);
        j = j + 1;
        assert(payload@ =~= bytes@.subrange(8, j as int));
    }
    Some(payload)
}

/// Decoding a framed payload gives the payload back, for every payload whose
/// length fits in the 8-byte prefix.
pub proof fn lemma_frame_round_trip(payload: Seq<u8>)
    requires
        payload.len() < 0x1_0000_0000_0000_0000,
    ensures
        parse_frame(frame(payload)) == Some(payload),
{
    let f = frame(payload);
    lemma_le_bytes_len(payload.len(), 8);
    lemma_pow256_8();
    lemma_le_round_trip(payload.len(), 8);
    assert(f.subrange(0, 8) =~= le_bytes(payload.len(), 8));
    assert(f.subrange(8, f.len() as int) =~= payload);
}

} // verus!
