//! Length-prefixed frames: a payload on a stream is preceded by its length,
//! written as an unsigned variable-length integer of seven bits to the byte,
//! lowest bits first, each byte but the last with its highest bit set.

use vstd::prelude::*;

verus! {

/// The length prefix of `n`.
pub open spec fn varint(n: nat) -> Seq<u8>
    decreases n,
{
    if n < 128 {
        seq![n as u8]
    } else {
        seq![(n % 128 + 128) as u8] + varint(n / 128)
    }
}

/// A payload with its length before it.
pub open spec fn framed(payload: Seq<u8>) -> Seq<u8> {
    varint(payload.len()) + payload
}

/// `t` stands at the beginning of `s`.
pub open spec fn begins_with(s: Seq<u8>, t: Seq<u8>) -> bool {
    t.len() <= s.len() && s.subrange(0, t.len() as int) == t
}

/// 128 to the power of `k`.
pub open spec fn pow128(k: nat) -> nat
    decreases k,
{
    if k == 0 {
        1
    } else {
        128 * pow128((k - 1) as nat)
    }
}

/// Every byte of `p` has its highest bit set.
pub open spec fn all_continue(p: Seq<u8>) -> bool {
    forall|i: int| 0 <= i < p.len() ==> #[trigger] p[i] >= 128
}

/// The number that the low seven bits of the bytes of `p` spell, lowest
/// first.
pub open spec fn low_bits_value(p: Seq<u8>) -> nat
    decreases p.len(),
{
    if p.len() == 0 {
        0
    } else {
        (p[0] % 128) as nat + 128 * low_bits_value(p.skip(1))
    }
}

/// The prefix of `n` is made of `p`, whose bytes all continue, and one last
/// byte `b` that does not.
pub open spec fn prefix_shape(n: nat, p: Seq<u8>, b: u8) -> bool {
    &&& all_continue(p)
    &&& b < 128
    &&& (b == 0 ==> p.len() == 0)
    &&& n == low_bits_value(p) + b * pow128(p.len())
    &&& varint(n) == p.push(b)
}

proof fn lemma_pow128_positive(k: nat)
    ensures
        pow128(k) >= 1,
    decreases k,
{
    if k > 0 {
        lemma_pow128_positive((k - 1) as nat);
    }
}

proof fn lemma_low_bits_push(p: Seq<u8>, c: u8)
    ensures
        low_bits_value(p.push(c)) == low_bits_value(p) + (c % 128) * pow128(p.len()),
    decreases p.len(),
{
    let y = (c % 128) as nat;
    let r = p.push(c);
    if p.len() == 0 {
        assert(r.skip(1) =~= Seq::<u8>::empty());
        assert(low_bits_value(r.skip(1)) == 0);
        assert(r[0] == c);
        assert(low_bits_value(r) == y + 128 * 0);
        assert(y * pow128(0) == y) by (nonlinear_arith)
            requires
                pow128(0) == 1,
        ;
    } else {
        lemma_low_bits_push(p.skip(1), c);
        assert(r.skip(1) =~= p.skip(1).push(c));
        assert(r[0] == p[0]);
        let x = low_bits_value(p.skip(1));
        let w = pow128((p.len() - 1) as nat);
        let d = (p[0] % 128) as nat;
        assert(low_bits_value(r.skip(1)) == x + y * w);
        assert(low_bits_value(r) == d + 128 * (x + y * w));
        assert(low_bits_value(p) == d + 128 * x);
        assert(pow128(p.len()) == 128 * w);
        assert(d + 128 * (x + y * w) == d + 128 * x + y * (128 * w)) by (nonlinear_arith);
    }
}

proof fn lemma_low_bits_bound(p: Seq<u8>)
    ensures
        low_bits_value(p) < pow128(p.len()),
    decreases p.len(),
{
    if p.len() > 0 {
        lemma_low_bits_bound(p.skip(1));
        let x = low_bits_value(p.skip(1));
        let w = pow128((p.len() - 1) as nat);
        assert(x + 1 <= w);
        assert(127 + 128 * x < 128 * w) by (nonlinear_arith)
            requires
                x + 1 <= w,
        ;
    }
}

/// The prefix of a number whose low bits are those of `p` and whose higher
/// bits are those of `m` is `p` followed by the prefix of `m`.
proof fn lemma_varint_split(p: Seq<u8>, m: nat)
    requires
        all_continue(p),
        m >= 1,
    ensures
        varint(low_bits_value(p) + m * pow128(p.len())) == p + varint(m),
    decreases p.len(),
{
    if p.len() == 0 {
        assert(m * pow128(0) == m) by (nonlinear_arith)
            requires
                pow128(0) == 1,
        ;
        assert(p + varint(m) =~= varint(m));
    } else {
        let q = p.skip(1);
        let w = pow128(q.len());
        let inner = low_bits_value(q) + m * w;
        lemma_varint_split(q, m);
        lemma_pow128_positive(q.len());
        assert(m * w >= 1) by (nonlinear_arith)
            requires
                m >= 1,
                w >= 1,
        ;
        let d = (p[0] % 128) as nat;
        let x = low_bits_value(p) + m * pow128(p.len());
        assert(x == d + 128 * inner) by (nonlinear_arith)
            requires
                x == d + 128 * low_bits_value(q) + m * (128 * w),
                inner == low_bits_value(q) + m * w,
        ;
        assert(x >= 128);
        assert(x % 128 == d && x / 128 == inner) by (nonlinear_arith)
            requires
                x == d + 128 * inner,
                d < 128,
        ;
        assert(p[0] >= 128);
        assert((d + 128) as u8 == p[0]);
        assert(p + varint(m) =~= seq![p[0]] + (q + varint(m)));
    }
}

/// Every prefix has the shape of bytes that continue and one that ends.
proof fn lemma_varint_shape(n: nat) -> (r: (Seq<u8>, u8))
    ensures
        prefix_shape(n, r.0, r.1),
    decreases n,
{
    if n < 128 {
        let p = Seq::<u8>::empty();
        assert(varint(n) =~= p.push(n as u8));
        assert(n * pow128(0) == n) by (nonlinear_arith)
            requires
                pow128(0) == 1,
        ;
        (p, n as u8)
    } else {
        let (q, b) = lemma_varint_shape(n / 128);
        let c = (n % 128 + 128) as u8;
        let p = seq![c] + q;
        assert(p.skip(1) =~= q);
        assert(p[0] == c);
        assert(c % 128 == n % 128);
        assert(varint(n) =~= p.push(b));
        assert forall|i: int| 0 <= i < p.len() implies #[trigger] p[i] >= 128 by {
            if i > 0 {
                assert(p[i] == q[i - 1]);
            }
        }
        let w = pow128(q.len());
        assert(n == (n % 128) + 128 * (low_bits_value(q) + b * w)) by (nonlinear_arith)
            requires
                n / 128 == low_bits_value(q) + b * w,
        ;
        assert(n == low_bits_value(p) + b * pow128(p.len())) by (nonlinear_arith)
            requires
                n == (n % 128) + 128 * (low_bits_value(q) + b * w),
                low_bits_value(p) == (n % 128) + 128 * low_bits_value(q),
                pow128(p.len()) == 128 * w,
        ;
        if b == 0 {
            assert(q.len() == 0);
            assert(n / 128 == 0);
        }
        (p, b)
    }
}

/// At the beginning of a byte sequence the prefix of at most one number
/// stands.
pub proof fn lemma_varint_unique(s: Seq<u8>, a: nat, b: nat)
    requires
        begins_with(s, varint(a)),
        begins_with(s, varint(b)),
    ensures
        a == b,
{
    let (pa, ba) = lemma_varint_shape(a);
    let (pb, bb) = lemma_varint_shape(b);
    let va = varint(a);
    let vb = varint(b);
    if pa.len() < pb.len() {
        assert(s.subrange(0, va.len() as int)[pa.len() as int] == s[pa.len() as int]);
        assert(s.subrange(0, vb.len() as int)[pa.len() as int] == s[pa.len() as int]);
        assert(va[pa.len() as int] == ba);
        assert(vb[pa.len() as int] == pb[pa.len() as int]);
    } else if pb.len() < pa.len() {
        assert(s.subrange(0, va.len() as int)[pb.len() as int] == s[pb.len() as int]);
        assert(s.subrange(0, vb.len() as int)[pb.len() as int] == s[pb.len() as int]);
        assert(vb[pb.len() as int] == bb);
        assert(va[pb.len() as int] == pa[pb.len() as int]);
    } else {
        assert(va =~= vb) by {
            assert forall|i: int| 0 <= i < va.len() implies va[i] == vb[i] by {
                assert(s.subrange(0, va.len() as int)[i] == s[i]);
                assert(s.subrange(0, vb.len() as int)[i] == s[i]);
            }
        }
        assert(pa =~= va.drop_last());
        assert(pb =~= vb.drop_last());
        assert(ba == va.last());
        assert(bb == vb.last());
    }
}

/// The length that stands at the beginning of `s`, with the number of bytes
/// that its prefix takes; nothing where no prefix of a length stands there.
pub open spec fn length_at(s: Seq<u8>) -> Option<(usize, int)> {
    if exists|n: usize| begins_with(s, varint(n as nat)) {
        let n = choose|n: usize| begins_with(s, varint(n as nat));
        Some((n, varint(n as nat).len() as int))
    } else {
        None
    }
}

pub proof fn lemma_length_at(s: Seq<u8>, n: usize)
    requires
        begins_with(s, varint(n as nat)),
    ensures
        length_at(s) == Some((n, varint(n as nat).len() as int)),
{
    let m = choose|m: usize| begins_with(s, varint(m as nat));
    lemma_varint_unique(s, n as nat, m as nat);
}

/// Appends the length prefix of `n`.
pub fn push_varint(out: &mut Vec<u8>, n: usize)
    ensures
        final(out)@ == old(out)@ + varint(n as nat),
    decreases n,
{
    if n < 128 {
        out.push(n as u8);
        proof {
            assert(final(out)@ =~= old(out)@ + varint(n as nat));
        }
    } else {
        out.push((n % 128 + 128) as u8);
        push_varint(out, n / 128);
        proof {
            assert(final(out)@ =~= old(out)@ + varint(n as nat));
        }
    }
}

/// The payload with its length before it.
pub fn frame(payload: &Vec<u8>) -> (res: Vec<u8>)
    ensures
        res@ == framed(payload@),
{
    let mut out: Vec<u8> = Vec::new();
    push_varint(&mut out, payload.len());
    out.extend_from_slice(payload.as_slice());
    proof {
        assert(out@ =~= framed(payload@));
    }
    out
}

proof fn lemma_pow128_monotone(a: nat, b: nat)
    requires
        a <= b,
    ensures
        pow128(a) <= pow128(b),
    decreases b,
{
    if a < b {
        lemma_pow128_monotone(a, (b - 1) as nat);
        lemma_pow128_positive((b - 1) as nat);
    }
}

proof fn lemma_pow128_values()
    ensures
        pow128(9) == 0x8000_0000_0000_0000,
        pow128(10) == 0x40_0000_0000_0000_0000,
{
    reveal_with_fuel(pow128, 11);
}

/// Where the bytes before `i` all continue and the byte at `i`, if there is
/// one, does not, a prefix that stands at the beginning of `s` is made of
/// exactly these bytes.
proof fn lemma_prefix_is_run(s: Seq<u8>, i: int, n: nat)
    requires
        0 <= i <= s.len(),
        all_continue(s.subrange(0, i)),
        i < s.len() ==> s[i] < 128,
        begins_with(s, varint(n)),
    ensures
        i < s.len(),
        prefix_shape(n, s.subrange(0, i), s[i]),
{
    let (p, b) = lemma_varint_shape(n);
    let v = varint(n);
    let w = s.subrange(0, v.len() as int);
    assert(w == v);
    if p.len() < i {
        assert(w[p.len() as int] == s[p.len() as int]);
        assert(v[p.len() as int] == b);
        assert(s.subrange(0, i)[p.len() as int] == s[p.len() as int]);
    }
    if p.len() > i {
        assert(w[i] == s[i]);
        assert(v[i] == p[i]);
    }
    assert(w[i] == s[i]);
    assert(v[i] == b);
    assert(p =~= s.subrange(0, i)) by {
        assert forall|k: int| 0 <= k < i implies p[k] == s.subrange(0, i)[k] by {
            assert(w[k] == s[k]);
            assert(v[k] == p[k]);
        }
    }
}

/// Reads the length that stands at the beginning of `buf`, and says how many
/// bytes its prefix takes.
pub fn read_length(buf: &[u8]) -> (r: Option<(usize, usize)>)
    ensures
        match r {
            Some((n, start)) => length_at(buf@) == Some((n, start as int)),
            None => length_at(buf@) is None,
        },
{
    let ghost s = buf@;
    let mut i: usize = 0;
    let mut acc: u128 = 0;
    let mut mult: u128 = 1;
    proof {
        lemma_pow128_values();
    }
    while i < buf.len() && buf[i] >= 128
        invariant
            s == buf@,
            i <= buf.len(),
            i <= 9,
            all_continue(s.subrange(0, i as int)),
            acc == low_bits_value(s.subrange(0, i as int)),
            mult == pow128(i as nat),
            pow128(9) == 0x8000_0000_0000_0000,
            pow128(10) == 0x40_0000_0000_0000_0000,
        decreases buf.len() - i,
    {
        let ghost run = s.subrange(0, i as int);
        let ghost next = s.subrange(0, i + 1);
        proof {
            assert(next =~= run.push(s[i as int]));
            lemma_low_bits_push(run, s[i as int]);
            lemma_low_bits_bound(run);
            lemma_pow128_monotone(i as nat, 9);
            assert forall|k: int| 0 <= k < next.len() implies #[trigger] next[k] >= 128 by {
                if k < i {
                    assert(run[k] == next[k]);
                }
            }
        }
        if i >= 9 {
            proof {
                assert forall|n: usize| !begins_with(s, varint(n as nat)) by {
                    if begins_with(s, varint(n as nat)) {
                        let (p, b) = lemma_varint_shape(n as nat);
                        let v = varint(n as nat);
                        let w = s.subrange(0, v.len() as int);
                        assert(w == v);
                        if p.len() < 10 {
                            assert(w[p.len() as int] == s[p.len() as int]);
                            assert(v[p.len() as int] == b);
                            assert(next[p.len() as int] == s[p.len() as int]);
                        }
                        lemma_pow128_monotone(10, p.len());
                        assert(b * pow128(p.len()) >= pow128(p.len())) by (nonlinear_arith)
                            requires
                                b >= 1,
                        ;
                    }
                }
            }
            return None;
        }
        let d: u128 = (buf[i] % 128) as u128;
        proof {
            assert(d * mult <= 127 * 0x8000_0000_0000_0000) by (nonlinear_arith)
                requires
                    d <= 127,
                    mult <= 0x8000_0000_0000_0000,
            ;
        }
        acc = acc + d * mult;
        mult = mult * 128;
        i += 1;
    }
    let ghost run = s.subrange(0, i as int);
    if i >= buf.len() || (buf[i] == 0 && i > 0) {
        proof {
            assert forall|n: usize| !begins_with(s, varint(n as nat)) by {
                if begins_with(s, varint(n as nat)) {
                    lemma_prefix_is_run(s, i as int, n as nat);
                }
            }
        }
        return None;
    }
    let b: u128 = buf[i] as u128;
    proof {
        lemma_low_bits_bound(run);
        lemma_pow128_monotone(i as nat, 9);
        assert(b * mult <= 127 * 0x8000_0000_0000_0000) by (nonlinear_arith)
            requires
                b <= 127,
                mult <= 0x8000_0000_0000_0000,
        ;
    }
    let value: u128 = acc + b * mult;
    if value > usize::MAX as u128 {
        proof {
            assert forall|n: usize| !begins_with(s, varint(n as nat)) by {
                if begins_with(s, varint(n as nat)) {
                    lemma_prefix_is_run(s, i as int, n as nat);
                }
            }
        }
        return None;
    }
    let n: usize = value as usize;
    proof {
        let last = s[i as int];
        if i == 0 {
            assert(run =~= Seq::<u8>::empty());
            assert(b * mult == b) by (nonlinear_arith)
                requires
                    mult == 1,
            ;
            assert(varint(n as nat) =~= run.push(last));
        } else {
            lemma_varint_split(run, last as nat);
            assert(varint(last as nat) =~= seq![last]);
            assert(run + seq![last] =~= run.push(last));
        }
        assert(s.subrange(0, i + 1) =~= run.push(last));
        lemma_length_at(s, n);
    }
    Some((n, i + 1))
}

} // verus!
