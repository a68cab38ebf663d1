//! The canonical binary encoding shared by every structured message:
//! integers, byte strings and lists in bencode form.
//!
//! Each encoder is a spec function from a value to its bytes. Each parser
//! reads one value at a position of a buffer and accepts exactly the bytes
//! that the encoder writes: it finds a value if and only if the encoding of
//! some value stands at that position.

use vstd::prelude::*;
use vstd::string::*;
use vstd::utf8::*;

verus! {

/// `t` occurs in `s` at position `pos`.
pub open spec fn starts(s: Seq<u8>, pos: int, t: Seq<u8>) -> bool {
    0 <= pos && pos + t.len() <= s.len() && s.subrange(pos, pos + t.len()) == t
}

/// The byte is an ASCII decimal digit.
pub open spec fn is_digit(b: u8) -> bool {
    48 <= b <= 57
}

/// Every byte of `d` is a decimal digit.
pub open spec fn all_digits(d: Seq<u8>) -> bool {
    forall|i: int| 0 <= i < d.len() ==> is_digit(#[trigger] d[i])
}

/// `d` is a decimal numeral without superfluous leading zeros.
pub open spec fn canonical_digits(d: Seq<u8>) -> bool {
    d.len() > 0 && all_digits(d) && (d.len() > 1 ==> d[0] != 48)
}

/// The decimal numeral of a natural number.
pub open spec fn dec_nat(n: nat) -> Seq<u8>
    decreases n,
{
    if n < 10 {
        seq![(48 + n) as u8]
    } else {
        dec_nat(n / 10).push((48 + n % 10) as u8)
    }
}

/// The number that a sequence of decimal digits denotes.
pub open spec fn digits_value(d: Seq<u8>) -> nat
    decreases d.len(),
{
    if d.len() == 0 {
        0
    } else {
        digits_value(d.drop_last()) * 10 + (d.last() - 48) as nat
    }
}

/// The decimal numeral of an integer, with a minus sign when negative.
pub open spec fn dec_int(n: int) -> Seq<u8> {
    if n < 0 {
        seq![45u8] + dec_nat((-n) as nat)
    } else {
        dec_nat(n as nat)
    }
}

/// An integer: `i`, the decimal numeral, `e`.
pub open spec fn enc_int(n: int) -> Seq<u8> {
    seq![105u8] + dec_int(n) + seq![101u8]
}

/// A byte string: its length in decimal, `:`, the bytes.
pub open spec fn enc_bytes(b: Seq<u8>) -> Seq<u8> {
    dec_nat(b.len()) + seq![58u8] + b
}

/// A text: the byte string of its UTF-8 form.
pub open spec fn enc_str(c: Seq<char>) -> Seq<u8> {
    enc_bytes(encode_utf8(c))
}

/// The integers of a byte list, one after the other.
pub open spec fn enc_byte_items(b: Seq<u8>) -> Seq<u8>
    decreases b.len(),
{
    if b.len() == 0 {
        Seq::<u8>::empty()
    } else {
        enc_byte_items(b.drop_last()) + enc_int(b.last() as int)
    }
}

/// A sequence of bytes written as a list of integers: `l`, the items, `e`.
pub open spec fn enc_byte_list(b: Seq<u8>) -> Seq<u8> {
    seq![108u8] + enc_byte_items(b) + seq![101u8]
}

/// An optional text: the empty list when absent, a list of one text otherwise.
pub open spec fn enc_opt_str(o: Option<Seq<char>>) -> Seq<u8> {
    match o {
        None => seq![108u8, 101u8],
        Some(c) => seq![108u8] + enc_str(c) + seq![101u8],
    }
}

/// The numeral of `k` stands at `pos`, ends at `e`, and no digit follows it.
pub open spec fn digit_run(s: Seq<u8>, pos: int, e: int, k: nat) -> bool {
    &&& 0 <= pos <= e <= s.len()
    &&& s.subrange(pos, e) == dec_nat(k)
    &&& (e < s.len() ==> !is_digit(s[e]))
}

pub proof fn lemma_dec_nat_canonical(n: nat)
    ensures
        canonical_digits(dec_nat(n)),
        digits_value(dec_nat(n)) == n,
    decreases n,
{
    if n < 10 {
        let d = dec_nat(n);
        assert(d.drop_last() =~= Seq::<u8>::empty());
        assert(digits_value(d.drop_last()) == 0);
    } else {
        let p = dec_nat(n / 10);
        lemma_dec_nat_canonical(n / 10);
        let d = dec_nat(n);
        assert(d.drop_last() =~= p);
        assert(d.last() == (48 + n % 10) as u8);
        assert(d[0] == p[0]);
        if p.len() == 1 {
            assert(p.drop_last() =~= Seq::<u8>::empty());
            assert(digits_value(p.drop_last()) == 0);
            assert(digits_value(p) == (p[0] - 48) as nat);
        }
        assert forall|i: int| 0 <= i < d.len() implies is_digit(#[trigger] d[i]) by {
            if i < p.len() {
                assert(d[i] == p[i]);
            }
        }
    }
}

pub proof fn lemma_canonical_dec(d: Seq<u8>)
    requires
        canonical_digits(d),
    ensures
        dec_nat(digits_value(d)) == d,
        d[0] != 48 ==> digits_value(d) >= 1,
    decreases d.len(),
{
    let p = d.drop_last();
    if d.len() == 1 {
        assert(p =~= Seq::<u8>::empty());
        assert(digits_value(p) == 0);
        assert(is_digit(d[0]));
        assert(dec_nat(digits_value(d)) =~= d);
    } else {
        assert(p[0] == d[0]);
        assert forall|i: int| 0 <= i < p.len() implies is_digit(#[trigger] p[i]) by {
            assert(p[i] == d[i]);
        }
        lemma_canonical_dec(p);
        assert(is_digit(d[d.len() - 1]));
        let v = digits_value(d);
        assert(v == digits_value(p) * 10 + (d.last() - 48) as nat);
        assert(v / 10 == digits_value(p));
        assert(v % 10 == (d.last() - 48) as nat);
        assert(dec_nat(v) =~= p.push(d.last()));
        assert(p.push(d.last()) =~= d);
    }
}

/// The numeral of a number is the same as that of another only if the
/// numbers are the same.
pub proof fn lemma_dec_nat_injective(a: nat, b: nat)
    requires
        dec_nat(a) == dec_nat(b),
    ensures
        a == b,
{
    lemma_dec_nat_canonical(a);
    lemma_dec_nat_canonical(b);
}

/// A digit sequence denotes at least what any of its prefixes denotes.
pub proof fn lemma_digits_value_prefix(d: Seq<u8>, j: int)
    requires
        0 <= j <= d.len(),
    ensures
        digits_value(d.take(j)) <= digits_value(d),
    decreases d.len(),
{
    if j == d.len() {
        assert(d.take(j) =~= d);
    } else {
        let p = d.drop_last();
        lemma_digits_value_prefix(p, j);
        assert(p.take(j) =~= d.take(j));
        assert(digits_value(p) * 10 >= digits_value(p)) by (nonlinear_arith);
    }
}

/// At one position at most one numeral stands that no digit follows.
pub proof fn lemma_digit_run_unique(s: Seq<u8>, pos: int, e1: int, k1: nat, e2: int, k2: nat)
    requires
        digit_run(s, pos, e1, k1),
        digit_run(s, pos, e2, k2),
    ensures
        e1 == e2,
        k1 == k2,
{
    lemma_dec_nat_canonical(k1);
    lemma_dec_nat_canonical(k2);
    let d1 = s.subrange(pos, e1);
    let d2 = s.subrange(pos, e2);
    if e1 < e2 {
        assert(d2[e1 - pos] == s[e1]);
        assert(is_digit(d2[e1 - pos]));
    }
    if e2 < e1 {
        assert(d1[e2 - pos] == s[e2]);
        assert(is_digit(d1[e2 - pos]));
    }
    lemma_dec_nat_injective(k1, k2);
}

/// Reads the decimal numeral that stands at `pos`: the longest run of digits
/// there, if it is canonical and its value fits.
pub fn parse_digits(buf: &[u8], pos: usize) -> (r: Option<(u64, usize)>)
    requires
        pos <= buf.len(),
    ensures
        match r {
            Some((v, end)) => digit_run(buf@, pos as int, end as int, v as nat),
            None => forall|k: nat, e: int|
                k <= u64::MAX ==> !#[trigger] digit_run(buf@, pos as int, e, k),
        },
{
    let ghost s = buf@;
    let mut i: usize = pos;
    let mut v: u64 = 0;
    while i < buf.len() && buf[i] >= 48 && buf[i] <= 57
        invariant
            s == buf@,
            pos <= i <= buf.len(),
            all_digits(s.subrange(pos as int, i as int)),
            v == digits_value(s.subrange(pos as int, i as int)),
        decreases buf.len() - i,
    {
        let d: u64 = (buf[i] - 48) as u64;
        let ghost run = s.subrange(pos as int, i + 1);
        proof {
            assert(run.drop_last() =~= s.subrange(pos as int, i as int));
            assert(run.last() == buf@[i as int]);
            assert forall|j: int| 0 <= j < run.len() implies is_digit(#[trigger] run[j]) by {
                if j < i - pos {
                    assert(run[j] == s.subrange(pos as int, i as int)[j]);
                }
            }
        }
        if v > (u64::MAX - d) / 10 {
            proof {
                assert(digits_value(run) > u64::MAX);
                assert forall|k: nat, e: int| k <= u64::MAX implies !#[trigger] digit_run(
                    s,
                    pos as int,
                    e,
                    k,
                ) by {
                    if digit_run(s, pos as int, e, k) {
                        lemma_dec_nat_canonical(k);
                        let full = s.subrange(pos as int, e);
                        if e <= i {
                            assert(is_digit(run[e - pos]));
                        }
                        assert(full.take(i + 1 - pos) =~= run);
                        lemma_digits_value_prefix(full, i + 1 - pos);
                    }
                }
            }
            return None;
        }
        v = v * 10 + d;
        i += 1;
    }
    let ghost run = s.subrange(pos as int, i as int);
    if i == pos || (i - pos > 1 && buf[pos] == 48) {
        proof {
            assert forall|k: nat, e: int| k <= u64::MAX implies !#[trigger] digit_run(
                s,
                pos as int,
                e,
                k,
            ) by {
                if digit_run(s, pos as int, e, k) {
                    lemma_dec_nat_canonical(k);
                    let full = s.subrange(pos as int, e);
                    assert(is_digit(full[0]));
                    assert(full[0] == s[pos as int]);
                    if e < i {
                        assert(is_digit(run[e - pos]));
                    }
                    if e > i {
                        assert(is_digit(full[i - pos]));
                    }
                    assert(full =~= run);
                    assert(run[0] == s[pos as int]);
                }
            }
        }
        return None;
    }
    proof {
        assert(run[0] == s[pos as int]);
        lemma_canonical_dec(run);
    }
    Some((v, i))
}

/// What follows from an integer's encoding standing at `pos`.
pub proof fn lemma_enc_int_shape(s: Seq<u8>, pos: int, n: int)
    requires
        starts(s, pos, enc_int(n)),
    ensures
        s[pos] == 105,
        n < 0 ==> s[pos + 1] == 45 && digit_run(
            s,
            pos + 2,
            pos + 2 + dec_nat((-n) as nat).len(),
            (-n) as nat,
        ) && enc_int(n).len() == dec_nat((-n) as nat).len() + 3,
        n >= 0 ==> s[pos + 1] != 45 && digit_run(
            s,
            pos + 1,
            pos + 1 + dec_nat(n as nat).len(),
            n as nat,
        ) && enc_int(n).len() == dec_nat(n as nat).len() + 2,
        s[pos + enc_int(n).len() - 1] == 101,
{
    let t = enc_int(n);
    let w = s.subrange(pos, pos + t.len());
    assert(w == t);
    assert(w[0] == s[pos]);
    assert(t[0] == 105);
    assert(w[t.len() - 1] == s[pos + t.len() - 1]);
    if n < 0 {
        let d = dec_nat((-n) as nat);
        lemma_dec_nat_canonical((-n) as nat);
        assert(t.len() == d.len() + 3);
        assert(w[1] == s[pos + 1]);
        assert(t[1] == 45);
        assert(s.subrange(pos + 2, pos + 2 + d.len()) =~= d) by {
            assert forall|j: int| 0 <= j < d.len() implies s.subrange(
                pos + 2,
                pos + 2 + d.len(),
            )[j] == d[j] by {
                assert(w[j + 2] == s[pos + 2 + j]);
                assert(t[j + 2] == d[j]);
            }
        }
        assert(t[t.len() - 1] == 101);
    } else {
        let d = dec_nat(n as nat);
        lemma_dec_nat_canonical(n as nat);
        assert(t.len() == d.len() + 2);
        assert(w[1] == s[pos + 1]);
        assert(t[1] == d[0]);
        assert(is_digit(d[0]));
        assert(s.subrange(pos + 1, pos + 1 + d.len()) =~= d) by {
            assert forall|j: int| 0 <= j < d.len() implies s.subrange(
                pos + 1,
                pos + 1 + d.len(),
            )[j] == d[j] by {
                assert(w[j + 1] == s[pos + 1 + j]);
                assert(t[j + 1] == d[j]);
            }
        }
        assert(t[t.len() - 1] == 101);
    }
}

/// At one position the encoding of at most one integer stands.
pub proof fn lemma_enc_int_unique(s: Seq<u8>, pos: int, a: int, b: int)
    requires
        starts(s, pos, enc_int(a)),
        starts(s, pos, enc_int(b)),
    ensures
        a == b,
{
    lemma_enc_int_shape(s, pos, a);
    lemma_enc_int_shape(s, pos, b);
    if a < 0 {
        lemma_digit_run_unique(
            s,
            pos + 2,
            pos + 2 + dec_nat((-a) as nat).len(),
            (-a) as nat,
            pos + 2 + dec_nat((-b) as nat).len(),
            (-b) as nat,
        );
    } else {
        lemma_digit_run_unique(
            s,
            pos + 1,
            pos + 1 + dec_nat(a as nat).len(),
            a as nat,
            pos + 1 + dec_nat(b as nat).len(),
            b as nat,
        );
    }
}

/// The integer whose encoding stands at `pos`, with the position after it.
pub open spec fn int_at(s: Seq<u8>, pos: int) -> Option<(i64, int)> {
    if exists|n: i64| starts(s, pos, enc_int(n as int)) {
        let n = choose|n: i64| starts(s, pos, enc_int(n as int));
        Some((n, pos + enc_int(n as int).len()))
    } else {
        None
    }
}

pub proof fn lemma_int_at(s: Seq<u8>, pos: int, n: i64)
    requires
        starts(s, pos, enc_int(n as int)),
    ensures
        int_at(s, pos) == Some((n, pos + enc_int(n as int).len())),
{
    let m = choose|m: i64| starts(s, pos, enc_int(m as int));
    lemma_enc_int_unique(s, pos, n as int, m as int);
}

/// Reads the integer that stands at `pos`.
pub fn parse_int(buf: &[u8], pos: usize) -> (r: Option<(i64, usize)>)
    requires
        pos <= buf.len(),
    ensures
        match r {
            Some((n, end)) => int_at(buf@, pos as int) == Some((n, end as int)),
            None => int_at(buf@, pos as int) is None,
        },
{
    let ghost s = buf@;
    let ghost p = pos as int;
    if buf.len() - pos < 3 || buf[pos] != 105 {
        proof {
            assert forall|n: i64| !starts(s, p, enc_int(n as int)) by {
                if starts(s, p, enc_int(n as int)) {
                    lemma_enc_int_shape(s, p, n as int);
                    lemma_dec_nat_canonical(vstd::math::abs(n as int) as nat);
                }
            }
        }
        return None;
    }
    let neg = buf[pos + 1] == 45;
    let start: usize = if neg {
        pos + 2
    } else {
        pos + 1
    };
    let digits = parse_digits(buf, start);
    match digits {
        None => {
            proof {
                assert forall|n: i64| !starts(s, p, enc_int(n as int)) by {
                    if starts(s, p, enc_int(n as int)) {
                        lemma_enc_int_shape(s, p, n as int);
                        let k = vstd::math::abs(n as int) as nat;
                        assert(digit_run(s, start as int, start + dec_nat(k).len(), k));
                    }
                }
            }
            None
        },
        Some((v, end)) => {
            let bad = if neg {
                v == 0 || v > 9223372036854775808u64
            } else {
                v > 9223372036854775807u64
            };
            if bad || end >= buf.len() || buf[end] != 101 {
                proof {
                    assert forall|n: i64| !starts(s, p, enc_int(n as int)) by {
                        if starts(s, p, enc_int(n as int)) {
                            lemma_enc_int_shape(s, p, n as int);
                            let k = vstd::math::abs(n as int) as nat;
                            lemma_digit_run_unique(
                                s,
                                start as int,
                                end as int,
                                v as nat,
                                start + dec_nat(k).len(),
                                k,
                            );
                        }
                    }
                }
                return None;
            }
            let n: i64 = if neg {
                if v == 9223372036854775808u64 {
                    i64::MIN
                } else {
                    -(v as i64)
                }
            } else {
                v as i64
            };
            proof {
                let t = enc_int(n as int);
                let d = dec_nat(v as nat);
                assert(s.subrange(p, end + 1) =~= t) by {
                    assert(s.subrange(start as int, end as int) == d);
                    assert forall|j: int| 0 <= j < t.len() implies s.subrange(p, end + 1)[j]
                        == t[j] by {
                        if start <= p + j < end {
                            assert(s.subrange(start as int, end as int)[p + j - start] == s[p
                                + j]);
                        }
                    }
                }
                lemma_int_at(s, p, n);
            }
            Some((n, end + 1))
        },
    }
}

/// What follows from a byte string's encoding standing at `pos`.
pub proof fn lemma_enc_bytes_shape(s: Seq<u8>, pos: int, b: Seq<u8>)
    requires
        starts(s, pos, enc_bytes(b)),
    ensures
        digit_run(s, pos, pos + dec_nat(b.len()).len(), b.len()),
        s[pos + dec_nat(b.len()).len()] == 58,
        enc_bytes(b).len() == dec_nat(b.len()).len() + 1 + b.len(),
        s.subrange(pos + dec_nat(b.len()).len() + 1, pos + enc_bytes(b).len()) == b,
{
    let t = enc_bytes(b);
    let d = dec_nat(b.len());
    let w = s.subrange(pos, pos + t.len());
    assert(w == t);
    assert(w[d.len() as int] == s[pos + d.len()]);
    assert(t[d.len() as int] == 58);
    assert(s.subrange(pos, pos + d.len()) =~= d) by {
        assert forall|j: int| 0 <= j < d.len() implies s.subrange(pos, pos + d.len())[j]
            == d[j] by {
            assert(w[j] == s[pos + j]);
            assert(t[j] == d[j]);
        }
    }
    assert(s.subrange(pos + d.len() + 1, pos + t.len()) =~= b) by {
        assert forall|j: int| 0 <= j < b.len() implies s.subrange(
            pos + d.len() + 1,
            pos + t.len(),
        )[j] == b[j] by {
            assert(w[d.len() + 1 + j] == s[pos + d.len() + 1 + j]);
            assert(t[d.len() + 1 + j] == b[j]);
        }
    }
}

/// At one position the encoding of at most one byte string stands.
pub proof fn lemma_enc_bytes_unique(s: Seq<u8>, pos: int, a: Seq<u8>, b: Seq<u8>)
    requires
        starts(s, pos, enc_bytes(a)),
        starts(s, pos, enc_bytes(b)),
    ensures
        a == b,
{
    lemma_enc_bytes_shape(s, pos, a);
    lemma_enc_bytes_shape(s, pos, b);
    lemma_digit_run_unique(
        s,
        pos,
        pos + dec_nat(a.len()).len(),
        a.len(),
        pos + dec_nat(b.len()).len(),
        b.len(),
    );
}

/// The byte string whose encoding stands at `pos`, with the position after it.
pub open spec fn bytes_at(s: Seq<u8>, pos: int) -> Option<(Seq<u8>, int)> {
    if exists|b: Seq<u8>| starts(s, pos, enc_bytes(b)) {
        let b = choose|b: Seq<u8>| starts(s, pos, enc_bytes(b));
        Some((b, pos + enc_bytes(b).len()))
    } else {
        None
    }
}

pub proof fn lemma_bytes_at(s: Seq<u8>, pos: int, b: Seq<u8>)
    requires
        starts(s, pos, enc_bytes(b)),
    ensures
        bytes_at(s, pos) == Some((b, pos + enc_bytes(b).len())),
{
    let m = choose|m: Seq<u8>| starts(s, pos, enc_bytes(m));
    lemma_enc_bytes_unique(s, pos, b, m);
}

/// Reads the byte string that stands at `pos`.
pub fn parse_bytes(buf: &[u8], pos: usize) -> (r: Option<(Vec<u8>, usize)>)
    requires
        pos <= buf.len(),
    ensures
        match r {
            Some((v, end)) => bytes_at(buf@, pos as int) == Some((v@, end as int)),
            None => bytes_at(buf@, pos as int) is None,
        },
{
    let ghost s = buf@;
    let ghost p = pos as int;
    let digits = parse_digits(buf, pos);
    match digits {
        None => {
            proof {
                assert forall|b: Seq<u8>| !starts(s, p, enc_bytes(b)) by {
                    if starts(s, p, enc_bytes(b)) {
                        lemma_enc_bytes_shape(s, p, b);
                        assert(digit_run(s, p, p + dec_nat(b.len()).len(), b.len()));
                    }
                }
            }
            None
        },
        Some((v, e)) => {
            if e >= buf.len() || buf[e] != 58 || v > (buf.len() - e - 1) as u64 {
                proof {
                    assert forall|b: Seq<u8>| !starts(s, p, enc_bytes(b)) by {
                        if starts(s, p, enc_bytes(b)) {
                            lemma_enc_bytes_shape(s, p, b);
                            lemma_digit_run_unique(
                                s,
                                p,
                                e as int,
                                v as nat,
                                p + dec_nat(b.len()).len(),
                                b.len(),
                            );
                        }
                    }
                }
                return None;
            }
            let n: usize = v as usize;
            let out = vstd::slice::slice_to_vec(vstd::slice::slice_subrange(buf, e + 1, e + 1 + n));
            proof {
                let t = enc_bytes(out@);
                assert(s.subrange(p, e + 1 + n) =~= t) by {
                    assert(s.subrange(p, e as int) == dec_nat(v as nat));
                    assert forall|j: int| 0 <= j < t.len() implies s.subrange(p, e + 1 + n)[j]
                        == t[j] by {
                        if p + j < e {
                            assert(s.subrange(p, e as int)[j] == s[p + j]);
                        }
                    }
                }
                lemma_bytes_at(s, p, out@);
            }
            Some((out, e + 1 + n))
        },
    }
}

/// `String::from_utf8` of the standard library: the text that the bytes spell,
/// when they are well-formed UTF-8, and nothing otherwise. Not proved here;
/// the body is the standard call.
#[verifier::external_body]
pub(crate) fn text_of_utf8(bytes: Vec<u8>) -> (r: Option<String>)
    ensures
        r is Some <==> valid_utf8(bytes@),
        r matches Some(t) ==> t@ == decode_utf8(bytes@),
{
    String::from_utf8(bytes).ok()
}

/// At one position the encoding of at most one text stands.
pub proof fn lemma_enc_str_unique(s: Seq<u8>, pos: int, a: Seq<char>, b: Seq<char>)
    requires
        starts(s, pos, enc_str(a)),
        starts(s, pos, enc_str(b)),
    ensures
        a == b,
{
    lemma_enc_bytes_unique(s, pos, encode_utf8(a), encode_utf8(b));
    encode_utf8_decode_utf8(a);
    encode_utf8_decode_utf8(b);
}

/// The text whose encoding stands at `pos`, with the position after it.
pub open spec fn str_at(s: Seq<u8>, pos: int) -> Option<(Seq<char>, int)> {
    if exists|c: Seq<char>| starts(s, pos, enc_str(c)) {
        let c = choose|c: Seq<char>| starts(s, pos, enc_str(c));
        Some((c, pos + enc_str(c).len()))
    } else {
        None
    }
}

pub proof fn lemma_str_at(s: Seq<u8>, pos: int, c: Seq<char>)
    requires
        starts(s, pos, enc_str(c)),
    ensures
        str_at(s, pos) == Some((c, pos + enc_str(c).len())),
{
    let m = choose|m: Seq<char>| starts(s, pos, enc_str(m));
    lemma_enc_str_unique(s, pos, c, m);
}

/// Reads the text that stands at `pos`.
pub fn parse_str(buf: &[u8], pos: usize) -> (r: Option<(String, usize)>)
    requires
        pos <= buf.len(),
    ensures
        match r {
            Some((v, end)) => str_at(buf@, pos as int) == Some((v@, end as int)),
            None => str_at(buf@, pos as int) is None,
        },
{
    let ghost s = buf@;
    let ghost p = pos as int;
    match parse_bytes(buf, pos) {
        None => {
            proof {
                assert forall|c: Seq<char>| !starts(s, p, enc_str(c)) by {
                    if starts(s, p, enc_str(c)) {
                        lemma_bytes_at(s, p, encode_utf8(c));
                    }
                }
            }
            None
        },
        Some((bytes, end)) => {
            let ghost b = bytes@;
            match text_of_utf8(bytes) {
                None => {
                    proof {
                        assert forall|c: Seq<char>| !starts(s, p, enc_str(c)) by {
                            if starts(s, p, enc_str(c)) {
                                lemma_bytes_at(s, p, encode_utf8(c));
                                encode_utf8_valid_utf8(c);
                            }
                        }
                    }
                    None
                },
                Some(text) => {
                    proof {
                        decode_utf8_encode_utf8(b);
                        lemma_str_at(s, p, text@);
                    }
                    Some((text, end))
                },
            }
        },
    }
}

/// The items of a list begin with the items of each of its prefixes.
pub proof fn lemma_byte_items_prefix(b: Seq<u8>, k: int)
    requires
        0 <= k <= b.len(),
    ensures
        enc_byte_items(b.take(k)).len() <= enc_byte_items(b).len(),
        enc_byte_items(b).subrange(0, enc_byte_items(b.take(k)).len() as int) == enc_byte_items(
            b.take(k),
        ),
    decreases b.len(),
{
    if k == b.len() {
        assert(b.take(k) =~= b);
        assert(enc_byte_items(b).subrange(0, enc_byte_items(b).len() as int) =~= enc_byte_items(
            b,
        ));
    } else {
        let p = b.drop_last();
        lemma_byte_items_prefix(p, k);
        assert(p.take(k) =~= b.take(k));
        let x = enc_byte_items(b.take(k));
        assert(enc_byte_items(b).subrange(0, x.len() as int) =~= enc_byte_items(p).subrange(
            0,
            x.len() as int,
        ));
    }
}

/// The items of a list have been read up to its `k`-th: they stand behind
/// the opening `l` at `pos`.
pub open spec fn list_open(s: Seq<u8>, pos: int, v: Seq<u8>) -> bool {
    starts(s, pos, seq![108u8] + enc_byte_items(v))
}

/// Where the `k`-th item of an opened list stands.
pub proof fn lemma_list_item_at(s: Seq<u8>, pos: int, v: Seq<u8>, k: int)
    requires
        list_open(s, pos, v),
        0 <= k < v.len(),
    ensures
        starts(s, pos + 1 + enc_byte_items(v.take(k)).len(), enc_int(v[k] as int)),
        list_open(s, pos, v.take(k)),
{
    let t = seq![108u8] + enc_byte_items(v);
    let w = s.subrange(pos, pos + t.len());
    assert(w == t);
    lemma_byte_items_prefix(v, k);
    lemma_byte_items_prefix(v, k + 1);
    let a = enc_byte_items(v.take(k));
    let a1 = enc_byte_items(v.take(k + 1));
    let x = enc_int(v[k] as int);
    assert(v.take(k + 1).drop_last() =~= v.take(k));
    assert(a1 == a + x);
    let q = pos + 1 + a.len();
    assert(s.subrange(q, q + x.len()) =~= x) by {
        assert forall|j: int| 0 <= j < x.len() implies s.subrange(q, q + x.len())[j] == x[j] by {
            assert(w[1 + a.len() + j] == s[q + j]);
            assert(enc_byte_items(v).subrange(0, a1.len() as int)[a.len() + j] == a1[a.len()
                + j]);
        }
    }
    let tk = seq![108u8] + a;
    assert(s.subrange(pos, pos + tk.len()) =~= tk) by {
        assert forall|j: int| 0 <= j < tk.len() implies s.subrange(pos, pos + tk.len())[j]
            == tk[j] by {
            assert(w[j] == s[pos + j]);
            if j >= 1 {
                assert(enc_byte_items(v).subrange(0, a.len() as int)[j - 1] == a[j - 1]);
            }
        }
    }
}

/// What follows from a byte list's encoding standing at `pos`.
pub proof fn lemma_enc_byte_list_shape(s: Seq<u8>, pos: int, b: Seq<u8>)
    requires
        starts(s, pos, enc_byte_list(b)),
    ensures
        list_open(s, pos, b),
        s[pos] == 108,
        s[pos + 1 + enc_byte_items(b).len()] == 101,
        enc_byte_list(b).len() == enc_byte_items(b).len() + 2,
{
    let t = enc_byte_list(b);
    let w = s.subrange(pos, pos + t.len());
    assert(w == t);
    assert(w[0] == s[pos]);
    assert(w[t.len() - 1] == s[pos + t.len() - 1]);
    let tk = seq![108u8] + enc_byte_items(b);
    assert(s.subrange(pos, pos + tk.len()) =~= tk) by {
        assert forall|j: int| 0 <= j < tk.len() implies s.subrange(pos, pos + tk.len())[j]
            == tk[j] by {
            assert(w[j] == s[pos + j]);
        }
    }
}

/// An opened list and a whole list at one position agree on the items that
/// the opened one holds.
pub proof fn lemma_list_agree(s: Seq<u8>, pos: int, v: Seq<u8>, b: Seq<u8>, k: int)
    requires
        list_open(s, pos, v),
        starts(s, pos, enc_byte_list(b)),
        0 <= k <= v.len(),
    ensures
        k <= b.len(),
        b.take(k) == v.take(k),
    decreases k,
{
    if k == 0 {
        assert(b.take(0) =~= v.take(0));
    } else {
        lemma_list_agree(s, pos, v, b, k - 1);
        lemma_list_item_at(s, pos, v, k - 1);
        let q = pos + 1 + enc_byte_items(v.take(k - 1)).len();
        lemma_enc_int_shape(s, q, v[k - 1] as int);
        lemma_enc_byte_list_shape(s, pos, b);
        if b.len() == k - 1 {
            assert(b.take(k - 1) =~= b);
            assert(false);
        }
        lemma_list_item_at(s, pos, b, k - 1);
        lemma_enc_int_unique(s, q, v[k - 1] as int, b[k - 1] as int);
        assert(b.take(k) =~= b.take(k - 1).push(b[k - 1]));
        assert(v.take(k) =~= v.take(k - 1).push(v[k - 1]));
    }
}

/// The byte list whose encoding stands at `pos`, with the position after it.
pub open spec fn byte_list_at(s: Seq<u8>, pos: int) -> Option<(Seq<u8>, int)> {
    if exists|b: Seq<u8>| starts(s, pos, enc_byte_list(b)) {
        let b = choose|b: Seq<u8>| starts(s, pos, enc_byte_list(b));
        Some((b, pos + enc_byte_list(b).len()))
    } else {
        None
    }
}

/// At one position the encoding of at most one byte list stands.
pub proof fn lemma_enc_byte_list_unique(s: Seq<u8>, pos: int, a: Seq<u8>, b: Seq<u8>)
    requires
        starts(s, pos, enc_byte_list(a)),
        starts(s, pos, enc_byte_list(b)),
    ensures
        a == b,
{
    lemma_enc_byte_list_shape(s, pos, a);
    lemma_enc_byte_list_shape(s, pos, b);
    lemma_list_agree(s, pos, a, b, a.len() as int);
    lemma_list_agree(s, pos, b, a, b.len() as int);
    assert(a.take(a.len() as int) =~= a);
    assert(b.take(b.len() as int) =~= b);
    if a.len() < b.len() {
        lemma_list_agree(s, pos, b, a, a.len() as int);
    } else if b.len() < a.len() {
        lemma_list_agree(s, pos, a, b, b.len() as int);
    }
}

pub proof fn lemma_byte_list_at(s: Seq<u8>, pos: int, b: Seq<u8>)
    requires
        starts(s, pos, enc_byte_list(b)),
    ensures
        byte_list_at(s, pos) == Some((b, pos + enc_byte_list(b).len())),
{
    let m = choose|m: Seq<u8>| starts(s, pos, enc_byte_list(m));
    lemma_enc_byte_list_unique(s, pos, b, m);
}

/// No whole list stands where an opened list is followed by something that
/// neither ends the list nor is a further item of it.
proof fn lemma_list_stuck(s: Seq<u8>, pos: int, v: Seq<u8>, b: Seq<u8>)
    requires
        list_open(s, pos, v),
        starts(s, pos, enc_byte_list(b)),
    ensures
        b.len() >= v.len(),
        b.take(v.len() as int) == v,
        b.len() == v.len() ==> pos + 1 + enc_byte_items(v).len() < s.len() && s[pos + 1
            + enc_byte_items(v).len()] == 101,
        b.len() > v.len() ==> starts(
            s,
            pos + 1 + enc_byte_items(v).len(),
            enc_int(b[v.len() as int] as int),
        ),
{
    lemma_list_agree(s, pos, v, b, v.len() as int);
    assert(v.take(v.len() as int) =~= v);
    lemma_enc_byte_list_shape(s, pos, b);
    if b.len() == v.len() {
        assert(b.take(v.len() as int) =~= b);
    } else {
        lemma_list_item_at(s, pos, b, v.len() as int);
    }
}

/// Reads the byte list that stands at `pos`.
pub fn parse_byte_list(buf: &[u8], pos: usize) -> (r: Option<(Vec<u8>, usize)>)
    requires
        pos <= buf.len(),
    ensures
        match r {
            Some((v, end)) => byte_list_at(buf@, pos as int) == Some((v@, end as int)),
            None => byte_list_at(buf@, pos as int) is None,
        },
{
    let ghost s = buf@;
    let ghost p = pos as int;
    if pos >= buf.len() || buf[pos] != 108 {
        proof {
            assert forall|b: Seq<u8>| !starts(s, p, enc_byte_list(b)) by {
                if starts(s, p, enc_byte_list(b)) {
                    lemma_enc_byte_list_shape(s, p, b);
                }
            }
        }
        return None;
    }
    let mut out: Vec<u8> = Vec::new();
    let mut i: usize = pos + 1;
    proof {
        assert(s.subrange(p, p + 1) =~= seq![108u8] + enc_byte_items(out@));
    }
    loop
        invariant
            s == buf@,
            p == pos as int,
            pos < i <= buf.len(),
            list_open(s, p, out@),
            i == p + 1 + enc_byte_items(out@).len(),
        decreases buf.len() - i,
    {
        if i < buf.len() && buf[i] == 101 {
            proof {
                let t = enc_byte_list(out@);
                assert(s.subrange(p, i + 1) =~= t) by {
                    let tk = seq![108u8] + enc_byte_items(out@);
                    assert(s.subrange(p, p + tk.len()) == tk);
                    assert forall|j: int| 0 <= j < t.len() implies s.subrange(p, i + 1)[j]
                        == t[j] by {
                        if j < tk.len() {
                            assert(s.subrange(p, p + tk.len())[j] == s[p + j]);
                        }
                    }
                }
                lemma_byte_list_at(s, p, out@);
            }
            return Some((out, i + 1));
        }
        let item = parse_int(buf, i);
        let ghost stuck = match item {
            None => true,
            Some((n, _)) => n < 0 || n > 255,
        };
        proof {
            if stuck {
                assert forall|b: Seq<u8>| !starts(s, p, enc_byte_list(b)) by {
                    if starts(s, p, enc_byte_list(b)) {
                        lemma_list_stuck(s, p, out@, b);
                        if b.len() > out@.len() {
                            lemma_int_at(s, i as int, b[out@.len() as int] as i64);
                        }
                    }
                }
            }
        }
        match item {
            None => {
                return None;
            },
            Some((n, end)) => {
                if n < 0 || n > 255 {
                    return None;
                }
                let x: u8 = n as u8;
                proof {
                    let nv = out@.push(x);
                    assert(nv.drop_last() =~= out@);
                    let t0 = seq![108u8] + enc_byte_items(out@);
                    let t1 = seq![108u8] + enc_byte_items(nv);
                    assert(t1 =~= t0 + enc_int(x as int));
                    assert(s.subrange(p, p + t0.len()) == t0);
                    assert(s.subrange(i as int, end as int) == enc_int(x as int));
                    assert(s.subrange(p, p + t1.len()) =~= t1) by {
                        assert forall|j: int| 0 <= j < t1.len() implies s.subrange(
                            p,
                            p + t1.len(),
                        )[j] == t1[j] by {
                            if j < t0.len() {
                                assert(s.subrange(p, p + t0.len())[j] == s[p + j]);
                            } else {
                                assert(s.subrange(i as int, end as int)[j - t0.len()] == s[p
                                    + j]);
                            }
                        }
                    }
                }
                out.push(x);
                i = end;
            },
        }
    }
}

/// What follows from an optional text's encoding standing at `pos`.
pub proof fn lemma_enc_opt_str_shape(s: Seq<u8>, pos: int, o: Option<Seq<char>>)
    requires
        starts(s, pos, enc_opt_str(o)),
    ensures
        s[pos] == 108,
        o is None ==> s[pos + 1] == 101 && enc_opt_str(o).len() == 2,
        o matches Some(c) ==> s[pos + 1] != 101 && starts(s, pos + 1, enc_str(c)) && s[pos + 1
            + enc_str(c).len()] == 101 && enc_opt_str(o).len() == enc_str(c).len() + 2,
{
    let t = enc_opt_str(o);
    let w = s.subrange(pos, pos + t.len());
    assert(w == t);
    assert(w[0] == s[pos]);
    assert(w[1] == s[pos + 1]);
    assert(w[t.len() - 1] == s[pos + t.len() - 1]);
    match o {
        None => {},
        Some(c) => {
            let x = enc_str(c);
            lemma_dec_nat_canonical(encode_utf8(c).len());
            assert(x[0] == dec_nat(encode_utf8(c).len())[0]);
            assert(is_digit(x[0]));
            assert(t[1] == x[0]);
            assert(s.subrange(pos + 1, pos + 1 + x.len()) =~= x) by {
                assert forall|j: int| 0 <= j < x.len() implies s.subrange(
                    pos + 1,
                    pos + 1 + x.len(),
                )[j] == x[j] by {
                    assert(w[j + 1] == s[pos + 1 + j]);
                }
            }
        },
    }
}

/// At one position the encoding of at most one optional text stands.
pub proof fn lemma_enc_opt_str_unique(
    s: Seq<u8>,
    pos: int,
    a: Option<Seq<char>>,
    b: Option<Seq<char>>,
)
    requires
        starts(s, pos, enc_opt_str(a)),
        starts(s, pos, enc_opt_str(b)),
    ensures
        a == b,
{
    lemma_enc_opt_str_shape(s, pos, a);
    lemma_enc_opt_str_shape(s, pos, b);
    if a is Some && b is Some {
        lemma_enc_str_unique(s, pos + 1, a.unwrap(), b.unwrap());
    }
}

/// The optional text whose encoding stands at `pos`, with the position after it.
pub open spec fn opt_str_at(s: Seq<u8>, pos: int) -> Option<(Option<Seq<char>>, int)> {
    if exists|o: Option<Seq<char>>| starts(s, pos, enc_opt_str(o)) {
        let o = choose|o: Option<Seq<char>>| starts(s, pos, enc_opt_str(o));
        Some((o, pos + enc_opt_str(o).len()))
    } else {
        None
    }
}

pub proof fn lemma_opt_str_at(s: Seq<u8>, pos: int, o: Option<Seq<char>>)
    requires
        starts(s, pos, enc_opt_str(o)),
    ensures
        opt_str_at(s, pos) == Some((o, pos + enc_opt_str(o).len())),
{
    let m = choose|m: Option<Seq<char>>| starts(s, pos, enc_opt_str(m));
    lemma_enc_opt_str_unique(s, pos, o, m);
}

/// The view of an optional text.
pub open spec fn opt_view(o: Option<String>) -> Option<Seq<char>> {
    match o {
        None => None,
        Some(t) => Some(t@),
    }
}

/// Reads the optional text that stands at `pos`.
pub fn parse_opt_str(buf: &[u8], pos: usize) -> (r: Option<(Option<String>, usize)>)
    requires
        pos <= buf.len(),
    ensures
        match r {
            Some((v, end)) => opt_str_at(buf@, pos as int) == Some((opt_view(v), end as int)),
            None => opt_str_at(buf@, pos as int) is None,
        },
{
    let ghost s = buf@;
    let ghost p = pos as int;
    if buf.len() - pos < 2 || buf[pos] != 108 {
        proof {
            assert forall|o: Option<Seq<char>>| !starts(s, p, enc_opt_str(o)) by {
                if starts(s, p, enc_opt_str(o)) {
                    lemma_enc_opt_str_shape(s, p, o);
                }
            }
        }
        return None;
    }
    if buf[pos + 1] == 101 {
        proof {
            assert(s.subrange(p, p + 2) =~= enc_opt_str(None));
            lemma_opt_str_at(s, p, None);
        }
        return Some((None, pos + 2));
    }
    let inner = parse_str(buf, pos + 1);
    let ghost stuck = match inner {
        None => true,
        Some((_, end)) => end >= buf.len() || buf@[end as int] != 101,
    };
    proof {
        if stuck {
            assert forall|o: Option<Seq<char>>| !starts(s, p, enc_opt_str(o)) by {
                if starts(s, p, enc_opt_str(o)) {
                    lemma_enc_opt_str_shape(s, p, o);
                    lemma_str_at(s, p + 1, o.unwrap());
                }
            }
        }
    }
    match inner {
        None => None,
        Some((text, end)) => {
            if end >= buf.len() || buf[end] != 101 {
                return None;
            }
            proof {
                let o = Some(text@);
                let t = enc_opt_str(o);
                let x = enc_str(text@);
                assert(s.subrange(p + 1, end as int) == x);
                assert(s.subrange(p, end + 1) =~= t) by {
                    assert forall|j: int| 0 <= j < t.len() implies s.subrange(p, end + 1)[j]
                        == t[j] by {
                        if 1 <= j <= x.len() {
                            assert(s.subrange(p + 1, end as int)[j - 1] == s[p + j]);
                        }
                    }
                }
                lemma_opt_str_at(s, p, o);
            }
            Some((Some(text), end + 1))
        },
    }
}

/// Appends the bytes of `lit`.
pub fn push_lit(out: &mut Vec<u8>, lit: &[u8])
    ensures
        final(out)@ == old(out)@ + lit@,
{
    out.extend_from_slice(lit);
}

/// Appends the decimal numeral of `n`.
pub fn push_digits(out: &mut Vec<u8>, n: u64)
    ensures
        final(out)@ == old(out)@ + dec_nat(n as nat),
    decreases n,
{
    if n >= 10 {
        push_digits(out, n / 10);
    }
    out.push(48 + (n % 10) as u8);
    proof {
        assert(final(out)@ =~= old(out)@ + dec_nat(n as nat));
    }
}

/// Appends the encoding of an integer.
pub fn push_int(out: &mut Vec<u8>, n: i64)
    ensures
        final(out)@ == old(out)@ + enc_int(n as int),
{
    out.push(105);
    if n < 0 {
        out.push(45);
        let magnitude: u64 = if n == i64::MIN {
            9223372036854775808u64
        } else {
            (-n) as u64
        };
        push_digits(out, magnitude);
    } else {
        push_digits(out, n as u64);
    }
    out.push(101);
    proof {
        assert(final(out)@ =~= old(out)@ + enc_int(n as int));
    }
}

/// Appends the encoding of a byte string.
pub fn push_bytes(out: &mut Vec<u8>, b: &[u8])
    ensures
        final(out)@ == old(out)@ + enc_bytes(b@),
{
    push_digits(out, b.len() as u64);
    out.push(58);
    out.extend_from_slice(b);
    proof {
        assert(final(out)@ =~= old(out)@ + enc_bytes(b@));
    }
}

/// Appends the encoding of a text.
pub fn push_str(out: &mut Vec<u8>, t: &str)
    ensures
        final(out)@ == old(out)@ + enc_str(t@),
{
    push_bytes(out, t.as_bytes());
}

/// Appends the encoding of a byte list.
pub fn push_byte_list(out: &mut Vec<u8>, b: &[u8])
    ensures
        final(out)@ == old(out)@ + enc_byte_list(b@),
{
    out.push(108);
    let mut i: usize = 0;
    while i < b.len()
        invariant
            i <= b.len(),
            out@ == old(out)@ + seq![108u8] + enc_byte_items(b@.take(i as int)),
        decreases b.len() - i,
    {
        let ghost before = out@;
        push_int(out, b[i] as i64);
        proof {
            assert(b@.take(i + 1).drop_last() =~= b@.take(i as int));
            assert(out@ =~= old(out)@ + seq![108u8] + enc_byte_items(b@.take(i + 1)));
        }
        i += 1;
    }
    out.push(101);
    proof {
        assert(b@.take(b.len() as int) =~= b@);
        assert(final(out)@ =~= old(out)@ + enc_byte_list(b@));
    }
}

/// Appends the encoding of an optional text.
pub fn push_opt_str(out: &mut Vec<u8>, o: &Option<String>)
    ensures
        final(out)@ == old(out)@ + enc_opt_str(opt_view(*o)),
{
    out.push(108);
    match o {
        None => {},
        Some(t) => {
            push_str(out, t.as_str());
        },
    }
    out.push(101);
    proof {
        assert(final(out)@ =~= old(out)@ + enc_opt_str(opt_view(*o)));
    }
}

/// The bytes of a fixed piece of an encoding, written as text.
pub open spec fn lit(t: &str) -> Seq<u8> {
    t.spec_bytes()
}

/// Reads the fixed bytes `lit` at `pos`, and gives the position after them.
pub fn expect_lit(buf: &[u8], pos: usize, lit: &[u8]) -> (r: Option<usize>)
    requires
        pos <= buf.len(),
    ensures
        match r {
            Some(end) => starts(buf@, pos as int, lit@) && end == pos + lit@.len(),
            None => !starts(buf@, pos as int, lit@),
        },
{
    if lit.len() > buf.len() - pos {
        return None;
    }
    let mut i: usize = 0;
    while i < lit.len()
        invariant
            pos + lit.len() <= buf.len(),
            i <= lit.len(),
            forall|j: int| 0 <= j < i ==> buf@[pos + j] == lit@[j],
        decreases lit.len() - i,
    {
        if buf[pos + i] != lit[i] {
            assert(buf@.subrange(pos as int, pos + lit.len())[i as int] != lit@[i as int]);
            return None;
        }
        i += 1;
    }
    assert(buf@.subrange(pos as int, pos + lit.len()) =~= lit@);
    Some(pos + lit.len())
}

/// A piece in the middle of something that stands at `pos` stands behind
/// what precedes it.
pub proof fn lemma_starts_part(s: Seq<u8>, pos: int, pre: Seq<u8>, t: Seq<u8>, post: Seq<u8>)
    requires
        starts(s, pos, pre + t + post),
    ensures
        starts(s, pos + pre.len(), t),
{
    let w = pre + t + post;
    let v = s.subrange(pos, pos + w.len());
    assert(v == w);
    let q = pos + pre.len();
    assert(s.subrange(q, q + t.len()) =~= t) by {
        assert forall|j: int| 0 <= j < t.len() implies s.subrange(q, q + t.len())[j] == t[j] by {
            assert(v[pre.len() + j] == s[q + j]);
            assert(w[pre.len() + j] == t[j]);
        }
    }
}

/// Where two pieces stand as one, each of them stands.
pub proof fn lemma_starts_split(s: Seq<u8>, pos: int, a: Seq<u8>, b: Seq<u8>)
    requires
        starts(s, pos, a + b),
    ensures
        starts(s, pos, a),
        starts(s, pos + a.len(), b),
{
    let e = Seq::<u8>::empty();
    assert(a + b =~= e + a + b);
    lemma_starts_part(s, pos, e, a, b);
    assert(a + b =~= a + b + e);
    lemma_starts_part(s, pos, a, b, e);
}

/// Two pieces that stand one behind the other stand there as one.
pub proof fn lemma_starts_join(s: Seq<u8>, pos: int, a: Seq<u8>, b: Seq<u8>)
    requires
        starts(s, pos, a),
        starts(s, pos + a.len(), b),
    ensures
        starts(s, pos, a + b),
{
    let w = a + b;
    assert(s.subrange(pos, pos + w.len()) =~= w) by {
        assert forall|j: int| 0 <= j < w.len() implies s.subrange(pos, pos + w.len())[j]
            == w[j] by {
            if j < a.len() {
                assert(s.subrange(pos, pos + a.len())[j] == s[pos + j]);
            } else {
                assert(s.subrange(pos + a.len(), pos + a.len() + b.len())[j - a.len()] == s[pos
                    + j]);
            }
        }
    }
}

} // verus!
