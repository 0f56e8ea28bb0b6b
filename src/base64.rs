//! Base64 (RFC 4648, standard alphabet, padded) over bytes: the text side is
//! the ASCII codes of the digits.
use vstd::prelude::*;

verus! {

/// The ASCII code of the digit for a six-bit value.
pub open spec fn digit(v: u8) -> u8 {
    if v < 26 {
        (v + 65) as u8
    } else if v < 52 {
        (v + 71) as u8
    } else if v < 62 {
        (v - 4) as u8
    } else if v == 62 {
        43u8
    } else {
        47u8
    }
}

/// Whether the byte is one of the 64 digits.
pub open spec fn is_digit(c: u8) -> bool {
    (65 <= c <= 90) || (97 <= c <= 122) || (48 <= c <= 57) || c == 43 || c == 47
}

/// The six-bit value of a digit (0 for any other byte).
pub open spec fn value(c: u8) -> u8 {
    if 65 <= c <= 90 {
        (c - 65) as u8
    } else if 97 <= c <= 122 {
        (c - 71) as u8
    } else if 48 <= c <= 57 {
        (c + 4) as u8
    } else if c == 43 {
        62u8
    } else if c == 47 {
        63u8
    } else {
        0u8
    }
}

/// The four digits of three bytes.
pub open spec fn enc3(a: u8, b: u8, c: u8) -> Seq<u8> {
    seq![
        digit(a >> 2),
        digit(((a & 3) << 4) | (b >> 4)),
        digit(((b & 15) << 2) | (c >> 6)),
        digit(c & 63),
    ]
}

/// The digits of a run of whole three-byte groups.
pub open spec fn enc_groups(b: Seq<u8>) -> Seq<u8>
    decreases b.len(),
{
    if b.len() < 3 {
        Seq::empty()
    } else {
        enc_groups(b.subrange(0, b.len() - 3)) + enc3(b[b.len() - 3], b[b.len() - 2], b[b.len() - 1])
    }
}

/// The padded digits of the last one or two bytes.
pub open spec fn enc_tail(b: Seq<u8>) -> Seq<u8> {
    if b.len() == 1 {
        seq![digit(b[0] >> 2), digit((b[0] & 3) << 4), 61u8, 61u8]
    } else if b.len() == 2 {
        seq![digit(b[0] >> 2), digit(((b[0] & 3) << 4) | (b[1] >> 4)), digit((b[1] & 15) << 2), 61u8]
    } else {
        Seq::empty()
    }
}

/// The base64 text of a byte sequence.
pub open spec fn encode_spec(b: Seq<u8>) -> Seq<u8> {
    let k = b.len() - b.len() % 3;
    enc_groups(b.subrange(0, k)) + enc_tail(b.subrange(k, b.len() as int))
}

/// The three bytes of four digits.
pub open spec fn dec4(w: u8, x: u8, y: u8, z: u8) -> Seq<u8> {
    let (p, q, r, s) = (value(w), value(x), value(y), value(z));
    seq![((p << 2) | (q >> 4)) as u8, (((q & 15) << 4) | (r >> 2)) as u8, (((r & 3) << 6) | s) as u8]
}

/// The bytes of a run of whole four-digit groups.
pub open spec fn dec_groups(t: Seq<u8>) -> Seq<u8>
    decreases t.len(),
{
    if t.len() < 4 {
        Seq::empty()
    } else {
        let n = t.len();
        dec_groups(t.subrange(0, n - 4)) + dec4(t[n - 4], t[n - 3], t[n - 2], t[n - 1])
    }
}

/// Whether the text is padded base64: whole groups of digits, where the last
/// group may end in one or two `=`.
pub open spec fn is_valid(t: Seq<u8>) -> bool {
    let n = t.len();
    &&& n % 4 == 0
    &&& forall|i: int| 0 <= i < n - 2 ==> is_digit(#[trigger] t[i])
    &&& n >= 4 ==> (is_digit(t[n - 2]) || (t[n - 2] == 61 && t[n - 1] == 61))
    &&& n >= 4 ==> (is_digit(t[n - 1]) || t[n - 1] == 61)
}

/// The bytes of valid base64 text.
pub open spec fn decode_spec(t: Seq<u8>) -> Seq<u8> {
    let n = t.len();
    if n < 4 {
        Seq::empty()
    } else {
        let last = dec4(t[n - 4], t[n - 3], t[n - 2], t[n - 1]);
        let keep = if t[n - 2] == 61 {
            1int
        } else if t[n - 1] == 61 {
            2int
        } else {
            3int
        };
        dec_groups(t.subrange(0, n - 4)) + last.subrange(0, keep)
    }
}

proof fn lemma_value_digit(v: u8)
    requires
        v < 64,
    ensures
        value(digit(v)) == v,
        is_digit(digit(v)),
{
}

proof fn lemma_group_bits(a: u8, b: u8, c: u8)
    ensures
        (((a >> 2) << 2) | ((((a & 3) << 4) | (b >> 4)) >> 4)) as u8 == a,
        ((((((a & 3) << 4) | (b >> 4)) & 15) << 4) | ((((b & 15) << 2) | (c >> 6)) >> 2)) as u8
            == b,
        ((((((b & 15) << 2) | (c >> 6)) & 3) << 6) | (c & 63)) as u8 == c,
        a >> 2 < 64,
        ((a & 3) << 4) | (b >> 4) < 64,
        ((b & 15) << 2) | (c >> 6) < 64,
        c & 63 < 64,
{
    assert((((a >> 2) << 2) | ((((a & 3) << 4) | (b >> 4)) >> 4)) as u8 == a) by (bit_vector);
    assert(((((((a & 3) << 4) | (b >> 4)) & 15) << 4) | ((((b & 15) << 2) | (c >> 6)) >> 2)) as u8
        == b) by (bit_vector);
    assert(((((((b & 15) << 2) | (c >> 6)) & 3) << 6) | (c & 63)) as u8 == c) by (bit_vector);
    assert(a >> 2 < 64) by (bit_vector);
    assert(((a & 3) << 4) | (b >> 4) < 64) by (bit_vector);
    assert(((b & 15) << 2) | (c >> 6) < 64) by (bit_vector);
    assert(c & 63 < 64) by (bit_vector);
}

proof fn lemma_group_round_trip(a: u8, b: u8, c: u8)
    ensures
        ({
            let e = enc3(a, b, c);
            dec4(e[0], e[1], e[2], e[3]) == seq![a, b, c]
        }),
        forall|i: int| 0 <= i < 4 ==> is_digit(#[trigger] enc3(a, b, c)[i]),
{
    lemma_group_bits(a, b, c);
    lemma_value_digit(a >> 2);
    lemma_value_digit(((a & 3) << 4) | (b >> 4));
    lemma_value_digit(((b & 15) << 2) | (c >> 6));
    lemma_value_digit(c & 63);
    let e = enc3(a, b, c);
    assert(dec4(e[0], e[1], e[2], e[3]) =~= seq![a, b, c]);
}

proof fn lemma_groups_round_trip(b: Seq<u8>)
    requires
        b.len() % 3 == 0,
    ensures
        enc_groups(b).len() == b.len() / 3 * 4,
        dec_groups(enc_groups(b)) == b,
        forall|i: int| 0 <= i < enc_groups(b).len() ==> is_digit(#[trigger] enc_groups(b)[i]),
    decreases b.len(),
{
    if b.len() >= 3 {
        let n = b.len();
        let front = b.subrange(0, n - 3);
        lemma_groups_round_trip(front);
        lemma_group_round_trip(b[n - 3], b[n - 2], b[n - 1]);
        let e = enc_groups(b);
        let ef = enc_groups(front);
        let g = enc3(b[n - 3], b[n - 2], b[n - 1]);
        assert(e == ef + g);
        assert(e.subrange(0, e.len() - 4) =~= ef);
        assert(e[e.len() - 4] == g[0] && e[e.len() - 3] == g[1] && e[e.len() - 2] == g[2]
            && e[e.len() - 1] == g[3]);
        assert(front + seq![b[n - 3], b[n - 2], b[n - 1]] =~= b);
        assert forall|i: int| 0 <= i < e.len() implies is_digit(#[trigger] e[i]) by {
            if i >= ef.len() {
                assert(e[i] == g[i - ef.len()]);
            }
        }
    } else {
        assert(b.len() == 0);
        assert(dec_groups(Seq::<u8>::empty()) =~= b);
    }
}

proof fn lemma_tail_round_trip(b: Seq<u8>)
    requires
        b.len() == 1 || b.len() == 2,
    ensures
        ({
            let t = enc_tail(b);
            let last = dec4(t[0], t[1], t[2], t[3]);
            let keep = if t[2] == 61 {
                1int
            } else if t[3] == 61 {
                2int
            } else {
                3int
            };
            &&& t.len() == 4
            &&& last.subrange(0, keep) == b
            &&& is_digit(t[0]) && is_digit(t[1])
            &&& is_digit(t[2]) || (t[2] == 61 && t[3] == 61)
            &&& t[3] == 61
        }),
{
    if b.len() == 1 {
        lemma_group_round_trip(b[0], 0, 0);
        assert(((b[0] & 3) << 4) == (((b[0] & 3) << 4) | (0u8 >> 4))) by (bit_vector);
        let t = enc_tail(b);
        assert(t[0] == enc3(b[0], 0, 0)[0] && t[1] == enc3(b[0], 0, 0)[1]);
        assert(dec4(t[0], t[1], t[2], t[3]).subrange(0, 1) =~= b);
    } else {
        lemma_group_round_trip(b[0], b[1], 0);
        assert(((b[1] & 15) << 2) == (((b[1] & 15) << 2) | (0u8 >> 6))) by (bit_vector);
        let t = enc_tail(b);
        assert(t[0] == enc3(b[0], b[1], 0)[0] && t[1] == enc3(b[0], b[1], 0)[1] && t[2] == enc3(
            b[0],
            b[1],
            0,
        )[2]);
        assert(dec4(t[0], t[1], t[2], t[3]).subrange(0, 2) =~= b);
    }
}

/// Decoding the base64 text of any byte sequence gives the bytes back, and the
/// text is valid base64.
pub proof fn lemma_round_trip(b: Seq<u8>)
    ensures
        is_valid(encode_spec(b)),
        decode_spec(encode_spec(b)) == b,
{
    let k = b.len() - b.len() % 3;
    let front = b.subrange(0, k);
    let back = b.subrange(k, b.len() as int);
    lemma_groups_round_trip(front);
    let ef = enc_groups(front);
    let t = encode_spec(b);
    assert(t == ef + enc_tail(back));
    if back.len() == 0 {
        assert(enc_tail(back) =~= Seq::<u8>::empty());
        assert(t =~= ef);
        assert(front =~= b);
        if t.len() >= 4 {
            let n = t.len();
            assert(dec_groups(t) == dec_groups(t.subrange(0, n - 4)) + dec4(
                t[n - 4],
                t[n - 3],
                t[n - 2],
                t[n - 1],
            ));
            assert(is_digit(t[n - 2]) && is_digit(t[n - 1]));
            assert(t[n - 2] != 61 && t[n - 1] != 61);
            let last = dec4(t[n - 4], t[n - 3], t[n - 2], t[n - 1]);
            assert(last.subrange(0, 3) =~= last);
        } else {
            assert(b.len() == 0);
            assert(decode_spec(t) =~= b);
        }
    } else {
        lemma_tail_round_trip(back);
        let tl = enc_tail(back);
        let n = t.len();
        assert(t.subrange(0, n - 4) =~= ef);
        assert(t[n - 4] == tl[0] && t[n - 3] == tl[1] && t[n - 2] == tl[2] && t[n - 1] == tl[3]);
        assert(front + back =~= b);
        assert forall|i: int| 0 <= i < n - 2 implies is_digit(#[trigger] t[i]) by {
            if i < ef.len() {
                assert(t[i] == ef[i]);
            } else {
                assert(t[i] == tl[i - ef.len()]);
            }
        }
    }
}

fn digit_of(v: u8) -> (r: u8)
    requires
        v < 64,
    ensures
        r == digit(v),
{
    if v < 26 {
        v + 65
    } else if v < 52 {
        v + 71
    } else if v < 62 {
        v - 4
    } else if v == 62 {
        43
    } else {
        47
    }
}

fn value_of(c: u8) -> (r: u8)
    ensures
        r == value(c),
{
    if 65 <= c && c <= 90 {
        c - 65
    } else if 97 <= c && c <= 122 {
        c - 71
    } else if 48 <= c && c <= 57 {
        c + 4
    } else if c == 43 {
        62
    } else if c == 47 {
        63
    } else {
        0
    }
}

fn is_digit_byte(c: u8) -> (r: bool)
    ensures
        r == is_digit(c),
{
    (65 <= c && c <= 90) || (97 <= c && c <= 122) || (48 <= c && c <= 57) || c == 43 || c == 47
}

proof fn lemma_enc_groups_step(b: Seq<u8>, i: int)
    requires
        0 <= i,
        i + 3 <= b.len(),
        i % 3 == 0,
    ensures
        enc_groups(b.subrange(0, i + 3)) == enc_groups(b.subrange(0, i)) + enc3(b[i], b[i + 1], b[i + 2]),
{
    let p = b.subrange(0, i + 3);
    assert(p.subrange(0, i) =~= b.subrange(0, i));
}

/// The base64 text of the bytes, as ASCII codes.
pub fn encode(b: &[u8]) -> (r: Vec<u8>)
    requires
        b@.len() <= usize::MAX / 2,
    ensures
        r@ == encode_spec(b@),
{
    let n = b.len();
    let k = n - n % 3;
    let mut r: Vec<u8> = Vec::new();
    let mut i: usize = 0;
    while i < k
        invariant
            n == b@.len(),
            k == n - n % 3,
            i <= k,
            i % 3 == 0,
            k % 3 == 0,
            r@ == enc_groups(b@.subrange(0, i as int)),
        decreases k - i,
    {
        let (x, y, z) = (b[i], b[i + 1], b[i + 2]);
        proof {
            lemma_enc_groups_step(b@, i as int);
            lemma_group_bits(x, y, z);
        }
        r.push(digit_of(x >> 2));
        r.push(digit_of(((x & 3) << 4) | (y >> 4)));
        r.push(digit_of(((y & 15) << 2) | (z >> 6)));
        r.push(digit_of(z & 63));
        i = i + 3;
        assert(r@ =~= enc_groups(b@.subrange(0, i as int)));
    }
    let ghost front = r@;
    if n - k == 1 {
        let x = b[k];
        assert((x >> 2) < 64 && ((x & 3) << 4) < 64) by (bit_vector);
        r.push(digit_of(x >> 2));
        r.push(digit_of((x & 3) << 4));
        r.push(61);
        r.push(61);
    } else if n - k == 2 {
        let (x, y) = (b[k], b[k + 1]);
        proof {
            lemma_group_bits(x, y, 0);
        }
        assert(((y & 15) << 2) < 64) by (bit_vector);
        r.push(digit_of(x >> 2));
        r.push(digit_of(((x & 3) << 4) | (y >> 4)));
        r.push(digit_of((y & 15) << 2));
        r.push(61);
    }
    assert(r@ =~= encode_spec(b@));
    r
}

/// Whether the text is valid base64.
pub fn check(t: &[u8]) -> (r: bool)
    ensures
        r == is_valid(t@),
{
    let n = t.len();
    if n % 4 != 0 {
        return false;
    }
    if n == 0 {
        return true;
    }
    let mut i: usize = 0;
    while i < n - 2
        invariant
            n == t@.len(),
            n >= 4,
            i <= n - 2,
            forall|j: int| 0 <= j < i ==> is_digit(#[trigger] t@[j]),
        decreases n - 2 - i,
    {
        if !is_digit_byte(t[i]) {
            return false;
        }
        i = i + 1;
    }
    let (y, z) = (t[n - 2], t[n - 1]);
    (is_digit_byte(y) || (y == 61 && z == 61)) && (is_digit_byte(z) || z == 61)
}

proof fn lemma_dec_groups_step(t: Seq<u8>, i: int)
    requires
        0 <= i,
        i + 4 <= t.len(),
    ensures
        dec_groups(t.subrange(0, i + 4)) == dec_groups(t.subrange(0, i)) + dec4(
            t[i],
            t[i + 1],
            t[i + 2],
            t[i + 3],
        ),
{
    let p = t.subrange(0, i + 4);
    assert(p.subrange(0, i) =~= t.subrange(0, i));
}

fn dec4_exec(w: u8, x: u8, y: u8, z: u8, out: &mut Vec<u8>, keep: usize)
    requires
        1 <= keep <= 3,
    ensures
        final(out)@ == old(out)@ + dec4(w, x, y, z).subrange(0, keep as int),
{
    let (p, q, r, s) = (value_of(w), value_of(x), value_of(y), value_of(z));
    let ghost start = out@;
    out.push(((p << 2) | (q >> 4)) as u8);
    if keep >= 2 {
        out.push((((q & 15) << 4) | (r >> 2)) as u8);
    }
    if keep >= 3 {
        out.push((((r & 3) << 6) | s) as u8);
    }
    assert(out@ =~= start + dec4(w, x, y, z).subrange(0, keep as int));
}

/// The bytes of base64 text; `None` where the text is not valid base64.
pub fn decode(t: &[u8]) -> (r: Option<Vec<u8>>)
    ensures
        r is Some <==> is_valid(t@),
        r matches Some(v) ==> v@ == decode_spec(t@),
{
    if !check(t) {
        return None;
    }
    let n = t.len();
    let mut r: Vec<u8> = Vec::new();
    if n == 0 {
        return Some(r);
    }
    let mut i: usize = 0;
    while i < n - 4
        invariant
            n == t@.len(),
            n >= 4,
            n % 4 == 0,
            i <= n - 4,
            i % 4 == 0,
            r@ == dec_groups(t@.subrange(0, i as int)),
        decreases n - 4 - i,
    {
        proof {
            lemma_dec_groups_step(t@, i as int);
        }
        dec4_exec(t[i], t[i + 1], t[i + 2], t[i + 3], &mut r, 3);
        assert(dec4(t@[i as int], t@[i + 1], t@[i + 2], t@[i + 3]).subrange(0, 3) =~= dec4(
            t@[i as int],
            t@[i + 1],
            t@[i + 2],
            t@[i + 3],
        ));
        i = i + 4;
    }
    let keep: usize = if t[n - 2] == 61 {
        1
    } else if t[n - 1] == 61 {
        2
    } else {
        3
    };
    dec4_exec(t[n - 4], t[n - 3], t[n - 2], t[n - 1], &mut r, keep);
    Some(r)
}

} // verus!
