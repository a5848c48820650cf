//! URL-safe base64 without padding: the text encoding used for every
//! segment of the token wire format and for signature values.
//!
//! The byte-level encoding and decoding are verified against each other:
//! `b64_decode` inverts `b64_encode` exactly (`lemma_b64_decode_encode`),
//! and decoding accepts only canonical encodings (trailing bits must be
//! zero), so a byte sequence has at most one encoding.

use vstd::prelude::*;

verus! {

/// Alphabet value (0..64) to its URL-safe base64 byte: `A-Z a-z 0-9 - _`.
pub open spec fn b64_byte_of_val(v: u8) -> u8 {
    if v < 26 {
        (65 + v) as u8  // 'A'..='Z'
    } else if v < 52 {
        (71 + v) as u8  // 'a'..='z'
    } else if v < 62 {
        (v - 4) as u8  // '0'..='9'
    } else if v == 62 {
        45  // '-'
    } else {
        95  // '_'
    }
}

/// Byte back to its alphabet value; 64 marks a byte outside the alphabet.
pub open spec fn b64_val_of_byte(b: u8) -> u8 {
    if 65 <= b && b <= 90 {
        (b - 65) as u8
    } else if 97 <= b && b <= 122 {
        (b - 71) as u8
    } else if 48 <= b && b <= 57 {
        (b + 4) as u8
    } else if b == 45 {
        62
    } else if b == 95 {
        63
    } else {
        64
    }
}

pub open spec fn is_b64_byte(b: u8) -> bool {
    b64_val_of_byte(b) != 64
}

pub proof fn lemma_b64_byte_val(v: u8)
    requires
        v < 64,
    ensures
        b64_val_of_byte(b64_byte_of_val(v)) == v,
        is_b64_byte(b64_byte_of_val(v)),
{
}

/// Canonical unpadded base64url encoding of a byte sequence.
pub open spec fn b64_encode(s: Seq<u8>) -> Seq<u8>
    decreases s.len(),
{
    if s.len() == 0 {
        Seq::empty()
    } else if s.len() == 1 {
        let b0 = s[0];
        seq![b64_byte_of_val(b0 >> 2), b64_byte_of_val((b0 & 3) << 4)]
    } else if s.len() == 2 {
        let b0 = s[0];
        let b1 = s[1];
        seq![
            b64_byte_of_val(b0 >> 2),
            b64_byte_of_val(((b0 & 3) << 4) | (b1 >> 4)),
            b64_byte_of_val((b1 & 15) << 2),
        ]
    } else {
        let b0 = s[0];
        let b1 = s[1];
        let b2 = s[2];
        seq![
            b64_byte_of_val(b0 >> 2),
            b64_byte_of_val(((b0 & 3) << 4) | (b1 >> 4)),
            b64_byte_of_val(((b1 & 15) << 2) | (b2 >> 6)),
            b64_byte_of_val(b2 & 63),
        ] + b64_encode(s.skip(3))
    }
}

/// Decoding of a canonical unpadded base64url text; `None` on any byte
/// outside the alphabet, an impossible length, or nonzero trailing bits.
pub open spec fn b64_decode(s: Seq<u8>) -> Option<Seq<u8>>
    decreases s.len(),
{
    if s.len() == 0 {
        Some(Seq::empty())
    } else if s.len() == 1 {
        None
    } else if s.len() == 2 {
        let v0 = b64_val_of_byte(s[0]);
        let v1 = b64_val_of_byte(s[1]);
        if v0 < 64 && v1 < 64 && v1 & 15 == 0 {
            Some(seq![(v0 << 2) | (v1 >> 4)])
        } else {
            None
        }
    } else if s.len() == 3 {
        let v0 = b64_val_of_byte(s[0]);
        let v1 = b64_val_of_byte(s[1]);
        let v2 = b64_val_of_byte(s[2]);
        if v0 < 64 && v1 < 64 && v2 < 64 && v2 & 3 == 0 {
            Some(seq![(v0 << 2) | (v1 >> 4), ((v1 & 15) << 4) | (v2 >> 2)])
        } else {
            None
        }
    } else {
        let v0 = b64_val_of_byte(s[0]);
        let v1 = b64_val_of_byte(s[1]);
        let v2 = b64_val_of_byte(s[2]);
        let v3 = b64_val_of_byte(s[3]);
        if v0 < 64 && v1 < 64 && v2 < 64 && v3 < 64 {
            match b64_decode(s.skip(4)) {
                Some(rest) => Some(
                    seq![
                        (v0 << 2) | (v1 >> 4),
                        ((v1 & 15) << 4) | (v2 >> 2),
                        ((v2 & 3) << 6) | v3,
                    ] + rest,
                ),
                None => None,
            }
        } else {
            None
        }
    }
}

/// Every byte of `t` lies in the base64url alphabet.
pub open spec fn all_b64_bytes(t: Seq<u8>) -> bool {
    forall|i: int| 0 <= i < t.len() ==> is_b64_byte(t[i])
}

/// An alphabet byte is ASCII and is never the segment separator `.` (46).
pub proof fn lemma_b64_byte_range(b: u8)
    requires
        is_b64_byte(b),
    ensures
        b != 46,
        b < 128,
{
}

/// Everything `b64_encode` produces lies in the alphabet.
pub proof fn lemma_b64_encode_alphabet(s: Seq<u8>)
    ensures
        all_b64_bytes(b64_encode(s)),
    decreases s.len(),
{
    let e = b64_encode(s);
    if s.len() == 0 {
    } else if s.len() == 1 {
        let b0 = s[0];
        assert(b0 >> 2 < 64 && (b0 & 3) << 4 < 64) by (bit_vector);
        lemma_b64_byte_val(b0 >> 2);
        lemma_b64_byte_val((b0 & 3) << 4);
        assert forall|i: int| 0 <= i < e.len() implies is_b64_byte(e[i]) by {
            assert(e[i] == e[0] || e[i] == e[1]);
        }
    } else if s.len() == 2 {
        let b0 = s[0];
        let b1 = s[1];
        assert(b0 >> 2 < 64 && (((b0 & 3) << 4) | (b1 >> 4)) < 64 && (b1 & 15) << 2 < 64)
            by (bit_vector);
        lemma_b64_byte_val(b0 >> 2);
        lemma_b64_byte_val(((b0 & 3) << 4) | (b1 >> 4));
        lemma_b64_byte_val((b1 & 15) << 2);
        assert forall|i: int| 0 <= i < e.len() implies is_b64_byte(e[i]) by {
            assert(e[i] == e[0] || e[i] == e[1] || e[i] == e[2]);
        }
    } else {
        let b0 = s[0];
        let b1 = s[1];
        let b2 = s[2];
        assert(b0 >> 2 < 64 && (((b0 & 3) << 4) | (b1 >> 4)) < 64 && ((((b1 & 15) << 2) | (b2
            >> 6))) < 64 && b2 & 63 < 64) by (bit_vector);
        lemma_b64_byte_val(b0 >> 2);
        lemma_b64_byte_val(((b0 & 3) << 4) | (b1 >> 4));
        lemma_b64_byte_val(((b1 & 15) << 2) | (b2 >> 6));
        lemma_b64_byte_val(b2 & 63);
        lemma_b64_encode_alphabet(s.skip(3));
        let rest = b64_encode(s.skip(3));
        assert forall|i: int| 0 <= i < e.len() implies is_b64_byte(e[i]) by {
            if i >= 4 {
                assert(e[i] == rest[i - 4]);
            } else {
                assert(e[i] == e[0] || e[i] == e[1] || e[i] == e[2] || e[i] == e[3]);
            }
        }
    }
}

/// Decoding inverts encoding: every byte sequence round-trips.
pub proof fn lemma_b64_decode_encode(s: Seq<u8>)
    ensures
        b64_decode(b64_encode(s)) == Some(s),
    decreases s.len(),
{
    if s.len() == 0 {
        assert(s =~= Seq::<u8>::empty());
    } else if s.len() == 1 {
        let b0 = s[0];
        let v0 = b0 >> 2;
        let v1 = (b0 & 3) << 4;
        assert(b0 >> 2 < 64 && (b0 & 3) << 4 < 64 && ((b0 & 3) << 4) & 15 == 0 && (((b0 >> 2) << 2)
            | (((b0 & 3) << 4) >> 4)) == b0) by (bit_vector);
        lemma_b64_byte_val(v0);
        lemma_b64_byte_val(v1);
        assert(seq![(v0 << 2) | (v1 >> 4)] =~= s);
    } else if s.len() == 2 {
        let b0 = s[0];
        let b1 = s[1];
        let v0 = b0 >> 2;
        let v1 = ((b0 & 3) << 4) | (b1 >> 4);
        let v2 = (b1 & 15) << 2;
        assert(b0 >> 2 < 64 && (((b0 & 3) << 4) | (b1 >> 4)) < 64 && (b1 & 15) << 2 < 64 && ((b1
            & 15) << 2) & 3 == 0 && (((b0 >> 2) << 2) | ((((b0 & 3) << 4) | (b1 >> 4)) >> 4)) == b0
            && ((((((b0 & 3) << 4) | (b1 >> 4)) & 15) << 4) | (((b1 & 15) << 2) >> 2)) == b1)
            by (bit_vector);
        lemma_b64_byte_val(v0);
        lemma_b64_byte_val(v1);
        lemma_b64_byte_val(v2);
        assert(seq![(v0 << 2) | (v1 >> 4), ((v1 & 15) << 4) | (v2 >> 2)] =~= s);
    } else {
        let b0 = s[0];
        let b1 = s[1];
        let b2 = s[2];
        let v0 = b0 >> 2;
        let v1 = ((b0 & 3) << 4) | (b1 >> 4);
        let v2 = ((b1 & 15) << 2) | (b2 >> 6);
        let v3 = b2 & 63;
        assert(b0 >> 2 < 64 && (((b0 & 3) << 4) | (b1 >> 4)) < 64 && (((b1 & 15) << 2) | (b2 >> 6))
            < 64 && b2 & 63 < 64 && (((b0 >> 2) << 2) | ((((b0 & 3) << 4) | (b1 >> 4)) >> 4)) == b0
            && ((((((b0 & 3) << 4) | (b1 >> 4)) & 15) << 4) | (((((b1 & 15) << 2) | (b2 >> 6))) >> 2))
            == b1 && ((((((b1 & 15) << 2) | (b2 >> 6)) & 3) << 6) | (b2 & 63)) == b2)
            by (bit_vector);
        lemma_b64_byte_val(v0);
        lemma_b64_byte_val(v1);
        lemma_b64_byte_val(v2);
        lemma_b64_byte_val(v3);
        lemma_b64_decode_encode(s.skip(3));
        let head = seq![
            b64_byte_of_val(v0),
            b64_byte_of_val(v1),
            b64_byte_of_val(v2),
            b64_byte_of_val(v3),
        ];
        let e = b64_encode(s);
        assert(e =~= head + b64_encode(s.skip(3)));
        assert(e.skip(4) =~= b64_encode(s.skip(3)));
        assert(seq![(v0 << 2) | (v1 >> 4), ((v1 & 15) << 4) | (v2 >> 2), ((v2 & 3) << 6) | v3]
            + s.skip(3) =~= s);
    }
}

/// Encoding distributes over concatenation at 3-byte boundaries.
pub proof fn lemma_b64_encode_append(a: Seq<u8>, b: Seq<u8>)
    requires
        a.len() % 3 == 0,
    ensures
        b64_encode(a + b) == b64_encode(a) + b64_encode(b),
    decreases a.len(),
{
    if a.len() == 0 {
        assert(a + b =~= b);
        assert(b64_encode(a) + b64_encode(b) =~= b64_encode(b));
    } else {
        let ab = a + b;
        assert(a.len() >= 3);
        lemma_b64_encode_append(a.skip(3), b);
        assert(ab.skip(3) =~= a.skip(3) + b);
        if b.len() == 0 {
            assert(ab =~= a);
            assert(b64_encode(b) =~= Seq::<u8>::empty());
            assert(b64_encode(a) + b64_encode(b) =~= b64_encode(a));
        } else {
            assert(ab.len() >= 3 + b.len());
            assert(ab[0] == a[0] && ab[1] == a[1] && ab[2] == a[2]);
            if a.len() == 3 {
                assert(b64_encode(a).skip(4) =~= Seq::<u8>::empty());
            }
            assert(b64_encode(ab) =~= b64_encode(a) + b64_encode(b));
        }
    }
}

/// Decoding distributes over concatenation at 4-byte boundaries.
pub proof fn lemma_b64_decode_append(a: Seq<u8>, b: Seq<u8>)
    requires
        a.len() % 4 == 0,
    ensures
        b64_decode(a + b) == match (b64_decode(a), b64_decode(b)) {
            (Some(x), Some(y)) => Some(x + y),
            _ => None::<Seq<u8>>,
        },
    decreases a.len(),
{
    if a.len() == 0 {
        assert(a + b =~= b);
        assert(b64_decode(a) == Some(Seq::<u8>::empty()));
        if b64_decode(b) is Some {
            assert(Seq::<u8>::empty() + b64_decode(b)->Some_0 =~= b64_decode(b)->Some_0);
        }
    } else {
        let ab = a + b;
        assert(a.len() >= 4);
        lemma_b64_decode_append(a.skip(4), b);
        assert(ab.skip(4) =~= a.skip(4) + b);
        assert(ab[0] == a[0] && ab[1] == a[1] && ab[2] == a[2] && ab[3] == a[3]);
        let v0 = b64_val_of_byte(a[0]);
        let v1 = b64_val_of_byte(a[1]);
        let v2 = b64_val_of_byte(a[2]);
        let v3 = b64_val_of_byte(a[3]);
        if v0 < 64 && v1 < 64 && v2 < 64 && v3 < 64 {
            let head = seq![(v0 << 2) | (v1 >> 4), ((v1 & 15) << 4) | (v2 >> 2), ((v2 & 3) << 6)
                | v3];
            if a.len() == 4 {
                assert(a.skip(4) =~= Seq::<u8>::empty());
            }
            match (b64_decode(a.skip(4)), b64_decode(b)) {
                (Some(x), Some(y)) => {
                    assert(b64_decode(a) == Some(head + x));
                    assert(b64_decode(ab) == Some(head + (x + y)));
                    assert(head + (x + y) =~= (head + x) + y);
                },
                _ => {},
            }
        }
    }
}

/// Alphabet value to encoded byte, executable form.
fn enc_byte(v: u8) -> (r: u8)
    requires
        v < 64,
    ensures
        r == b64_byte_of_val(v),
{
    if v < 26 {
        65 + v
    } else if v < 52 {
        71 + v
    } else if v < 62 {
        v - 4
    } else if v == 62 {
        45
    } else {
        95
    }
}

/// Encoded byte back to its alphabet value (64 when outside the alphabet).
fn dec_val(b: u8) -> (r: u8)
    ensures
        r == b64_val_of_byte(b),
{
    if 65 <= b && b <= 90 {
        b - 65
    } else if 97 <= b && b <= 122 {
        b - 71
    } else if 48 <= b && b <= 57 {
        b + 4
    } else if b == 45 {
        62
    } else if b == 95 {
        63
    } else {
        64
    }
}

/// Encodes bytes as unpadded base64url text (as ASCII bytes).
pub fn b64u_encode(input: &[u8]) -> (r: Vec<u8>)
    ensures
        r@ == b64_encode(input@),
{
    let mut out: Vec<u8> = Vec::new();
    let mut i: usize = 0;
    while input.len() - i >= 3
        invariant
            i <= input.len(),
            i % 3 == 0,
            out@ == b64_encode(input@.take(i as int)),
        decreases input.len() - i,
    {
        let b0 = input[i];
        let b1 = input[i + 1];
        let b2 = input[i + 2];
        proof {
            assert(b0 >> 2 < 64 && (((b0 & 3) << 4) | (b1 >> 4)) < 64 && ((((b1 & 15) << 2) | (b2
                >> 6))) < 64 && b2 & 63 < 64) by (bit_vector);
        }
        let ghost out0 = out@;
        out.push(enc_byte(b0 >> 2));
        out.push(enc_byte(((b0 & 3) << 4) | (b1 >> 4)));
        out.push(enc_byte(((b1 & 15) << 2) | (b2 >> 6)));
        out.push(enc_byte(b2 & 63));
        proof {
            let chunk = input@.subrange(i as int, i as int + 3);
            lemma_b64_encode_append(input@.take(i as int), chunk);
            assert(input@.take(i as int + 3) =~= input@.take(i as int) + chunk);
            assert(chunk.skip(3) =~= Seq::<u8>::empty());
            assert(b64_encode(Seq::<u8>::empty()) =~= Seq::<u8>::empty());
            assert(b64_encode(chunk) =~= seq![
                b64_byte_of_val(b0 >> 2),
                b64_byte_of_val(((b0 & 3) << 4) | (b1 >> 4)),
                b64_byte_of_val(((b1 & 15) << 2) | (b2 >> 6)),
                b64_byte_of_val(b2 & 63),
            ]);
            assert(out@ =~= b64_encode(input@.take(i as int)) + b64_encode(chunk));
        }
        i += 3;
    }
    let ghost done = input@.take(i as int);
    if input.len() - i == 1 {
        let b0 = input[i];
        proof {
            assert(b0 >> 2 < 64 && (b0 & 3) << 4 < 64) by (bit_vector);
        }
        out.push(enc_byte(b0 >> 2));
        out.push(enc_byte((b0 & 3) << 4));
    } else if input.len() - i == 2 {
        let b0 = input[i];
        let b1 = input[i + 1];
        proof {
            assert(b0 >> 2 < 64 && (((b0 & 3) << 4) | (b1 >> 4)) < 64 && (b1 & 15) << 2 < 64)
                by (bit_vector);
        }
        out.push(enc_byte(b0 >> 2));
        out.push(enc_byte(((b0 & 3) << 4) | (b1 >> 4)));
        out.push(enc_byte((b1 & 15) << 2));
    }
    proof {
        let tail = input@.skip(i as int);
        lemma_b64_encode_append(done, tail);
        assert(done + tail =~= input@);
        assert(out@ =~= b64_encode(done) + b64_encode(tail));
    }
    out
}

/// Decodes unpadded base64url text (as ASCII bytes); `None` exactly when
/// the input is not a canonical encoding.
pub fn b64u_decode(input: &[u8]) -> (r: Option<Vec<u8>>)
    ensures
        match r {
            Some(v) => b64_decode(input@) == Some(v@),
            None => b64_decode(input@) is None,
        },
{
    let n = input.len();
    if n % 4 == 1 {
        proof {
            lemma_b64_decode_append(input@.take((n - 1) as int), input@.skip((n - 1) as int));
            assert(input@.take((n - 1) as int) + input@.skip((n - 1) as int) =~= input@);
            assert(input@.skip((n - 1) as int).len() == 1);
        }
        return None;
    }
    let mut out: Vec<u8> = Vec::new();
    let mut i: usize = 0;
    while n - i >= 4
        invariant
            n == input.len(),
            i <= n,
            i % 4 == 0,
            n % 4 != 1,
            b64_decode(input@.take(i as int)) == Some(out@),
        decreases n - i,
    {
        let v0 = dec_val(input[i]);
        let v1 = dec_val(input[i + 1]);
        let v2 = dec_val(input[i + 2]);
        let v3 = dec_val(input[i + 3]);
        let ghost out0 = out@;
        proof {
            let chunk = input@.subrange(i as int, i as int + 4);
            lemma_b64_decode_append(input@.take(i as int), input@.skip(i as int));
            assert(input@.take(i as int) + input@.skip(i as int) =~= input@);
            lemma_b64_decode_append(chunk, input@.skip(i as int + 4));
            assert(chunk + input@.skip(i as int + 4) =~= input@.skip(i as int));
            lemma_b64_decode_append(input@.take(i as int), chunk);
            assert(input@.take(i as int) + chunk =~= input@.take(i as int + 4));
            assert(chunk.skip(4) =~= Seq::<u8>::empty());
        }
        if !(v0 < 64 && v1 < 64 && v2 < 64 && v3 < 64) {
            return None;
        }
        out.push((v0 << 2) | (v1 >> 4));
        out.push(((v1 & 15) << 4) | (v2 >> 2));
        out.push(((v2 & 3) << 6) | v3);
        proof {
            let chunk = input@.subrange(i as int, i as int + 4);
            let head = seq![(v0 << 2) | (v1 >> 4), ((v1 & 15) << 4) | (v2 >> 2), ((v2 & 3) << 6)
                | v3];
            assert(b64_decode(Seq::<u8>::empty()) == Some(Seq::<u8>::empty()));
            assert(b64_decode(chunk) == Some(head + Seq::<u8>::empty()));
            assert(head + Seq::<u8>::empty() =~= head);
            assert(out@ =~= out0 + head);
            assert(b64_decode(input@.take(i as int + 4)) == Some(out0 + head));
        }
        i += 4;
    }
    proof {
        lemma_b64_decode_append(input@.take(i as int), input@.skip(i as int));
        assert(input@.take(i as int) + input@.skip(i as int) =~= input@);
    }
    if i == n {
        proof {
            assert(input@.skip(i as int) =~= Seq::<u8>::empty());
        }
        return Some(out);
    }
    if n - i == 2 {
        let v0 = dec_val(input[i]);
        let v1 = dec_val(input[i + 1]);
        if v0 < 64 && v1 < 64 && v1 & 15 == 0 {
            out.push((v0 << 2) | (v1 >> 4));
            return Some(out);
        }
        return None;
    }
    let v0 = dec_val(input[i]);
    let v1 = dec_val(input[i + 1]);
    let v2 = dec_val(input[i + 2]);
    if v0 < 64 && v1 < 64 && v2 < 64 && v2 & 3 == 0 {
        out.push((v0 << 2) | (v1 >> 4));
        out.push(((v1 & 15) << 4) | (v2 >> 2));
        return Some(out);
    }
    None
}

} // verus!
