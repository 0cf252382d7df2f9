//! Base64 codec for the vault's serialized forms.
//!
//! All binary fields that cross a serialization boundary are carried in
//! standard base64 (RFC 4648 §4, with padding); credential identifiers are
//! also shown in the URL-safe alphabet without padding (RFC 4648 §5).

use vstd::prelude::*;

verus! {

/// Byte of the standard alphabet for sextet `x` (valid for `0 <= x < 64`).
pub open spec fn std_char_of(x: int) -> u8 {
    if x < 26 {
        (65 + x) as u8  // 'A'..='Z'
    } else if x < 52 {
        (71 + x) as u8  // 'a'..='z'
    } else if x < 62 {
        (x - 4) as u8  // '0'..='9'
    } else if x == 62 {
        43u8  // '+'
    } else {
        47u8  // '/'
    }
}

/// Byte of the URL-safe alphabet for sextet `x` (valid for `0 <= x < 64`).
pub open spec fn url_char_of(x: int) -> u8 {
    if x == 62 {
        45u8  // '-'
    } else if x == 63 {
        95u8  // '_'
    } else {
        std_char_of(x)
    }
}

/// Sextet encoded by byte `c` in the standard alphabet, if any.
pub open spec fn std_val_of(c: u8) -> Option<int> {
    if 65 <= c <= 90 {
        Some(c - 65)
    } else if 97 <= c <= 122 {
        Some(c - 71)
    } else if 48 <= c <= 57 {
        Some(c + 4)
    } else if c == 43 {
        Some(62int)
    } else if c == 47 {
        Some(63int)
    } else {
        None
    }
}

/// Standard base64 encoding with padding, three input bytes per four output bytes.
pub open spec fn b64_encode(s: Seq<u8>) -> Seq<u8>
    decreases s.len(),
{
    if s.len() == 0 {
        Seq::empty()
    } else if s.len() == 1 {
        let b0 = s[0] as int;
        seq![std_char_of(b0 / 4), std_char_of((b0 % 4) * 16), 61u8, 61u8]
    } else if s.len() == 2 {
        let b0 = s[0] as int;
        let b1 = s[1] as int;
        seq![
            std_char_of(b0 / 4),
            std_char_of((b0 % 4) * 16 + b1 / 16),
            std_char_of((b1 % 16) * 4),
            61u8,
        ]
    } else {
        let b0 = s[0] as int;
        let b1 = s[1] as int;
        let b2 = s[2] as int;
        seq![
            std_char_of(b0 / 4),
            std_char_of((b0 % 4) * 16 + b1 / 16),
            std_char_of((b1 % 16) * 4 + b2 / 64),
            std_char_of(b2 % 64),
        ] + b64_encode(s.skip(3))
    }
}

/// URL-safe base64 encoding without padding.
pub open spec fn b64url_encode(s: Seq<u8>) -> Seq<u8>
    decreases s.len(),
{
    if s.len() == 0 {
        Seq::empty()
    } else if s.len() == 1 {
        let b0 = s[0] as int;
        seq![url_char_of(b0 / 4), url_char_of((b0 % 4) * 16)]
    } else if s.len() == 2 {
        let b0 = s[0] as int;
        let b1 = s[1] as int;
        seq![
            url_char_of(b0 / 4),
            url_char_of((b0 % 4) * 16 + b1 / 16),
            url_char_of((b1 % 16) * 4),
        ]
    } else {
        let b0 = s[0] as int;
        let b1 = s[1] as int;
        let b2 = s[2] as int;
        seq![
            url_char_of(b0 / 4),
            url_char_of((b0 % 4) * 16 + b1 / 16),
            url_char_of((b1 % 16) * 4 + b2 / 64),
            url_char_of(b2 % 64),
        ] + b64url_encode(s.skip(3))
    }
}

/// Standard base64 decoding; `None` unless the input is exactly the canonical
/// encoding of some byte string (padding present, unused bits zero).
pub open spec fn b64_decode(s: Seq<u8>) -> Option<Seq<u8>>
    decreases s.len(),
{
    if s.len() == 0 {
        Some(Seq::empty())
    } else if s.len() < 4 {
        None
    } else if std_val_of(s[0]) is None || std_val_of(s[1]) is None {
        None
    } else {
        let v0 = std_val_of(s[0]).unwrap();
        let v1 = std_val_of(s[1]).unwrap();
        if s.len() == 4 && s[2] == 61 && s[3] == 61 {
            if v1 % 16 == 0 {
                Some(seq![(v0 * 4 + v1 / 16) as u8])
            } else {
                None
            }
        } else if s.len() == 4 && s[3] == 61 {
            if std_val_of(s[2]) is None {
                None
            } else {
                let v2 = std_val_of(s[2]).unwrap();
                if v2 % 4 == 0 {
                    Some(seq![(v0 * 4 + v1 / 16) as u8, ((v1 % 16) * 16 + v2 / 4) as u8])
                } else {
                    None
                }
            }
        } else if std_val_of(s[2]) is None || std_val_of(s[3]) is None {
            None
        } else {
            let v2 = std_val_of(s[2]).unwrap();
            let v3 = std_val_of(s[3]).unwrap();
            match b64_decode(s.skip(4)) {
                None => None,
                Some(rest) => Some(
                    seq![
                        (v0 * 4 + v1 / 16) as u8,
                        ((v1 % 16) * 16 + v2 / 4) as u8,
                        ((v2 % 4) * 64 + v3) as u8,
                    ] + rest,
                ),
            }
        }
    }
}

/// Decoding inverts encoding: every byte string comes back from its encoding.
pub proof fn lemma_b64_round_trip(s: Seq<u8>)
    ensures
        b64_decode(b64_encode(s)) == Some(s),
    decreases s.len(),
{
    lemma_std_alphabet_inverse();
    if s.len() == 0 {
        assert(b64_decode(b64_encode(s)) =~= Some(s));
    } else if s.len() == 1 {
        let b0 = s[0] as int;
        let e = b64_encode(s);
        assert(b64_decode(e).unwrap() =~= s);
    } else if s.len() == 2 {
        let e = b64_encode(s);
        assert(b64_decode(e).unwrap() =~= s);
    } else {
        lemma_b64_round_trip(s.skip(3));
        let e = b64_encode(s);
        let b0 = s[0] as int;
        let b1 = s[1] as int;
        let b2 = s[2] as int;
        let rest = b64_encode(s.skip(3));
        assert(e.skip(4) =~= rest);
        assert(e.len() >= 5 || (e.len() == 4 && s.len() == 3));
        assert(b64_decode(e).unwrap() =~= s);
    }
}

/// The standard alphabet decodes back to the sextet it encodes, and never to padding.
pub proof fn lemma_std_alphabet_inverse()
    ensures
        forall|x: int| 0 <= x < 64 ==> #[trigger] std_val_of(std_char_of(x)) == Some(x),
        forall|x: int| 0 <= x < 64 ==> #[trigger] std_char_of(x) != 61,
{
}

/// Every byte of an encoding is ASCII and is never a double quote, in
/// either alphabet.
pub proof fn lemma_b64_encode_ascii(s: Seq<u8>)
    ensures
        forall|i: int|
            0 <= i < b64_encode(s).len() ==> #[trigger] b64_encode(s)[i] < 128 && b64_encode(s)[i]
                != 34,
        forall|i: int|
            0 <= i < b64url_encode(s).len() ==> #[trigger] b64url_encode(s)[i] < 128
                && b64url_encode(s)[i] != 34,
    decreases s.len(),
{
    if s.len() > 2 {
        lemma_b64_encode_ascii(s.skip(3));
        let e = b64_encode(s);
        let rest = b64_encode(s.skip(3));
        assert forall|i: int| 0 <= i < e.len() implies #[trigger] e[i] < 128 && e[i] != 34 by {
            if i >= 4 {
                assert(e[i] == rest[i - 4]);
            }
        }
        let u = b64url_encode(s);
        let urest = b64url_encode(s.skip(3));
        assert forall|i: int| 0 <= i < u.len() implies #[trigger] u[i] < 128 && u[i] != 34 by {
            if i >= 4 {
                assert(u[i] == urest[i - 4]);
            }
        }
    }
}

/// The standard alphabet encodes back to the byte it decodes: a byte with a
/// sextet is that sextet's alphabet byte.
pub proof fn lemma_std_alphabet_reverse()
    ensures
        forall|c: u8|
            #[trigger] std_val_of(c) is Some ==> 0 <= std_val_of(c).unwrap() < 64 && std_char_of(
                std_val_of(c).unwrap(),
            ) == c,
{
}

/// Decoding accepts only canonical inputs: whatever decodes, re-encodes to
/// the same bytes.
pub proof fn lemma_b64_decode_canonical(s: Seq<u8>)
    ensures
        b64_decode(s) is Some ==> b64_encode(b64_decode(s).unwrap()) == s,
    decreases s.len(),
{
    lemma_std_alphabet_reverse();
    if b64_decode(s) is Some {
        let x = b64_decode(s).unwrap();
        if s.len() == 0 {
            assert(b64_encode(x) =~= s);
        } else if s.len() == 4 && s[2] == 61 && s[3] == 61 {
            let v0 = std_val_of(s[0]).unwrap();
            let v1 = std_val_of(s[1]).unwrap();
            assert(x[0] as int == v0 * 4 + v1 / 16);
            assert((x[0] as int) / 4 == v0);
            assert((x[0] as int) % 4 * 16 == v1);
            assert(b64_encode(x) =~= s);
        } else if s.len() == 4 && s[3] == 61 {
            let v0 = std_val_of(s[0]).unwrap();
            let v1 = std_val_of(s[1]).unwrap();
            let v2 = std_val_of(s[2]).unwrap();
            assert(x[0] as int == v0 * 4 + v1 / 16);
            assert(x[1] as int == (v1 % 16) * 16 + v2 / 4);
            assert((x[0] as int) / 4 == v0);
            assert((x[0] as int) % 4 * 16 + (x[1] as int) / 16 == v1);
            assert((x[1] as int) % 16 * 4 == v2);
            assert(b64_encode(x) =~= s);
        } else {
            lemma_b64_decode_canonical(s.skip(4));
            let rest = b64_decode(s.skip(4)).unwrap();
            let v0 = std_val_of(s[0]).unwrap();
            let v1 = std_val_of(s[1]).unwrap();
            let v2 = std_val_of(s[2]).unwrap();
            let v3 = std_val_of(s[3]).unwrap();
            assert(x =~= seq![
                (v0 * 4 + v1 / 16) as u8,
                ((v1 % 16) * 16 + v2 / 4) as u8,
                ((v2 % 4) * 64 + v3) as u8,
            ] + rest);
            assert(x.skip(3) =~= rest);
            assert(x[0] as int == v0 * 4 + v1 / 16);
            assert(x[1] as int == (v1 % 16) * 16 + v2 / 4);
            assert(x[2] as int == (v2 % 4) * 64 + v3);
            assert((x[0] as int) / 4 == v0);
            assert((x[0] as int) % 4 * 16 + (x[1] as int) / 16 == v1);
            assert((x[1] as int) % 16 * 4 + (x[2] as int) / 64 == v2);
            assert((x[2] as int) % 64 == v3);
            assert(b64_encode(x) =~= s);
        }
    }
}

/// Inputs whose length is not a multiple of four never decode.
proof fn lemma_b64_decode_len(s: Seq<u8>)
    ensures
        s.len() % 4 != 0 ==> b64_decode(s) is None,
    decreases s.len(),
{
    if s.len() >= 4 {
        lemma_b64_decode_len(s.skip(4));
    }
}

/// Alphabet byte for sextet `x` of the standard alphabet.
fn std_char(x: u8) -> (r: u8)
    requires
        x < 64,
    ensures
        r == std_char_of(x as int),
{
    if x < 26 {
        65 + x
    } else if x < 52 {
        71 + x
    } else if x < 62 {
        x - 4
    } else if x == 62 {
        43
    } else {
        47
    }
}

/// Alphabet byte for sextet `x` of the URL-safe alphabet.
fn url_char(x: u8) -> (r: u8)
    requires
        x < 64,
    ensures
        r == url_char_of(x as int),
{
    if x == 62 {
        45
    } else if x == 63 {
        95
    } else {
        std_char(x)
    }
}

/// Sextet of alphabet byte `c`, or `None` outside the standard alphabet.
fn std_val(c: u8) -> (r: Option<u8>)
    ensures
        r is Some <==> std_val_of(c) is Some,
        r is Some ==> Some(r.unwrap() as int) == std_val_of(c) && r.unwrap() < 64,
{
    if 65 <= c && c <= 90 {
        Some(c - 65)
    } else if 97 <= c && c <= 122 {
        Some(c - 71)
    } else if 48 <= c && c <= 57 {
        Some(c + 4)
    } else if c == 43 {
        Some(62)
    } else if c == 47 {
        Some(63)
    } else {
        None
    }
}

/// Standard base64 encoding of `v`, with padding.
pub fn base64_encode(v: &[u8]) -> (r: Vec<u8>)
    ensures
        r@ == b64_encode(v@),
{
    let mut out: Vec<u8> = Vec::new();
    let mut i: usize = 0;
    proof {
        assert(v@.skip(0) =~= v@);
        assert(out@ + b64_encode(v@.skip(0)) =~= b64_encode(v@));
    }
    while v.len() - i >= 3
        invariant
            i <= v.len(),
            b64_encode(v@) == out@ + b64_encode(v@.skip(i as int)),
        decreases v.len() - i,
    {
        let b0 = v[i];
        let b1 = v[i + 1];
        let b2 = v[i + 2];
        proof {
            let t = v@.skip(i as int);
            assert(t.len() >= 3);
            assert(t[0] == b0 && t[1] == b1 && t[2] == b2);
            assert(t.skip(3) =~= v@.skip(i as int + 3));
        }
        out.push(std_char(b0 / 4));
        out.push(std_char((b0 % 4) * 16 + b1 / 16));
        out.push(std_char((b1 % 16) * 4 + b2 / 64));
        out.push(std_char(b2 % 64));
        i = i + 3;
        proof {
            assert(b64_encode(v@) =~= out@ + b64_encode(v@.skip(i as int)));
        }
    }
    if v.len() - i == 1 {
        let b0 = v[i];
        proof {
            let t = v@.skip(i as int);
            assert(t.len() == 1 && t[0] == b0);
        }
        out.push(std_char(b0 / 4));
        out.push(std_char((b0 % 4) * 16));
        out.push(61);
        out.push(61);
        proof {
            assert(out@ =~= b64_encode(v@));
        }
    } else if v.len() - i == 2 {
        let b0 = v[i];
        let b1 = v[i + 1];
        proof {
            let t = v@.skip(i as int);
            assert(t.len() == 2 && t[0] == b0 && t[1] == b1);
        }
        out.push(std_char(b0 / 4));
        out.push(std_char((b0 % 4) * 16 + b1 / 16));
        out.push(std_char((b1 % 16) * 4));
        out.push(61);
        proof {
            assert(out@ =~= b64_encode(v@));
        }
    } else {
        proof {
            assert(v@.skip(i as int) =~= Seq::<u8>::empty());
            assert(out@ =~= b64_encode(v@));
        }
    }
    out
}

/// URL-safe base64 encoding of `v`, without padding.
pub fn base64url_encode(v: &[u8]) -> (r: Vec<u8>)
    ensures
        r@ == b64url_encode(v@),
{
    let mut out: Vec<u8> = Vec::new();
    let mut i: usize = 0;
    proof {
        assert(v@.skip(0) =~= v@);
        assert(out@ + b64url_encode(v@.skip(0)) =~= b64url_encode(v@));
    }
    while v.len() - i >= 3
        invariant
            i <= v.len(),
            b64url_encode(v@) == out@ + b64url_encode(v@.skip(i as int)),
        decreases v.len() - i,
    {
        let b0 = v[i];
        let b1 = v[i + 1];
        let b2 = v[i + 2];
        proof {
            let t = v@.skip(i as int);
            assert(t.len() >= 3);
            assert(t[0] == b0 && t[1] == b1 && t[2] == b2);
            assert(t.skip(3) =~= v@.skip(i as int + 3));
        }
        out.push(url_char(b0 / 4));
        out.push(url_char((b0 % 4) * 16 + b1 / 16));
        out.push(url_char((b1 % 16) * 4 + b2 / 64));
        out.push(url_char(b2 % 64));
        i = i + 3;
        proof {
            assert(b64url_encode(v@) =~= out@ + b64url_encode(v@.skip(i as int)));
        }
    }
    if v.len() - i == 1 {
        let b0 = v[i];
        proof {
            let t = v@.skip(i as int);
            assert(t.len() == 1 && t[0] == b0);
        }
        out.push(url_char(b0 / 4));
        out.push(url_char((b0 % 4) * 16));
        proof {
            assert(out@ =~= b64url_encode(v@));
        }
    } else if v.len() - i == 2 {
        let b0 = v[i];
        let b1 = v[i + 1];
        proof {
            let t = v@.skip(i as int);
            assert(t.len() == 2 && t[0] == b0 && t[1] == b1);
        }
        out.push(url_char(b0 / 4));
        out.push(url_char((b0 % 4) * 16 + b1 / 16));
        out.push(url_char((b1 % 16) * 4));
        proof {
            assert(out@ =~= b64url_encode(v@));
        }
    } else {
        proof {
            assert(v@.skip(i as int) =~= Seq::<u8>::empty());
            assert(out@ =~= b64url_encode(v@));
        }
    }
    out
}

/// Standard base64 decoding; `None` unless `v` is a canonical encoding.
pub fn base64_decode(v: &[u8]) -> (r: Option<Vec<u8>>)
    ensures
        r is Some <==> b64_decode(v@) is Some,
        r is Some ==> Some(r.unwrap()@) == b64_decode(v@),
{
    if v.len() % 4 != 0 {
        proof {
            lemma_b64_decode_len(v@);
        }
        return None;
    }
    let mut out: Vec<u8> = Vec::new();
    let mut i: usize = 0;
    proof {
        assert(v@.skip(0) =~= v@);
        if b64_decode(v@) is Some {
            assert(out@ + b64_decode(v@.skip(0)).unwrap() =~= b64_decode(v@).unwrap());
        }
    }
    while v.len() - i > 4
        invariant
            i <= v.len(),
            (v.len() - i) % 4 == 0,
            b64_decode(v@) is Some <==> b64_decode(v@.skip(i as int)) is Some,
            b64_decode(v@.skip(i as int)) is Some ==> b64_decode(v@) == Some(
                out@ + b64_decode(v@.skip(i as int)).unwrap(),
            ),
        decreases v.len() - i,
    {
        proof {
            let t = v@.skip(i as int);
            assert(t.len() > 4);
            assert(t[0] == v@[i as int] && t[1] == v@[i as int + 1] && t[2] == v@[i as int + 2]
                && t[3] == v@[i as int + 3]);
            assert(t.skip(4) =~= v@.skip(i as int + 4));
        }
        let v0 = match std_val(v[i]) {
            Some(x) => x,
            None => {
                return None;
            },
        };
        let v1 = match std_val(v[i + 1]) {
            Some(x) => x,
            None => {
                return None;
            },
        };
        let v2 = match std_val(v[i + 2]) {
            Some(x) => x,
            None => {
                return None;
            },
        };
        let v3 = match std_val(v[i + 3]) {
            Some(x) => x,
            None => {
                return None;
            },
        };
        let ghost pre_out = out@;
        let x0 = v0 * 4 + v1 / 16;
        let x1 = (v1 % 16) * 16 + v2 / 4;
        let x2 = (v2 % 4) * 64 + v3;
        out.push(x0);
        out.push(x1);
        out.push(x2);
        i = i + 4;
        proof {
            let t = v@.skip(i as int - 4);
            let rest = b64_decode(v@.skip(i as int));
            if rest is Some {
                assert(b64_decode(t) == Some(seq![x0, x1, x2] + rest.unwrap()));
                assert(pre_out + (seq![x0, x1, x2] + rest.unwrap()) =~= out@ + rest.unwrap());
            }
        }
    }
    if i == v.len() {
        proof {
            assert(v@.skip(i as int) =~= Seq::<u8>::empty());
            assert(out@ + b64_decode(v@.skip(i as int)).unwrap() =~= out@);
        }
        return Some(out);
    }
    proof {
        let t = v@.skip(i as int);
        assert(t.len() == 4);
        assert(t[0] == v@[i as int] && t[1] == v@[i as int + 1] && t[2] == v@[i as int + 2] && t[3]
            == v@[i as int + 3]);
        assert(t.skip(4) =~= Seq::<u8>::empty());
    }
    let v0 = match std_val(v[i]) {
        Some(x) => x,
        None => {
            return None;
        },
    };
    let v1 = match std_val(v[i + 1]) {
        Some(x) => x,
        None => {
            return None;
        },
    };
    if v[i + 2] == 61 && v[i + 3] == 61 {
        if v1 % 16 != 0 {
            return None;
        }
        let ghost pre_out = out@;
        let x0 = v0 * 4 + v1 / 16;
        out.push(x0);
        proof {
            assert(b64_decode(v@.skip(i as int)) == Some(seq![x0]));
            assert(pre_out + seq![x0] =~= out@);
        }
        return Some(out);
    }
    if v[i + 3] == 61 {
        let v2 = match std_val(v[i + 2]) {
            Some(x) => x,
            None => {
                return None;
            },
        };
        if v2 % 4 != 0 {
            return None;
        }
        let ghost pre_out = out@;
        let x0 = v0 * 4 + v1 / 16;
        let x1 = (v1 % 16) * 16 + v2 / 4;
        out.push(x0);
        out.push(x1);
        proof {
            assert(b64_decode(v@.skip(i as int)) == Some(seq![x0, x1]));
            assert(pre_out + seq![x0, x1] =~= out@);
        }
        return Some(out);
    }
    let v2 = match std_val(v[i + 2]) {
        Some(x) => x,
        None => {
            return None;
        },
    };
    let v3 = match std_val(v[i + 3]) {
        Some(x) => x,
        None => {
            return None;
        },
    };
    let ghost pre_out = out@;
    let x0 = v0 * 4 + v1 / 16;
    let x1 = (v1 % 16) * 16 + v2 / 4;
    let x2 = (v2 % 4) * 64 + v3;
    out.push(x0);
    out.push(x1);
    out.push(x2);
    proof {
        let t = v@.skip(i as int);
        assert(t.len() == 4);
        assert(std_val_of(t[0]) == Some(v0 as int));
        assert(std_val_of(t[1]) == Some(v1 as int));
        assert(std_val_of(t[2]) == Some(v2 as int));
        assert(std_val_of(t[3]) == Some(v3 as int));
        assert(t[2] != 61 && t[3] != 61);
        assert(b64_decode(t.skip(4)) == Some(Seq::<u8>::empty()));
        assert(x0 as int == (v0 as int) * 4 + (v1 as int) / 16);
        assert(x1 as int == ((v1 as int) % 16) * 16 + (v2 as int) / 4);
        assert(x2 as int == ((v2 as int) % 4) * 64 + (v3 as int));
        assert(b64_decode(t) == Some(seq![x0, x1, x2] + Seq::<u8>::empty()));
        assert(b64_decode(t) == Some(seq![x0, x1, x2])) by {
            assert(seq![x0, x1, x2] + Seq::<u8>::empty() =~= seq![x0, x1, x2]);
        }
        assert(pre_out + seq![x0, x1, x2] =~= out@);
    }
    Some(out)
}

} // verus!
