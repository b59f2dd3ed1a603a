//! Minimal base64url decoding (the payload segment of a JWT).
use vstd::prelude::*;
use vstd::string::StringSliceAdditionalSpecFns;

verus! {

/// Position of a byte in the base64url alphabet `A-Z a-z 0-9 - _`.
pub open spec fn sextet_of(c: u8) -> Option<u8> {
    if 65 <= c <= 90 {
        Some((c - 65) as u8)
    } else if 97 <= c <= 122 {
        Some((c - 71) as u8)
    } else if 48 <= c <= 57 {
        Some((c + 4) as u8)
    } else if c == 45 {
        Some(62)
    } else if c == 95 {
        Some(63)
    } else {
        None
    }
}

/// The 6-bit values of the input up to its first `=`; `None` when a byte
/// before it is outside the alphabet.
pub open spec fn sextets(b: Seq<u8>) -> Option<Seq<u8>>
    decreases b.len(),
{
    if b.len() == 0 || b[0] == 61 {
        Some(Seq::empty())
    } else {
        match sextet_of(b[0]) {
            None => None,
            Some(v) => match sextets(b.drop_first()) {
                None => None,
                Some(t) => Some(seq![v] + t),
            },
        }
    }
}

/// Byte `j` of the bit stream of `v` (6 bits per value, most significant first):
/// each group of four values gives three bytes.
pub open spec fn stream_byte(v: Seq<u8>, j: int) -> u8 {
    let g = j / 3;
    let p = j % 3;
    if p == 0 {
        (v[4 * g] * 4 + v[4 * g + 1] / 16) as u8
    } else if p == 1 {
        ((v[4 * g + 1] % 16) * 16 + v[4 * g + 2] / 4) as u8
    } else {
        ((v[4 * g + 2] % 4) * 64 + v[4 * g + 3]) as u8
    }
}

/// The whole bytes of the bit stream of `v`; trailing bits that do not fill a byte are dropped.
pub open spec fn stream_bytes(v: Seq<u8>) -> Seq<u8> {
    Seq::new(((6 * v.len()) / 8) as nat, |j: int| stream_byte(v, j))
}

/// The decoding of the input bytes.
pub open spec fn b64url_spec(b: Seq<u8>) -> Option<Seq<u8>> {
    match sextets(b) {
        None => None,
        Some(v) => Some(stream_bytes(v)),
    }
}

pub open spec fn all_sextets(v: Seq<u8>) -> bool {
    forall|i: int| 0 <= i < v.len() ==> #[trigger] v[i] < 64
}

pub open spec fn pending_width(n: int) -> u32 {
    if n % 4 == 0 {
        0
    } else if n % 4 == 1 {
        6
    } else if n % 4 == 2 {
        4
    } else {
        2
    }
}

proof fn lemma_sextets_prefix(b: Seq<u8>, i: int, vals: Seq<u8>)
    requires
        0 <= i <= b.len(),
        vals.len() == i,
        forall|k: int| 0 <= k < i ==> b[k] != 61 && #[trigger] sextet_of(b[k]) == Some(vals[k]),
    ensures
        sextets(b) == (match sextets(b.skip(i)) {
            None => None,
            Some(t) => Some(vals + t),
        }),
    decreases i,
{
    if i == 0 {
        assert(b.skip(0) == b);
        match sextets(b) {
            None => {},
            Some(t) => {
                assert(vals + t == t);
            },
        }
    } else {
        let b1 = b.drop_first();
        let v1 = vals.drop_first();
        assert forall|k: int| 0 <= k < i - 1 implies b1[k] != 61 && #[trigger] sextet_of(b1[k])
            == Some(v1[k]) by {
            assert(b1[k] == b[k + 1]);
            assert(sextet_of(b[k + 1]) == Some(vals[k + 1]));
        }
        lemma_sextets_prefix(b1, i - 1, v1);
        assert(b1.skip(i - 1) == b.skip(i));
        assert(sextet_of(b[0]) == Some(vals[0]));
        match sextets(b.skip(i)) {
            None => {},
            Some(t) => {
                assert(seq![vals[0]] + (v1 + t) == vals + t);
            },
        }
    }
}

fn sextet(c: u8) -> (r: Option<u8>)
    ensures
        r == sextet_of(c),
        r matches Some(v) ==> v < 64,
{
    if 65 <= c && c <= 90 {
        Some(c - 65)
    } else if 97 <= c && c <= 122 {
        Some(c - 71)
    } else if 48 <= c && c <= 57 {
        Some(c + 4)
    } else if c == 45 {
        Some(62)
    } else if c == 95 {
        Some(63)
    } else {
        None
    }
}

proof fn lemma_step_bytes(vals: Seq<u8>, v: u8)
    requires
        all_sextets(vals),
        v < 64,
    ensures
        ({
            let w = vals.push(v);
            let n = vals.len() as int;
            &&& (6 * (n + 1)) / 8 == (6 * n) / 8 + (if n % 4 == 0 { 0int } else { 1int })
            &&& forall|j: int| 0 <= j < (6 * n) / 8 ==> stream_byte(w, j) == stream_byte(vals, j)
        }),
{
    let w = vals.push(v);
    let n = vals.len() as int;
    assert forall|j: int| 0 <= j < (6 * n) / 8 implies stream_byte(w, j) == stream_byte(vals, j) by {
        let g = j / 3;
        assert(4 * g + 3 < n || (j % 3 == 0 && 4 * g + 1 < n) || (j % 3 == 1 && 4 * g + 2 < n));
    }
}

/// Minimal base64url decoding (JWT payload): decodes up to the first `=`;
/// `None` when a byte before it is outside the alphabet.
pub fn b64url_decode(s: &str) -> (r: Option<Vec<u8>>)
    ensures
        r is Some == b64url_spec(s.spec_bytes()) is Some,
        r matches Some(out) ==> b64url_spec(s.spec_bytes()) == Some(out@),
{
    let bytes = s.as_bytes();
    let ghost b = bytes@;
    let mut out: Vec<u8> = Vec::new();
    let mut buf: u32 = 0;
    let mut bits: u32 = 0;
    let ghost mut vals: Seq<u8> = Seq::empty();
    let mut i: usize = 0;
    while i < bytes.len()
        invariant
            b == bytes@,
            b == s.spec_bytes(),
            i <= bytes.len(),
            vals.len() == i,
            all_sextets(vals),
            forall|k: int| 0 <= k < i ==> b[k] != 61 && #[trigger] sextet_of(b[k]) == Some(vals[k]),
            bits == pending_width(i as int),
            i % 4 == 1 ==> buf % 64 == vals.last(),
            i % 4 == 2 ==> buf % 16 == vals.last() % 16,
            i % 4 == 3 ==> buf % 4 == vals.last() % 4,
            out@ == stream_bytes(vals),
        ensures
            i < bytes.len() ==> b[i as int] == 61,
        decreases bytes.len() - i,
    {
        let c = bytes[i];
        if c == 61 {
            break;
        }
        let v = match sextet(c) {
            Some(v) => v,
            None => {
                proof {
                    lemma_sextets_prefix(b, i as int, vals);
                    assert(b.skip(i as int)[0] == c);
                }
                return None;
            },
        };
        let vv = v as u32;
        let ghost old_buf = buf;
        let ghost n = i as int;
        proof {
            lemma_step_bytes(vals, v);
        }
        let ghost w = vals.push(v);
        let ghost j = (6 * n) / 8;
        let ghost g = n / 4;
        buf = (buf << 6) | vv;
        bits = bits + 6;
        if bits >= 8 {
            bits = bits - 8;
            let byte = ((buf >> bits) & 0xFF) as u8;
            proof {
                let nb = buf;
                if n % 4 == 1 {
                    assert((((old_buf << 6) | vv) >> 4u32) & 0xFF == (old_buf % 64) * 4 + vv / 16) by (bit_vector)
                        requires vv < 64;
                    assert(j == 3 * g && j % 3 == 0 && j / 3 == g);
                    assert(w[4 * g] == vals.last() && w[4 * g + 1] == v);
                } else if n % 4 == 2 {
                    assert((((old_buf << 6) | vv) >> 2u32) & 0xFF == (old_buf % 16) * 16 + vv / 4) by (bit_vector)
                        requires vv < 64;
                    assert(j == 3 * g + 1 && j % 3 == 1 && j / 3 == g);
                    assert(w[4 * g + 1] == vals.last() && w[4 * g + 2] == v);
                } else {
                    assert((((old_buf << 6) | vv) >> 0u32) & 0xFF == (old_buf % 4) * 64 + vv) by (bit_vector)
                        requires vv < 64;
                    assert(j == 3 * g + 2 && j % 3 == 2 && j / 3 == g);
                    assert(w[4 * g + 2] == vals.last() && w[4 * g + 3] == v);
                }
                assert(byte == stream_byte(w, j));
            }
            out.push(byte);
        }
        proof {
            let nb = buf;
            if n % 4 == 0 {
                assert(((old_buf << 6) | vv) % 64 == vv) by (bit_vector)
                    requires vv < 64;
            } else if n % 4 == 1 {
                assert(((old_buf << 6) | vv) % 16 == vv % 16) by (bit_vector)
                    requires vv < 64;
            } else if n % 4 == 2 {
                assert(((old_buf << 6) | vv) % 4 == vv % 4) by (bit_vector)
                    requires vv < 64;
            }
            vals = w;
            assert(out@ =~= stream_bytes(vals));
        }
        i += 1;
    }
    proof {
        lemma_sextets_prefix(b, i as int, vals);
        if i < bytes.len() {
            assert(b.skip(i as int)[0] == 61);
        }
        assert(sextets(b.skip(i as int)) == Some(Seq::<u8>::empty()));
        assert(vals + Seq::<u8>::empty() == vals);
    }
    Some(out)
}

proof fn lemma_sextets_stop_at_padding(b: Seq<u8>, rest: Seq<u8>)
    requires
        forall|i: int| 0 <= i < b.len() ==> #[trigger] b[i] != 61,
    ensures
        sextets(b + seq![61u8] + rest) == sextets(b),
    decreases b.len(),
{
    let full = b + seq![61u8] + rest;
    if b.len() == 0 {
        assert(full[0] == 61);
    } else {
        let b1 = b.drop_first();
        assert forall|i: int| 0 <= i < b1.len() implies #[trigger] b1[i] != 61 by {
            assert(b1[i] == b[i + 1]);
        }
        lemma_sextets_stop_at_padding(b1, rest);
        assert(full.drop_first() =~= b1 + seq![61u8] + rest);
        assert(full[0] == b[0]);
    }
}

/// Decoding stops at the first `=`: whatever follows it is ignored.
pub proof fn lemma_decode_stops_at_padding(b: Seq<u8>, rest: Seq<u8>)
    requires
        forall|i: int| 0 <= i < b.len() ==> #[trigger] b[i] != 61,
    ensures
        b64url_spec(b + seq![61u8] + rest) == b64url_spec(b),
{
    lemma_sextets_stop_at_padding(b, rest);
}

// ---------------------------------------------------------------------------
// Round trip: decoding the base64url encoding of any bytes gives them back

/// The alphabet byte of a 6-bit value.
pub open spec fn alphabet_byte(v: u8) -> u8 {
    if v < 26 {
        (v + 65) as u8
    } else if v < 52 {
        (v + 71) as u8
    } else if v < 62 {
        (v - 4) as u8
    } else if v == 62 {
        45
    } else {
        95
    }
}

pub open spec fn byte_at(b: Seq<u8>, k: int) -> u8 {
    if 0 <= k < b.len() {
        b[k]
    } else {
        0
    }
}

/// Number of values in the encoding of `n` bytes (no padding): four per
/// group of three, and one more than the bytes of a last partial group.
pub open spec fn encoded_len(n: int) -> int {
    4 * (n / 3) + (if n % 3 == 0 {
        0
    } else {
        n % 3 + 1
    })
}

/// Value `i` of the encoding: the bits of the bytes, six at a time, most
/// significant first, a last partial group filled with zero bits.
pub open spec fn encoded_sextet(b: Seq<u8>, i: int) -> u8 {
    let g = i / 4;
    let q = i % 4;
    let x0 = byte_at(b, 3 * g);
    let x1 = byte_at(b, 3 * g + 1);
    let x2 = byte_at(b, 3 * g + 2);
    if q == 0 {
        x0 / 4
    } else if q == 1 {
        ((x0 % 4) * 16 + x1 / 16) as u8
    } else if q == 2 {
        ((x1 % 16) * 4 + x2 / 64) as u8
    } else {
        x2 % 64
    }
}

pub open spec fn encoded_sextets(b: Seq<u8>) -> Seq<u8> {
    Seq::new(encoded_len(b.len() as int) as nat, |i: int| encoded_sextet(b, i))
}

/// The base64url encoding of `b` without padding (RFC 4648, section 5).
pub open spec fn b64url_encode_spec(b: Seq<u8>) -> Seq<u8> {
    encoded_sextets(b).map_values(|v: u8| alphabet_byte(v))
}

/// The `=` padding that fills the encoding to a multiple of four.
pub open spec fn b64url_padding(n: int) -> Seq<u8> {
    Seq::new((if n % 3 == 0 { 0int } else { 3 - n % 3 }) as nat, |i: int| 61u8)
}

proof fn lemma_regroup(x0: u8, x1: u8, x2: u8, s0: u8, s1: u8, s2: u8, s3: u8)
    by (bit_vector)
    requires
        s0 == x0 / 4,
        s1 == ((x0 % 4) * 16 + x1 / 16) as u8,
        s2 == ((x1 % 16) * 4 + x2 / 64) as u8,
        s3 == x2 % 64,
    ensures
        s0 < 64,
        s1 < 64,
        s2 < 64,
        s3 < 64,
        (s0 * 4 + s1 / 16) as u8 == x0,
        ((s1 % 16) * 16 + s2 / 4) as u8 == x1,
        ((s2 % 4) * 64 + s3) as u8 == x2,
{
}

proof fn lemma_group(b: Seq<u8>, g: int)
    requires
        g >= 0,
    ensures
        ({
            let x0 = byte_at(b, 3 * g);
            let x1 = byte_at(b, 3 * g + 1);
            let x2 = byte_at(b, 3 * g + 2);
            let s0 = encoded_sextet(b, 4 * g);
            let s1 = encoded_sextet(b, 4 * g + 1);
            let s2 = encoded_sextet(b, 4 * g + 2);
            let s3 = encoded_sextet(b, 4 * g + 3);
            &&& s0 < 64 && s1 < 64 && s2 < 64 && s3 < 64
            &&& (s0 * 4 + s1 / 16) as u8 == x0
            &&& ((s1 % 16) * 16 + s2 / 4) as u8 == x1
            &&& ((s2 % 4) * 64 + s3) as u8 == x2
        }),
{
    assert((4 * g) / 4 == g && (4 * g) % 4 == 0);
    assert((4 * g + 1) / 4 == g && (4 * g + 1) % 4 == 1);
    assert((4 * g + 2) / 4 == g && (4 * g + 2) % 4 == 2);
    assert((4 * g + 3) / 4 == g && (4 * g + 3) % 4 == 3);
    lemma_regroup(
        byte_at(b, 3 * g),
        byte_at(b, 3 * g + 1),
        byte_at(b, 3 * g + 2),
        encoded_sextet(b, 4 * g),
        encoded_sextet(b, 4 * g + 1),
        encoded_sextet(b, 4 * g + 2),
        encoded_sextet(b, 4 * g + 3),
    );
}

proof fn lemma_alphabet(v: u8)
    requires
        v < 64,
    ensures
        sextet_of(alphabet_byte(v)) == Some(v),
        alphabet_byte(v) != 61,
{
}

proof fn lemma_sextets_of_alphabet(vs: Seq<u8>)
    requires
        all_sextets(vs),
    ensures
        sextets(vs.map_values(|v: u8| alphabet_byte(v))) == Some(vs),
    decreases vs.len(),
{
    let e = vs.map_values(|v: u8| alphabet_byte(v));
    if vs.len() > 0 {
        let t = vs.drop_first();
        assert(all_sextets(t)) by {
            assert forall|i: int| 0 <= i < t.len() implies #[trigger] t[i] < 64 by {
                assert(t[i] == vs[i + 1]);
            }
        }
        lemma_sextets_of_alphabet(t);
        assert(vs[0] < 64);
        lemma_alphabet(vs[0]);
        assert(e[0] == alphabet_byte(vs[0]));
        assert(e.drop_first() =~= t.map_values(|v: u8| alphabet_byte(v)));
        assert(seq![vs[0]] + t =~= vs);
    }
}

/// Round trip: decoding the base64url encoding of any bytes, with or
/// without its `=` padding, gives the bytes back.
pub proof fn lemma_decode_encoding(b: Seq<u8>)
    ensures
        b64url_spec(b64url_encode_spec(b)) == Some(b),
        b64url_spec(b64url_encode_spec(b) + b64url_padding(b.len() as int)) == Some(b),
{
    let n = b.len() as int;
    let v = encoded_sextets(b);
    let len = encoded_len(n);
    assert(all_sextets(v)) by {
        assert forall|i: int| 0 <= i < v.len() implies #[trigger] v[i] < 64 by {
            lemma_group(b, i / 4);
            assert(i == 4 * (i / 4) + i % 4);
        }
    }
    lemma_sextets_of_alphabet(v);
    assert((6 * len) / 8 == n) by {
        let q = n / 3;
        assert(n == 3 * q + n % 3);
        if n % 3 == 0 {
            assert(6 * len == 8 * (3 * q));
        } else if n % 3 == 1 {
            assert(6 * len == 8 * (3 * q) + 12);
        } else {
            assert(6 * len == 8 * (3 * q) + 18);
        }
    }
    assert(stream_bytes(v) =~= b) by {
        assert forall|j: int| 0 <= j < n implies #[trigger] stream_byte(v, j) == b[j] by {
            let g = j / 3;
            let p = j % 3;
            assert(j == 3 * g + p);
            lemma_group(b, g);
            assert(4 * g + 1 < len);
            if p >= 1 {
                assert(4 * g + 2 < len);
            }
            if p == 2 {
                assert(4 * g + 3 < len);
            }
            assert(byte_at(b, j) == b[j]);
        }
    }
    let e = b64url_encode_spec(b);
    assert forall|i: int| 0 <= i < e.len() implies #[trigger] e[i] != 61 by {
        lemma_alphabet(v[i]);
    }
    let pad = b64url_padding(n);
    if pad.len() == 0 {
        assert(e + pad =~= e);
    } else {
        assert(e + pad =~= e + seq![61u8] + pad.drop_first());
        lemma_sextets_stop_at_padding(e, pad.drop_first());
    }
}

} // verus!
