//! Content-addressed naming and storage of static assets.
//!
//! A published asset is renamed `{stem}.{base64(hash)}.{ext}`, where the hash
//! is the 64-bit SeaHash of its bytes written little-endian, and base64 uses
//! the standard padded alphabet.
use vstd::prelude::*;
use crate::text::{append_chars, chars_of, find_first, find_last, first_index, last_index, string_of};

verus! {

/// The SeaHash of a byte sequence.
pub uninterp spec fn seahash_of(b: Seq<u8>) -> u64;

/// The eight little-endian bytes of `h`.
pub open spec fn le_bytes(h: u64) -> Seq<u8> {
    Seq::new(8, |i: int| ((h >> (8 * i) as u64) & 0xff) as u8)
}

/// The character of the standard base64 alphabet for a six-bit value.
pub open spec fn b64_char(v: u8) -> char {
    if v < 26 {
        (v + 65) as char
    } else if v < 52 {
        (v + 71) as char
    } else if v < 62 {
        (v - 4) as char
    } else if v == 62 {
        '+'
    } else {
        '/'
    }
}

/// Standard base64 with `=` padding.
#[verifier::opaque]
pub open spec fn base64_std(b: Seq<u8>) -> Seq<char>
    decreases b.len(),
{
    if b.len() == 0 {
        Seq::empty()
    } else if b.len() == 1 {
        seq![b64_char(b[0] >> 2), b64_char((b[0] & 3) << 4), '=', '=']
    } else if b.len() == 2 {
        seq![
            b64_char(b[0] >> 2),
            b64_char(((b[0] & 3) << 4) | (b[1] >> 4)),
            b64_char((b[1] & 15) << 2),
            '=',
        ]
    } else {
        seq![
            b64_char(b[0] >> 2),
            b64_char(((b[0] & 3) << 4) | (b[1] >> 4)),
            b64_char(((b[1] & 15) << 2) | (b[2] >> 6)),
            b64_char(b[2] & 63),
        ] + base64_std(b.subrange(3, b.len() as int))
    }
}

/// The last `/`-separated segment of a path.
pub open spec fn base_name(p: Seq<char>) -> Seq<char> {
    match last_index(p, '/') {
        Some(i) => p.subrange(i + 1, p.len() as int),
        None => p,
    }
}

/// The published name of a file called `name` whose content hashes to `h`:
/// the base64 of the hash goes after the part before the first `.`.
pub open spec fn rewritten_name(name: Seq<char>, h: u64) -> Option<Seq<char>> {
    match first_index(name, '.') {
        Some(i) => Some(
            name.subrange(0, i) + seq!['.'] + base64_std(le_bytes(h)) + seq!['.'] + name.subrange(
                i + 1,
                name.len() as int,
            ),
        ),
        None => None,
    }
}

/// Relies on seahash::hash: the 64-bit SeaHash of the bytes, a function of them alone.
#[verifier::external_body]
pub fn hash_file(file: &[u8]) -> (r: u64)
    ensures
        r == seahash_of(file@),
{
    seahash::hash(file)
}

/// Relies on base64::encode (standard alphabet, padded) of the little-endian bytes of `h`.
#[verifier::external_body]
fn encode_hash(h: u64) -> (r: String)
    ensures
        r@ == base64_std(le_bytes(h)),
{
    base64::encode(h.to_le_bytes())
}

/// A decoding result that gives back the bytes of every canonical encoding.
pub open spec fn decodes_canonical(r: Option<Vec<u8>>, s: Seq<char>) -> bool {
    forall|b: Seq<u8>| #[trigger] base64_std(b) == s ==> (r matches Some(v) && v@ == b)
}

/// Relies on base64::decode (standard alphabet): a padded encoding that
/// base64::encode produced decodes back to its bytes.
#[verifier::external_body]
fn decode_base64(s: &str) -> (r: Option<Vec<u8>>)
    ensures
        decodes_canonical(r, s@),
{
    base64::decode(s).ok()
}

/// The last `/`-separated segment of `path`.
fn base_name_chars(path: &Vec<char>) -> (r: Vec<char>)
    ensures
        r@ == base_name(path@),
{
    proof {
        crate::text::lemma_last_index_props(path@, '/');
    }
    let start = match find_last(path, '/') {
        Some(i) => {
            assert(i < path.len());
            i + 1
        },
        None => 0,
    };
    let name = string_of(path, start, path.len());
    let r = chars_of(name.as_str());
    assert(r@ == base_name(path@));
    r
}

/// `name` with the encoded hash put after its first `.`, which is at `dot`.
fn insert_hash(name: &Vec<char>, dot: usize, hash: u64) -> (r: String)
    requires
        first_index(name@, '.') == Some(dot as int),
    ensures
        Some(r@) == rewritten_name(name@, hash),
{
    proof {
        crate::text::lemma_first_index_props(name@, '.');
        assert(dot < name.len());
    }
    let encoded = encode_hash(hash);
    let mut out = string_of(name, 0, dot);
    crate::text::push_char(&mut out, '.');
    let enc = chars_of(encoded.as_str());
    append_chars(&mut out, &enc);
    crate::text::push_char(&mut out, '.');
    let ext = string_of(name, dot + 1, name.len());
    let ext = chars_of(ext.as_str());
    append_chars(&mut out, &ext);
    assert(out@ =~= name@.subrange(0, dot as int) + seq!['.'] + base64_std(le_bytes(hash))
        + seq!['.'] + name@.subrange(dot + 1, name@.len() as int));
    out
}

/// The hash and published name of a file, or `None` when the last segment of
/// `filename` holds no `.`.
pub fn new_filename(file: &[u8], filename: &str) -> (r: Option<(u64, String)>)
    ensures
        r is Some <==> rewritten_name(base_name(filename@), seahash_of(file@)) is Some,
        r matches Some((h, n)) ==> h == seahash_of(file@) && Some(n@) == rewritten_name(
            base_name(filename@),
            seahash_of(file@),
        ),
{
    let path = chars_of(filename);
    let name = base_name_chars(&path);
    let dot = match find_first(&name, '.') {
        Some(i) => i,
        None => return None,
    };
    let hash = hash_file(file);
    let out = insert_hash(&name, dot, hash);
    Some((hash, out))
}

proof fn lemma_base64_len8(b: Seq<u8>)
    requires
        b.len() == 8,
    ensures
        base64_std(b).len() == 12,
{
    reveal_with_fuel(base64_std, 4);
    assert(b.subrange(3, 8).subrange(3, 5).len() == 2);
}

/// The parts of a published name.
proof fn lemma_rewritten_shape(name: Seq<char>, h: u64)
    requires
        rewritten_name(name, h) is Some,
    ensures
        ({
            let f = rewritten_name(name, h)->0;
            let i = first_index(name, '.')->0;
            &&& 0 <= i < name.len()
            &&& f.len() == name.len() + 13
            &&& first_index(f, '.') == Some(i)
            &&& f[i + 13] == '.'
            &&& f.subrange(i + 1, i + 13) == base64_std(le_bytes(h))
            &&& f.subrange(0, i) == name.subrange(0, i)
            &&& f.subrange(i + 14, f.len() as int) == name.subrange(i + 1, name.len() as int)
        }),
{
    let f = rewritten_name(name, h)->0;
    let i = first_index(name, '.')->0;
    crate::text::lemma_first_index_props(name, '.');
    lemma_base64_len8(le_bytes(h));
    let enc = base64_std(le_bytes(h));
    assert(f == name.subrange(0, i) + seq!['.'] + enc + seq!['.'] + name.subrange(i + 1, name.len() as int));
    assert(f[i] == '.');
    assert forall|j: int| 0 <= j < i implies f[j] != '.' by {
        assert(f[j] == name[j]);
    }
    crate::text::lemma_first_index(f, '.', i);
    assert(f.subrange(i + 1, i + 13) =~= enc);
    assert(f.subrange(0, i) =~= name.subrange(0, i));
    assert(f.subrange(i + 14, f.len() as int) =~= name.subrange(i + 1, name.len() as int));
}

proof fn lemma_le_bytes_roundtrip(h: u64, r: u64, b0: u8, b1: u8, b2: u8, b3: u8, b4: u8, b5: u8, b6: u8, b7: u8)
    by (bit_vector)
    requires
        b0 == ((h >> 0u64) & 0xff) as u8,
        b1 == ((h >> 8u64) & 0xff) as u8,
        b2 == ((h >> 16u64) & 0xff) as u8,
        b3 == ((h >> 24u64) & 0xff) as u8,
        b4 == ((h >> 32u64) & 0xff) as u8,
        b5 == ((h >> 40u64) & 0xff) as u8,
        b6 == ((h >> 48u64) & 0xff) as u8,
        b7 == ((h >> 56u64) & 0xff) as u8,
        r == (b0 as u64) | ((b1 as u64) << 8u64) | ((b2 as u64) << 16u64) | ((b3 as u64) << 24u64)
            | ((b4 as u64) << 32u64) | ((b5 as u64) << 40u64) | ((b6 as u64) << 48u64) | ((
        b7 as u64) << 56u64),
    ensures
        r == h,
{
}

/// The number whose little-endian bytes are `b`.
fn u64_from_le(b: &Vec<u8>) -> (r: u64)
    requires
        b.len() == 8,
    ensures
        forall|h: u64| #[trigger] le_bytes(h) == b@ ==> r == h,
{
    let r = (b[0] as u64) | ((b[1] as u64) << 8u64) | ((b[2] as u64) << 16u64) | ((b[3] as u64)
        << 24u64) | ((b[4] as u64) << 32u64) | ((b[5] as u64) << 40u64) | ((b[6] as u64) << 48u64)
        | ((b[7] as u64) << 56u64);
    proof {
        assert forall|h: u64| #[trigger] le_bytes(h) == b@ implies r == h by {
            assert(b@[0] == le_bytes(h)[0]);
            assert(b@[1] == le_bytes(h)[1]);
            assert(b@[2] == le_bytes(h)[2]);
            assert(b@[3] == le_bytes(h)[3]);
            assert(b@[4] == le_bytes(h)[4]);
            assert(b@[5] == le_bytes(h)[5]);
            assert(b@[6] == le_bytes(h)[6]);
            assert(b@[7] == le_bytes(h)[7]);
            lemma_le_bytes_roundtrip(h, r, b[0], b[1], b[2], b[3], b[4], b[5], b[6], b[7]);
        }
    }
    r
}

/// No published name reads as `f`.
pub open spec fn not_published(f: Seq<char>) -> bool {
    forall|name: Seq<char>, h: u64| #[trigger] rewritten_name(name, h) != Some(f)
}

/// Reads a published name back: the hash and the file name it came from. Every
/// name that `new_filename` publishes reads back to what it was made from.
pub fn parse_filename(filename: &str) -> (r: Option<(u64, String)>)
    ensures
        forall|name: Seq<char>, h: u64| #[trigger] rewritten_name(name, h) == Some(filename@) ==> (r
            matches Some((h2, n)) && h2 == h && n@ == name),
{
    let cs = chars_of(filename);
    let dot = match find_first(&cs, '.') {
        Some(d) => d,
        None => {
            proof {
                assert forall|name: Seq<char>, h: u64| #[trigger] rewritten_name(name, h) != Some(filename@) by {
                    if rewritten_name(name, h) == Some(filename@) {
                        lemma_rewritten_shape(name, h);
                    }
                }
            }
            return None;
        },
    };
    proof {
        crate::text::lemma_first_index_props(cs@, '.');
    }
    if cs.len() - dot < 14 || cs[dot + 13] != '.' {
        proof {
            assert forall|name: Seq<char>, h: u64| #[trigger] rewritten_name(name, h) != Some(filename@) by {
                if rewritten_name(name, h) == Some(filename@) {
                    lemma_rewritten_shape(name, h);
                }
            }
        }
        return None;
    }
    let enc = string_of(&cs, dot + 1, dot + 13);
    let bytes = match decode_base64(enc.as_str()) {
        Some(b) => b,
        None => {
            proof {
                assert forall|name: Seq<char>, h: u64| #[trigger] rewritten_name(name, h) != Some(filename@) by {
                    if rewritten_name(name, h) == Some(filename@) {
                        lemma_rewritten_shape(name, h);
                        assert(base64_std(le_bytes(h)) == enc@);
                    }
                }
            }
            return None;
        },
    };
    if bytes.len() != 8 {
        proof {
            assert forall|name: Seq<char>, h: u64| #[trigger] rewritten_name(name, h) != Some(filename@) by {
                if rewritten_name(name, h) == Some(filename@) {
                    lemma_rewritten_shape(name, h);
                    assert(base64_std(le_bytes(h)) == enc@);
                }
            }
        }
        return None;
    }
    let h = u64_from_le(&bytes);
    let mut raw = string_of(&cs, 0, dot);
    crate::text::push_char(&mut raw, '.');
    let ext = string_of(&cs, dot + 14, cs.len());
    let ext = chars_of(ext.as_str());
    append_chars(&mut raw, &ext);
    proof {
        assert forall|name: Seq<char>, hh: u64| #[trigger] rewritten_name(name, hh) == Some(filename@) implies h == hh
            && raw@ == name by {
            lemma_rewritten_shape(name, hh);
            assert(base64_std(le_bytes(hh)) == enc@);
            assert(le_bytes(hh) == bytes@);
            let i = first_index(name, '.')->0;
            assert(i == dot);
            assert(raw@ =~= name.subrange(0, i) + seq!['.'] + name.subrange(i + 1, name.len() as int));
            assert(name =~= name.subrange(0, i) + seq!['.'] + name.subrange(i + 1, name.len() as int)) by {
                crate::text::lemma_first_index_props(name, '.');
            }
        }
    }
    Some((h, raw))
}

proof fn lemma_b64_char_injective(a: u8, b: u8)
    requires
        a < 64,
        b < 64,
        b64_char(a) == b64_char(b),
    ensures
        a == b,
{
}

proof fn lemma_group_injective(a0: u8, a1: u8, a2: u8, c0: u8, c1: u8, c2: u8)
    by (bit_vector)
    requires
        a0 >> 2u8 == c0 >> 2u8,
        ((a0 & 3u8) << 4u8) | (a1 >> 4u8) == ((c0 & 3u8) << 4u8) | (c1 >> 4u8),
        ((a1 & 15u8) << 2u8) | (a2 >> 6u8) == ((c1 & 15u8) << 2u8) | (c2 >> 6u8),
        a2 & 63u8 == c2 & 63u8,
    ensures
        a0 == c0 && a1 == c1 && a2 == c2,
{
}

proof fn lemma_pair_injective(a0: u8, a1: u8, c0: u8, c1: u8)
    by (bit_vector)
    requires
        a0 >> 2u8 == c0 >> 2u8,
        ((a0 & 3u8) << 4u8) | (a1 >> 4u8) == ((c0 & 3u8) << 4u8) | (c1 >> 4u8),
        (a1 & 15u8) << 2u8 == (c1 & 15u8) << 2u8,
    ensures
        a0 == c0 && a1 == c1,
{
}

proof fn lemma_sextets(a0: u8, a1: u8, a2: u8)
    by (bit_vector)
    ensures
        a0 >> 2u8 < 64,
        ((a0 & 3u8) << 4u8) | (a1 >> 4u8) < 64,
        ((a1 & 15u8) << 2u8) | (a2 >> 6u8) < 64,
        a2 & 63u8 < 64,
        (a1 & 15u8) << 2u8 < 64,
{
}

/// The four characters of a full group of three bytes.
pub open spec fn b64_group(a0: u8, a1: u8, a2: u8) -> Seq<char> {
    seq![
        b64_char(a0 >> 2),
        b64_char(((a0 & 3) << 4) | (a1 >> 4)),
        b64_char(((a1 & 15) << 2) | (a2 >> 6)),
        b64_char(a2 & 63),
    ]
}

/// The four characters of a final group of two bytes.
pub open spec fn b64_pair(a0: u8, a1: u8) -> Seq<char> {
    seq![b64_char(a0 >> 2), b64_char(((a0 & 3) << 4) | (a1 >> 4)), b64_char((a1 & 15) << 2), '=']
}

proof fn lemma_base64_unfold8(b: Seq<u8>)
    requires
        b.len() == 8,
    ensures
        base64_std(b) == b64_group(b[0], b[1], b[2]) + b64_group(b[3], b[4], b[5]) + b64_pair(b[6], b[7]),
{
    reveal_with_fuel(base64_std, 4);
    let b1 = b.subrange(3, 8);
    let b2 = b1.subrange(3, 5);
    assert(b1[0] == b[3] && b1[1] == b[4] && b1[2] == b[5]);
    assert(b2[0] == b[6] && b2[1] == b[7]);
    assert(base64_std(b2) == b64_pair(b[6], b[7]));
    assert(base64_std(b1) == b64_group(b[3], b[4], b[5]) + base64_std(b2));
    assert(base64_std(b) == b64_group(b[0], b[1], b[2]) + base64_std(b1));
    assert(base64_std(b) =~= b64_group(b[0], b[1], b[2]) + b64_group(b[3], b[4], b[5]) + b64_pair(
        b[6],
        b[7],
    ));
}

proof fn lemma_group_eq(a0: u8, a1: u8, a2: u8, c0: u8, c1: u8, c2: u8)
    requires
        b64_group(a0, a1, a2) == b64_group(c0, c1, c2),
    ensures
        a0 == c0 && a1 == c1 && a2 == c2,
{
    let g = b64_group(a0, a1, a2);
    let h = b64_group(c0, c1, c2);
    lemma_sextets(a0, a1, a2);
    lemma_sextets(c0, c1, c2);
    assert(g[0] == h[0] && g[1] == h[1] && g[2] == h[2] && g[3] == h[3]);
    lemma_b64_char_injective(a0 >> 2, c0 >> 2);
    lemma_b64_char_injective(((a0 & 3) << 4) | (a1 >> 4), ((c0 & 3) << 4) | (c1 >> 4));
    lemma_b64_char_injective(((a1 & 15) << 2) | (a2 >> 6), ((c1 & 15) << 2) | (c2 >> 6));
    lemma_b64_char_injective(a2 & 63, c2 & 63);
    lemma_group_injective(a0, a1, a2, c0, c1, c2);
}

proof fn lemma_pair_eq(a0: u8, a1: u8, c0: u8, c1: u8)
    requires
        b64_pair(a0, a1) == b64_pair(c0, c1),
    ensures
        a0 == c0 && a1 == c1,
{
    let g = b64_pair(a0, a1);
    let h = b64_pair(c0, c1);
    lemma_sextets(a0, a1, 0);
    lemma_sextets(c0, c1, 0);
    assert(g[0] == h[0] && g[1] == h[1] && g[2] == h[2]);
    lemma_b64_char_injective(a0 >> 2, c0 >> 2);
    lemma_b64_char_injective(((a0 & 3) << 4) | (a1 >> 4), ((c0 & 3) << 4) | (c1 >> 4));
    lemma_b64_char_injective((a1 & 15) << 2, (c1 & 15) << 2);
    lemma_pair_injective(a0, a1, c0, c1);
}

proof fn lemma_base64_injective8(x: Seq<u8>, y: Seq<u8>)
    requires
        x.len() == 8,
        y.len() == 8,
        base64_std(x) == base64_std(y),
    ensures
        x == y,
{
    lemma_base64_unfold8(x);
    lemma_base64_unfold8(y);
    let ex = base64_std(x);
    assert(ex.subrange(0, 4) =~= b64_group(x[0], x[1], x[2]));
    assert(ex.subrange(4, 8) =~= b64_group(x[3], x[4], x[5]));
    assert(ex.subrange(8, 12) =~= b64_pair(x[6], x[7]));
    let ey = base64_std(y);
    assert(ey.subrange(0, 4) =~= b64_group(y[0], y[1], y[2]));
    assert(ey.subrange(4, 8) =~= b64_group(y[3], y[4], y[5]));
    assert(ey.subrange(8, 12) =~= b64_pair(y[6], y[7]));
    lemma_group_eq(x[0], x[1], x[2], y[0], y[1], y[2]);
    lemma_group_eq(x[3], x[4], x[5], y[3], y[4], y[5]);
    lemma_pair_eq(x[6], x[7], y[6], y[7]);
    assert(x =~= y);
}

proof fn lemma_le_bytes_injective(h1: u64, h2: u64)
    requires
        le_bytes(h1) == le_bytes(h2),
    ensures
        h1 == h2,
{
    let b = le_bytes(h1);
    let r = (b[0] as u64) | ((b[1] as u64) << 8u64) | ((b[2] as u64) << 16u64) | ((b[3] as u64)
        << 24u64) | ((b[4] as u64) << 32u64) | ((b[5] as u64) << 40u64) | ((b[6] as u64) << 48u64)
        | ((b[7] as u64) << 56u64);
    lemma_le_bytes_roundtrip(h1, r, b[0], b[1], b[2], b[3], b[4], b[5], b[6], b[7]);
    let c = le_bytes(h2);
    assert(c[0] == b[0] && c[1] == b[1] && c[2] == b[2] && c[3] == b[3]);
    assert(c[4] == b[4] && c[5] == b[5] && c[6] == b[6] && c[7] == b[7]);
    lemma_le_bytes_roundtrip(h2, r, c[0], c[1], c[2], c[3], c[4], c[5], c[6], c[7]);
}

/// A file's published name determines its content hash: two different
/// hashes never give one file name the same published name.
pub proof fn lemma_name_determines_hash(name: Seq<char>, h1: u64, h2: u64)
    requires
        rewritten_name(name, h1) is Some,
        rewritten_name(name, h1) == rewritten_name(name, h2),
    ensures
        h1 == h2,
{
    lemma_rewritten_shape(name, h1);
    lemma_rewritten_shape(name, h2);
    let i = first_index(name, '.')->0;
    let f = rewritten_name(name, h1)->0;
    assert(base64_std(le_bytes(h1)) == f.subrange(i + 1, i + 13));
    lemma_base64_injective8(le_bytes(h1), le_bytes(h2));
    lemma_le_bytes_injective(h1, h2);
}

} // verus!
