//! The device's persistent identity: the ID stored on disk, or a fresh
//! random one when none is stored yet. Reading and writing the file, and
//! drawing the random bytes, happen outside the library.

use vstd::prelude::*;

use crate::text::{chars_of, is_whitespace, slice_chars, spec_is_whitespace, string_of};

verus! {

/// `s` without its leading whitespace.
pub open spec fn spec_trim_start(s: Seq<char>) -> Seq<char>
    decreases s.len(),
{
    if s.len() > 0 && spec_is_whitespace(s[0]) {
        spec_trim_start(s.drop_first())
    } else {
        s
    }
}

/// `s` without its trailing whitespace.
pub open spec fn spec_trim_end(s: Seq<char>) -> Seq<char>
    decreases s.len(),
{
    if s.len() > 0 && spec_is_whitespace(s.last()) {
        spec_trim_end(s.drop_last())
    } else {
        s
    }
}

/// `s` without leading and trailing whitespace.
pub open spec fn spec_trim(s: Seq<char>) -> Seq<char> {
    spec_trim_end(spec_trim_start(s))
}

/// Skipping `a` leading whitespace chars, up to the first that is not,
/// trims the start.
proof fn lemma_trim_start_is_skip(s: Seq<char>, a: int)
    requires
        0 <= a <= s.len(),
        forall|j: int| 0 <= j < a ==> spec_is_whitespace(#[trigger] s[j]),
        a == s.len() || !spec_is_whitespace(s[a]),
    ensures
        spec_trim_start(s) == s.skip(a),
    decreases a,
{
    if a == 0 {
        assert(s.skip(0) =~= s);
    } else {
        let rest = s.drop_first();
        assert forall|j: int| 0 <= j < a - 1 implies spec_is_whitespace(#[trigger] rest[j]) by {
            assert(rest[j] == s[j + 1]);
        }
        lemma_trim_start_is_skip(rest, a - 1);
        assert(rest.skip(a - 1) =~= s.skip(a));
    }
}

/// Keeping the first `b` chars, when all after them are whitespace and the
/// last kept one is not, trims the end.
proof fn lemma_trim_end_is_take(t: Seq<char>, b: int)
    requires
        0 <= b <= t.len(),
        forall|j: int| b <= j < t.len() ==> spec_is_whitespace(#[trigger] t[j]),
        b == 0 || !spec_is_whitespace(t[b - 1]),
    ensures
        spec_trim_end(t) == t.take(b),
    decreases t.len() - b,
{
    if b == t.len() {
        assert(t.take(b) =~= t);
    } else {
        let rest = t.drop_last();
        assert forall|j: int| b <= j < rest.len() implies spec_is_whitespace(#[trigger] rest[j]) by {
            assert(rest[j] == t[j]);
        }
        lemma_trim_end_is_take(rest, b);
        assert(rest.take(b) =~= t.take(b));
    }
}

/// `cs` without leading and trailing whitespace (what `str::trim`
/// returns).
fn trim_chars(cs: &Vec<char>) -> (r: Vec<char>)
    ensures
        r@ == spec_trim(cs@),
{
    let n = cs.len();
    let mut a: usize = 0;
    while a < n && is_whitespace(cs[a])
        invariant
            a <= n == cs@.len(),
            forall|j: int| 0 <= j < a ==> spec_is_whitespace(#[trigger] cs@[j]),
        decreases n - a,
    {
        a = a + 1;
    }
    proof {
        lemma_trim_start_is_skip(cs@, a as int);
    }
    let mut b: usize = n;
    while b > a && is_whitespace(cs[b - 1])
        invariant
            a <= b <= n == cs@.len(),
            forall|j: int| b <= j < n ==> spec_is_whitespace(#[trigger] cs@[j]),
        decreases b - a,
    {
        b = b - 1;
    }
    let ghost t = cs@.skip(a as int);
    proof {
        assert forall|j: int| b - a <= j < t.len() implies spec_is_whitespace(#[trigger] t[j]) by {
            assert(t[j] == cs@[a + j]);
        }
        if b > a {
            assert(t[b - a - 1] == cs@[b - 1]);
        }
        lemma_trim_end_is_take(t, b - a);
        assert(t.take(b - a) =~= cs@.subrange(a as int, b as int));
    }
    slice_chars(cs, a, b)
}

/// Whether `c` is a lowercase hexadecimal digit.
pub open spec fn is_lower_hex(c: char) -> bool {
    ('0' <= c <= '9') || ('a' <= c <= 'f')
}

/// The text form of a random (version 4, RFC 4122 variant) UUID: 36 chars,
/// hyphens at 8, 13, 18 and 23, lowercase hex digits elsewhere, `4` at 14
/// and one of `8`, `9`, `a`, `b` at 19.
pub open spec fn is_uuid_v4_text(s: Seq<char>) -> bool {
    &&& s.len() == 36
    &&& forall|i: int|
        0 <= i < 36 ==> if i == 8 || i == 13 || i == 18 || i == 23 {
            s[i] == '-'
        } else {
            is_lower_hex(#[trigger] s[i])
        }
    &&& s[14] == '4'
    &&& (s[19] == '8' || s[19] == '9' || s[19] == 'a' || s[19] == 'b')
}

/// The lowercase hexadecimal digit of a nibble.
pub open spec fn hex_digit(n: u8) -> char {
    if n < 10 {
        (48 + n) as char
    } else {
        (87 + n) as char
    }
}

/// Whether position `p` of the hyphenated text holds a hyphen.
pub open spec fn is_hyphen_position(p: int) -> bool {
    p == 8 || p == 13 || p == 18 || p == 23
}

/// Which nibble of the 16 bytes (counting high nibbles first) the digit at
/// position `p` of the hyphenated text shows: `p` less the hyphens before it.
pub open spec fn nibble_index(p: int) -> int {
    p - (if p > 8 { 1int } else { 0 }) - (if p > 13 { 1int } else { 0 }) - (if p > 18 {
        1int
    } else {
        0
    }) - (if p > 23 { 1int } else { 0 })
}

/// Nibble `n` of `bytes`: the high half of byte `n / 2` when `n` is even,
/// its low half when `n` is odd.
pub open spec fn nibble(bytes: Seq<u8>, n: int) -> u8 {
    if n % 2 == 0 {
        bytes[n / 2] >> 4
    } else {
        bytes[n / 2] & 0x0f
    }
}

/// The hyphenated lowercase text of a UUID's 16 bytes: 32 hex digits, high
/// nibble first, grouped 8-4-4-4-12.
pub open spec fn uuid_text(bytes: Seq<u8>) -> Seq<char> {
    Seq::new(
        36,
        |p: int|
            if is_hyphen_position(p) {
                '-'
            } else {
                hex_digit(nibble(bytes, nibble_index(p)))
            },
    )
}

/// Random bytes made into a version-4 UUID: the high nibble of byte 6
/// becomes the version, 4, and the two high bits of byte 8 the RFC 4122
/// variant, `10`.
pub open spec fn v4_bytes(random: Seq<u8>) -> Seq<u8> {
    random.update(6, (random[6] & 0x0f) | 0x40).update(8, (random[8] & 0x3f) | 0x80)
}

/// `uuid::Builder::from_random_bytes(random).into_uuid()` written out with
/// `to_string`: the builder sets the version and variant bits of the given
/// bytes (`v4_bytes`), and `Display` writes the hyphenated lowercase form.
/// Neither step can fail.
#[verifier::external_body]
fn uuid_v4_text(random: [u8; 16]) -> (r: String)
    ensures
        r@ == uuid_text(v4_bytes(random@)),
{
    uuid::Builder::from_random_bytes(random).into_uuid().to_string()
}

/// A nibble's digit is a lowercase hex digit.
proof fn lemma_hex_digit(n: u8)
    requires
        n < 16,
    ensures
        is_lower_hex(hex_digit(n)),
        n == 4 ==> hex_digit(n) == '4',
        n == 8 ==> hex_digit(n) == '8',
        n == 9 ==> hex_digit(n) == '9',
        n == 10 ==> hex_digit(n) == 'a',
        n == 11 ==> hex_digit(n) == 'b',
{
    if n < 10 {
        assert(((48 + n) as char) as u32 == 48 + n);
    } else {
        assert(((87 + n) as char) as u32 == 87 + n);
    }
}

/// The text of any 16 bytes made into a version-4 UUID has the form of one.
pub proof fn lemma_uuid_v4_text_form(random: Seq<u8>)
    requires
        random.len() == 16,
    ensures
        is_uuid_v4_text(uuid_text(v4_bytes(random))),
{
    let b = v4_bytes(random);
    let t = uuid_text(b);
    assert forall|p: int| 0 <= p < 36 && !is_hyphen_position(p) implies is_lower_hex(
        #[trigger] t[p],
    ) by {
        let n = nibble_index(p);
        assert(0 <= n < 32);
        let x = b[n / 2];
        assert(x >> 4 < 16 && x & 0x0f < 16) by (bit_vector);
        lemma_hex_digit(nibble(b, n));
    }
    let b6 = random[6];
    let b8 = random[8];
    assert(((b6 & 0x0f) | 0x40) >> 4 == 4) by (bit_vector);
    let v = ((b8 & 0x3f) | 0x80) >> 4;
    assert(8 <= ((b8 & 0x3f) | 0x80) >> 4 <= 11) by (bit_vector);
    assert(nibble_index(14) == 12 && nibble_index(19) == 16);
    assert(b[6] == (b6 & 0x0f) | 0x40);
    assert(b[8] == (b8 & 0x3f) | 0x80);
    lemma_hex_digit(4);
    lemma_hex_digit(v);
}

/// The device ID to use: the stored one, trimmed, when there is one;
/// otherwise a fresh version-4 UUID made from the 16 `random` bytes,
/// flagged as new so that it gets stored.
pub fn resolve_device_id(stored: Option<&str>, random: [u8; 16]) -> (r: (String, bool))
    ensures
        stored matches Some(s) ==> r.0@ == spec_trim(s@) && !r.1,
        stored is None ==> r.0@ == uuid_text(v4_bytes(random@)) && is_uuid_v4_text(r.0@) && r.1,
{
    match stored {
        Some(s) => {
            let cs = chars_of(s);
            (string_of(&trim_chars(&cs)), false)
        },
        None => {
            proof {
                lemma_uuid_v4_text_form(random@);
            }
            (uuid_v4_text(random), true)
        },
    }
}

} // verus!
