use vstd::prelude::*;
use crate::hex::hex_digit_value;

verus! {

/// All characters of `s` are hexadecimal digits.
pub open spec fn all_hex(s: Seq<char>) -> bool {
    forall|i: int| 0 <= i < s.len() ==> (#[trigger] hex_digit_value(s[i])) is Some
}

/// Bytes spelled by an even run of hexadecimal digits, high nibble first.
pub open spec fn hex_bytes(s: Seq<char>) -> Seq<u8> {
    Seq::new(
        s.len() / 2,
        |j: int|
            (hex_digit_value(s[2 * j])->0 * 16 + hex_digit_value(s[2 * j + 1])->0) as u8,
    )
}

/// The 32 digits of a hyphenated UUID text (groups 8-4-4-4-12).
pub open spec fn unhyphenate(s: Seq<char>) -> Seq<char> {
    s.subrange(0, 8) + s.subrange(9, 13) + s.subrange(14, 18) + s.subrange(19, 23) + s.subrange(
        24,
        36,
    )
}

/// Bytes of a hyphenated UUID text, if it is one.
pub open spec fn hyphenated_uuid_bytes(s: Seq<char>) -> Option<Seq<u8>> {
    if s.len() == 36 && s[8] == '-' && s[13] == '-' && s[18] == '-' && s[23] == '-' && all_hex(
        unhyphenate(s),
    ) {
        Some(hex_bytes(unhyphenate(s)))
    } else {
        None
    }
}

/// `c` equals the lower-case ASCII character `lower`, ignoring ASCII case.
pub open spec fn ascii_eq_ignore_case(c: char, lower: char) -> bool {
    c == lower || (97 <= lower as int <= 122 && c as int == lower as int - 32)
}

/// The nine characters are `urn:uuid:` in any ASCII case.
pub open spec fn is_urn_prefix(p: Seq<char>) -> bool {
    let u = "urn:uuid:"@;
    &&& p.len() == 9
    &&& forall|i: int| 0 <= i < 9 ==> ascii_eq_ignore_case(#[trigger] p[i], u[i])
}

/// The 16 bytes (in the UUID's own field order) that a UUID text spells:
/// 32 plain digits, the hyphenated form, the hyphenated form in braces,
/// or the hyphenated form behind `urn:uuid:`. `None` for any other text.
pub open spec fn uuid_text_bytes(s: Seq<char>) -> Option<Seq<u8>> {
    if s.len() == 32 {
        if all_hex(s) {
            Some(hex_bytes(s))
        } else {
            None
        }
    } else if s.len() == 36 {
        hyphenated_uuid_bytes(s)
    } else if s.len() == 38 {
        if s[0] == '{' && s[37] == '}' {
            hyphenated_uuid_bytes(s.subrange(1, 37))
        } else {
            None
        }
    } else if s.len() == 45 {
        if is_urn_prefix(s.subrange(0, 9)) {
            hyphenated_uuid_bytes(s.subrange(9, 45))
        } else {
            None
        }
    } else {
        None
    }
}

/// The message of the error that `uuid::Uuid::parse_str` gives for `s`.
pub uninterp spec fn uuid_parse_error_text(s: Seq<char>) -> Seq<char>;

/// GPT stores a GUID with its first three fields little-endian.
pub open spec fn mixed_endian(b: Seq<u8>) -> Seq<u8> {
    seq![b[3], b[2], b[1], b[0], b[5], b[4], b[7], b[6]] + b.subrange(8, 16)
}

/// The two characters are equal when ASCII letters are taken without case.
pub open spec fn ascii_case_eq(a: char, b: char) -> bool {
    ||| a == b
    ||| (65 <= a as int <= 90 && b as int == a as int + 32)
    ||| (65 <= b as int <= 90 && a as int == b as int + 32)
}

/// The two texts are equal when ASCII letters are taken without case.
pub open spec fn same_ignoring_ascii_case(x: Seq<char>, y: Seq<char>) -> bool {
    &&& x.len() == y.len()
    &&& forall|i: int| 0 <= i < x.len() ==> ascii_case_eq(#[trigger] x[i], y[i])
}

proof fn lemma_hex_case(x: Seq<char>, y: Seq<char>)
    requires
        same_ignoring_ascii_case(x, y),
    ensures
        all_hex(x) == all_hex(y),
        all_hex(x) ==> hex_bytes(x) == hex_bytes(y),
{
    assert forall|i: int| 0 <= i < x.len() implies #[trigger] hex_digit_value(x[i]) == hex_digit_value(y[i]) by {
        assert(ascii_case_eq(x[i], y[i]));
    }
    if all_hex(x) {
        assert forall|i: int| 0 <= i < y.len() implies (#[trigger] hex_digit_value(y[i])) is Some by {
            assert(hex_digit_value(x[i]) == hex_digit_value(y[i]));
        }
        assert forall|j: int| 0 <= j < x.len() / 2 implies #[trigger] hex_bytes(x)[j] == hex_bytes(y)[j] by {
            assert(hex_digit_value(x[2 * j]) == hex_digit_value(y[2 * j]));
            assert(hex_digit_value(x[2 * j + 1]) == hex_digit_value(y[2 * j + 1]));
        }
        assert(hex_bytes(x) =~= hex_bytes(y));
    } else {
        let i = choose|i: int| 0 <= i < x.len() && !((#[trigger] hex_digit_value(x[i])) is Some);
        assert(hex_digit_value(x[i]) == hex_digit_value(y[i]));
    }
}

proof fn lemma_hyphenated_case(x: Seq<char>, y: Seq<char>)
    requires
        same_ignoring_ascii_case(x, y),
    ensures
        hyphenated_uuid_bytes(x) == hyphenated_uuid_bytes(y),
{
    if x.len() == 36 {
        assert(ascii_case_eq(x[8], y[8]) && ascii_case_eq(x[13], y[13]));
        assert(ascii_case_eq(x[18], y[18]) && ascii_case_eq(x[23], y[23]));
        let ux = unhyphenate(x);
        let uy = unhyphenate(y);
        assert(ux.len() == 32 && uy.len() == 32);
        assert forall|i: int| 0 <= i < ux.len() implies ascii_case_eq(#[trigger] ux[i], uy[i]) by {
            let k = if i < 8 {
                i
            } else if i < 12 {
                i + 1
            } else if i < 16 {
                i + 2
            } else if i < 20 {
                i + 3
            } else {
                i + 4
            };
            assert(ux[i] == x[k] && uy[i] == y[k]);
            assert(ascii_case_eq(x[k], y[k]));
        }
        lemma_hex_case(ux, uy);
    }
}

/// Law: a UUID text is read without regard to the case of its letters.
/// Two texts that differ only in the case of ASCII letters spell the same
/// bytes, and the GPT GUID of one is that of the other.
pub proof fn lemma_uuid_case_insensitive(x: Seq<char>, y: Seq<char>)
    requires
        same_ignoring_ascii_case(x, y),
    ensures
        uuid_text_bytes(x) == uuid_text_bytes(y),
        gpt_guid_of(x) is Ok <==> gpt_guid_of(y) is Ok,
        gpt_guid_of(x) is Ok ==> gpt_guid_of(x) == gpt_guid_of(y),
{
    if x.len() == 32 {
        lemma_hex_case(x, y);
    } else if x.len() == 36 {
        lemma_hyphenated_case(x, y);
    } else if x.len() == 38 {
        assert(ascii_case_eq(x[0], y[0]) && ascii_case_eq(x[37], y[37]));
        let ix = x.subrange(1, 37);
        let iy = y.subrange(1, 37);
        assert forall|i: int| 0 <= i < ix.len() implies ascii_case_eq(#[trigger] ix[i], iy[i]) by {
            assert(ix[i] == x[i + 1] && iy[i] == y[i + 1]);
            assert(ascii_case_eq(x[i + 1], y[i + 1]));
        }
        lemma_hyphenated_case(ix, iy);
    } else if x.len() == 45 {
        let px = x.subrange(0, 9);
        let py = y.subrange(0, 9);
        let u = "urn:uuid:"@;
        reveal_strlit("urn:uuid:");
        assert(u.len() == 9);
        assert forall|i: int| 0 <= i < 9 implies ascii_eq_ignore_case(#[trigger] px[i], u[i])
            == ascii_eq_ignore_case(py[i], u[i]) by {
            assert(px[i] == x[i] && py[i] == y[i]);
            assert(ascii_case_eq(x[i], y[i]));
            assert(u[i] == ':' || 97 <= u[i] as int <= 122);
        }
        if is_urn_prefix(px) {
            assert forall|i: int| 0 <= i < 9 implies ascii_eq_ignore_case(#[trigger] py[i], u[i]) by {
                assert(ascii_eq_ignore_case(px[i], u[i]));
            }
        }
        if is_urn_prefix(py) {
            assert forall|i: int| 0 <= i < 9 implies ascii_eq_ignore_case(#[trigger] px[i], u[i]) by {
                assert(ascii_eq_ignore_case(py[i], u[i]));
            }
        }
        assert(is_urn_prefix(px) == is_urn_prefix(py));
        let ix = x.subrange(9, 45);
        let iy = y.subrange(9, 45);
        assert forall|i: int| 0 <= i < ix.len() implies ascii_case_eq(#[trigger] ix[i], iy[i]) by {
            assert(ix[i] == x[i + 9] && iy[i] == y[i + 9]);
            assert(ascii_case_eq(x[i + 9], y[i + 9]));
        }
        lemma_hyphenated_case(ix, iy);
    }
}

/// What `parse_uuid_to_gpt_guid` gives for a text: the GUID bytes in GPT
/// order, or the parse error's message.
pub open spec fn gpt_guid_of(s: Seq<char>) -> Result<Seq<u8>, Seq<char>> {
    match uuid_text_bytes(s) {
        Some(b) => Ok(mixed_endian(b)),
        None => Err(uuid_parse_error_text(s)),
    }
}

/// Calls `uuid::Uuid::parse_str` and hands back the UUID's 16 bytes in its
/// own field order, or the error's `Display` text. Claimed: the call
/// succeeds exactly on the four text forms of `uuid_text_bytes` and yields
/// the bytes they spell; the error text is only named.
#[verifier::external_body]
fn uuid_parse_str(s: &str) -> (r: Result<[u8; 16], String>)
    ensures
        match uuid_text_bytes(s@) {
            Some(b) => r matches Ok(a) && a@ == b,
            None => r matches Err(e) && e@ == uuid_parse_error_text(s@),
        },
{
    match uuid::Uuid::parse_str(s) {
        Ok(id) => Ok(*id.as_bytes()),
        Err(e) => Err(e.to_string()),
    }
}

/// Calls `getrandom::getrandom` to fill `buf`: `true` when the system
/// source answered, `false` when it failed. The length of `buf` stays;
/// nothing is claimed of the bytes themselves.
#[verifier::external_body]
fn fill_random(buf: &mut [u8]) -> (ok: bool)
    ensures
        final(buf)@.len() == old(buf)@.len(),
{
    getrandom::getrandom(buf).is_ok()
}

/// The bytes of a version 4 UUID made from 16 random bytes, as
/// `uuid::Builder::from_random_bytes` makes it: the high nibble of byte 6
/// becomes 4 (the version) and the top two bits of byte 8 become `10`
/// (the RFC 4122 variant); all other bits stay.
pub open spec fn v4_from_random(b: Seq<u8>) -> Seq<u8> {
    b.update(6, (b[6] & 0x0fu8) | 0x40u8).update(8, (b[8] & 0x3fu8) | 0x80u8)
}

/// Sets the version 4 and RFC 4122 variant bits in 16 random bytes.
pub fn uuid_v4_from_random_bytes(b: [u8; 16]) -> (r: [u8; 16])
    ensures
        r@ == v4_from_random(b@),
        r@[6] & 0xf0u8 == 0x40u8,
        r@[8] & 0xc0u8 == 0x80u8,
{
    let mut r = b;
    let x6 = b[6];
    let x8 = b[8];
    let b6 = (x6 & 0x0f) | 0x40;
    let b8 = (x8 & 0x3f) | 0x80;
    assert(b6 & 0xf0u8 == 0x40u8) by (bit_vector)
        requires
            b6 == (x6 & 0x0fu8) | 0x40u8,
    ;
    assert(b8 & 0xc0u8 == 0x80u8) by (bit_vector)
        requires
            b8 == (x8 & 0x3fu8) | 0x80u8,
    ;
    r[6] = b6;
    r[8] = b8;
    assert(r@ =~= v4_from_random(b@));
    r
}

/// Reorders UUID bytes into the GPT on-disk GUID order.
pub fn to_mixed_endian(b: [u8; 16]) -> (r: [u8; 16])
    ensures
        r@ == mixed_endian(b@),
{
    let r = [
        b[3],
        b[2],
        b[1],
        b[0],
        b[5],
        b[4],
        b[7],
        b[6],
        b[8],
        b[9],
        b[10],
        b[11],
        b[12],
        b[13],
        b[14],
        b[15],
    ];
    assert(r@ =~= mixed_endian(b@));
    r
}

/// Parses a UUID text into the 16 bytes GPT stores for it.
pub fn parse_uuid_to_gpt_guid(uuid_str: &str) -> (r: Result<[u8; 16], String>)
    ensures
        match gpt_guid_of(uuid_str@) {
            Ok(g) => r matches Ok(a) && a@ == g,
            Err(m) => r matches Err(e) && e@ == m,
        },
{
    match uuid_parse_str(uuid_str) {
        Ok(b) => Ok(to_mixed_endian(b)),
        Err(e) => Err(e),
    }
}

/// A fresh random (version 4) GUID in GPT byte order; `None` when the
/// system random source failed.
pub fn generate_random_guid() -> (r: Option<[u8; 16]>)
    ensures
        r matches Some(g) ==> g@.len() == 16 && g@[7] & 0xf0u8 == 0x40u8 && g@[8] & 0xc0u8 == 0x80u8,
{
    let mut buf = [0u8; 16];
    if fill_random(&mut buf) {
        Some(to_mixed_endian(uuid_v4_from_random_bytes(buf)))
    } else {
        None
    }
}

/// What a draw of four random bytes gives: the bytes the source wrote
/// when it answered, nothing when it failed.
pub fn dos_id_from_draw(answered: bool, bytes: [u8; 4]) -> (r: Option<[u8; 4]>)
    ensures
        r == (if answered {
            Some(bytes)
        } else {
            None
        }),
{
    if answered {
        Some(bytes)
    } else {
        None
    }
}

/// Four random bytes for a DOS disk signature: those the system random
/// source wrote, unchanged (see `dos_id_from_draw`); `None` when it failed.
pub fn generate_random_dos_id() -> (r: Option<[u8; 4]>)
    ensures
        r matches Some(b) ==> b@.len() == 4,
{
    let mut buf = [0u8; 4];
    let answered = fill_random(&mut buf);
    dos_id_from_draw(answered, buf)
}

} // verus!
