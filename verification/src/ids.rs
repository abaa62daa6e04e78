//! Fresh random identifiers for new recipes and steps.
use vstd::prelude::*;

verus! {

/// A lower-case hexadecimal digit.
pub open spec fn is_lower_hex(c: char) -> bool {
    ('0' <= c && c <= '9') || ('a' <= c && c <= 'f')
}

/// Whether `s` is the text of a random (version 4) UUID in the hyphenated,
/// lower-case form: 36 characters, groups of 8-4-4-4-12 hexadecimal digits
/// parted by hyphens, the version digit `4` at index 14 and the variant
/// digit (one of `8`, `9`, `a`, `b`) at index 19.
pub open spec fn is_uuid_v4_text(s: Seq<char>) -> bool {
    &&& s.len() == 36
    &&& forall|i: int|
        0 <= i < 36 ==> if i == 8 || i == 13 || i == 18 || i == 23 {
            s[i] == '-'
        } else {
            is_lower_hex(#[trigger] s[i])
        }
    &&& s[14] == '4'
    &&& (s[19] == '8' || s[19] == '9' || s[19] == 'a' || s[19] == 'b')
}

/// The lower-case hexadecimal digit of the value `n` (below 16).
pub open spec fn hex_digit(n: u8) -> char {
    seq!['0', '1', '2', '3', '4', '5', '6', '7', '8', '9', 'a', 'b', 'c', 'd', 'e', 'f'][n as int]
}

/// The bytes of the random UUID made of the bytes `b`: the version bits of
/// byte 6 set to 4, the variant bits of byte 8 set to `10`.
pub open spec fn uuid_v4_bytes(b: Seq<u8>) -> Seq<u8> {
    b.update(6, (b[6] & 0x0f) | 0x40).update(8, (b[8] & 0x3f) | 0x80)
}

/// The digit that the position `i` of the hyphenated text shows.
pub open spec fn digit_position(i: int) -> int {
    if i < 8 {
        i
    } else if i < 13 {
        i - 1
    } else if i < 18 {
        i - 2
    } else if i < 23 {
        i - 3
    } else {
        i - 4
    }
}

/// The `d`-th four-bit digit of `u`, high half of each byte first.
pub open spec fn nibble(u: Seq<u8>, d: int) -> u8 {
    if d % 2 == 0 {
        u[d / 2] >> 4
    } else {
        u[d / 2] & 0x0f
    }
}

/// The hyphenated lower-case text of the random UUID made of the bytes `b`.
pub open spec fn uuid_v4_text_of(b: Seq<u8>) -> Seq<char> {
    Seq::new(
        36,
        |i: int|
            if i == 8 || i == 13 || i == 18 || i == 23 {
                '-'
            } else {
                hex_digit(nibble(uuid_v4_bytes(b), digit_position(i)))
            },
    )
}

/// Calls `getrandom::fill` on 16 bytes: the bytes where the operating
/// system supplied them, `None` where it reported an error. Nothing is
/// claimed of which bytes come back (they are random).
#[verifier::external_body]
fn random_bytes() -> (bytes: Option<[u8; 16]>) {
    let mut bytes = [0u8; 16];
    match getrandom::fill(&mut bytes) {
        Ok(()) => Some(bytes),
        Err(_) => None,
    }
}

/// Calls `uuid::Builder::from_random_bytes`, then `into_uuid` and
/// `to_string`. The builder keeps the bytes but for the version bits of
/// byte 6 (set to 4) and the variant bits of byte 8 (set to `10`);
/// `Display` writes the 16 bytes as 32 lower-case hexadecimal digits, high
/// half of each byte first, with hyphens after the 8th, 12th, 16th and
/// 20th digit. The contract states that text.
#[verifier::external_body]
fn uuid_v4_text(bytes: [u8; 16]) -> (text: String)
    ensures
        text@ == uuid_v4_text_of(bytes@),
{
    uuid::Builder::from_random_bytes(bytes).into_uuid().to_string()
}

/// The text of the random UUID made of `bytes` has the hyphenated v4 form.
pub proof fn lemma_uuid_v4_text_form(b: Seq<u8>)
    requires
        b.len() == 16,
    ensures
        is_uuid_v4_text(uuid_v4_text_of(b)),
{
    let s = uuid_v4_text_of(b);
    let u = uuid_v4_bytes(b);
    assert forall|i: int|
        0 <= i < 36 && !(i == 8 || i == 13 || i == 18 || i == 23) implies is_lower_hex(#[trigger] s[i]) by {
        let d = digit_position(i);
        let x = u[d / 2];
        assert(x >> 4 < 16 && x & 0x0f < 16) by (bit_vector);
        assert(nibble(u, d) < 16);
    }
    let x6 = b[6];
    let x8 = b[8];
    assert(((x6 & 0x0f) | 0x40) >> 4 == 4) by (bit_vector);
    assert(8 <= ((x8 & 0x3f) | 0x80) >> 4 <= 11) by (bit_vector);
    assert(u[6] == (x6 & 0x0f) | 0x40);
    assert(u[8] == (x8 & 0x3f) | 0x80);
    assert(digit_position(14) == 12);
    assert(digit_position(19) == 16);
    assert(s[14] == hex_digit(nibble(u, 12)));
    assert(s[19] == hex_digit(nibble(u, 16)));
}

/// The identifier made of the random bytes `bytes`: the hyphenated
/// lower-case text of the version 4 UUID they make.
pub fn id_from_random_bytes(bytes: [u8; 16]) -> (id: String)
    ensures
        id@ == uuid_v4_text_of(bytes@),
        is_uuid_v4_text(id@),
{
    let id = uuid_v4_text(bytes);
    proof {
        lemma_uuid_v4_text_form(bytes@);
    }
    id
}

/// A fresh identifier, drawn from the operating system's random source;
/// `None` where the source reported an error.
pub fn new_id() -> (id: Option<String>)
    ensures
        id matches Some(s) ==> is_uuid_v4_text(s@),
{
    match random_bytes() {
        Some(bytes) => Some(id_from_random_bytes(bytes)),
        None => None,
    }
}

/// `count` fresh identifiers, in the order they were drawn, each different
/// from the others; `None` where the random source reported an error, or
/// gave an identifier it had given before in this call (which a working
/// source does with negligible probability).
pub fn new_ids(count: usize) -> (ids: Option<Vec<String>>)
    ensures
        ids matches Some(v) ==> {
            &&& v@.len() == count
            &&& forall|i: int| 0 <= i < count ==> is_uuid_v4_text(#[trigger] v@[i]@)
            &&& forall|i: int, j: int| 0 <= i < j < count ==> (#[trigger] v@[i])@ != (#[trigger] v@[j])@
        },
{
    let mut ids: Vec<String> = Vec::new();
    let mut k: usize = 0;
    while k < count
        invariant
            k <= count,
            ids@.len() == k,
            forall|i: int| 0 <= i < k ==> is_uuid_v4_text(#[trigger] ids@[i]@),
            forall|i: int, j: int| 0 <= i < j < k ==> (#[trigger] ids@[i])@ != (#[trigger] ids@[j])@,
        decreases count - k,
    {
        let id = match new_id() {
            Some(id) => id,
            None => return None,
        };
        let mut j: usize = 0;
        while j < k
            invariant
                k == ids@.len(),
                j <= k,
                forall|i: int| 0 <= i < j ==> (#[trigger] ids@[i])@ != id@,
            decreases k - j,
        {
            if ids[j] == id {
                return None;
            }
            j = j + 1;
        }
        ids.push(id);
        k = k + 1;
    }
    Some(ids)
}

} // verus!
