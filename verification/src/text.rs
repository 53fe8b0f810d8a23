//! Text primitives: UTF-8 decoding, character access, and simple ASCII case
//! folding. The folding is the normalization the resolver applies to queries;
//! dictionary keys are trusted to be lowercase already.

use vstd::prelude::*;

verus! {

/// Simple ASCII case folding of one character: `'A'..='Z'` map to their
/// lowercase counterparts, every other character is unchanged.
pub open spec fn lower_char(c: char) -> char {
    if 65 <= c as u32 && c as u32 <= 90 {
        (((c as u32) + 32) as u8) as char
    } else {
        c
    }
}

/// Simple ASCII case folding of a whole character sequence.
pub open spec fn lower(s: Seq<char>) -> Seq<char> {
    s.map_values(|c: char| lower_char(c))
}

/// Folding one character twice is the same as folding it once.
pub proof fn lemma_lower_char_idempotent(c: char)
    ensures
        lower_char(lower_char(c)) == lower_char(c),
{
}

/// Case folding is idempotent: folding a sequence twice equals folding once.
pub proof fn lemma_lower_idempotent(s: Seq<char>)
    ensures
        lower(lower(s)) == lower(s),
{
    assert forall|i: int| 0 <= i < s.len() implies lower(lower(s))[i] == lower(s)[i] by {
        lemma_lower_char_idempotent(s[i]);
    }
    assert(lower(lower(s)) =~= lower(s));
}

/// Relies on `core::str::from_utf8`: returns `Ok` exactly when the bytes are
/// valid UTF-8, and the returned string holds the decoded characters.
#[verifier::external_body]
pub(crate) fn utf8_to_string(data: &Vec<u8>) -> (r: Option<String>)
    ensures
        r is Some <==> vstd::utf8::valid_utf8(data@),
        r matches Some(s) ==> s@ == vstd::utf8::decode_utf8(data@),
{
    match core::str::from_utf8(data.as_slice()) {
        Ok(s) => Some(s.to_owned()),
        Err(_) => None,
    }
}

/// Relies on `char::from_u32`: `Some` exactly on Unicode scalar values, and
/// the returned character then has scalar value `v`.
#[verifier::external_body]
pub(crate) fn char_from_u32(v: u32) -> (r: Option<char>)
    ensures
        r is Some <==> vstd::utf8::is_scalar(v),
        r matches Some(c) ==> c == (v as char),
{
    char::from_u32(v)
}

/// Relies on `String: FromIterator<char>`: collecting characters yields the
/// string of exactly those characters, in order.
#[verifier::external_body]
pub(crate) fn string_from_chars(v: &Vec<char>) -> (r: String)
    ensures
        r@ == v@,
{
    v.iter().collect()
}

/// Relies on `str::chars`: yields exactly the string's characters, in order.
#[verifier::external_body]
pub(crate) fn chars_of(s: &str) -> (r: Vec<char>)
    ensures
        r@ == s@,
{
    s.chars().collect()
}

/// Fold a string to lowercase with simple ASCII folding.
pub fn lowercase(w: &str) -> (r: String)
    ensures
        r@ == lower(w@),
{
    let cs = chars_of(w);
    let mut out: Vec<char> = Vec::new();
    let mut i: usize = 0;
    while i < cs.len()
        invariant
            i <= cs@.len(),
            cs@ == w@,
            out@ == lower(w@).take(i as int),
        decreases cs@.len() - i,
    {
        let c = cs[i];
        let u = c as u32;
        let folded: char = if 65 <= u && u <= 90 {
            ((u + 32) as u8) as char
        } else {
            c
        };
        assert(folded == lower_char(w@[i as int]));
        out.push(folded);
        proof {
            assert(lower(w@).take(i + 1) =~= lower(w@).take(i as int).push(lower(w@)[i as int]));
        }
        i = i + 1;
    }
    proof {
        assert(lower(w@).take(cs@.len() as int) =~= lower(w@));
    }
    string_from_chars(&out)
}

} // verus!
