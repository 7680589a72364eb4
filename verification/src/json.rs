//! The strict JSON reader behind Slang reflection: RFC 8259 syntax over UTF-8
//! bytes, at most 64 levels of nesting, duplicate object keys refused, and
//! numbers kept as their source text.
use vstd::prelude::*;
use vstd::utf8::{decode_utf8, valid_utf8};
use vstd::slice::slice_subrange;
use vstd::string::StringSliceAdditionalSpecFns;
use crate::text::{
    all_ascii_digits, chars_of, decimal, decimal_value, digit_value, is_ascii_digit,
    lemma_decimal_value_monotone, lemma_decimal_value_nonneg, push_char, push_decimal,
};

verus! {

#[verifier::external_type_specification]
#[verifier::external_body]
pub struct ExUtf8Error(std::str::Utf8Error);

/// A parsed JSON value. An object keeps its members in source order; its keys
/// are pairwise distinct.
#[derive(Debug)]
pub enum Json {
    Object(Vec<(String, Json)>),
    Array(Vec<Json>),
    Str(String),
    Number(String),
    Other,
}

/// The mathematical value of a [`Json`].
#[verifier::ext_equal]
pub enum JsonModel {
    Object(Seq<(Seq<char>, JsonModel)>),
    Array(Seq<JsonModel>),
    Str(Seq<char>),
    Number(Seq<char>),
    Other,
}

impl Json {
    pub open spec fn model(&self) -> JsonModel
        decreases self,
    {
        match self {
            Json::Object(fields) => JsonModel::Object(
                Seq::new(
                    fields@.len(),
                    |i: int|
                        if 0 <= i < fields@.len() {
                            proof {
                                broadcast use vstd::std_specs::vec::axiom_vec_decreases_to_view;
                                assert(decreases_to!(fields => fields@));
                                assert(decreases_to!(fields@ => fields@[i]));
                            }
                            (fields@[i].0@, fields@[i].1.model())
                        } else {
                            (Seq::empty(), JsonModel::Other)
                        },
                ),
            ),
            Json::Array(values) => JsonModel::Array(
                Seq::new(
                    values@.len(),
                    |i: int|
                        if 0 <= i < values@.len() {
                            proof {
                                broadcast use vstd::std_specs::vec::axiom_vec_decreases_to_view;
                                assert(decreases_to!(values => values@));
                                assert(decreases_to!(values@ => values@[i]));
                            }
                            values@[i].model()
                        } else {
                            JsonModel::Other
                        },
                ),
            ),
            Json::Str(s) => JsonModel::Str(s@),
            Json::Number(s) => JsonModel::Number(s@),
            Json::Other => JsonModel::Other,
        }
    }
}

// ---------------------------------------------------------------------------
// The grammar, as functions from a byte position to what is read there.
// ---------------------------------------------------------------------------

/// JSON white space: space, tab, line feed, carriage return.
pub open spec fn is_json_space(b: u8) -> bool {
    b == 0x20 || b == 0x09 || b == 0x0a || b == 0x0d
}

pub open spec fn is_digit_byte(b: u8) -> bool {
    0x30 <= b && b <= 0x39
}

/// The position after the white space that starts at `p`.
pub open spec fn space_end(b: Seq<u8>, p: int) -> int
    decreases b.len() - p,
{
    if 0 <= p < b.len() && is_json_space(b[p]) {
        space_end(b, p + 1)
    } else {
        p
    }
}

/// The position after the ASCII digits that start at `p`.
pub open spec fn digits_end(b: Seq<u8>, p: int) -> int
    decreases b.len() - p,
{
    if 0 <= p < b.len() && is_digit_byte(b[p]) {
        digits_end(b, p + 1)
    } else {
        p
    }
}

pub proof fn lemma_space_end(b: Seq<u8>, p: int)
    requires
        0 <= p <= b.len(),
    ensures
        p <= space_end(b, p) <= b.len(),
        space_end(b, p) < b.len() ==> !is_json_space(b[space_end(b, p)]),
        forall|i: int| p <= i < space_end(b, p) ==> is_json_space(#[trigger] b[i]),
    decreases b.len() - p,
{
    if p < b.len() && is_json_space(b[p]) {
        lemma_space_end(b, p + 1);
    }
}

pub proof fn lemma_digits_end(b: Seq<u8>, p: int)
    requires
        0 <= p <= b.len(),
    ensures
        p <= digits_end(b, p) <= b.len(),
        digits_end(b, p) < b.len() ==> !is_digit_byte(b[digits_end(b, p)]),
        forall|i: int| p <= i < digits_end(b, p) ==> is_digit_byte(#[trigger] b[i]),
    decreases b.len() - p,
{
    if p < b.len() && is_digit_byte(b[p]) {
        lemma_digits_end(b, p + 1);
    }
}

/// The byte `c` at `p`, as a one-character text.
pub open spec fn byte_char(c: u8) -> char {
    c as char
}

/// "expected `c` at byte `p`".
pub open spec fn expected_message(c: u8, p: int) -> Seq<char> {
    "expected "@.push(byte_char(c)) + " at byte "@ + decimal(p as nat)
}

/// `c` after optional white space: the position after it, or the error.
pub open spec fn expect_byte(b: Seq<u8>, p: int, c: u8) -> Result<int, Seq<char>> {
    let q = space_end(b, p);
    if 0 <= q < b.len() && b[q] == c {
        Ok(q + 1)
    } else {
        Err(expected_message(c, q))
    }
}

/// One or more digits at `p`: the position after them.
pub open spec fn digits_at(b: Seq<u8>, p: int) -> Result<int, Seq<char>> {
    if digits_end(b, p) == p {
        Err("expected digit"@)
    } else {
        Ok(digits_end(b, p))
    }
}

/// A number at `p`: `-`? (`0` | digits) (`.` digits)? ([eE] [+-]? digits)?,
/// given as the position after it.
pub open spec fn number_end(b: Seq<u8>, p: int) -> Result<int, Seq<char>> {
    let p1 = if 0 <= p < b.len() && b[p] == 0x2d { p + 1 } else { p };
    let integral = if 0 <= p1 < b.len() && b[p1] == 0x30 { Ok(p1 + 1) } else { digits_at(b, p1) };
    match integral {
        Err(e) => Err(e),
        Ok(p2) => {
            let fraction = if p2 < b.len() && b[p2] == 0x2e { digits_at(b, p2 + 1) } else { Ok(p2) };
            match fraction {
                Err(e) => Err(e),
                Ok(p3) => if p3 < b.len() && (b[p3] == 0x65 || b[p3] == 0x45) {
                    let p4 = p3 + 1;
                    let p5 = if p4 < b.len() && (b[p4] == 0x2b || b[p4] == 0x2d) { p4 + 1 } else { p4 };
                    digits_at(b, p5)
                } else {
                    Ok(p3)
                },
            }
        },
    }
}

/// The bytes `b[lo..hi]` read as Latin-1 characters (ASCII text).
pub open spec fn ascii_text(b: Seq<u8>, lo: int, hi: int) -> Seq<char> {
    Seq::new((hi - lo) as nat, |i: int| byte_char(b[lo + i]))
}

/// The value of a hexadecimal digit byte.
pub open spec fn hex_value(c: u8) -> Option<int> {
    if 0x30 <= c <= 0x39 {
        Some(c - 0x30)
    } else if 0x61 <= c <= 0x66 {
        Some(c - 0x61 + 10)
    } else if 0x41 <= c <= 0x46 {
        Some(c - 0x41 + 10)
    } else {
        None
    }
}

/// `k` more hexadecimal digits at `p`, added to `acc`: the value and the
/// position after them.
pub open spec fn hex_digits(b: Seq<u8>, p: int, k: nat, acc: int) -> Result<(int, int), Seq<char>>
    decreases k,
{
    if k == 0 {
        Ok((acc, p))
    } else if !(0 <= p < b.len()) {
        Err("truncated Unicode escape"@)
    } else {
        match hex_value(b[p]) {
            None => Err("invalid Unicode escape"@),
            Some(d) => hex_digits(b, p + 1, (k - 1) as nat, acc * 16 + d),
        }
    }
}

/// The four hexadecimal digits of a `\u` escape at `p`.
pub open spec fn hex4(b: Seq<u8>, p: int) -> Result<(int, int), Seq<char>> {
    hex_digits(b, p, 4, 0)
}

/// A Unicode scalar value: not a surrogate, at most U+10FFFF.
pub open spec fn is_scalar_value(cp: int) -> bool {
    (0 <= cp < 0xd800) || (0xe000 <= cp <= 0x10ffff)
}

/// The character of a `\u` escape whose digits start at `p` (a surrogate pair
/// takes a second escape): the character and the position after it.
pub open spec fn unicode_escape(b: Seq<u8>, p: int) -> Result<(char, int), Seq<char>> {
    match hex4(b, p) {
        Err(e) => Err(e),
        Ok((high, p4)) => {
            let pair = if 0xd800 <= high <= 0xdbff {
                if !(p4 + 2 <= b.len() && b[p4] == 0x5c && b[p4 + 1] == 0x75) {
                    Err("missing low surrogate"@)
                } else {
                    match hex4(b, p4 + 2) {
                        Err(e) => Err(e),
                        Ok((low, p8)) => if !(0xdc00 <= low <= 0xdfff) {
                            Err("invalid low surrogate"@)
                        } else {
                            Ok((0x10000 + (high - 0xd800) * 1024 + (low - 0xdc00), p8))
                        },
                    }
                }
            } else {
                Ok((high, p4))
            };
            match pair {
                Err(e) => Err(e),
                Ok((cp, q)) => if is_scalar_value(cp) {
                    Ok((cp as char, q))
                } else {
                    Err("invalid Unicode scalar"@)
                },
            }
        },
    }
}

pub proof fn lemma_hex_digits_bound(b: Seq<u8>, p: int, k: nat, acc: int)
    requires
        0 <= p <= b.len(),
    ensures
        hex_digits(b, p, k, acc) matches Ok((_, q)) ==> q == p + k && q <= b.len(),
    decreases k,
{
    if k > 0 && 0 <= p < b.len() {
        if let Some(d) = hex_value(b[p]) {
            lemma_hex_digits_bound(b, p + 1, (k - 1) as nat, acc * 16 + d);
        }
    }
}

pub proof fn lemma_unicode_escape(b: Seq<u8>, p: int)
    requires
        0 <= p <= b.len(),
    ensures
        unicode_escape(b, p) matches Ok((_, q)) ==> p + 4 <= q <= b.len(),
{
    lemma_hex_digits_bound(b, p, 4, 0);
    if let Ok((high, p4)) = hex4(b, p) {
        if p4 + 2 <= b.len() {
            lemma_hex_digits_bound(b, p4 + 2, 4, 0);
        }
    }
}

/// The character a one-letter escape stands for.
pub open spec fn simple_escape(e: u8) -> Option<char> {
    if e == 0x22 {
        Some('"')
    } else if e == 0x5c {
        Some('\\')
    } else if e == 0x2f {
        Some('/')
    } else if e == 0x62 {
        Some('\u{8}')
    } else if e == 0x66 {
        Some('\u{c}')
    } else if e == 0x6e {
        Some('\n')
    } else if e == 0x72 {
        Some('\r')
    } else if e == 0x74 {
        Some('\t')
    } else {
        None
    }
}

/// The rest of a string whose unescaped run started at `start`, scanning at
/// `p`, after the characters `acc`: the string and the position after its
/// closing quote.
pub open spec fn string_rest(b: Seq<u8>, start: int, p: int, acc: Seq<char>) -> Result<(Seq<char>, int), Seq<char>>
    decreases b.len() - p,
{
    if !(0 <= start <= p < b.len()) {
        Err("unterminated string"@)
    } else if b[p] == 0x22 || b[p] == 0x5c {
        let run = b.subrange(start, p);
        if !valid_utf8(run) {
            Err("invalid UTF-8"@)
        } else if b[p] == 0x22 {
            Ok((acc + decode_utf8(run), p + 1))
        } else if p + 1 >= b.len() {
            Err("truncated escape"@)
        } else {
            let e = b[p + 1];
            match simple_escape(e) {
                Some(c) => string_rest(b, p + 2, p + 2, (acc + decode_utf8(run)).push(c)),
                None => if e != 0x75 {
                    Err("invalid escape"@)
                } else {
                    match unicode_escape(b, p + 2) {
                        Err(m) => Err(m),
                        Ok((c, q)) => {
                            proof {
                                lemma_unicode_escape(b, p + 2);
                            }
                            string_rest(b, q, q, (acc + decode_utf8(run)).push(c))
                        },
                    }
                },
            }
        }
    } else if b[p] < 0x20 {
        Err("control byte in string"@)
    } else {
        string_rest(b, start, p + 1, acc)
    }
}

/// A string after optional white space at `p`.
pub open spec fn string_at(b: Seq<u8>, p: int) -> Result<(Seq<char>, int), Seq<char>> {
    match expect_byte(b, p, 0x22) {
        Err(e) => Err(e),
        Ok(q) => string_rest(b, q, q, Seq::empty()),
    }
}

pub proof fn lemma_space_end_from(b: Seq<u8>, p: int)
    ensures
        p <= space_end(b, p),
    decreases b.len() - p,
{
    if 0 <= p < b.len() && is_json_space(b[p]) {
        lemma_space_end_from(b, p + 1);
    }
}

pub proof fn lemma_string_rest(b: Seq<u8>, start: int, p: int, acc: Seq<char>)
    ensures
        string_rest(b, start, p, acc) matches Ok((_, e)) ==> p < e <= b.len(),
    decreases b.len() - p,
{
    if 0 <= start <= p < b.len() && (b[p] == 0x22 || b[p] == 0x5c) {
        let run = b.subrange(start, p);
        if valid_utf8(run) && b[p] != 0x22 && p + 1 < b.len() {
            let e = b[p + 1];
            match simple_escape(e) {
                Some(c) => lemma_string_rest(b, p + 2, p + 2, (acc + decode_utf8(run)).push(c)),
                None => if e == 0x75 {
                    lemma_unicode_escape(b, p + 2);
                    if let Ok((c, q)) = unicode_escape(b, p + 2) {
                        lemma_string_rest(b, q, q, (acc + decode_utf8(run)).push(c));
                    }
                },
            }
        }
    } else if 0 <= start <= p < b.len() && b[p] >= 0x20 {
        lemma_string_rest(b, start, p + 1, acc);
    }
}

pub proof fn lemma_string_at(b: Seq<u8>, p: int)
    ensures
        string_at(b, p) matches Ok((_, e)) ==> p < e <= b.len(),
{
    lemma_space_end_from(b, p);
    if let Ok(q) = expect_byte(b, p, 0x22) {
        lemma_string_rest(b, q, q, Seq::empty());
    }
}

/// The bytes of `true`, `false` and `null`.
pub open spec fn true_bytes() -> Seq<u8> {
    seq![0x74u8, 0x72u8, 0x75u8, 0x65u8]
}

pub open spec fn false_bytes() -> Seq<u8> {
    seq![0x66u8, 0x61u8, 0x6cu8, 0x73u8, 0x65u8]
}

pub open spec fn null_bytes() -> Seq<u8> {
    seq![0x6eu8, 0x75u8, 0x6cu8, 0x6cu8]
}

/// `lit` occurs in `b` at `p`.
pub open spec fn literal_at(b: Seq<u8>, p: int, lit: Seq<u8>) -> bool {
    0 <= p && p + lit.len() <= b.len() && b.subrange(p, p + lit.len()) == lit
}

/// "invalid JSON at byte `p`".
pub open spec fn invalid_at(p: int) -> Seq<char> {
    "invalid JSON at byte "@ + decimal(p as nat)
}

/// `key` is already a member name in `members`.
pub open spec fn has_key(members: Seq<(Seq<char>, JsonModel)>, key: Seq<char>) -> bool {
    exists|i: int| 0 <= i < members.len() && (#[trigger] members[i]).0 == key
}

/// A value after optional white space at `p`, nested `depth` levels deep: the
/// value and the position after it.
///
/// Every value read takes at least one byte (`lemma_value_at_sound`); the
/// checks of that fact in `items_at` and `members_at` only make the
/// recursion's termination evident and never decide a result.
pub open spec fn value_at(b: Seq<u8>, p: int, depth: int) -> Result<(JsonModel, int), Seq<char>>
    decreases b.len() - p, 0int,
{
    if depth > 64 {
        Err("JSON nesting exceeds 64"@)
    } else {
        let q = space_end(b, p);
        proof {
            lemma_space_end_from(b, p);
        }
        if 0 <= q < b.len() && b[q] == 0x7b {
            object_at(b, q + 1, depth)
        } else if 0 <= q < b.len() && b[q] == 0x5b {
            array_at(b, q + 1, depth)
        } else if 0 <= q < b.len() && b[q] == 0x22 {
            match string_rest(b, q + 1, q + 1, Seq::empty()) {
                Err(e) => Err(e),
                Ok((s, e)) => Ok((JsonModel::Str(s), e)),
            }
        } else if 0 <= q < b.len() && (b[q] == 0x2d || is_digit_byte(b[q])) {
            match number_end(b, q) {
                Err(e) => Err(e),
                Ok(e) => Ok((JsonModel::Number(ascii_text(b, q, e)), e)),
            }
        } else if literal_at(b, q, true_bytes()) {
            Ok((JsonModel::Other, q + 4))
        } else if literal_at(b, q, false_bytes()) {
            Ok((JsonModel::Other, q + 5))
        } else if literal_at(b, q, null_bytes()) {
            Ok((JsonModel::Other, q + 4))
        } else {
            Err(invalid_at(q))
        }
    }
}

/// The rest of an object whose `{` ends before `p`.
pub open spec fn object_at(b: Seq<u8>, p: int, depth: int) -> Result<(JsonModel, int), Seq<char>>
    decreases b.len() - p, 2int,
{
    let r = space_end(b, p);
    proof {
        lemma_space_end_from(b, p);
        if 0 <= p <= b.len() {
            lemma_space_end(b, p);
        }
    }
    if 0 <= r < b.len() && b[r] == 0x7d {
        Ok((JsonModel::Object(Seq::empty()), r + 1))
    } else {
        members_at(b, r, depth, Seq::empty())
    }
}

/// The rest of an array whose `[` ends before `p`.
pub open spec fn array_at(b: Seq<u8>, p: int, depth: int) -> Result<(JsonModel, int), Seq<char>>
    decreases b.len() - p, 2int,
{
    let r = space_end(b, p);
    proof {
        lemma_space_end_from(b, p);
        if 0 <= p <= b.len() {
            lemma_space_end(b, p);
        }
    }
    if 0 <= r < b.len() && b[r] == 0x5d {
        Ok((JsonModel::Array(Seq::empty()), r + 1))
    } else {
        items_at(b, r, depth, Seq::empty())
    }
}

/// The elements of an array from the one at `p` on, after the elements `acc`.
pub open spec fn items_at(b: Seq<u8>, p: int, depth: int, acc: Seq<JsonModel>) -> Result<(JsonModel, int), Seq<char>>
    decreases b.len() - p, 1int,
{
    match value_at(b, p, depth + 1) {
        Err(e) => Err(e),
        Ok((v, e)) => if e <= p {
            Err(invalid_at(p))
        } else {
            let acc = acc.push(v);
            let r = space_end(b, e);
            proof {
                lemma_space_end_from(b, e);
                lemma_space_end_from(b, r);
            }
            if 0 <= r < b.len() && b[r] == 0x5d {
                Ok((JsonModel::Array(acc), r + 1))
            } else {
                match expect_byte(b, r, 0x2c) {
                    Err(m) => Err(m),
                    Ok(n) => items_at(b, n, depth, acc),
                }
            }
        },
    }
}

/// The members of an object from the one at `p` on, after the members `acc`.
pub open spec fn members_at(b: Seq<u8>, p: int, depth: int, acc: Seq<(Seq<char>, JsonModel)>) -> Result<(JsonModel, int), Seq<char>>
    decreases b.len() - p, 1int,
{
    match string_at(b, p) {
        Err(m) => Err(m),
        Ok((key, p1)) => {
            proof {
                lemma_string_at(b, p);
                lemma_space_end(b, p1);
            }
            match expect_byte(b, p1, 0x3a) {
                Err(m) => Err(m),
                Ok(p2) => match value_at(b, p2, depth + 1) {
                    Err(m) => Err(m),
                    Ok((v, e)) => if e <= p {
                        Err(invalid_at(p))
                    } else if has_key(acc, key) {
                        Err("duplicate JSON key"@)
                    } else {
                        let acc = acc.push((key, v));
                        let r = space_end(b, e);
                        proof {
                            lemma_space_end_from(b, e);
                            lemma_space_end_from(b, r);
                        }
                        if 0 <= r < b.len() && b[r] == 0x7d {
                            Ok((JsonModel::Object(acc), r + 1))
                        } else {
                            match expect_byte(b, r, 0x2c) {
                                Err(m) => Err(m),
                                Ok(n) => members_at(b, n, depth, acc),
                            }
                        }
                    },
                },
            }
        },
    }
}

/// A whole JSON text: one value with nothing but white space after it.
pub open spec fn parse_json(b: Seq<u8>) -> Result<JsonModel, Seq<char>> {
    match value_at(b, 0, 0) {
        Err(e) => Err(e),
        Ok((v, e)) => if space_end(b, e) != b.len() {
            Err("trailing JSON data"@)
        } else {
            Ok(v)
        },
    }
}

// ---------------------------------------------------------------------------
// The reader.
// ---------------------------------------------------------------------------

/// `std::str::from_utf8`: `Ok` exactly for valid UTF-8, holding its characters.
#[verifier::external_body]
fn utf8_str(bytes: &[u8]) -> (r: Result<&str, std::str::Utf8Error>)
    ensures
        r is Ok <==> valid_utf8(bytes@),
        r matches Ok(s) ==> s@ == decode_utf8(bytes@),
{
    std::str::from_utf8(bytes)
}

/// `char::from_u32`: the character with that scalar value, `None` for a
/// surrogate or a value above U+10FFFF.
#[verifier::external_body]
fn char_from_u32(cp: u32) -> (r: Option<char>)
    ensures
        r == (if is_scalar_value(cp as int) { Some(cp as char) } else { None::<char> }),
{
    char::from_u32(cp)
}

/// A string holding `text`.
fn text(t: &str) -> (r: String)
    ensures
        r@ == t@,
{
    t.to_owned()
}

fn is_space_byte(b: u8) -> (r: bool)
    ensures
        r == is_json_space(b),
{
    b == 0x20 || b == 0x09 || b == 0x0a || b == 0x0d
}

fn is_digit(b: u8) -> (r: bool)
    ensures
        r == is_digit_byte(b),
{
    0x30 <= b && b <= 0x39
}

/// `char::to_digit(16)` on a byte.
fn hex_digit(c: u8) -> (r: Option<u16>)
    ensures
        match hex_value(c) {
            Some(d) => r == Some(d as u16),
            None => r is None,
        },
{
    if 0x30 <= c && c <= 0x39 {
        Some((c - 0x30) as u16)
    } else if 0x61 <= c && c <= 0x66 {
        Some((c - 0x61 + 10) as u16)
    } else if 0x41 <= c && c <= 0x46 {
        Some((c - 0x41 + 10) as u16)
    } else {
        None
    }
}

/// The ASCII text of `b[lo..hi]`.
fn ascii_string(b: &[u8], lo: usize, hi: usize) -> (r: String)
    requires
        lo <= hi <= b@.len(),
    ensures
        r@ == ascii_text(b@, lo as int, hi as int),
{
    let mut r = String::new();
    let mut i = lo;
    while i < hi
        invariant
            lo <= i <= hi <= b@.len(),
            r@ == ascii_text(b@, lo as int, i as int),
        decreases hi - i,
    {
        push_char(&mut r, b[i] as char);
        proof {
            assert(r@ =~= ascii_text(b@, lo as int, i + 1));
        }
        i = i + 1;
    }
    r
}

/// A cursor over the bytes of a JSON text.
pub struct Parser<'a> {
    bytes: &'a [u8],
    pos: usize,
}

impl<'a> Parser<'a> {
    /// Skips white space.
    fn ws(&mut self)
        requires
            old(self).pos <= old(self).bytes@.len(),
        ensures
            final(self).bytes@ == old(self).bytes@,
            final(self).pos == space_end(old(self).bytes@, old(self).pos as int),
    {
        proof {
            lemma_space_end(self.bytes@, self.pos as int);
        }
        while self.pos < self.bytes.len() && is_space_byte(self.bytes[self.pos])
            invariant
                self.bytes@ == old(self).bytes@,
                self.pos <= self.bytes@.len(),
                space_end(self.bytes@, self.pos as int) == space_end(old(self).bytes@, old(self).pos as int),
            decreases self.bytes@.len() - self.pos,
        {
            self.pos = self.pos + 1;
        }
    }

    /// Consumes `b` after optional white space, if it is there.
    fn take(&mut self, b: u8) -> (r: bool)
        requires
            old(self).pos <= old(self).bytes@.len(),
        ensures
            final(self).bytes@ == old(self).bytes@,
            old(self).pos <= final(self).pos <= final(self).bytes@.len(),
            ({
                let q = space_end(old(self).bytes@, old(self).pos as int);
                &&& r == (q < old(self).bytes@.len() && old(self).bytes@[q] == b)
                &&& final(self).pos == if r { q + 1 } else { q }
            }),
    {
        self.ws();
        proof {
            lemma_space_end(old(self).bytes@, old(self).pos as int);
        }
        if self.pos < self.bytes.len() && self.bytes[self.pos] == b {
            self.pos = self.pos + 1;
            true
        } else {
            false
        }
    }

    /// Requires `b` after optional white space.
    fn expect(&mut self, b: u8) -> (r: Result<(), String>)
        requires
            old(self).pos <= old(self).bytes@.len(),
        ensures
            final(self).bytes@ == old(self).bytes@,
            final(self).pos <= final(self).bytes@.len(),
            r is Ok ==> old(self).pos < final(self).pos,
            match expect_byte(old(self).bytes@, old(self).pos as int, b) {
                Ok(n) => r is Ok && final(self).pos == n,
                Err(m) => r matches Err(s) && s@ == m,
            },
    {
        proof {
            lemma_space_end(old(self).bytes@, old(self).pos as int);
        }
        if self.take(b) {
            Ok(())
        } else {
            let mut message = text("expected ");
            push_char(&mut message, b as char);
            message.append(" at byte ");
            push_decimal(&mut message, self.pos as u64);
            Err(message)
        }
    }

    /// One or more ASCII digits.
    fn digits(&mut self) -> (r: Result<(), String>)
        requires
            old(self).pos <= old(self).bytes@.len(),
        ensures
            final(self).bytes@ == old(self).bytes@,
            final(self).pos <= final(self).bytes@.len(),
            old(self).pos <= final(self).pos,
            r is Ok ==> old(self).pos < final(self).pos,
            match digits_at(old(self).bytes@, old(self).pos as int) {
                Ok(n) => r is Ok && final(self).pos == n,
                Err(m) => r matches Err(s) && s@ == m,
            },
    {
        let start = self.pos;
        proof {
            lemma_digits_end(self.bytes@, self.pos as int);
        }
        while self.pos < self.bytes.len() && is_digit(self.bytes[self.pos])
            invariant
                self.bytes@ == old(self).bytes@,
                start == old(self).pos,
                start <= self.pos <= self.bytes@.len(),
                digits_end(self.bytes@, self.pos as int) == digits_end(old(self).bytes@, start as int),
            decreases self.bytes@.len() - self.pos,
        {
            self.pos = self.pos + 1;
        }
        if self.pos == start {
            Err(text("expected digit"))
        } else {
            Ok(())
        }
    }

    /// A number: its source text.
    fn number(&mut self) -> (r: Result<String, String>)
        requires
            old(self).pos <= old(self).bytes@.len(),
        ensures
            final(self).bytes@ == old(self).bytes@,
            final(self).pos <= final(self).bytes@.len(),
            r is Ok ==> old(self).pos < final(self).pos,
            match number_end(old(self).bytes@, old(self).pos as int) {
                Ok(n) => r matches Ok(s) && final(self).pos == n
                    && s@ == ascii_text(old(self).bytes@, old(self).pos as int, n),
                Err(m) => r matches Err(s) && s@ == m,
            },
    {
        let start = self.pos;
        if self.pos < self.bytes.len() && self.bytes[self.pos] == 0x2d {
            self.pos = self.pos + 1;
        }
        if self.pos < self.bytes.len() && self.bytes[self.pos] == 0x30 {
            self.pos = self.pos + 1;
        } else {
            self.digits()?;
        }
        if self.pos < self.bytes.len() && self.bytes[self.pos] == 0x2e {
            self.pos = self.pos + 1;
            self.digits()?;
        }
        if self.pos < self.bytes.len() && (self.bytes[self.pos] == 0x65 || self.bytes[self.pos] == 0x45) {
            self.pos = self.pos + 1;
            if self.pos < self.bytes.len() && (self.bytes[self.pos] == 0x2b || self.bytes[self.pos] == 0x2d) {
                self.pos = self.pos + 1;
            }
            self.digits()?;
        }
        Ok(ascii_string(self.bytes, start, self.pos))
    }

    /// Four hexadecimal digits.
    fn hex(&mut self) -> (r: Result<u16, String>)
        requires
            old(self).pos <= old(self).bytes@.len(),
        ensures
            final(self).bytes@ == old(self).bytes@,
            final(self).pos <= final(self).bytes@.len(),
            r is Ok ==> final(self).pos == old(self).pos + 4,
            match hex4(old(self).bytes@, old(self).pos as int) {
                Ok((v, n)) => r matches Ok(x) && x == v && final(self).pos == n,
                Err(m) => r matches Err(s) && s@ == m,
            },
    {
        let mut n: u16 = 0;
        let mut i: usize = 0;
        while i < 4
            invariant
                self.bytes@ == old(self).bytes@,
                i <= 4,
                self.pos == old(self).pos + i,
                self.pos <= self.bytes@.len(),
                n < pow16(i as nat),
                hex_digits(self.bytes@, self.pos as int, (4 - i) as nat, n as int)
                    == hex4(old(self).bytes@, old(self).pos as int),
            decreases 4 - i,
        {
            if self.pos >= self.bytes.len() {
                return Err(text("truncated Unicode escape"));
            }
            let b = self.bytes[self.pos];
            self.pos = self.pos + 1;
            match hex_digit(b) {
                None => {
                    return Err(text("invalid Unicode escape"));
                },
                Some(d) => {
                    proof {
                        assert(pow16((i + 1) as nat) == 16 * pow16(i as nat));
                        assert(pow16(1) == 16 && pow16(2) == 256 && pow16(3) == 4096
                            && pow16(4) == 65536) by {
                            reveal_with_fuel(pow16, 5);
                        }
                        assert(d < 16);
                    }
                    n = n * 16 + d;
                },
            }
            i = i + 1;
        }
        Ok(n)
    }
}

impl<'a> Parser<'a> {
    /// A string after optional white space.
    fn string(&mut self) -> (r: Result<String, String>)
        requires
            old(self).pos <= old(self).bytes@.len(),
        ensures
            final(self).bytes@ == old(self).bytes@,
            final(self).pos <= final(self).bytes@.len(),
            r is Ok ==> old(self).pos < final(self).pos,
            match string_at(old(self).bytes@, old(self).pos as int) {
                Ok((t, n)) => r matches Ok(x) && x@ == t && final(self).pos == n,
                Err(m) => r matches Err(x) && x@ == m,
            },
    {
        self.expect(0x22)?;
        let mut result = String::new();
        let mut start = self.pos;
        loop
            invariant
                self.bytes@ == old(self).bytes@,
                old(self).pos < start <= self.pos <= self.bytes@.len(),
                string_rest(self.bytes@, start as int, self.pos as int, result@)
                    == string_at(old(self).bytes@, old(self).pos as int),
            decreases self.bytes@.len() - self.pos,
        {
            if self.pos >= self.bytes.len() {
                return Err(text("unterminated string"));
            }
            let b = self.bytes[self.pos];
            if b == 0x22 || b == 0x5c {
                let ghost before = result@;
                match utf8_str(slice_subrange(self.bytes, start, self.pos)) {
                    Err(_) => {
                        return Err(text("invalid UTF-8"));
                    },
                    Ok(run) => {
                        result.append(run);
                    },
                }
                self.pos = self.pos + 1;
                if b == 0x22 {
                    return Ok(result);
                }
                if self.pos >= self.bytes.len() {
                    return Err(text("truncated escape"));
                }
                let escape = self.bytes[self.pos];
                self.pos = self.pos + 1;
                let c = if escape == 0x22 {
                    '"'
                } else if escape == 0x5c {
                    '\\'
                } else if escape == 0x2f {
                    '/'
                } else if escape == 0x62 {
                    '\u{8}'
                } else if escape == 0x66 {
                    '\u{c}'
                } else if escape == 0x6e {
                    '\n'
                } else if escape == 0x72 {
                    '\r'
                } else if escape == 0x74 {
                    '\t'
                } else if escape == 0x75 {
                    let high = self.hex()?;
                    let cp: u32 = if 0xd800 <= high && high <= 0xdbff {
                        if !(self.bytes.len() - self.pos >= 2 && self.bytes[self.pos] == 0x5c
                            && self.bytes[self.pos + 1] == 0x75) {
                            return Err(text("missing low surrogate"));
                        }
                        self.pos = self.pos + 2;
                        let low = self.hex()?;
                        if !(0xdc00 <= low && low <= 0xdfff) {
                            return Err(text("invalid low surrogate"));
                        }
                        0x10000 + (high as u32 - 0xd800) * 1024 + (low as u32 - 0xdc00)
                    } else {
                        high as u32
                    };
                    match char_from_u32(cp) {
                        None => {
                            return Err(text("invalid Unicode scalar"));
                        },
                        Some(c) => c,
                    }
                } else {
                    return Err(text("invalid escape"));
                };
                push_char(&mut result, c);
                start = self.pos;
            } else {
                if b < 0x20 {
                    return Err(text("control byte in string"));
                }
                self.pos = self.pos + 1;
            }
        }
    }
}

/// The four bytes `c0 c1 c2 c3` at `q`.
fn four_at(b: &[u8], q: usize, c0: u8, c1: u8, c2: u8, c3: u8) -> (r: bool)
    ensures
        r == literal_at(b@, q as int, seq![c0, c1, c2, c3]),
{
    if q <= b.len() && b.len() - q >= 4 {
        let r = b[q] == c0 && b[q + 1] == c1 && b[q + 2] == c2 && b[q + 3] == c3;
        proof {
            if r {
                assert(b@.subrange(q as int, q + 4) =~= seq![c0, c1, c2, c3]);
            } else {
                let s = b@.subrange(q as int, q + 4);
                assert(s[0] == b@[q as int] && s[1] == b@[q + 1] && s[2] == b@[q + 2] && s[3] == b@[q + 3]);
            }
        }
        r
    } else {
        false
    }
}

/// The five bytes `c0 c1 c2 c3 c4` at `q`.
fn five_at(b: &[u8], q: usize, c0: u8, c1: u8, c2: u8, c3: u8, c4: u8) -> (r: bool)
    ensures
        r == literal_at(b@, q as int, seq![c0, c1, c2, c3, c4]),
{
    if q <= b.len() && b.len() - q >= 5 {
        let r = b[q] == c0 && b[q + 1] == c1 && b[q + 2] == c2 && b[q + 3] == c3 && b[q + 4] == c4;
        proof {
            let s = b@.subrange(q as int, q + 5);
            if r {
                assert(s =~= seq![c0, c1, c2, c3, c4]);
            } else {
                assert(s[0] == b@[q as int] && s[1] == b@[q + 1] && s[2] == b@[q + 2]
                    && s[3] == b@[q + 3] && s[4] == b@[q + 4]);
            }
        }
        r
    } else {
        false
    }
}

/// The models of the members `fields`.
pub open spec fn member_models(fields: Seq<(String, Json)>) -> Seq<(Seq<char>, JsonModel)> {
    Seq::new(fields.len(), |i: int| (fields[i].0@, fields[i].1.model()))
}

/// The models of the elements `values`.
pub open spec fn element_models(values: Seq<Json>) -> Seq<JsonModel> {
    Seq::new(values.len(), |i: int| values[i].model())
}

/// The model of an object is the models of its members.
pub proof fn lemma_object_model(j: Json)
    requires
        j is Object,
    ensures
        j.model() == JsonModel::Object(member_models(j->Object_0@)),
{
    let fields = j->Object_0;
    if let JsonModel::Object(s) = j.model() {
        assert(s =~= member_models(fields@));
    }
}

/// The model of an array is the models of its elements.
pub proof fn lemma_array_model(j: Json)
    requires
        j is Array,
    ensures
        j.model() == JsonModel::Array(element_models(j->Array_0@)),
{
    let values = j->Array_0;
    if let JsonModel::Array(s) = j.model() {
        assert(s =~= element_models(values@));
    }
}

/// Whether a member named `key` is among `fields`.
fn has_member(fields: &Vec<(String, Json)>, key: &String) -> (r: bool)
    ensures
        r == has_key(member_models(fields@), key@),
{
    let mut i: usize = 0;
    while i < fields.len()
        invariant
            i <= fields@.len(),
            forall|k: int| 0 <= k < i ==> (#[trigger] fields@[k]).0@ != key@,
        decreases fields@.len() - i,
    {
        if fields[i].0 == *key {
            proof {
                assert(member_models(fields@)[i as int].0 == key@);
            }
            return true;
        }
        i = i + 1;
    }
    proof {
        if has_key(member_models(fields@), key@) {
            let k = choose|k: int| 0 <= k < member_models(fields@).len()
                && (#[trigger] member_models(fields@)[k]).0 == key@;
            assert(fields@[k].0@ == key@);
        }
    }
    false
}

impl<'a> Parser<'a> {
    /// A value after optional white space, nested `depth` levels deep.
    fn value(&mut self, depth: usize) -> (r: Result<Json, String>)
        requires
            old(self).pos <= old(self).bytes@.len(),
        ensures
            final(self).bytes@ == old(self).bytes@,
            final(self).pos <= final(self).bytes@.len(),
            r is Ok ==> old(self).pos < final(self).pos,
            match value_at(old(self).bytes@, old(self).pos as int, depth as int) {
                Ok((m, n)) => r matches Ok(j) && j.model() == m && final(self).pos == n
                    && old(self).pos < n,
                Err(e) => r matches Err(x) && x@ == e,
            },
        decreases old(self).bytes@.len() - old(self).pos, 0int,
    {
        if depth > 64 {
            return Err(text("JSON nesting exceeds 64"));
        }
        let ghost b = self.bytes@;
        let ghost p = self.pos as int;
        self.ws();
        let q = self.pos;
        proof {
            lemma_space_end(b, p);
        }
        if q < self.bytes.len() && self.bytes[q] == 0x7b {
            self.pos = self.pos + 1;
            self.object(depth)
        } else if q < self.bytes.len() && self.bytes[q] == 0x5b {
            self.pos = self.pos + 1;
            self.array(depth)
        } else if q < self.bytes.len() && self.bytes[q] == 0x22 {
            let s = self.string()?;
            Ok(Json::Str(s))
        } else if q < self.bytes.len() && (self.bytes[q] == 0x2d || is_digit(self.bytes[q])) {
            let s = self.number()?;
            Ok(Json::Number(s))
        } else if four_at(self.bytes, q, 0x74, 0x72, 0x75, 0x65) {
            self.pos = self.pos + 4;
            Ok(Json::Other)
        } else if five_at(self.bytes, q, 0x66, 0x61, 0x6c, 0x73, 0x65) {
            self.pos = self.pos + 5;
            Ok(Json::Other)
        } else if four_at(self.bytes, q, 0x6e, 0x75, 0x6c, 0x6c) {
            self.pos = self.pos + 4;
            Ok(Json::Other)
        } else {
            let mut message = text("invalid JSON at byte ");
            push_decimal(&mut message, q as u64);
            Err(message)
        }
    }

    /// The rest of an object whose `{` was just read.
    fn object(&mut self, depth: usize) -> (r: Result<Json, String>)
        requires
            old(self).pos <= old(self).bytes@.len(),
            depth <= 64,
        ensures
            final(self).bytes@ == old(self).bytes@,
            final(self).pos <= final(self).bytes@.len(),
            r is Ok ==> old(self).pos < final(self).pos,
            match object_at(old(self).bytes@, old(self).pos as int, depth as int) {
                Ok((m, n)) => r matches Ok(j) && j.model() == m && final(self).pos == n
                    && old(self).pos < n,
                Err(e) => r matches Err(x) && x@ == e,
            },
        decreases old(self).bytes@.len() - old(self).pos, 1int,
    {
        let ghost b = self.bytes@;
        let ghost p = self.pos as int;
        let mut fields: Vec<(String, Json)> = Vec::new();
        proof {
            lemma_space_end(b, p);
        }
        if self.take(0x7d) {
            let j = Json::Object(fields);
            proof {
                lemma_object_model(j);
                assert(member_models(fields@) =~= Seq::empty());
            }
            return Ok(j);
        }
        proof {
            assert(member_models(fields@) =~= Seq::empty());
        }
        loop
            invariant
                self.bytes@ == b,
                b == old(self).bytes@,
                p == old(self).pos,
                p <= self.pos <= b.len(),
                depth <= 64,
                members_at(b, self.pos as int, depth as int, member_models(fields@))
                    == object_at(b, p, depth as int),
            decreases b.len() - self.pos,
        {
            let key = self.string()?;
            self.expect(0x3a)?;
            let value = self.value(depth + 1)?;
            if has_member(&fields, &key) {
                return Err(text("duplicate JSON key"));
            }
            let ghost models = member_models(fields@).push((key@, value.model()));
            fields.push((key, value));
            proof {
                assert(member_models(fields@) =~= models);
            }
            if self.take(0x7d) {
                let j = Json::Object(fields);
                proof {
                    lemma_object_model(j);
                }
                return Ok(j);
            }
            self.expect(0x2c)?;
        }
    }

    /// The rest of an array whose `[` was just read.
    fn array(&mut self, depth: usize) -> (r: Result<Json, String>)
        requires
            old(self).pos <= old(self).bytes@.len(),
            depth <= 64,
        ensures
            final(self).bytes@ == old(self).bytes@,
            final(self).pos <= final(self).bytes@.len(),
            r is Ok ==> old(self).pos < final(self).pos,
            match array_at(old(self).bytes@, old(self).pos as int, depth as int) {
                Ok((m, n)) => r matches Ok(j) && j.model() == m && final(self).pos == n
                    && old(self).pos < n,
                Err(e) => r matches Err(x) && x@ == e,
            },
        decreases old(self).bytes@.len() - old(self).pos, 1int,
    {
        let ghost b = self.bytes@;
        let ghost p = self.pos as int;
        let mut values: Vec<Json> = Vec::new();
        proof {
            lemma_space_end(b, p);
        }
        if self.take(0x5d) {
            let j = Json::Array(values);
            proof {
                lemma_array_model(j);
                assert(element_models(values@) =~= Seq::empty());
            }
            return Ok(j);
        }
        proof {
            assert(element_models(values@) =~= Seq::empty());
        }
        loop
            invariant
                self.bytes@ == b,
                b == old(self).bytes@,
                p == old(self).pos,
                p <= self.pos <= b.len(),
                depth <= 64,
                items_at(b, self.pos as int, depth as int, element_models(values@))
                    == array_at(b, p, depth as int),
            decreases b.len() - self.pos,
        {
            let value = self.value(depth + 1)?;
            let ghost models = element_models(values@).push(value.model());
            values.push(value);
            proof {
                assert(element_models(values@) =~= models);
            }
            if self.take(0x5d) {
                let j = Json::Array(values);
                proof {
                    lemma_array_model(j);
                }
                return Ok(j);
            }
            self.expect(0x2c)?;
        }
    }

    /// Reads `source` as one JSON value with nothing but white space after it.
    pub fn parse(source: &'a str) -> (r: Result<Json, String>)
        ensures
            match parse_json(source.spec_bytes()) {
                Ok(m) => r matches Ok(j) && j.model() == m,
                Err(e) => r matches Err(x) && x@ == e,
            },
    {
        let mut p = Parser { bytes: source.as_bytes(), pos: 0 };
        let value = p.value(0)?;
        p.ws();
        if p.pos != p.bytes.len() {
            return Err(text("trailing JSON data"));
        }
        Ok(value)
    }
}

/// `16` to the power `i`.
pub open spec fn pow16(i: nat) -> int
    decreases i,
{
    if i == 0 {
        1
    } else {
        16 * pow16((i - 1) as nat)
    }
}

// ---------------------------------------------------------------------------
// Reading parsed values.
// ---------------------------------------------------------------------------

/// The value of the first member named `key`.
pub open spec fn find_member(members: Seq<(Seq<char>, JsonModel)>, key: Seq<char>) -> Option<JsonModel>
    decreases members.len(),
{
    if members.len() == 0 {
        None
    } else if members[0].0 == key {
        Some(members[0].1)
    } else {
        find_member(members.drop_first(), key)
    }
}

/// The member `key` of an object, if it has one.
pub open spec fn optional_of(j: JsonModel, key: Seq<char>) -> Result<Option<JsonModel>, Seq<char>> {
    match j {
        JsonModel::Object(members) => Ok(find_member(members, key)),
        _ => Err("expected object"@),
    }
}

/// The member `key` of an object, which it must have.
pub open spec fn get_of(j: JsonModel, key: Seq<char>) -> Result<JsonModel, Seq<char>> {
    match optional_of(j, key) {
        Err(e) => Err(e),
        Ok(None) => Err("missing "@ + key),
        Ok(Some(v)) => Ok(v),
    }
}

/// The elements of an array.
pub open spec fn array_of(j: JsonModel) -> Result<Seq<JsonModel>, Seq<char>> {
    match j {
        JsonModel::Array(values) => Ok(values),
        _ => Err("expected array"@),
    }
}

/// The text of a string.
pub open spec fn text_of(j: JsonModel) -> Result<Seq<char>, Seq<char>> {
    match j {
        JsonModel::Str(s) => Ok(s),
        _ => Err("expected string"@),
    }
}

/// A number written with decimal digits only, as a `u32`.
pub open spec fn u32_of(j: JsonModel) -> Result<u32, Seq<char>> {
    match j {
        JsonModel::Number(s) => if !all_ascii_digits(s) {
            Err("expected unsigned integer"@)
        } else if s.len() == 0 || decimal_value(s) > u32::MAX {
            Err("integer exceeds u32"@)
        } else {
            Ok(decimal_value(s) as u32)
        },
        _ => Err("expected unsigned integer"@),
    }
}

/// The decimal value of the digits `v`, when it fits in `u32`.
fn parse_u32_digits(v: &Vec<char>) -> (r: Option<u32>)
    requires
        all_ascii_digits(v@),
    ensures
        match r {
            Some(n) => v@.len() > 0 && decimal_value(v@) == n,
            None => v@.len() == 0 || decimal_value(v@) > u32::MAX,
        },
{
    if v.len() == 0 {
        return None;
    }
    let mut value: u64 = 0;
    let mut i: usize = 0;
    while i < v.len()
        invariant
            i <= v@.len(),
            all_ascii_digits(v@),
            value <= u32::MAX,
            value == decimal_value(v@.subrange(0, i as int)),
        decreases v@.len() - i,
    {
        let c = v[i];
        proof {
            assert(v@.subrange(0, i + 1).drop_last() =~= v@.subrange(0, i as int));
            assert(is_ascii_digit(v@[i as int]));
        }
        let digit = (c as u32 - '0' as u32) as u64;
        value = value * 10 + digit;
        if value > 0xffff_ffff {
            proof {
                lemma_decimal_value_monotone(v@, i + 1);
            }
            return None;
        }
        i = i + 1;
    }
    proof {
        assert(v@.subrange(0, v@.len() as int) =~= v@);
    }
    Some(value as u32)
}

impl Json {
    /// The member `key` of an object, if it has one.
    pub fn optional(&self, key: &str) -> (r: Result<Option<&Json>, String>)
        ensures
            match optional_of(self.model(), key@) {
                Ok(None) => r matches Ok(None),
                Ok(Some(m)) => r matches Ok(Some(j)) && j.model() == m,
                Err(e) => r matches Err(x) && x@ == e,
            },
    {
        match self {
            Json::Object(fields) => {
                let wanted = text(key);
                let ghost members = member_models(fields@);
                proof {
                    lemma_object_model(*self);
                    assert(members.subrange(0, members.len() as int) =~= members);
                }
                let mut i: usize = 0;
                while i < fields.len()
                    invariant
                        i <= fields@.len(),
                        members == member_models(fields@),
                        self.model() == JsonModel::Object(members),
                        wanted@ == key@,
                        find_member(members, key@)
                            == find_member(members.subrange(i as int, members.len() as int), key@),
                    decreases fields@.len() - i,
                {
                    let ghost rest = members.subrange(i as int, members.len() as int);
                    proof {
                        assert(rest.drop_first() =~= members.subrange(i + 1, members.len() as int));
                    }
                    if fields[i].0 == wanted {
                        proof {
                            assert(rest[0] == members[i as int]);
                            assert(members[i as int] == (fields@[i as int].0@, fields@[i as int].1.model()));
                            assert(fields@[i as int].0@ == wanted@);
                            assert(find_member(rest, key@) == Some(fields@[i as int].1.model()));
                        }
                        return Ok(Some(&fields[i].1));
                    }
                    i = i + 1;
                }
                Ok(None)
            },
            _ => Err(text("expected object")),
        }
    }

    /// The member `key` of an object, which it must have.
    pub fn get(&self, key: &str) -> (r: Result<&Json, String>)
        ensures
            match get_of(self.model(), key@) {
                Ok(m) => r matches Ok(j) && j.model() == m,
                Err(e) => r matches Err(x) && x@ == e,
            },
    {
        match self.optional(key)? {
            Some(value) => Ok(value),
            None => {
                let mut message = text("missing ");
                message.append(key);
                Err(message)
            },
        }
    }

    /// The elements of an array.
    pub fn array(&self) -> (r: Result<&[Json], String>)
        ensures
            match array_of(self.model()) {
                Ok(ms) => r matches Ok(a) && element_models(a@) == ms,
                Err(e) => r matches Err(x) && x@ == e,
            },
    {
        match self {
            Json::Array(values) => {
                proof {
                    lemma_array_model(*self);
                }
                Ok(values.as_slice())
            },
            _ => Err(text("expected array")),
        }
    }

    /// The text of a string.
    pub fn string(&self) -> (r: Result<&str, String>)
        ensures
            match text_of(self.model()) {
                Ok(t) => r matches Ok(s) && s@ == t,
                Err(e) => r matches Err(x) && x@ == e,
            },
    {
        match self {
            Json::Str(s) => Ok(s.as_str()),
            _ => Err(text("expected string")),
        }
    }

    /// A number written with decimal digits only, as a `u32`.
    pub fn u32(&self) -> (r: Result<u32, String>)
        ensures
            match u32_of(self.model()) {
                Ok(n) => r == Ok::<u32, String>(n),
                Err(e) => r matches Err(x) && x@ == e,
            },
    {
        match self {
            Json::Number(s) => {
                let v = chars_of(s.as_str());
                let mut i: usize = 0;
                while i < v.len()
                    invariant
                        i <= v@.len(),
                        v@ == s@,
                        self.model() == JsonModel::Number(s@),
                        forall|k: int| 0 <= k < i ==> is_ascii_digit(#[trigger] v@[k]),
                    decreases v@.len() - i,
                {
                    if !('0' <= v[i] && v[i] <= '9') {
                        proof {
                            assert(!is_ascii_digit(v@[i as int]));
                        }
                        return Err(text("expected unsigned integer"));
                    }
                    i = i + 1;
                }
                match parse_u32_digits(&v) {
                    Some(n) => Ok(n),
                    None => Err(text("integer exceeds u32")),
                }
            },
            _ => Err(text("expected unsigned integer")),
        }
    }
}

pub proof fn lemma_find_member_index(members: Seq<(Seq<char>, JsonModel)>, key: Seq<char>)
    ensures
        find_member(members, key) matches Some(v) ==> exists|k: int|
            0 <= k < members.len() && (#[trigger] members[k]).0 == key && members[k].1 == v,
    decreases members.len(),
{
    if members.len() > 0 && members[0].0 != key {
        lemma_find_member_index(members.drop_first(), key);
        if let Some(v) = find_member(members, key) {
            let k = choose|k: int| 0 <= k < members.drop_first().len()
                && (#[trigger] members.drop_first()[k]).0 == key && members.drop_first()[k].1 == v;
            assert(members[k + 1] == members.drop_first()[k]);
        }
    } else if members.len() > 0 {
        assert(members[0].0 == key);
    }
}

/// A member read from an object is smaller than the object.
pub proof fn lemma_get_decreases(j: JsonModel, key: Seq<char>)
    ensures
        get_of(j, key) matches Ok(v) ==> decreases_to!(j => v),
        optional_of(j, key) matches Ok(Some(v)) ==> decreases_to!(j => v),
{
    if let JsonModel::Object(members) = j {
        lemma_find_member_index(members, key);
        if let Some(v) = find_member(members, key) {
            let k = choose|k: int| 0 <= k < members.len() && (#[trigger] members[k]).0 == key
                && members[k].1 == v;
            assert(decreases_to!(j => members));
            assert(decreases_to!(members => members[k]));
            assert(decreases_to!(members[k] => members[k].1));
        }
    }
}

/// An element of an array is smaller than the array.
pub proof fn lemma_element_decreases(j: JsonModel, i: int)
    requires
        j is Array,
        0 <= i < j->Array_0.len(),
    ensures
        decreases_to!(j => j->Array_0[i]),
{
    let values = j->Array_0;
    assert(decreases_to!(j => values));
    assert(decreases_to!(values => values[i]));
}


/// `v` and every value nested in it have pairwise distinct object keys.
pub open spec fn keys_distinct(v: JsonModel) -> bool
    decreases v,
{
    match v {
        JsonModel::Object(ms) => (forall|i: int, j: int| 0 <= i < j < ms.len() ==> (#[trigger] ms[i]).0 != (#[trigger] ms[j]).0)
            && (forall|i: int| 0 <= i < ms.len() ==> keys_distinct(#[trigger] ms[i].1)),
        JsonModel::Array(items) => forall|i: int| 0 <= i < items.len() ==> keys_distinct(#[trigger] items[i]),
        _ => true,
    }
}

/// Members read so far: distinct names, values with distinct keys.
pub open spec fn members_distinct(ms: Seq<(Seq<char>, JsonModel)>) -> bool {
    &&& forall|i: int, j: int| 0 <= i < j < ms.len() ==> (#[trigger] ms[i]).0 != (#[trigger] ms[j]).0
    &&& forall|i: int| 0 <= i < ms.len() ==> keys_distinct(#[trigger] ms[i].1)
}

/// A number read at `p` ends after `p`, within the text.
pub proof fn lemma_number_end(b: Seq<u8>, p: int)
    requires
        0 <= p <= b.len(),
    ensures
        number_end(b, p) matches Ok(e) ==> p < e <= b.len(),
{
    let p1 = if 0 <= p < b.len() && b[p] == 0x2d { p + 1 } else { p };
    lemma_digits_end(b, p1);
    let integral = if 0 <= p1 < b.len() && b[p1] == 0x30 { Ok(p1 + 1) } else { digits_at(b, p1) };
    if let Ok(p2) = integral {
        if p2 < b.len() && b[p2] == 0x2e {
            lemma_digits_end(b, p2 + 1);
        }
        let fraction = if p2 < b.len() && b[p2] == 0x2e { digits_at(b, p2 + 1) } else { Ok(p2) };
        if let Ok(p3) = fraction {
            if p3 < b.len() && (b[p3] == 0x65 || b[p3] == 0x45) {
                let p4 = p3 + 1;
                let p5 = if p4 < b.len() && (b[p4] == 0x2b || b[p4] == 0x2d) { p4 + 1 } else { p4 };
                lemma_digits_end(b, p5);
            }
        }
    }
}

/// Every value read takes at least one byte and ends within the text, and
/// the objects in it have pairwise distinct keys.
pub proof fn lemma_value_at_sound(b: Seq<u8>, p: int, depth: int)
    requires
        0 <= p,
    ensures
        value_at(b, p, depth) matches Ok((v, e)) ==> p < e <= b.len() && keys_distinct(v),
    decreases b.len() - p, 0int,
{
    if depth <= 64 {
        let q = space_end(b, p);
        lemma_space_end_from(b, p);
        if 0 <= q < b.len() && b[q] == 0x7b {
            lemma_object_at_sound(b, q + 1, depth);
        } else if 0 <= q < b.len() && b[q] == 0x5b {
            lemma_array_at_sound(b, q + 1, depth);
        } else if 0 <= q < b.len() && b[q] == 0x22 {
            lemma_string_rest(b, q + 1, q + 1, Seq::empty());
        } else if 0 <= q < b.len() && (b[q] == 0x2d || is_digit_byte(b[q])) {
            lemma_number_end(b, q);
        }
    }
}

/// The rest of an object ends within the text, with distinct keys.
pub proof fn lemma_object_at_sound(b: Seq<u8>, p: int, depth: int)
    requires
        0 <= p,
    ensures
        object_at(b, p, depth) matches Ok((v, e)) ==> p < e <= b.len() && keys_distinct(v),
    decreases b.len() - p, 2int,
{
    let r = space_end(b, p);
    lemma_space_end_from(b, p);
    if p <= b.len() {
        lemma_space_end(b, p);
    } else {
        assert(r == p);
    }
    if !(0 <= r < b.len() && b[r] == 0x7d) {
        lemma_members_at_sound(b, r, depth, Seq::empty());
    }
}

/// The rest of an array ends within the text, with distinct keys inside.
pub proof fn lemma_array_at_sound(b: Seq<u8>, p: int, depth: int)
    requires
        0 <= p,
    ensures
        array_at(b, p, depth) matches Ok((v, e)) ==> p < e <= b.len() && keys_distinct(v),
    decreases b.len() - p, 2int,
{
    let r = space_end(b, p);
    lemma_space_end_from(b, p);
    if p <= b.len() {
        lemma_space_end(b, p);
    } else {
        assert(r == p);
    }
    if !(0 <= r < b.len() && b[r] == 0x5d) {
        lemma_items_at_sound(b, r, depth, Seq::empty());
    }
}

/// Members read after distinct members end within the text and keep the
/// keys distinct.
pub proof fn lemma_members_at_sound(b: Seq<u8>, p: int, depth: int, acc: Seq<(Seq<char>, JsonModel)>)
    requires
        0 <= p,
        members_distinct(acc),
    ensures
        members_at(b, p, depth, acc) matches Ok((v, e)) ==> p < e <= b.len() && keys_distinct(v),
    decreases b.len() - p, 1int,
{
    lemma_string_at(b, p);
    if let Ok((key, p1)) = string_at(b, p) {
        lemma_space_end_from(b, p1);
        if let Ok(p2) = expect_byte(b, p1, 0x3a) {
            lemma_value_at_sound(b, p2, depth + 1);
            if let Ok((v, e)) = value_at(b, p2, depth + 1) {
                if e > p && !has_key(acc, key) {
                    let next = acc.push((key, v));
                    assert(members_distinct(next)) by {
                        assert forall|i: int, j: int| 0 <= i < j < next.len() implies (#[trigger] next[i]).0
                            != (#[trigger] next[j]).0 by {
                            if j == next.len() - 1 {
                                if next[i].0 == key {
                                    assert(acc[i].0 == key);
                                }
                            }
                        }
                    }
                    let r = space_end(b, e);
                    lemma_space_end_from(b, e);
                    lemma_space_end(b, e);
                    if !(0 <= r < b.len() && b[r] == 0x7d) {
                        lemma_space_end_from(b, r);
                        if let Ok(n) = expect_byte(b, r, 0x2c) {
                            lemma_members_at_sound(b, n, depth, next);
                        }
                    }
                }
            }
        }
    }
}

/// Items read after items with distinct keys end within the text and keep
/// the keys distinct.
pub proof fn lemma_items_at_sound(b: Seq<u8>, p: int, depth: int, acc: Seq<JsonModel>)
    requires
        0 <= p,
        forall|i: int| 0 <= i < acc.len() ==> keys_distinct(#[trigger] acc[i]),
    ensures
        items_at(b, p, depth, acc) matches Ok((v, e)) ==> p < e <= b.len() && keys_distinct(v),
    decreases b.len() - p, 1int,
{
    lemma_value_at_sound(b, p, depth + 1);
    if let Ok((v, e)) = value_at(b, p, depth + 1) {
        if e > p {
            let next = acc.push(v);
            assert(forall|i: int| 0 <= i < next.len() ==> keys_distinct(#[trigger] next[i]));
            let r = space_end(b, e);
            lemma_space_end_from(b, e);
            lemma_space_end(b, e);
            if !(0 <= r < b.len() && b[r] == 0x5d) {
                lemma_space_end_from(b, r);
                if let Ok(n) = expect_byte(b, r, 0x2c) {
                    lemma_items_at_sound(b, n, depth, next);
                }
            }
        }
    }
}

/// What the reader accepts has pairwise distinct keys in every object it
/// holds, however deeply nested.
pub proof fn lemma_parsed_keys_distinct(b: Seq<u8>)
    ensures
        parse_json(b) matches Ok(v) ==> keys_distinct(v),
{
    lemma_value_at_sound(b, 0, 0);
}

} // verus!
