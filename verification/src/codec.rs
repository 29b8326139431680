//! The wire codec: a parser for the two JSON body shapes the service
//! accepts, specified by a byte-level grammar.
//!
//! The grammar covers one flat object whose members carry any well-formed
//! JSON value: the usual whitespace, UTF-8 string literals with the
//! single-character and `\uXXXX` escapes (surrogate pairs included), numbers,
//! `true`/`false`/`null`, and nested arrays and objects. An item body must
//! hold the member `name` as a string and `quantity` as an integer in the
//! signed 32-bit range, each exactly once; an id body the member `name`
//! alone; members under any other key are tolerated and ignored. Malformed
//! text — invalid UTF-8, lone surrogates, repeated or mistyped declared
//! members, trailing text, leading zeros — is rejected.

use vstd::prelude::*;
use vstd::string::StringExecFns;
use vstd::utf8::{
    valid_first_scalar, decode_first_scalar, length_of_first_scalar,
    valid_leading_and_continuation_bytes_first_codepoint, length_of_first_codepoint,
    decode_first_codepoint, not_overlong_encoding,
};
use crate::items::{GroceryItem, GroceryId};
use crate::text::{push_char, char_from_scalar};

verus! {

/// Spec-level JSON value: the two scalar shapes the bodies declare, and a
/// marker for every other well-formed value, which the codec skips.
pub enum JsonV {
    VStr(Seq<char>),
    VInt(int),
    VOther,
}

/// Spec-level object member.
pub struct FieldV {
    pub key: Seq<char>,
    pub val: JsonV,
}

/// Executable JSON value.
pub enum JsonScalar {
    SVal(String),
    IVal(i32),
    OVal,
}

impl View for JsonScalar {
    type V = JsonV;

    open spec fn view(&self) -> JsonV {
        match self {
            JsonScalar::SVal(s) => JsonV::VStr(s@),
            JsonScalar::IVal(n) => JsonV::VInt(*n as int),
            JsonScalar::OVal => JsonV::VOther,
        }
    }
}

/// Executable object member.
pub struct Field {
    pub key: String,
    pub val: JsonScalar,
}

impl View for Field {
    type V = FieldV;

    open spec fn view(&self) -> FieldV {
        FieldV { key: self.key@, val: self.val@ }
    }
}

/// The ghost members behind a vector of members, in order.
pub open spec fn fields_v(v: Seq<Field>) -> Seq<FieldV> {
    Seq::new(v.len(), |i: int| v[i]@)
}

/// JSON insignificant whitespace.
pub open spec fn is_ws(b: u8) -> bool {
    b == 32 || b == 9 || b == 10 || b == 13
}

/// An ASCII decimal digit.
pub open spec fn is_digit(b: u8) -> bool {
    48 <= b && b <= 57
}

/// The value of an ASCII hexadecimal digit.
pub open spec fn hex_val(b: u8) -> Option<int> {
    if 48 <= b && b <= 57 {
        Some((b - 48) as int)
    } else if 97 <= b && b <= 102 {
        Some((b - 87) as int)
    } else if 65 <= b && b <= 70 {
        Some((b - 55) as int)
    } else {
        None
    }
}

/// First position at or after `i` holding no whitespace.
pub open spec fn skip_ws(s: Seq<u8>, i: int) -> int
    decreases s.len() - i,
{
    if 0 <= i && i < s.len() && is_ws(s[i]) {
        skip_ws(s, i + 1)
    } else {
        i
    }
}

/// The character behind a single-character escape, if the byte names one.
pub open spec fn esc_char(b: u8) -> Option<char> {
    if b == 34 {
        Some('"')
    } else if b == 92 {
        Some('\\')
    } else if b == 47 {
        Some('/')
    } else if b == 98 {
        Some('\u{8}')
    } else if b == 102 {
        Some('\u{c}')
    } else if b == 110 {
        Some('\n')
    } else if b == 114 {
        Some('\r')
    } else if b == 116 {
        Some('\t')
    } else {
        None
    }
}

/// The value of the four hexadecimal digits `s[i..i+4)`.
pub open spec fn spec_hex4(s: Seq<u8>, i: int) -> Option<int> {
    if 0 <= i && i + 4 <= s.len() {
        match (hex_val(s[i]), hex_val(s[i + 1]), hex_val(s[i + 2]), hex_val(s[i + 3])) {
            (Some(h0), Some(h1), Some(h2), Some(h3)) => Some(
                h0 * 4096 + h1 * 256 + h2 * 16 + h3,
            ),
            _ => None,
        }
    } else {
        None
    }
}

/// The characters of a string literal's body starting at `i` (just past the
/// opening quote), and the position past its closing quote. Characters come
/// as unescaped ASCII, UTF-8 multibyte sequences, the single-character
/// escapes, or `\uXXXX` with surrogate pairs for the supplementary planes.
pub open spec fn spec_string_body(s: Seq<u8>, i: int) -> Option<(Seq<char>, int)>
    decreases s.len() - i,
{
    if 0 <= i && i < s.len() {
        let b = s[i];
        if b == 34 {
            Some((Seq::<char>::empty(), i + 1))
        } else if b == 92 {
            if i + 1 < s.len() {
                if s[i + 1] == 117 {
                    match spec_hex4(s, i + 2) {
                        Some(cu) => {
                            if 0xD800 <= cu && cu <= 0xDBFF {
                                if i + 7 < s.len() && s[i + 6] == 92 && s[i + 7] == 117 {
                                    match spec_hex4(s, i + 8) {
                                        Some(cl) => {
                                            if 0xDC00 <= cl && cl <= 0xDFFF {
                                                let cp = 0x10000 + (cu - 0xD800) * 0x400 + (cl
                                                    - 0xDC00);
                                                match spec_string_body(s, i + 12) {
                                                    Some(t) => Some(
                                                        (seq![(cp as u32) as char] + t.0, t.1),
                                                    ),
                                                    None => None,
                                                }
                                            } else {
                                                None
                                            }
                                        },
                                        None => None,
                                    }
                                } else {
                                    None
                                }
                            } else if 0xDC00 <= cu && cu <= 0xDFFF {
                                None
                            } else {
                                match spec_string_body(s, i + 6) {
                                    Some(t) => Some((seq![(cu as u32) as char] + t.0, t.1)),
                                    None => None,
                                }
                            }
                        },
                        None => None,
                    }
                } else {
                    match esc_char(s[i + 1]) {
                        Some(c) => match spec_string_body(s, i + 2) {
                            Some(t) => Some((seq![c] + t.0, t.1)),
                            None => None,
                        },
                        None => None,
                    }
                }
            } else {
                None
            }
        } else if 32 <= b && b <= 127 {
            match spec_string_body(s, i + 1) {
                Some(t) => Some((seq![b as char] + t.0, t.1)),
                None => None,
            }
        } else if b >= 128 {
            let tail = s.skip(i);
            if valid_first_scalar(tail) {
                let w = length_of_first_scalar(tail);
                if 0 < w && i + w <= s.len() {
                    match spec_string_body(s, i + w) {
                        Some(t) => Some((seq![decode_first_scalar(tail) as char] + t.0, t.1)),
                        None => None,
                    }
                } else {
                    None
                }
            } else {
                None
            }
        } else {
            None
        }
    } else {
        None
    }
}

/// End of the digit run starting at `i`.
pub open spec fn digits_end(s: Seq<u8>, i: int) -> int
    decreases s.len() - i,
{
    if 0 <= i && i < s.len() && is_digit(s[i]) {
        digits_end(s, i + 1)
    } else {
        i
    }
}

/// The decimal value of the digits `s[i..j)`.
pub open spec fn digits_val(s: Seq<u8>, i: int, j: int) -> int
    decreases j - i,
{
    if i < j {
        digits_val(s, i, j - 1) * 10 + (s[j - 1] - 48)
    } else {
        0
    }
}

/// A JSON integer starting at `i`: optional minus, then `0` alone or a
/// nonzero digit run, within the signed 32-bit range.
pub open spec fn spec_int(s: Seq<u8>, i: int) -> Option<(int, int)> {
    let neg = 0 <= i && i < s.len() && s[i] == 45;
    let d0 = if neg {
        i + 1
    } else {
        i
    };
    if 0 <= d0 && d0 < s.len() && is_digit(s[d0]) {
        let j = if s[d0] == 48 {
            d0 + 1
        } else {
            digits_end(s, d0)
        };
        let v = digits_val(s, d0, j);
        let n = if neg {
            -v
        } else {
            v
        };
        if i32::MIN <= n && n <= i32::MAX {
            Some((n, j))
        } else {
            None
        }
    } else {
        None
    }
}

/// End of the fraction part at `j`, if the syntax there is sound.
pub open spec fn spec_frac_end(s: Seq<u8>, j: int) -> Option<int> {
    if 0 <= j && j < s.len() && s[j] == 46 {
        if j + 1 < s.len() && is_digit(s[j + 1]) {
            Some(digits_end(s, j + 1))
        } else {
            None
        }
    } else {
        Some(j)
    }
}

/// End of the exponent part at `j`, if the syntax there is sound.
pub open spec fn spec_exp_end(s: Seq<u8>, j: int) -> Option<int> {
    if 0 <= j && j < s.len() && (s[j] == 101 || s[j] == 69) {
        let k = if j + 1 < s.len() && (s[j + 1] == 43 || s[j + 1] == 45) {
            j + 2
        } else {
            j + 1
        };
        if 0 <= k && k < s.len() && is_digit(s[k]) {
            Some(digits_end(s, k))
        } else {
            None
        }
    } else {
        Some(j)
    }
}

/// End of a full JSON number token starting at `i`: optional minus, integer
/// part, optional fraction and exponent.
pub open spec fn spec_number_end(s: Seq<u8>, i: int) -> Option<int> {
    let d0 = if 0 <= i && i < s.len() && s[i] == 45 {
        i + 1
    } else {
        i
    };
    if 0 <= d0 && d0 < s.len() && is_digit(s[d0]) {
        let j = if s[d0] == 48 {
            d0 + 1
        } else {
            digits_end(s, d0)
        };
        match spec_frac_end(s, j) {
            Some(j2) => spec_exp_end(s, j2),
            None => None,
        }
    } else {
        None
    }
}

/// A value starting at `i`: the two declared scalar shapes are decoded,
/// every other well-formed value is consumed as `VOther`.
pub open spec fn spec_value(s: Seq<u8>, i: int) -> Option<(JsonV, int)>
    decreases s.len() - i, 2int,
{
    if 0 <= i && i < s.len() {
        let b = s[i];
        if b == 34 {
            match spec_string_body(s, i + 1) {
                Some(t) => Some((JsonV::VStr(t.0), t.1)),
                None => None,
            }
        } else if b == 45 || is_digit(b) {
            match spec_number_end(s, i) {
                Some(e) => match spec_int(s, i) {
                    Some(t) => if t.1 == e {
                        Some((JsonV::VInt(t.0), e))
                    } else {
                        Some((JsonV::VOther, e))
                    },
                    None => Some((JsonV::VOther, e)),
                },
                None => None,
            }
        } else if b == 116 {
            if i + 4 <= s.len() && s[i + 1] == 114 && s[i + 2] == 117 && s[i + 3] == 101 {
                Some((JsonV::VOther, i + 4))
            } else {
                None
            }
        } else if b == 102 {
            if i + 5 <= s.len() && s[i + 1] == 97 && s[i + 2] == 108 && s[i + 3] == 115 && s[i
                + 4] == 101 {
                Some((JsonV::VOther, i + 5))
            } else {
                None
            }
        } else if b == 110 {
            if i + 4 <= s.len() && s[i + 1] == 117 && s[i + 2] == 108 && s[i + 3] == 108 {
                Some((JsonV::VOther, i + 4))
            } else {
                None
            }
        } else if b == 91 {
            match spec_skip_array(s, i) {
                Some(e) => Some((JsonV::VOther, e)),
                None => None,
            }
        } else if b == 123 {
            match spec_skip_object(s, i) {
                Some(e) => Some((JsonV::VOther, e)),
                None => None,
            }
        } else {
            None
        }
    } else {
        None
    }
}

/// Consume an array starting at the `[` at `i`; the position past `]`.
pub open spec fn spec_skip_array(s: Seq<u8>, i: int) -> Option<int>
    decreases s.len() - i, 1int,
{
    if 0 <= i && i < s.len() && s[i] == 91 {
        let j = skip_ws(s, i + 1);
        if j < s.len() && s[j] == 93 {
            Some(j + 1)
        } else if i + 1 <= j && j <= s.len() {
            spec_skip_elements(s, j)
        } else {
            None
        }
    } else {
        None
    }
}

/// Consume `value (ws ',' ws value)* ws ']'` starting at `j`.
pub open spec fn spec_skip_elements(s: Seq<u8>, j: int) -> Option<int>
    decreases s.len() - j, 3int,
{
    match spec_value(s, j) {
        Some(v) => {
            let c = skip_ws(s, v.1);
            if 0 <= c && c < s.len() && s[c] == 44 {
                let n0 = skip_ws(s, c + 1);
                if j < n0 && n0 <= s.len() {
                    spec_skip_elements(s, n0)
                } else {
                    None
                }
            } else if 0 <= c && c < s.len() && s[c] == 93 {
                Some(c + 1)
            } else {
                None
            }
        },
        None => None,
    }
}

/// Consume a nested object starting at the `{` at `i`; the position past
/// `}`.
pub open spec fn spec_skip_object(s: Seq<u8>, i: int) -> Option<int>
    decreases s.len() - i, 1int,
{
    if 0 <= i && i < s.len() && s[i] == 123 {
        let j = skip_ws(s, i + 1);
        if j < s.len() && s[j] == 125 {
            Some(j + 1)
        } else if i + 1 <= j && j <= s.len() {
            spec_skip_pairs(s, j)
        } else {
            None
        }
    } else {
        None
    }
}

/// Consume `"key" ws ':' ws value (ws ',' ws ... | ws '}')` starting at `j`.
pub open spec fn spec_skip_pairs(s: Seq<u8>, j: int) -> Option<int>
    decreases s.len() - j, 3int,
{
    if 0 <= j && j < s.len() && s[j] == 34 {
        match spec_string_body(s, j + 1) {
            Some(k) => {
                let c = skip_ws(s, k.1);
                if c < s.len() && s[c] == 58 {
                    let v0 = skip_ws(s, c + 1);
                    if j < v0 && v0 <= s.len() {
                        match spec_value(s, v0) {
                            Some(v) => {
                                let c2 = skip_ws(s, v.1);
                                if 0 <= c2 && c2 < s.len() && s[c2] == 44 {
                                    let n0 = skip_ws(s, c2 + 1);
                                    if j < n0 && n0 <= s.len() {
                                        spec_skip_pairs(s, n0)
                                    } else {
                                        None
                                    }
                                } else if 0 <= c2 && c2 < s.len() && s[c2] == 125 {
                                    Some(c2 + 1)
                                } else {
                                    None
                                }
                            },
                            None => None,
                        }
                    } else {
                        None
                    }
                } else {
                    None
                }
            },
            None => None,
        }
    } else {
        None
    }
}

/// One `"key" : value` member starting at `i`.
pub open spec fn spec_member(s: Seq<u8>, i: int) -> Option<(FieldV, int)> {
    if 0 <= i && i < s.len() && s[i] == 34 {
        match spec_string_body(s, i + 1) {
            Some(k) => {
                let c = skip_ws(s, k.1);
                if c < s.len() && s[c] == 58 {
                    let v0 = skip_ws(s, c + 1);
                    match spec_value(s, v0) {
                        Some(v) => Some((FieldV { key: k.0, val: v.0 }, v.1)),
                        None => None,
                    }
                } else {
                    None
                }
            },
            None => None,
        }
    } else {
        None
    }
}

/// A comma-separated member list starting at `i`.
pub open spec fn spec_members(s: Seq<u8>, i: int) -> Option<(Seq<FieldV>, int)>
    decreases s.len() - i,
{
    match spec_member(s, i) {
        Some(m) => {
            let c = skip_ws(s, m.1);
            if 0 <= c && c < s.len() && s[c] == 44 {
                let n0 = skip_ws(s, c + 1);
                if i < n0 && n0 <= s.len() {
                    match spec_members(s, n0) {
                        Some(r) => Some((seq![m.0] + r.0, r.1)),
                        None => None,
                    }
                } else {
                    None
                }
            } else {
                Some((seq![m.0], m.1))
            }
        },
        None => None,
    }
}

/// A whole body: one flat object with nothing but whitespace around it.
pub open spec fn spec_fields(s: Seq<u8>) -> Option<Seq<FieldV>> {
    let i = skip_ws(s, 0);
    if i < s.len() && s[i] == 123 {
        let j = skip_ws(s, i + 1);
        if j < s.len() && s[j] == 125 {
            if skip_ws(s, j + 1) == s.len() {
                Some(Seq::<FieldV>::empty())
            } else {
                None
            }
        } else {
            match spec_members(s, j) {
                Some(m) => {
                    let e = skip_ws(s, m.1);
                    if e < s.len() && s[e] == 125 && skip_ws(s, e + 1) == s.len() {
                        Some(m.0)
                    } else {
                        None
                    }
                },
                None => None,
            }
        }
    } else {
        None
    }
}

/// The item body's member name `name`.
pub open spec fn name_key() -> Seq<char> {
    seq!['n', 'a', 'm', 'e']
}

/// The item body's member name `quantity`.
pub open spec fn quantity_key() -> Seq<char> {
    seq!['q', 'u', 'a', 'n', 't', 'i', 't', 'y']
}

/// Scan the members for the one string `name` and the one integer
/// `quantity`: a repeated or mistyped declared member rejects the body,
/// any other member is ignored.
pub open spec fn fold_item(
    fs: Seq<FieldV>,
    i: int,
    name_acc: Option<Seq<char>>,
    qty_acc: Option<int>,
) -> Option<(Seq<char>, int)>
    decreases fs.len() - i,
{
    if 0 <= i && i < fs.len() {
        let f = fs[i];
        if f.key == name_key() {
            if name_acc is Some {
                None
            } else {
                match f.val {
                    JsonV::VStr(n) => fold_item(fs, i + 1, Some(n), qty_acc),
                    _ => None,
                }
            }
        } else if f.key == quantity_key() {
            if qty_acc is Some {
                None
            } else {
                match f.val {
                    JsonV::VInt(q) => fold_item(fs, i + 1, name_acc, Some(q)),
                    _ => None,
                }
            }
        } else {
            fold_item(fs, i + 1, name_acc, qty_acc)
        }
    } else {
        match (name_acc, qty_acc) {
            (Some(n), Some(q)) => Some((n, q)),
            _ => None,
        }
    }
}

/// The item an object's members describe.
pub open spec fn item_of_fields(fs: Seq<FieldV>) -> Option<(Seq<char>, int)> {
    fold_item(fs, 0, None, None)
}

/// Scan the members for the one string `name`; any other member is ignored.
pub open spec fn fold_id(fs: Seq<FieldV>, i: int, name_acc: Option<Seq<char>>) -> Option<
    Seq<char>,
>
    decreases fs.len() - i,
{
    if 0 <= i && i < fs.len() {
        let f = fs[i];
        if f.key == name_key() {
            if name_acc is Some {
                None
            } else {
                match f.val {
                    JsonV::VStr(n) => fold_id(fs, i + 1, Some(n)),
                    _ => None,
                }
            }
        } else {
            fold_id(fs, i + 1, name_acc)
        }
    } else {
        name_acc
    }
}

/// The deletion key an object's members describe.
pub open spec fn id_of_fields(fs: Seq<FieldV>) -> Option<Seq<char>> {
    fold_id(fs, 0, None)
}

/// What an item body denotes, if anything.
pub open spec fn spec_parse_item(s: Seq<u8>) -> Option<(Seq<char>, int)> {
    match spec_fields(s) {
        Some(fs) => item_of_fields(fs),
        None => None,
    }
}

/// What an id body denotes, if anything.
pub open spec fn spec_parse_id(s: Seq<u8>) -> Option<Seq<char>> {
    match spec_fields(s) {
        Some(fs) => id_of_fields(fs),
        None => None,
    }
}

proof fn lemma_fold_item_no_name(fs: Seq<FieldV>, i: int, qty_acc: Option<int>)
    requires
        forall|k: int| i <= k < fs.len() ==> fs[k].key != name_key(),
    ensures
        fold_item(fs, i, None, qty_acc) is None,
    decreases fs.len() - i,
{
    if 0 <= i && i < fs.len() {
        if fs[i].key == quantity_key() && qty_acc is None {
            if fs[i].val is VInt {
                lemma_fold_item_no_name(fs, i + 1, Some(fs[i].val->VInt_0));
            }
        } else if fs[i].key != quantity_key() {
            lemma_fold_item_no_name(fs, i + 1, qty_acc);
        }
    }
}

proof fn lemma_fold_id_no_name(fs: Seq<FieldV>, i: int)
    requires
        forall|k: int| i <= k < fs.len() ==> fs[k].key != name_key(),
    ensures
        fold_id(fs, i, None) is None,
    decreases fs.len() - i,
{
    if 0 <= i && i < fs.len() {
        lemma_fold_id_no_name(fs, i + 1);
    }
}

/// A body whose object carries no `name` member denotes neither an item nor
/// a deletion key.
pub proof fn lemma_missing_name_rejected(fs: Seq<FieldV>)
    requires
        forall|i: int| 0 <= i < fs.len() ==> fs[i].key != name_key(),
    ensures
        item_of_fields(fs) is None,
        id_of_fields(fs) is None,
{
    lemma_fold_item_no_name(fs, 0, None);
    lemma_fold_id_no_name(fs, 0);
}

fn skip_ws_exec(s: &Vec<u8>, i: usize) -> (r: usize)
    requires
        i <= s@.len(),
    ensures
        r == skip_ws(s@, i as int),
        i <= r <= s@.len(),
    decreases s@.len() - i,
{
    if i < s.len() && (s[i] == 32 || s[i] == 9 || s[i] == 10 || s[i] == 13) {
        skip_ws_exec(s, i + 1)
    } else {
        i
    }
}

fn esc_char_exec(b: u8) -> (r: Option<char>)
    ensures
        r == esc_char(b),
{
    if b == 34 {
        Some('"')
    } else if b == 92 {
        Some('\\')
    } else if b == 47 {
        Some('/')
    } else if b == 98 {
        Some('\u{8}')
    } else if b == 102 {
        Some('\u{c}')
    } else if b == 110 {
        Some('\n')
    } else if b == 114 {
        Some('\r')
    } else if b == 116 {
        Some('\t')
    } else {
        None
    }
}

fn hex_val_exec(b: u8) -> (r: Option<u32>)
    ensures
        r is None <==> hex_val(b) is None,
        r matches Some(v) ==> hex_val(b) == Some(v as int) && v < 16,
{
    if 48 <= b && b <= 57 {
        Some((b - 48) as u32)
    } else if 97 <= b && b <= 102 {
        Some((b - 87) as u32)
    } else if 65 <= b && b <= 70 {
        Some((b - 55) as u32)
    } else {
        None
    }
}

fn parse_hex4(s: &Vec<u8>, i: usize) -> (r: Option<u32>)
    requires
        i <= s@.len(),
    ensures
        r is None <==> spec_hex4(s@, i as int) is None,
        r matches Some(v) ==> spec_hex4(s@, i as int) == Some(v as int) && v <= 0xFFFF,
{
    if s.len() >= 4 && i <= s.len() - 4 {
        match (hex_val_exec(s[i]), hex_val_exec(s[i + 1]), hex_val_exec(s[i + 2]), hex_val_exec(
            s[i + 3],
        )) {
            (Some(h0), Some(h1), Some(h2), Some(h3)) => Some(
                h0 * 4096 + h1 * 256 + h2 * 16 + h3,
            ),
            _ => None,
        }
    } else {
        None
    }
}

fn parse_string_body(s: &Vec<u8>, i: usize) -> (r: Option<(String, usize)>)
    requires
        i <= s@.len(),
    ensures
        r is None ==> spec_string_body(s@, i as int) is None,
        r matches Some(p) ==> spec_string_body(s@, i as int) == Some((p.0@, p.1 as int)) && i
            < p.1 <= s@.len(),
    decreases s@.len() - i,
{
    if i < s.len() {
        let b = s[i];
        if b == 34 {
            let out = String::new();
            Some((out, i + 1))
        } else if b == 92 {
            if i + 1 < s.len() {
                if s[i + 1] == 117 {
                    parse_unicode_escape(s, i)
                } else {
                    match esc_char_exec(s[i + 1]) {
                        Some(c) => match parse_string_body(s, i + 2) {
                            Some(p) => {
                                let mut out = String::new();
                                push_char(&mut out, c);
                                out.append(p.0.as_str());
                                proof {
                                    assert(out@ =~= seq![c] + p.0@);
                                }
                                Some((out, p.1))
                            },
                            None => None,
                        },
                        None => None,
                    }
                }
            } else {
                None
            }
        } else if 32 <= b && b <= 127 {
            match parse_string_body(s, i + 1) {
                Some(p) => {
                    let mut out = String::new();
                    push_char(&mut out, b as char);
                    out.append(p.0.as_str());
                    proof {
                        assert(out@ =~= seq![b as char] + p.0@);
                    }
                    Some((out, p.1))
                },
                None => None,
            }
        } else if b >= 128 {
            match decode_multibyte(s, i) {
                Some(d) => match parse_string_body(s, d.1) {
                    Some(p) => {
                        let mut out = String::new();
                        push_char(&mut out, d.0);
                        out.append(p.0.as_str());
                        proof {
                            assert(out@ =~= seq![d.0] + p.0@);
                        }
                        Some((out, p.1))
                    },
                    None => None,
                },
                None => None,
            }
        } else {
            None
        }
    } else {
        None
    }
}

/// Decode a `\uXXXX` escape (with a surrogate pair where needed) at the
/// backslash at `i`, and continue with the rest of the string body.
fn parse_unicode_escape(s: &Vec<u8>, i: usize) -> (r: Option<(String, usize)>)
    requires
        i + 1 < s@.len(),
        s@[i as int] == 92,
        s@[i + 1] == 117,
    ensures
        r is None ==> spec_string_body(s@, i as int) is None,
        r matches Some(p) ==> spec_string_body(s@, i as int) == Some((p.0@, p.1 as int)) && i
            < p.1 <= s@.len(),
    decreases s@.len() - i, 0int,
{
    let n = s.len();
    match parse_hex4(s, i + 2) {
        Some(cu) => {
            if 0xD800 <= cu && cu <= 0xDBFF {
                if n - i > 7 && s[i + 6] == 92 && s[i + 7] == 117 {
                    match parse_hex4(s, i + 8) {
                        Some(cl) => {
                            if 0xDC00 <= cl && cl <= 0xDFFF {
                                let cp: u32 = 0x10000 + (cu - 0xD800) * 0x400 + (cl - 0xDC00);
                                let c = char_from_scalar(cp);
                                match parse_string_body(s, i + 12) {
                                    Some(p) => {
                                        let mut out = String::new();
                                        push_char(&mut out, c);
                                        out.append(p.0.as_str());
                                        proof {
                                            assert(out@ =~= seq![c] + p.0@);
                                        }
                                        Some((out, p.1))
                                    },
                                    None => None,
                                }
                            } else {
                                None
                            }
                        },
                        None => None,
                    }
                } else {
                    None
                }
            } else if 0xDC00 <= cu && cu <= 0xDFFF {
                None
            } else {
                let c = char_from_scalar(cu);
                match parse_string_body(s, i + 6) {
                    Some(p) => {
                        let mut out = String::new();
                        push_char(&mut out, c);
                        out.append(p.0.as_str());
                        proof {
                            assert(out@ =~= seq![c] + p.0@);
                        }
                        Some((out, p.1))
                    },
                    None => None,
                }
            }
        },
        None => None,
    }
}

/// Decode one UTF-8 multibyte scalar at `i`; the character and the position
/// past its bytes.
fn decode_multibyte(s: &Vec<u8>, i: usize) -> (r: Option<(char, usize)>)
    requires
        i < s@.len(),
        s@[i as int] >= 128,
    ensures
        r is None ==> !valid_first_scalar(s@.skip(i as int)),
        r matches Some(d) ==> valid_first_scalar(s@.skip(i as int)) && d.0
            == decode_first_scalar(s@.skip(i as int)) as char && d.1 == i + length_of_first_scalar(
            s@.skip(i as int),
        ) && i < d.1 <= s@.len(),
{
    let ghost tail = s@.skip(i as int);
    proof {
        assert(tail.len() == s@.len() - i);
        assert(tail[0] == s@[i as int]);
    }
    let b = s[i];
    if 0xc0 <= b && b <= 0xdf {
        if s.len() - i > 1 && 0x80 <= s[i + 1] && s[i + 1] <= 0xbf {
            let b1 = s[i + 1];
            proof {
                assert(tail[1] == s@[i + 1]);
            }
            let cp: u32 = (((b & 0x1f) as u32) << 6u32) | ((b1 & 0x3f) as u32);
            proof {
                assert(cp <= 0x7ff) by (bit_vector)
                    requires
                        cp == (((b & 0x1f) as u32) << 6u32) | ((b1 & 0x3f) as u32),
                ;
                assert(valid_leading_and_continuation_bytes_first_codepoint(tail));
                assert(length_of_first_codepoint(tail) == 2);
                assert(decode_first_codepoint(tail) == cp);
            }
            if cp >= 0x80 {
                proof {
                    assert(valid_first_scalar(tail));
                }
                let c = char_from_scalar(cp);
                Some((c, i + 2))
            } else {
                proof {
                    assert(!not_overlong_encoding(decode_first_codepoint(tail), 2));
                }
                None
            }
        } else {
            proof {
                assert(!valid_leading_and_continuation_bytes_first_codepoint(tail));
            }
            None
        }
    } else if 0xe0 <= b && b <= 0xef {
        if s.len() - i > 2 && 0x80 <= s[i + 1] && s[i + 1] <= 0xbf && 0x80 <= s[i + 2] && s[i
            + 2] <= 0xbf {
            let b1 = s[i + 1];
            let b2 = s[i + 2];
            proof {
                assert(tail[1] == s@[i + 1]);
                assert(tail[2] == s@[i + 2]);
            }
            let cp: u32 = (((b & 0x0f) as u32) << 12u32) | (((b1 & 0x3f) as u32) << 6u32) | ((
            b2 & 0x3f) as u32);
            proof {
                assert(cp <= 0xffff) by (bit_vector)
                    requires
                        cp == (((b & 0x0f) as u32) << 12u32) | (((b1 & 0x3f) as u32) << 6u32)
                            | ((b2 & 0x3f) as u32),
                ;
                assert(valid_leading_and_continuation_bytes_first_codepoint(tail));
                assert(length_of_first_codepoint(tail) == 3);
                assert(decode_first_codepoint(tail) == cp);
            }
            if cp >= 0x800 && !(0xD800 <= cp && cp <= 0xDFFF) {
                proof {
                    assert(valid_first_scalar(tail));
                }
                let c = char_from_scalar(cp);
                Some((c, i + 3))
            } else {
                None
            }
        } else {
            proof {
                assert(!valid_leading_and_continuation_bytes_first_codepoint(tail));
            }
            None
        }
    } else if 0xf0 <= b && b <= 0xf7 {
        if s.len() - i > 3 && 0x80 <= s[i + 1] && s[i + 1] <= 0xbf && 0x80 <= s[i + 2] && s[i
            + 2] <= 0xbf && 0x80 <= s[i + 3] && s[i + 3] <= 0xbf {
            let b1 = s[i + 1];
            let b2 = s[i + 2];
            let b3 = s[i + 3];
            proof {
                assert(tail[1] == s@[i + 1]);
                assert(tail[2] == s@[i + 2]);
                assert(tail[3] == s@[i + 3]);
            }
            let cp: u32 = (((b & 0x07) as u32) << 18u32) | (((b1 & 0x3f) as u32) << 12u32) | ((
            (b2 & 0x3f) as u32) << 6u32) | ((b3 & 0x3f) as u32);
            proof {
                assert(cp <= 0x1fffff) by (bit_vector)
                    requires
                        cp == (((b & 0x07) as u32) << 18u32) | (((b1 & 0x3f) as u32)
                            << 12u32) | (((b2 & 0x3f) as u32) << 6u32) | ((b3 & 0x3f) as u32),
                ;
                assert(valid_leading_and_continuation_bytes_first_codepoint(tail));
                assert(length_of_first_codepoint(tail) == 4);
                assert(decode_first_codepoint(tail) == cp);
            }
            if 0x10000 <= cp && cp <= 0x10ffff {
                proof {
                    assert(valid_first_scalar(tail));
                }
                let c = char_from_scalar(cp);
                Some((c, i + 4))
            } else {
                None
            }
        } else {
            proof {
                assert(!valid_leading_and_continuation_bytes_first_codepoint(tail));
            }
            None
        }
    } else {
        proof {
            assert(!valid_leading_and_continuation_bytes_first_codepoint(tail));
        }
        None
    }
}

proof fn lemma_digits_val_grows(s: Seq<u8>, d0: int, j: int, e: int)
    requires
        d0 <= j <= e,
        forall|k: int| d0 <= k < e ==> is_digit(s[k]),
    ensures
        digits_val(s, d0, e) >= digits_val(s, d0, j),
        digits_val(s, d0, j) >= 0,
    decreases e - j,
{
    if j == e {
        lemma_digits_val_nonneg(s, d0, j);
    } else {
        lemma_digits_val_grows(s, d0, j, e - 1);
    }
}

proof fn lemma_digits_val_nonneg(s: Seq<u8>, d0: int, j: int)
    requires
        forall|k: int| d0 <= k < j ==> is_digit(s[k]),
    ensures
        digits_val(s, d0, j) >= 0,
    decreases j - d0,
{
    if d0 < j {
        lemma_digits_val_nonneg(s, d0, j - 1);
    }
}

proof fn lemma_digits_end_lb(s: Seq<u8>, i: int)
    ensures
        digits_end(s, i) >= i,
    decreases s.len() - i,
{
    if 0 <= i && i < s.len() && is_digit(s[i]) {
        lemma_digits_end_lb(s, i + 1);
    }
}

proof fn lemma_digits_end_ge(s: Seq<u8>, d0: int, m: int)
    requires
        0 <= d0 <= m <= s.len(),
        forall|k: int| d0 <= k < m ==> is_digit(s[k]),
    ensures
        digits_end(s, d0) >= m,
    decreases m - d0,
{
    if d0 < m {
        lemma_digits_end_ge(s, d0 + 1, m);
    } else {
        lemma_digits_end_lb(s, d0);
    }
}

proof fn lemma_digits_end_is(s: Seq<u8>, d0: int, j: int)
    requires
        0 <= d0 <= j <= s.len(),
        forall|k: int| d0 <= k < j ==> is_digit(s[k]),
        j < s.len() ==> !is_digit(s[j as int]),
    ensures
        digits_end(s, d0) == j,
    decreases j - d0,
{
    if d0 < j {
        lemma_digits_end_is(s, d0 + 1, j);
    }
}

proof fn lemma_digits_run(s: Seq<u8>, d0: int)
    requires
        0 <= d0,
    ensures
        forall|k: int| d0 <= k < digits_end(s, d0) ==> is_digit(s[k]),
    decreases s.len() - d0,
{
    if 0 <= d0 && d0 < s.len() && is_digit(s[d0]) {
        lemma_digits_run(s, d0 + 1);
    }
}

fn digits_end_exec(s: &Vec<u8>, i: usize) -> (r: usize)
    requires
        i <= s@.len(),
    ensures
        r == digits_end(s@, i as int),
        i <= r <= s@.len(),
    decreases s@.len() - i,
{
    if i < s.len() && 48 <= s[i] && s[i] <= 57 {
        digits_end_exec(s, i + 1)
    } else {
        i
    }
}

#[verifier::loop_isolation(false)]
fn parse_int(s: &Vec<u8>, i: usize) -> (r: Option<(i32, usize)>)
    requires
        i <= s@.len(),
    ensures
        r is None ==> spec_int(s@, i as int) is None,
        r matches Some(p) ==> spec_int(s@, i as int) == Some((p.0 as int, p.1 as int)) && i
            < p.1 <= s@.len(),
{
    let neg = i < s.len() && s[i] == 45;
    let d0 = if neg {
        i + 1
    } else {
        i
    };
    if d0 < s.len() && 48 <= s[d0] && s[d0] <= 57 {
        if s[d0] == 48 {
            proof {
                assert(digits_val(s@, d0 as int, d0 as int) == 0);
                assert(digits_val(s@, d0 as int, d0 + 1) == 0);
            }
            return Some((0, d0 + 1));
        }
        let mut j: usize = d0;
        let mut val: u64 = 0;
        while j < s.len() && 48 <= s[j] && s[j] <= 57
            invariant
                d0 <= j <= s@.len(),
                d0 < s@.len(),
                forall|k: int| d0 <= k < j ==> is_digit(s@[k]),
                val == digits_val(s@, d0 as int, j as int),
                val <= 21474836489u64,
            decreases s@.len() - j,
        {
            if val > 2147483648 {
                proof {
                    let e = digits_end(s@, d0 as int);
                    lemma_digits_end_ge(s@, d0 as int, j as int);
                    lemma_digits_run(s@, d0 as int);
                    lemma_digits_val_grows(s@, d0 as int, j as int, e);
                    assert(digits_val(s@, d0 as int, e) > 2147483648);
                    assert(spec_int(s@, i as int) is None);
                }
                return None;
            }
            val = val * 10 + ((s[j] - 48) as u64);
            j = j + 1;
        }
        proof {
            lemma_digits_end_is(s@, d0 as int, j as int);
        }
        if neg {
            if val > 2147483648 {
                return None;
            }
            if val == 2147483648 {
                Some((i32::MIN, j))
            } else {
                Some((-(val as i32), j))
            }
        } else {
            if val > 2147483647 {
                return None;
            }
            Some((val as i32, j))
        }
    } else {
        None
    }
}

fn frac_end_exec(s: &Vec<u8>, j: usize) -> (r: Option<usize>)
    requires
        j <= s@.len(),
    ensures
        r is None <==> spec_frac_end(s@, j as int) is None,
        r matches Some(e) ==> spec_frac_end(s@, j as int) == Some(e as int) && j <= e
            <= s@.len(),
{
    if j < s.len() && s[j] == 46 {
        if j + 1 < s.len() && 48 <= s[j + 1] && s[j + 1] <= 57 {
            proof {
                lemma_digits_end_lb(s@, j + 1);
            }
            Some(digits_end_exec(s, j + 1))
        } else {
            None
        }
    } else {
        Some(j)
    }
}

fn exp_end_exec(s: &Vec<u8>, j: usize) -> (r: Option<usize>)
    requires
        j <= s@.len(),
    ensures
        r is None <==> spec_exp_end(s@, j as int) is None,
        r matches Some(e) ==> spec_exp_end(s@, j as int) == Some(e as int) && j <= e
            <= s@.len(),
{
    if j < s.len() && (s[j] == 101 || s[j] == 69) {
        let k = if j + 1 < s.len() && (s[j + 1] == 43 || s[j + 1] == 45) {
            j + 2
        } else {
            j + 1
        };
        if k < s.len() && 48 <= s[k] && s[k] <= 57 {
            proof {
                lemma_digits_end_lb(s@, k as int);
            }
            Some(digits_end_exec(s, k))
        } else {
            None
        }
    } else {
        Some(j)
    }
}

fn number_end_exec(s: &Vec<u8>, i: usize) -> (r: Option<usize>)
    requires
        i <= s@.len(),
    ensures
        r is None <==> spec_number_end(s@, i as int) is None,
        r matches Some(e) ==> spec_number_end(s@, i as int) == Some(e as int) && i < e
            <= s@.len(),
{
    let d0 = if i < s.len() && s[i] == 45 {
        i + 1
    } else {
        i
    };
    if d0 < s.len() && 48 <= s[d0] && s[d0] <= 57 {
        let j = if s[d0] == 48 {
            d0 + 1
        } else {
            proof {
                lemma_digits_end_lb(s@, d0 + 1);
                assert(digits_end(s@, d0 as int) == digits_end(s@, d0 + 1));
            }
            digits_end_exec(s, d0)
        };
        match frac_end_exec(s, j) {
            Some(j2) => exp_end_exec(s, j2),
            None => None,
        }
    } else {
        None
    }
}

fn parse_value(s: &Vec<u8>, i: usize) -> (r: Option<(JsonScalar, usize)>)
    requires
        i <= s@.len(),
    ensures
        r is None ==> spec_value(s@, i as int) is None,
        r matches Some(p) ==> spec_value(s@, i as int) == Some((p.0@, p.1 as int)) && i < p.1
            <= s@.len(),
    decreases s@.len() - i, 2int,
{
    if i < s.len() {
        let b = s[i];
        if b == 34 {
            match parse_string_body(s, i + 1) {
                Some(p) => Some((JsonScalar::SVal(p.0), p.1)),
                None => None,
            }
        } else if b == 45 || (48 <= b && b <= 57) {
            match number_end_exec(s, i) {
                Some(e) => match parse_int(s, i) {
                    Some(p) => if p.1 == e {
                        Some((JsonScalar::IVal(p.0), e))
                    } else {
                        Some((JsonScalar::OVal, e))
                    },
                    None => Some((JsonScalar::OVal, e)),
                },
                None => None,
            }
        } else if b == 116 {
            if s.len() - i >= 4 && s[i + 1] == 114 && s[i + 2] == 117 && s[i + 3] == 101 {
                Some((JsonScalar::OVal, i + 4))
            } else {
                None
            }
        } else if b == 102 {
            if s.len() - i >= 5 && s[i + 1] == 97 && s[i + 2] == 108 && s[i + 3] == 115 && s[i
                + 4] == 101 {
                Some((JsonScalar::OVal, i + 5))
            } else {
                None
            }
        } else if b == 110 {
            if s.len() - i >= 4 && s[i + 1] == 117 && s[i + 2] == 108 && s[i + 3] == 108 {
                Some((JsonScalar::OVal, i + 4))
            } else {
                None
            }
        } else if b == 91 {
            match skip_array_exec(s, i) {
                Some(e) => Some((JsonScalar::OVal, e)),
                None => None,
            }
        } else if b == 123 {
            match skip_object_exec(s, i) {
                Some(e) => Some((JsonScalar::OVal, e)),
                None => None,
            }
        } else {
            None
        }
    } else {
        None
    }
}

fn skip_array_exec(s: &Vec<u8>, i: usize) -> (r: Option<usize>)
    requires
        i <= s@.len(),
    ensures
        r is None <==> spec_skip_array(s@, i as int) is None,
        r matches Some(e) ==> spec_skip_array(s@, i as int) == Some(e as int) && i < e
            <= s@.len(),
    decreases s@.len() - i, 1int,
{
    if i < s.len() && s[i] == 91 {
        let j = skip_ws_exec(s, i + 1);
        if j < s.len() && s[j] == 93 {
            Some(j + 1)
        } else {
            skip_elements_exec(s, j)
        }
    } else {
        None
    }
}

fn skip_elements_exec(s: &Vec<u8>, j: usize) -> (r: Option<usize>)
    requires
        j <= s@.len(),
    ensures
        r is None <==> spec_skip_elements(s@, j as int) is None,
        r matches Some(e) ==> spec_skip_elements(s@, j as int) == Some(e as int) && j < e
            <= s@.len(),
    decreases s@.len() - j, 3int,
{
    match parse_value(s, j) {
        Some(v) => {
            let c = skip_ws_exec(s, v.1);
            if c < s.len() && s[c] == 44 {
                let n0 = skip_ws_exec(s, c + 1);
                skip_elements_exec(s, n0)
            } else if c < s.len() && s[c] == 93 {
                Some(c + 1)
            } else {
                None
            }
        },
        None => None,
    }
}

fn skip_object_exec(s: &Vec<u8>, i: usize) -> (r: Option<usize>)
    requires
        i <= s@.len(),
    ensures
        r is None <==> spec_skip_object(s@, i as int) is None,
        r matches Some(e) ==> spec_skip_object(s@, i as int) == Some(e as int) && i < e
            <= s@.len(),
    decreases s@.len() - i, 1int,
{
    if i < s.len() && s[i] == 123 {
        let j = skip_ws_exec(s, i + 1);
        if j < s.len() && s[j] == 125 {
            Some(j + 1)
        } else {
            skip_pairs_exec(s, j)
        }
    } else {
        None
    }
}

fn skip_pairs_exec(s: &Vec<u8>, j: usize) -> (r: Option<usize>)
    requires
        j <= s@.len(),
    ensures
        r is None <==> spec_skip_pairs(s@, j as int) is None,
        r matches Some(e) ==> spec_skip_pairs(s@, j as int) == Some(e as int) && j < e
            <= s@.len(),
    decreases s@.len() - j, 3int,
{
    if j < s.len() && s[j] == 34 {
        match parse_string_body(s, j + 1) {
            Some(k) => {
                let c = skip_ws_exec(s, k.1);
                if c < s.len() && s[c] == 58 {
                    let v0 = skip_ws_exec(s, c + 1);
                    match parse_value(s, v0) {
                        Some(v) => {
                            let c2 = skip_ws_exec(s, v.1);
                            if c2 < s.len() && s[c2] == 44 {
                                let n0 = skip_ws_exec(s, c2 + 1);
                                skip_pairs_exec(s, n0)
                            } else if c2 < s.len() && s[c2] == 125 {
                                Some(c2 + 1)
                            } else {
                                None
                            }
                        },
                        None => None,
                    }
                } else {
                    None
                }
            },
            None => None,
        }
    } else {
        None
    }
}

fn parse_member(s: &Vec<u8>, i: usize) -> (r: Option<(Field, usize)>)
    requires
        i <= s@.len(),
    ensures
        r is None ==> spec_member(s@, i as int) is None,
        r matches Some(p) ==> spec_member(s@, i as int) == Some((p.0@, p.1 as int)) && i < p.1
            <= s@.len(),
{
    if i < s.len() && s[i] == 34 {
        match parse_string_body(s, i + 1) {
            Some(k) => {
                let c = skip_ws_exec(s, k.1);
                if c < s.len() && s[c] == 58 {
                    let v0 = skip_ws_exec(s, c + 1);
                    match parse_value(s, v0) {
                        Some(v) => Some((Field { key: k.0, val: v.0 }, v.1)),
                        None => None,
                    }
                } else {
                    None
                }
            },
            None => None,
        }
    } else {
        None
    }
}

fn parse_members(s: &Vec<u8>, i: usize) -> (r: Option<(Vec<Field>, usize)>)
    requires
        i <= s@.len(),
    ensures
        r is None ==> spec_members(s@, i as int) is None,
        r matches Some(p) ==> spec_members(s@, i as int) == Some((fields_v(p.0@), p.1 as int))
            && i < p.1 <= s@.len(),
    decreases s@.len() - i,
{
    match parse_member(s, i) {
        Some(m) => {
            let c = skip_ws_exec(s, m.1);
            if c < s.len() && s[c] == 44 {
                let n0 = skip_ws_exec(s, c + 1);
                match parse_members(s, n0) {
                    Some(rest) => {
                        let ghost gm = m.0@;
                        let ghost grest = fields_v(rest.0@);
                        let mut v = rest.0;
                        v.insert(0, m.0);
                        proof {
                            assert(fields_v(v@) =~= seq![gm] + grest);
                        }
                        Some((v, rest.1))
                    },
                    None => None,
                }
            } else {
                let ghost gm = m.0@;
                let mut v: Vec<Field> = Vec::new();
                v.push(m.0);
                proof {
                    assert(fields_v(v@) =~= seq![gm]);
                }
                Some((v, m.1))
            }
        },
        None => None,
    }
}

/// A whole body parsed into its object members, when it is well-formed.
pub fn parse_fields(s: &Vec<u8>) -> (r: Option<Vec<Field>>)
    ensures
        r is None ==> spec_fields(s@) is None,
        r matches Some(v) ==> spec_fields(s@) == Some(fields_v(v@)),
{
    let i = skip_ws_exec(s, 0);
    if i < s.len() && s[i] == 123 {
        let j = skip_ws_exec(s, i + 1);
        if j < s.len() && s[j] == 125 {
            if skip_ws_exec(s, j + 1) == s.len() {
                let v: Vec<Field> = Vec::new();
                proof {
                    assert(fields_v(v@) =~= Seq::<FieldV>::empty());
                }
                Some(v)
            } else {
                None
            }
        } else {
            match parse_members(s, j) {
                Some(m) => {
                    let e = skip_ws_exec(s, m.1);
                    if e < s.len() && s[e] == 125 {
                        if skip_ws_exec(s, e + 1) == s.len() {
                            Some(m.0)
                        } else {
                            None
                        }
                    } else {
                        None
                    }
                },
                None => None,
            }
        }
    } else {
        None
    }
}

fn key_is_name(k: &String) -> (r: bool)
    ensures
        r == (k@ == name_key()),
{
    let lit = String::from_str("name");
    proof {
        reveal_strlit("name");
        assert("name"@ =~= name_key());
    }
    *k == lit
}

fn key_is_quantity(k: &String) -> (r: bool)
    ensures
        r == (k@ == quantity_key()),
{
    let lit = String::from_str("quantity");
    proof {
        reveal_strlit("quantity");
        assert("quantity"@ =~= quantity_key());
    }
    *k == lit
}

fn extract_item(
    fs: &Vec<Field>,
    i: usize,
    name_acc: Option<String>,
    qty_acc: Option<i32>,
) -> (r: Option<GroceryItem>)
    requires
        i <= fs@.len(),
    ensures
        ({
            let sp = fold_item(
                fields_v(fs@),
                i as int,
                match name_acc {
                    Some(n) => Some(n@),
                    None => None,
                },
                match qty_acc {
                    Some(q) => Some(q as int),
                    None => None,
                },
            );
            match r {
                Some(it) => sp == Some((it@.name, it@.qty)),
                None => sp is None,
            }
        }),
    decreases fs@.len() - i,
{
    if i < fs.len() {
        let is_n = key_is_name(&fs[i].key);
        let is_q = key_is_quantity(&fs[i].key);
        if is_n {
            match (&fs[i].val, &name_acc) {
                (JsonScalar::SVal(n), Option::None) => extract_item(
                    fs,
                    i + 1,
                    Some(n.clone()),
                    qty_acc,
                ),
                _ => None,
            }
        } else if is_q {
            match (&fs[i].val, &qty_acc) {
                (JsonScalar::IVal(q), Option::None) => extract_item(
                    fs,
                    i + 1,
                    name_acc,
                    Some(*q),
                ),
                _ => None,
            }
        } else {
            extract_item(fs, i + 1, name_acc, qty_acc)
        }
    } else {
        match (name_acc, qty_acc) {
            (Some(n), Some(q)) => Some(GroceryItem { name: n, quantity: q }),
            _ => None,
        }
    }
}

fn extract_id(fs: &Vec<Field>, i: usize, name_acc: Option<String>) -> (r: Option<GroceryId>)
    requires
        i <= fs@.len(),
    ensures
        ({
            let sp = fold_id(
                fields_v(fs@),
                i as int,
                match name_acc {
                    Some(n) => Some(n@),
                    None => None,
                },
            );
            match r {
                Some(id) => sp == Some(id@),
                None => sp is None,
            }
        }),
    decreases fs@.len() - i,
{
    if i < fs.len() {
        let is_n = key_is_name(&fs[i].key);
        if is_n {
            match (&fs[i].val, &name_acc) {
                (JsonScalar::SVal(n), Option::None) => extract_id(fs, i + 1, Some(n.clone())),
                _ => None,
            }
        } else {
            extract_id(fs, i + 1, name_acc)
        }
    } else {
        match name_acc {
            Some(n) => Some(GroceryId { name: n }),
            None => None,
        }
    }
}

/// Decode an item body, exactly when the grammar gives it a meaning.
pub fn parse_grocery_item(body: &Vec<u8>) -> (r: Option<GroceryItem>)
    ensures
        r is None ==> spec_parse_item(body@) is None,
        r matches Some(it) ==> spec_parse_item(body@) == Some((it@.name, it@.qty)),
{
    match parse_fields(body) {
        Some(fs) => extract_item(&fs, 0, None, None),
        None => None,
    }
}

/// Decode an id body, exactly when the grammar gives it a meaning.
pub fn parse_grocery_id(body: &Vec<u8>) -> (r: Option<GroceryId>)
    ensures
        r is None ==> spec_parse_id(body@) is None,
        r matches Some(id) ==> spec_parse_id(body@) == Some(id@),
{
    match parse_fields(body) {
        Some(fs) => extract_id(&fs, 0, None),
        None => None,
    }
}

} // verus!
