//! Rendering a listing as its JSON array, specified character by character.

use vstd::prelude::*;
use vstd::string::StringExecFns;
use vstd::string::StrSliceExecFns;
use crate::items::{GroceryItem, Rec, recs_of};
use crate::text::push_char;

verus! {

/// How one character of a name appears inside a JSON string literal.
pub open spec fn esc_of(c: char) -> Seq<char> {
    if c == '"' {
        "\\\""@
    } else if c == '\\' {
        "\\\\"@
    } else if c == '\u{8}' {
        "\\b"@
    } else if c == '\u{c}' {
        "\\f"@
    } else if c == '\n' {
        "\\n"@
    } else if c == '\r' {
        "\\r"@
    } else if c == '\t' {
        "\\t"@
    } else if (c as u32) < 32 {
        "\\u00"@ + seq![
            hex_digit_char((c as u32) as int / 16),
            hex_digit_char((c as u32) as int % 16),
        ]
    } else {
        seq![c]
    }
}

/// The lowercase hexadecimal digit of a value below sixteen.
pub open spec fn hex_digit_char(d: int) -> char {
    if d == 0 {
        '0'
    } else if d == 1 {
        '1'
    } else if d == 2 {
        '2'
    } else if d == 3 {
        '3'
    } else if d == 4 {
        '4'
    } else if d == 5 {
        '5'
    } else if d == 6 {
        '6'
    } else if d == 7 {
        '7'
    } else if d == 8 {
        '8'
    } else if d == 9 {
        '9'
    } else if d == 10 {
        'a'
    } else if d == 11 {
        'b'
    } else if d == 12 {
        'c'
    } else if d == 13 {
        'd'
    } else if d == 14 {
        'e'
    } else {
        'f'
    }
}

/// The escaped form of a name from position `i` on.
pub open spec fn escaped_from(s: Seq<char>, i: int) -> Seq<char>
    decreases s.len() - i,
{
    if 0 <= i && i < s.len() {
        esc_of(s[i]) + escaped_from(s, i + 1)
    } else {
        Seq::<char>::empty()
    }
}

/// The decimal digits of a non-negative number.
pub open spec fn dec_digits(n: int) -> Seq<char>
    decreases n,
{
    if n < 10 {
        seq![digit_char(n)]
    } else {
        dec_digits(n / 10) + seq![digit_char(n % 10)]
    }
}

/// The character of one decimal digit.
pub open spec fn digit_char(d: int) -> char {
    if d == 0 {
        '0'
    } else if d == 1 {
        '1'
    } else if d == 2 {
        '2'
    } else if d == 3 {
        '3'
    } else if d == 4 {
        '4'
    } else if d == 5 {
        '5'
    } else if d == 6 {
        '6'
    } else if d == 7 {
        '7'
    } else if d == 8 {
        '8'
    } else {
        '9'
    }
}

/// The decimal form of a signed quantity.
pub open spec fn dec_int(n: int) -> Seq<char> {
    if n < 0 {
        seq!['-'] + dec_digits(-n)
    } else {
        dec_digits(n)
    }
}

/// One record as a JSON object.
pub open spec fn render_rec(r: Rec) -> Seq<char> {
    "{\"name\":\""@ + escaped_from(r.name, 0) + "\",\"quantity\":"@ + dec_int(r.qty) + "}"@
}

/// The comma-joined objects from index `i` on.
pub open spec fn rendered_from(s: Seq<Rec>, i: int) -> Seq<char>
    decreases s.len() - i,
{
    if 0 <= i && i < s.len() {
        if i + 1 < s.len() {
            render_rec(s[i]) + ","@ + rendered_from(s, i + 1)
        } else {
            render_rec(s[i])
        }
    } else {
        Seq::<char>::empty()
    }
}

/// A whole listing as a JSON array, in stored order.
pub open spec fn spec_render(s: Seq<Rec>) -> Seq<char> {
    "["@ + rendered_from(s, 0) + "]"@
}

fn render_escaped(name: &String, i: usize, out: &mut String)
    requires
        i <= name@.len(),
    ensures
        final(out)@ == old(out)@ + escaped_from(name@, i as int),
    decreases name@.len() - i,
{
    if i < name.as_str().unicode_len() {
        let c = name.as_str().get_char(i);
        if c == '"' {
            out.append("\\\"");
        } else if c == '\\' {
            out.append("\\\\");
        } else if c == '\u{8}' {
            out.append("\\b");
        } else if c == '\u{c}' {
            out.append("\\f");
        } else if c == '\n' {
            out.append("\\n");
        } else if c == '\r' {
            out.append("\\r");
        } else if c == '\t' {
            out.append("\\t");
        } else if (c as u32) < 32 {
            let d = c as u32;
            out.append("\\u00");
            push_char(out, hex_digit_char_exec(d / 16));
            push_char(out, hex_digit_char_exec(d % 16));
        } else {
            push_char(out, c);
        }
        render_escaped(name, i + 1, out);
    }
}

fn render_digits(n: u32, out: &mut String)
    ensures
        final(out)@ == old(out)@ + dec_digits(n as int),
    decreases n,
{
    if n < 10 {
        push_char(out, digit_char_exec(n));
    } else {
        render_digits(n / 10, out);
        push_char(out, digit_char_exec(n % 10));
    }
}

fn hex_digit_char_exec(d: u32) -> (c: char)
    requires
        d < 16,
    ensures
        c == hex_digit_char(d as int),
{
    if d == 0 {
        '0'
    } else if d == 1 {
        '1'
    } else if d == 2 {
        '2'
    } else if d == 3 {
        '3'
    } else if d == 4 {
        '4'
    } else if d == 5 {
        '5'
    } else if d == 6 {
        '6'
    } else if d == 7 {
        '7'
    } else if d == 8 {
        '8'
    } else if d == 9 {
        '9'
    } else if d == 10 {
        'a'
    } else if d == 11 {
        'b'
    } else if d == 12 {
        'c'
    } else if d == 13 {
        'd'
    } else if d == 14 {
        'e'
    } else {
        'f'
    }
}

fn digit_char_exec(d: u32) -> (c: char)
    requires
        d < 10,
    ensures
        c == digit_char(d as int),
{
    if d == 0 {
        '0'
    } else if d == 1 {
        '1'
    } else if d == 2 {
        '2'
    } else if d == 3 {
        '3'
    } else if d == 4 {
        '4'
    } else if d == 5 {
        '5'
    } else if d == 6 {
        '6'
    } else if d == 7 {
        '7'
    } else if d == 8 {
        '8'
    } else {
        '9'
    }
}

fn render_quantity(n: i32, out: &mut String)
    ensures
        final(out)@ == old(out)@ + dec_int(n as int),
{
    if n < 0 {
        push_char(out, '-');
        let m: u32 = (-(n as i64)) as u32;
        render_digits(m, out);
    } else {
        render_digits(n as u32, out);
    }
}

fn render_one(it: &GroceryItem, out: &mut String)
    ensures
        final(out)@ == old(out)@ + render_rec(it@),
{
    out.append("{\"name\":\"");
    render_escaped(&it.name, 0, out);
    out.append("\",\"quantity\":");
    render_quantity(it.quantity, out);
    out.append("}");
}

fn render_from(items: &Vec<GroceryItem>, i: usize, out: &mut String)
    requires
        i <= items@.len(),
    ensures
        final(out)@ == old(out)@ + rendered_from(recs_of(items@), i as int),
    decreases items@.len() - i,
{
    if i < items.len() {
        render_one(&items[i], out);
        if i + 1 < items.len() {
            out.append(",");
        }
        render_from(items, i + 1, out);
        proof {
            assert(recs_of(items@)[i as int] == items@[i as int]@);
        }
    }
}

/// A listing rendered as the JSON array the wire carries.
pub fn render_items(items: &Vec<GroceryItem>) -> (out: String)
    ensures
        out@ == spec_render(recs_of(items@)),
{
    let mut out = String::new();
    out.append("[");
    render_from(items, 0, &mut out);
    out.append("]");
    out
}

} // verus!
