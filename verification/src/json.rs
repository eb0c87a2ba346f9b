//! The JSON texts this client exchanges: the config file it writes and
//! reads back, and the notification documents the service returns.
//!
//! The grammar covers what those documents are made of: blank space
//! between tokens, strings with the named and unicode escapes, numbers,
//! the three literal words, objects and arrays. A document outside that
//! form is simply not accepted, which the callers surface as a decode
//! error.

use vstd::prelude::*;
use crate::text::push_char;

verus! {

/// A control character, which JSON never carries raw inside a string.
pub open spec fn is_ctrl(c: char) -> bool {
    (c as u32) < 32
}

/// A decimal digit.
pub open spec fn is_digit(c: char) -> bool {
    48 <= (c as u32) <= 57
}

/// The numeric value of a digit character.
pub open spec fn digit_val(c: char) -> int {
    (c as u32) - 48
}

/// A hexadecimal digit, either case.
pub open spec fn is_hex(c: char) -> bool {
    is_digit(c) || (97 <= (c as u32) <= 102) || (65 <= (c as u32) <= 70)
}

/// The numeric value of a hexadecimal digit.
pub open spec fn hex_val(c: char) -> int {
    if is_digit(c) {
        digit_val(c)
    } else if 97 <= (c as u32) {
        (c as u32) - 87
    } else {
        (c as u32) - 55
    }
}

/// The lower-case character for one hexadecimal digit.
pub open spec fn spec_hex_char(d: int) -> char {
    if d == 0 {
        '0'
    } else if d == 1 {
        '1'
    } else if d == 2 {
        '2'
    } else if d == 3 {
        '3'
    } else if d == 4 {
        '4'
    } else if d == 5 {
        '5'
    } else if d == 6 {
        '6'
    } else if d == 7 {
        '7'
    } else if d == 8 {
        '8'
    } else if d == 9 {
        '9'
    } else if d == 10 {
        'a'
    } else if d == 11 {
        'b'
    } else if d == 12 {
        'c'
    } else if d == 13 {
        'd'
    } else if d == 14 {
        'e'
    } else {
        'f'
    }
}

/// Reads four hexadecimal digits as one number.
pub open spec fn sp_hex4(s: Seq<char>) -> Option<int> {
    if s.len() >= 4 && is_hex(s[0]) && is_hex(s[1]) && is_hex(s[2]) && is_hex(s[3]) {
        Some(((hex_val(s[0]) * 16 + hex_val(s[1])) * 16 + hex_val(s[2])) * 16 + hex_val(s[3]))
    } else {
        None
    }
}

/// How one character is written inside a JSON string literal: quotes and
/// backslashes escaped, control characters as their named escape or as a
/// unicode escape, every other character as it is.
pub open spec fn spec_escape_char(c: char) -> Seq<char> {
    if c == '"' {
        seq!['\\', '"']
    } else if c == '\\' {
        seq!['\\', '\\']
    } else if c == '\u{0008}' {
        seq!['\\', 'b']
    } else if c == '\t' {
        seq!['\\', 't']
    } else if c == '\n' {
        seq!['\\', 'n']
    } else if c == '\u{000C}' {
        seq!['\\', 'f']
    } else if c == '\r' {
        seq!['\\', 'r']
    } else if is_ctrl(c) {
        seq!['\\', 'u', '0', '0', spec_hex_char((c as u32) as int / 16), spec_hex_char((c as u32) as int % 16)]
    } else {
        seq![c]
    }
}

/// The body of the JSON string literal for `s`: each character written
/// as [`spec_escape_char`] has it.
pub open spec fn spec_escape(s: Seq<char>) -> Seq<char>
    decreases s.len(),
{
    if s.len() == 0 {
        Seq::empty()
    } else {
        spec_escape_char(s[0]) + spec_escape(s.skip(1))
    }
}

/// The full JSON string literal for `s`.
pub open spec fn sp_quote(s: Seq<char>) -> Seq<char> {
    seq!['"'] + spec_escape(s) + seq!['"']
}

/// The character an escape code stands for.
pub open spec fn spec_unescape_char(c: char) -> Option<char> {
    if c == '"' {
        Some('"')
    } else if c == '\\' {
        Some('\\')
    } else if c == '/' {
        Some('/')
    } else if c == 'n' {
        Some('\n')
    } else if c == 't' {
        Some('\t')
    } else if c == 'r' {
        Some('\r')
    } else if c == 'b' {
        Some('\u{0008}')
    } else if c == 'f' {
        Some('\u{000C}')
    } else {
        None
    }
}

/// Reads a string body up to and including the closing quote: the decoded
/// text and how many characters were consumed.
pub open spec fn sp_str_body(s: Seq<char>) -> Option<(Seq<char>, int)>
    decreases s.len(),
{
    if s.len() == 0 {
        None
    } else if s[0] == '"' {
        Some((Seq::empty(), 1))
    } else if s[0] == '\\' {
        if s.len() < 2 {
            None
        } else if s[1] == 'u' {
            match sp_hex4(s.skip(2)) {
                None => None,
                Some(v) => {
                    if v < 0xd800 || 0xe000 <= v {
                        match sp_str_body(s.skip(6)) {
                            Some((t, n)) => Some((seq![((v as u32) as char)] + t, n + 6)),
                            None => None,
                        }
                    } else if v < 0xdc00 {
                        if s.len() < 12 || s[6] != '\\' || s[7] != 'u' {
                            None
                        } else {
                            match sp_hex4(s.skip(8)) {
                                None => None,
                                Some(lo) => {
                                    if 0xdc00 <= lo < 0xe000 {
                                        match sp_str_body(s.skip(12)) {
                                            Some((t, n)) => Some(
                                                (
                                                    seq![
                                                        (((0x10000 + (v - 0xd800) * 0x400 + (lo
                                                            - 0xdc00)) as u32) as char)
                                                    ] + t,
                                                    n + 12,
                                                ),
                                            ),
                                            None => None,
                                        }
                                    } else {
                                        None
                                    }
                                },
                            }
                        }
                    } else {
                        None
                    }
                },
            }
        } else {
            match spec_unescape_char(s[1]) {
                Some(c) => match sp_str_body(s.skip(2)) {
                    Some((t, n)) => Some((seq![c] + t, n + 2)),
                    None => None,
                },
                None => None,
            }
        }
    } else if is_ctrl(s[0]) {
        None
    } else {
        match sp_str_body(s.skip(1)) {
            Some((t, n)) => Some((seq![s[0]] + t, n + 1)),
            None => None,
        }
    }
}

/// Reads a JSON string literal: opening quote, body, closing quote.
pub open spec fn sp_string(s: Seq<char>) -> Option<(Seq<char>, int)> {
    if s.len() > 0 && s[0] == '"' {
        match sp_str_body(s.skip(1)) {
            Some((t, n)) => Some((t, n + 1)),
            None => None,
        }
    } else {
        None
    }
}

/// How many digits stand at the front of `s`.
pub open spec fn spec_digits_len(s: Seq<char>) -> int
    decreases s.len(),
{
    if s.len() > 0 && is_digit(s[0]) {
        1 + spec_digits_len(s.skip(1))
    } else {
        0
    }
}

/// The value of the first `k` characters of `s` read as decimal digits.
pub open spec fn spec_digits_val(s: Seq<char>, k: int) -> int
    decreases k,
{
    if k <= 0 {
        0
    } else {
        spec_digits_val(s, k - 1) * 10 + digit_val(s[k - 1])
    }
}

/// Reads a JSON unsigned integer: its value and how many characters were
/// consumed. A leading zero stands alone, as JSON demands.
pub open spec fn sp_number(s: Seq<char>) -> Option<(int, int)> {
    if s.len() > 0 && is_digit(s[0]) {
        if s[0] == '0' {
            Some((0, 1))
        } else {
            Some((spec_digits_val(s, spec_digits_len(s)), spec_digits_len(s)))
        }
    } else {
        None
    }
}

/// Whether `s` starts with the literal `null`.
pub open spec fn sp_null(s: Seq<char>) -> bool {
    s.len() >= 4 && s[0] == 'n' && s[1] == 'u' && s[2] == 'l' && s[3] == 'l'
}

/// Blank space between tokens.
pub open spec fn is_ws(c: char) -> bool {
    c == ' ' || c == '\t' || c == '\n' || c == '\r'
}

/// How much blank space stands at the front of `s`.
pub open spec fn spec_ws_len(s: Seq<char>) -> int
    decreases s.len(),
{
    if s.len() > 0 && is_ws(s[0]) {
        1 + spec_ws_len(s.skip(1))
    } else {
        0
    }
}

/// Whether `s` starts with the literal `true`.
pub open spec fn sp_true(s: Seq<char>) -> bool {
    s.len() >= 4 && s[0] == 't' && s[1] == 'r' && s[2] == 'u' && s[3] == 'e'
}

/// Whether `s` starts with the literal `false`.
pub open spec fn sp_false(s: Seq<char>) -> bool {
    s.len() >= 5 && s[0] == 'f' && s[1] == 'a' && s[2] == 'l' && s[3] == 's' && s[4] == 'e'
}

/// The integer part of a JSON number: a lone zero, or digits without a
/// leading zero.
pub open spec fn sp_int_len(s: Seq<char>) -> Option<int> {
    if s.len() > 0 && is_digit(s[0]) {
        if s[0] == '0' {
            Some(1)
        } else {
            Some(spec_digits_len(s))
        }
    } else {
        None
    }
}

/// The fraction part of a JSON number, if one stands here.
pub open spec fn sp_frac_len(s: Seq<char>) -> Option<int> {
    if s.len() > 0 && s[0] == '.' {
        let d = spec_digits_len(s.skip(1));
        if d >= 1 {
            Some(1 + d)
        } else {
            None
        }
    } else {
        Some(0)
    }
}

/// The exponent part of a JSON number, if one stands here.
pub open spec fn sp_exp_len(s: Seq<char>) -> Option<int> {
    if s.len() > 0 && (s[0] == 'e' || s[0] == 'E') {
        let t = s.skip(1);
        let sg: int = if t.len() > 0 && (t[0] == '+' || t[0] == '-') {
            1
        } else {
            0
        };
        let d = spec_digits_len(t.skip(sg));
        if d >= 1 {
            Some(1 + sg + d)
        } else {
            None
        }
    } else {
        Some(0)
    }
}

/// Reads any JSON number, kept only for its extent: sign, integer part,
/// fraction, exponent.
pub open spec fn sp_skip_number(s: Seq<char>) -> Option<int> {
    let neg: int = if s.len() > 0 && s[0] == '-' {
        1
    } else {
        0
    };
    let t = s.skip(neg);
    match sp_int_len(t) {
        None => None,
        Some(a) => match sp_frac_len(t.skip(a)) {
            None => None,
            Some(b) => match sp_exp_len(t.skip(a).skip(b)) {
                None => None,
                Some(e) => Some(neg + a + b + e),
            },
        },
    }
}

/// Reads any JSON value, kept only for its extent. This is what lets a
/// reader pass over a member it does not know.
pub open spec fn sp_skip_value(s: Seq<char>) -> Option<int>
    decreases s.len(), 0int,
{
    if s.len() == 0 {
        None
    } else if s[0] == '"' {
        match sp_string(s) {
            Some((t, n)) => Some(n),
            None => None,
        }
    } else if s[0] == '{' {
        let s1 = s.skip(1);
        let w = spec_ws_len(s1);
        let s1b = s1.skip(w);
        if s1b.len() > 0 && s1b[0] == '}' {
            Some(1 + w + 1)
        } else {
            match sp_skip_members(s1) {
                Some(n) => Some(1 + n),
                None => None,
            }
        }
    } else if s[0] == '[' {
        let s1 = s.skip(1);
        let w = spec_ws_len(s1);
        let s1b = s1.skip(w);
        if s1b.len() > 0 && s1b[0] == ']' {
            Some(1 + w + 1)
        } else {
            match sp_skip_items(s1) {
                Some(n) => Some(1 + n),
                None => None,
            }
        }
    } else if sp_null(s) {
        Some(4)
    } else if sp_true(s) {
        Some(4)
    } else if sp_false(s) {
        Some(5)
    } else {
        sp_skip_number(s)
    }
}

/// Reads the members of an object being passed over, up to and including
/// its closing brace.
pub open spec fn sp_skip_members(s: Seq<char>) -> Option<int>
    decreases s.len(), 1int,
    via sp_skip_members_dec
{
    let w0 = spec_ws_len(s);
    let s0 = s.skip(w0);
    match sp_string(s0) {
        None => None,
        Some((name, n1)) => {
            let s1 = s0.skip(n1);
            let w1 = spec_ws_len(s1);
            let s1b = s1.skip(w1);
            if s1b.len() == 0 || s1b[0] != ':' {
                None
            } else {
                let s2 = s1b.skip(1);
                let w2 = spec_ws_len(s2);
                let s2b = s2.skip(w2);
                match sp_skip_value(s2b) {
                    None => None,
                    Some(n2) => if !(1 <= n2 <= s2b.len()) {
                        None
                    } else {
                        let s3 = s2b.skip(n2);
                        let w3 = spec_ws_len(s3);
                        let s3b = s3.skip(w3);
                        if s3b.len() == 0 {
                            None
                        } else if s3b[0] == ',' {
                            match sp_skip_members(s3b.skip(1)) {
                                Some(n3) => Some(w0 + n1 + w1 + 1 + w2 + n2 + w3 + 1 + n3),
                                None => None,
                            }
                        } else if s3b[0] == '}' {
                            Some(w0 + n1 + w1 + 1 + w2 + n2 + w3 + 1)
                        } else {
                            None
                        }
                    },
                }
            }
        },
    }
}

#[via_fn]
proof fn sp_skip_members_dec(s: Seq<char>) {
    assert forall|t: Seq<char>| 0 <= #[trigger] spec_ws_len(t) <= t.len() by {
        lemma_ws_len_bounds(t);
    }
    lemma_string_bounds(s.skip(spec_ws_len(s)));
}

/// Reads the elements of an array being passed over, up to and including
/// its closing bracket.
pub open spec fn sp_skip_items(s: Seq<char>) -> Option<int>
    decreases s.len(), 1int,
    via sp_skip_items_dec
{
    let w0 = spec_ws_len(s);
    let s0 = s.skip(w0);
    match sp_skip_value(s0) {
        None => None,
        Some(n1) => if !(1 <= n1 <= s0.len()) {
            None
        } else {
            let s1 = s0.skip(n1);
            let w1 = spec_ws_len(s1);
            let s1b = s1.skip(w1);
            if s1b.len() == 0 {
                None
            } else if s1b[0] == ',' {
                match sp_skip_items(s1b.skip(1)) {
                    Some(n2) => Some(w0 + n1 + w1 + 1 + n2),
                    None => None,
                }
            } else if s1b[0] == ']' {
                Some(w0 + n1 + w1 + 1)
            } else {
                None
            }
        },
    }
}

#[via_fn]
proof fn sp_skip_items_dec(s: Seq<char>) {
    assert forall|t: Seq<char>| 0 <= #[trigger] spec_ws_len(t) <= t.len() by {
        lemma_ws_len_bounds(t);
    }
}

// ---------------------------------------------------------------------
// Facts about the readers.
// ---------------------------------------------------------------------

/// Dropping elements twice drops their sum.
pub proof fn lemma_skip_skip<A>(s: Seq<A>, a: int, b: int)
    requires
        0 <= a,
        0 <= b,
        a + b <= s.len(),
    ensures
        s.skip(a).skip(b) == s.skip(a + b),
{
    assert(s.skip(a).skip(b) =~= s.skip(a + b));
}

/// The blank prefix never runs past the end.
pub proof fn lemma_ws_len_bounds(s: Seq<char>)
    ensures
        0 <= spec_ws_len(s) <= s.len(),
    decreases s.len(),
{
    if s.len() > 0 && is_ws(s[0]) {
        lemma_ws_len_bounds(s.skip(1));
    }
}

/// A string body consumes at least its closing quote and never more than
/// the input.
pub proof fn lemma_str_body_bounds(s: Seq<char>)
    ensures
        sp_str_body(s) matches Some((t, n)) ==> 1 <= n <= s.len(),
    decreases s.len(),
{
    if s.len() == 0 {
    } else if s[0] == '"' {
    } else if s[0] == '\\' {
        if s.len() >= 2 && s[1] == 'u' {
            if s.len() >= 6 {
                lemma_str_body_bounds(s.skip(6));
            }
            if s.len() >= 12 {
                lemma_str_body_bounds(s.skip(12));
            }
        } else if s.len() >= 2 && spec_unescape_char(s[1]) is Some {
            lemma_str_body_bounds(s.skip(2));
        }
    } else if !is_ctrl(s[0]) {
        lemma_str_body_bounds(s.skip(1));
    }
}

/// A string literal consumes at least its two quotes and never more than
/// the input.
pub proof fn lemma_string_bounds(s: Seq<char>)
    ensures
        sp_string(s) matches Some((t, n)) ==> 2 <= n <= s.len(),
{
    if s.len() > 0 && s[0] == '"' {
        lemma_str_body_bounds(s.skip(1));
    }
}

/// The digit prefix never runs past the end.
pub proof fn lemma_digits_len_bounds(s: Seq<char>)
    ensures
        0 <= spec_digits_len(s) <= s.len(),
        forall|k: int| 0 <= k < spec_digits_len(s) ==> is_digit(#[trigger] s[k]),
        spec_digits_len(s) < s.len() ==> !is_digit(s[spec_digits_len(s)]),
    decreases s.len(),
{
    if s.len() > 0 && is_digit(s[0]) {
        lemma_digits_len_bounds(s.skip(1));
        assert forall|k: int| 0 <= k < spec_digits_len(s) implies is_digit(#[trigger] s[k]) by {
            if k > 0 {
                assert(is_digit(s.skip(1)[k - 1]));
            }
        }
    }
}

/// A number consumes at least one character and never more than the input.
pub proof fn lemma_number_bounds(s: Seq<char>)
    ensures
        sp_number(s) matches Some((v, n)) ==> 1 <= n <= s.len() && 0 <= v,
{
    if s.len() > 0 && is_digit(s[0]) && s[0] != '0' {
        lemma_digits_len_bounds(s);
        lemma_digits_val_nonneg(s, spec_digits_len(s));
    }
}

/// Digit values never go negative.
pub proof fn lemma_digits_val_nonneg(s: Seq<char>, k: int)
    requires
        forall|j: int| 0 <= j < k ==> is_digit(#[trigger] s[j]),
    ensures
        0 <= spec_digits_val(s, k),
    decreases k,
{
    if k > 0 {
        lemma_digits_val_nonneg(s, k - 1);
        assert(spec_digits_val(s, k - 1) * 10 >= 0) by (nonlinear_arith)
            requires
                spec_digits_val(s, k - 1) >= 0,
        ;
    }
}

/// Reading more digits never shrinks the value.
pub proof fn lemma_digits_val_mono(s: Seq<char>, j: int, k: int)
    requires
        0 <= j <= k,
        forall|m: int| 0 <= m < k ==> is_digit(#[trigger] s[m]),
    ensures
        spec_digits_val(s, j) <= spec_digits_val(s, k),
    decreases k,
{
    if j < k {
        lemma_digits_val_mono(s, j, k - 1);
        lemma_digits_val_nonneg(s, k - 1);
        assert(spec_digits_val(s, k - 1) * 10 >= spec_digits_val(s, k - 1)) by (nonlinear_arith)
            requires
                spec_digits_val(s, k - 1) >= 0,
        ;
    }
}

/// The number of digit characters at the front, counted from a scan that
/// stopped at the first non-digit.
pub proof fn lemma_digits_len_eq(s: Seq<char>, k: int)
    requires
        0 <= k <= s.len(),
        forall|j: int| 0 <= j < k ==> is_digit(#[trigger] s[j]),
        k == s.len() || !is_digit(s[k]),
    ensures
        spec_digits_len(s) == k,
    decreases s.len(),
{
    if k == 0 {
    } else {
        assert(is_digit(s[0]));
        assert forall|j: int| 0 <= j < k - 1 implies is_digit(#[trigger] s.skip(1)[j]) by {
            assert(s.skip(1)[j] == s[j + 1]);
        }
        if k - 1 < s.skip(1).len() {
            assert(s.skip(1)[k - 1] == s[k]);
        }
        lemma_digits_len_eq(s.skip(1), k - 1);
    }
}

/// A passed-over number consumes at least one character and never more
/// than the input.
pub proof fn lemma_skip_number_bounds(s: Seq<char>)
    ensures
        sp_skip_number(s) matches Some(n) ==> 1 <= n <= s.len(),
{
    let neg: int = if s.len() > 0 && s[0] == '-' {
        1
    } else {
        0
    };
    let t = s.skip(neg);
    lemma_digits_len_bounds(t);
    match sp_int_len(t) {
        None => {},
        Some(a) => {
            assert(1 <= a <= t.len());
            let ta = t.skip(a);
            if ta.len() > 0 && ta[0] == '.' {
                lemma_digits_len_bounds(ta.skip(1));
            }
            match sp_frac_len(ta) {
                None => {},
                Some(b) => {
                    assert(0 <= b <= ta.len());
                    let tb = ta.skip(b);
                    if tb.len() > 0 && (tb[0] == 'e' || tb[0] == 'E') {
                        let t1 = tb.skip(1);
                        assert(t1.skip(0) =~= t1);
                        lemma_digits_len_bounds(t1);
                        if t1.len() > 0 && (t1[0] == '+' || t1[0] == '-') {
                            lemma_digits_len_bounds(t1.skip(1));
                        }
                    }
                    match sp_exp_len(tb) {
                        None => {},
                        Some(e) => {
                            assert(0 <= e <= tb.len());
                        },
                    }
                },
            }
        },
    }
}

/// A passed-over value consumes at least one character and never more
/// than the input.
pub proof fn lemma_skip_value_bounds(s: Seq<char>)
    ensures
        sp_skip_value(s) matches Some(n) ==> 1 <= n <= s.len(),
    decreases s.len(), 0int,
{
    if s.len() == 0 {
    } else if s[0] == '"' {
        lemma_string_bounds(s);
    } else if s[0] == '{' {
        let s1 = s.skip(1);
        lemma_ws_len_bounds(s1);
        let s1b = s1.skip(spec_ws_len(s1));
        if s1b.len() > 0 && s1b[0] == '}' {
        } else {
            lemma_skip_members_bounds(s1);
        }
    } else if s[0] == '[' {
        let s1 = s.skip(1);
        lemma_ws_len_bounds(s1);
        let s1b = s1.skip(spec_ws_len(s1));
        if s1b.len() > 0 && s1b[0] == ']' {
        } else {
            lemma_skip_items_bounds(s1);
        }
    } else if sp_null(s) {
    } else if sp_true(s) {
    } else if sp_false(s) {
    } else {
        lemma_skip_number_bounds(s);
    }
}

/// An object's passed-over members consume at least the closing brace and
/// never more than the input.
pub proof fn lemma_skip_members_bounds(s: Seq<char>)
    ensures
        sp_skip_members(s) matches Some(n) ==> 1 <= n <= s.len(),
    decreases s.len(), 1int,
{
    lemma_ws_len_bounds(s);
    let s0 = s.skip(spec_ws_len(s));
    lemma_string_bounds(s0);
    match sp_string(s0) {
        None => {},
        Some((name, n1)) => {
            let s1 = s0.skip(n1);
            lemma_ws_len_bounds(s1);
            let s1b = s1.skip(spec_ws_len(s1));
            if s1b.len() > 0 && s1b[0] == ':' {
                let s2 = s1b.skip(1);
                lemma_ws_len_bounds(s2);
                let s2b = s2.skip(spec_ws_len(s2));
                assert(s2b.len() <= s.len());
                lemma_skip_value_bounds(s2b);
                match sp_skip_value(s2b) {
                    None => {},
                    Some(n2) => {
                        if 1 <= n2 <= s2b.len() {
                            let s3 = s2b.skip(n2);
                            lemma_ws_len_bounds(s3);
                            let s3b = s3.skip(spec_ws_len(s3));
                            assert(s0.len() == s.len() - spec_ws_len(s));
                            assert(s1.len() == s0.len() - n1);
                            assert(s1b.len() == s1.len() - spec_ws_len(s1));
                            assert(s2.len() == s1b.len() - 1);
                            assert(s2b.len() == s2.len() - spec_ws_len(s2));
                            assert(s3.len() == s2b.len() - n2);
                            assert(s3b.len() == s3.len() - spec_ws_len(s3));
                            if s3b.len() > 0 && s3b[0] == ',' {
                                lemma_skip_members_bounds(s3b.skip(1));
                            }
                        }
                    },
                }
            }
        },
    }
}

/// An array's passed-over elements consume at least the closing bracket
/// and never more than the input.
pub proof fn lemma_skip_items_bounds(s: Seq<char>)
    ensures
        sp_skip_items(s) matches Some(n) ==> 1 <= n <= s.len(),
    decreases s.len(), 1int,
{
    lemma_ws_len_bounds(s);
    let s0 = s.skip(spec_ws_len(s));
    assert(s0.len() <= s.len());
    lemma_skip_value_bounds(s0);
    match sp_skip_value(s0) {
        None => {},
        Some(n1) => {
            if 1 <= n1 <= s0.len() {
                let s1 = s0.skip(n1);
                lemma_ws_len_bounds(s1);
                let s1b = s1.skip(spec_ws_len(s1));
                assert(s0.len() == s.len() - spec_ws_len(s));
                assert(s1.len() == s0.len() - n1);
                assert(s1b.len() == s1.len() - spec_ws_len(s1));
                if s1b.len() > 0 && s1b[0] == ',' {
                    lemma_skip_items_bounds(s1b.skip(1));
                }
            }
        },
    }
}

// ---------------------------------------------------------------------
// Escaping round trip.
// ---------------------------------------------------------------------

/// Escaping distributes over concatenation.
pub proof fn lemma_escape_app(a: Seq<char>, b: Seq<char>)
    ensures
        spec_escape(a + b) == spec_escape(a) + spec_escape(b),
    decreases a.len(),
{
    if a.len() == 0 {
        assert(a + b =~= b);
        assert(spec_escape(a) + spec_escape(b) =~= spec_escape(b));
    } else {
        assert((a + b).skip(1) =~= a.skip(1) + b);
        assert((a + b)[0] == a[0]);
        assert((a + b).len() > 0);
        lemma_escape_app(a.skip(1), b);
        assert(spec_escape(a + b) =~= spec_escape(a) + spec_escape(b));
    }
}

/// Every hexadecimal digit character reads back as its value.
proof fn lemma_hex_char_val(d: int)
    requires
        0 <= d < 16,
    ensures
        is_hex(spec_hex_char(d)),
        hex_val(spec_hex_char(d)) == d,
        spec_hex_char(d) != 'u',
{
}

/// A character is determined by its code.
proof fn lemma_char_code_round(c: char, v: u32)
    requires
        (c as u32) == v,
        v < 0xd800 || 0xe000 <= v,
    ensures
        c == v as char,
{
}

/// Reading a string body back out of its escaped form yields the original
/// text and stops at the closing quote.
pub proof fn lemma_str_body_of_escape(x: Seq<char>, rest: Seq<char>)
    ensures
        sp_str_body(spec_escape(x) + seq!['"'] + rest) == Some((x, spec_escape(x).len() as int + 1)),
    decreases x.len(),
{
    let s = spec_escape(x) + seq!['"'] + rest;
    if x.len() == 0 {
        assert(s =~= seq!['"'] + rest);
        assert(s[0] == '"');
        assert(x =~= Seq::<char>::empty());
    } else {
        let c = x[0];
        let x1 = x.skip(1);
        lemma_str_body_of_escape(x1, rest);
        let e = spec_escape_char(c);
        let tail = spec_escape(x1) + seq!['"'] + rest;
        assert(spec_escape(x) =~= e + spec_escape(x1));
        assert(s =~= e + tail);
        assert(seq![c] + x1 =~= x);
        if c == '"' || c == '\\' || c == '\u{0008}' || c == '\t' || c == '\n' || c == '\u{000C}'
            || c == '\r' {
            assert(s[0] == '\\');
            assert(s[1] == e[1]);
            assert(e[1] != 'u');
            assert(spec_unescape_char(e[1]) == Some(c));
            assert(s.skip(2) =~= tail);
        } else if is_ctrl(c) {
            let u = (c as u32) as int;
            lemma_hex_char_val(u / 16);
            lemma_hex_char_val(u % 16);
            assert(s[0] == '\\');
            assert(s[1] == 'u');
            assert(s.len() >= 6);
            assert(s.skip(2)[0] == '0');
            assert(s.skip(2)[1] == '0');
            assert(s.skip(2)[2] == spec_hex_char(u / 16));
            assert(s.skip(2)[3] == spec_hex_char(u % 16));
            assert(is_hex('0') && hex_val('0') == 0);
            assert(sp_hex4(s.skip(2)) == Some((u / 16) * 16 + u % 16));
            assert((u / 16) * 16 + u % 16 == u);
            assert(u < 0xd800);
            lemma_char_code_round(c, c as u32);
            assert(((u as u32) as char) == c);
            assert(s.skip(6) =~= tail);
        } else {
            assert(!is_ctrl(c));
            assert(s[0] == c);
            assert(c != '"' && c != '\\');
            assert(s.skip(1) =~= tail);
        }
    }
}

/// Text whose characters need no escaping at all.
pub open spec fn plain(s: Seq<char>) -> bool {
    forall|i: int|
        0 <= i < s.len() ==> (!is_ctrl(#[trigger] s[i]) && s[i] != '"' && s[i] != '\\')
}

/// Plain text is its own escape.
pub proof fn lemma_plain(s: Seq<char>)
    requires
        plain(s),
    ensures
        spec_escape(s) == s,
    decreases s.len(),
{
    if s.len() > 0 {
        assert forall|i: int|
            0 <= i < s.skip(1).len() implies (!is_ctrl(#[trigger] s.skip(1)[i]) && s.skip(1)[i]
            != '"' && s.skip(1)[i] != '\\') by {
            assert(s.skip(1)[i] == s[i + 1]);
        }
        lemma_plain(s.skip(1));
        assert(!is_ctrl(s[0]) && s[0] != '"' && s[0] != '\\');
        assert(spec_escape_char(s[0]) =~= seq![s[0]]);
        assert(spec_escape(s) =~= s);
    }
}

/// Reading a quoted literal back yields the text it was written from.
pub proof fn lemma_string_of_quoted(x: Seq<char>, rest: Seq<char>)
    ensures
        sp_string(sp_quote(x) + rest) == Some((x, spec_escape(x).len() as int + 2)),
{
    let s = sp_quote(x) + rest;
    assert(s[0] == '"');
    assert(s.skip(1) =~= spec_escape(x) + seq!['"'] + rest);
    lemma_str_body_of_escape(x, rest);
}

// ---------------------------------------------------------------------
// The executable readers and writers.
// ---------------------------------------------------------------------

/// Whether a string holds exactly the given text.
pub fn str_eq(a: &String, b: &str) -> (r: bool)
    ensures
        r == (a@ == b@),
{
    let bo = b.to_owned();
    *a == bo
}

fn unescape_char(c: char) -> (r: Option<char>)
    ensures
        r == spec_unescape_char(c),
{
    if c == '"' {
        Some('"')
    } else if c == '\\' {
        Some('\\')
    } else if c == '/' {
        Some('/')
    } else if c == 'n' {
        Some('\n')
    } else if c == 't' {
        Some('\t')
    } else if c == 'r' {
        Some('\r')
    } else if c == 'b' {
        Some('\u{0008}')
    } else if c == 'f' {
        Some('\u{000C}')
    } else {
        None
    }
}

fn hex_digit(c: char) -> (r: Option<u32>)
    ensures
        is_hex(c) ==> (r matches Some(u) && u as int == hex_val(c)),
        !is_hex(c) ==> r is None,
{
    let u = c as u32;
    if 48 <= u && u <= 57 {
        Some(u - 48)
    } else if 97 <= u && u <= 102 {
        Some(u - 87)
    } else if 65 <= u && u <= 70 {
        Some(u - 55)
    } else {
        None
    }
}

/// Reads the four hexadecimal digits that start at `v[i]`.
fn hex4(v: &[char], i: usize) -> (r: Option<u32>)
    requires
        i <= v@.len(),
    ensures
        (match sp_hex4(v@.skip(i as int)) {
            Some(x) => r matches Some(u) && u as int == x,
            None => r is None,
        }),
{
    let n = v.len();
    if n - i < 4 {
        return None;
    }
    proof {
        assert(v@.skip(i as int)[0] == v@[i as int]);
        assert(v@.skip(i as int)[1] == v@[i as int + 1]);
        assert(v@.skip(i as int)[2] == v@[i as int + 2]);
        assert(v@.skip(i as int)[3] == v@[i as int + 3]);
    }
    let d0 = match hex_digit(v[i]) {
        Some(d) => d,
        None => {
            return None;
        },
    };
    let d1 = match hex_digit(v[i + 1]) {
        Some(d) => d,
        None => {
            return None;
        },
    };
    let d2 = match hex_digit(v[i + 2]) {
        Some(d) => d,
        None => {
            return None;
        },
    };
    let d3 = match hex_digit(v[i + 3]) {
        Some(d) => d,
        None => {
            return None;
        },
    };
    proof {
        assert(d0 < 16 && d1 < 16 && d2 < 16 && d3 < 16);
    }
    Some(((d0 * 16 + d1) * 16 + d2) * 16 + d3)
}

/// The lower-case character for one hexadecimal digit.
pub fn hex_char(d: u32) -> (c: char)
    requires
        d < 16,
    ensures
        c == spec_hex_char(d as int),
{
    if d == 0 {
        '0'
    } else if d == 1 {
        '1'
    } else if d == 2 {
        '2'
    } else if d == 3 {
        '3'
    } else if d == 4 {
        '4'
    } else if d == 5 {
        '5'
    } else if d == 6 {
        '6'
    } else if d == 7 {
        '7'
    } else if d == 8 {
        '8'
    } else if d == 9 {
        '9'
    } else if d == 10 {
        'a'
    } else if d == 11 {
        'b'
    } else if d == 12 {
        'c'
    } else if d == 13 {
        'd'
    } else if d == 14 {
        'e'
    } else {
        'f'
    }
}

/// Relies on `char::from_u32`: yields the character with exactly this
/// code, and nothing when the code is a surrogate or lies beyond the
/// planes.
#[verifier::external_body]
fn char_from_u32(v: u32) -> (r: Option<char>)
    ensures
        r matches Some(c) ==> (c as u32) == v,
        (v < 0xd800 || (0xe000 <= v && v <= 0x10ffff)) ==> r is Some,
{
    char::from_u32(v)
}

/// Skips the blank space that starts at `v[i]`: the index of the first
/// character after it.
pub fn p_ws(v: &[char], i: usize) -> (j: usize)
    requires
        i <= v@.len(),
    ensures
        i <= j <= v@.len(),
        j == i + spec_ws_len(v@.skip(i as int)),
{
    let n = v.len();
    let mut j: usize = i;
    loop
        invariant
            i <= j <= n == v@.len(),
            spec_ws_len(v@.skip(i as int)) == (j - i) + spec_ws_len(v@.skip(j as int)),
        decreases n - j,
    {
        proof {
            lemma_ws_len_bounds(v@.skip(j as int));
        }
        if j == n {
            return j;
        }
        let c = v[j];
        assert(v@.skip(j as int)[0] == v@[j as int]);
        if c == ' ' || c == '\t' || c == '\n' || c == '\r' {
            proof {
                lemma_skip_skip(v@, j as int, 1);
                assert(v@.skip(j as int).skip(1) == v@.skip(j as int + 1));
            }
            j = j + 1;
        } else {
            return j;
        }
    }
}

/// The index of the first non-digit at or after `v[i]`.
fn p_digits(v: &[char], i: usize) -> (j: usize)
    requires
        i <= v@.len(),
    ensures
        i <= j <= v@.len(),
        j == i + spec_digits_len(v@.skip(i as int)),
{
    let n = v.len();
    let mut j: usize = i;
    loop
        invariant
            i <= j <= n == v@.len(),
            spec_digits_len(v@.skip(i as int)) == (j - i) + spec_digits_len(v@.skip(j as int)),
        decreases n - j,
    {
        proof {
            lemma_digits_len_bounds(v@.skip(j as int));
        }
        if j == n {
            return j;
        }
        let c = v[j];
        assert(v@.skip(j as int)[0] == v@[j as int]);
        let u = c as u32;
        if 48 <= u && u <= 57 {
            proof {
                lemma_skip_skip(v@, j as int, 1);
                assert(v@.skip(j as int).skip(1) == v@.skip(j as int + 1));
            }
            j = j + 1;
        } else {
            return j;
        }
    }
}

/// Whether the literal `null` starts at `v[i]`.
pub(crate) fn p_null(v: &[char], i: usize) -> (r: bool)
    requires
        i <= v@.len(),
    ensures
        r == sp_null(v@.skip(i as int)),
{
    let n = v.len();
    if n - i < 4 {
        return false;
    }
    proof {
        assert(v@.skip(i as int)[0] == v@[i as int]);
        assert(v@.skip(i as int)[1] == v@[i as int + 1]);
        assert(v@.skip(i as int)[2] == v@[i as int + 2]);
        assert(v@.skip(i as int)[3] == v@[i as int + 3]);
    }
    v[i] == 'n' && v[i + 1] == 'u' && v[i + 2] == 'l' && v[i + 3] == 'l'
}

fn p_true(v: &[char], i: usize) -> (r: bool)
    requires
        i <= v@.len(),
    ensures
        r == sp_true(v@.skip(i as int)),
{
    let n = v.len();
    if n - i < 4 {
        return false;
    }
    proof {
        assert(v@.skip(i as int)[0] == v@[i as int]);
        assert(v@.skip(i as int)[1] == v@[i as int + 1]);
        assert(v@.skip(i as int)[2] == v@[i as int + 2]);
        assert(v@.skip(i as int)[3] == v@[i as int + 3]);
    }
    v[i] == 't' && v[i + 1] == 'r' && v[i + 2] == 'u' && v[i + 3] == 'e'
}

fn p_false(v: &[char], i: usize) -> (r: bool)
    requires
        i <= v@.len(),
    ensures
        r == sp_false(v@.skip(i as int)),
{
    let n = v.len();
    if n - i < 5 {
        return false;
    }
    proof {
        assert(v@.skip(i as int)[0] == v@[i as int]);
        assert(v@.skip(i as int)[1] == v@[i as int + 1]);
        assert(v@.skip(i as int)[2] == v@[i as int + 2]);
        assert(v@.skip(i as int)[3] == v@[i as int + 3]);
        assert(v@.skip(i as int)[4] == v@[i as int + 4]);
    }
    v[i] == 'f' && v[i + 1] == 'a' && v[i + 2] == 'l' && v[i + 3] == 's' && v[i + 4] == 'e'
}

#[verifier::rlimit(100)]
fn p_skip_number(v: &[char], i: usize) -> (r: Option<usize>)
    requires
        i <= v@.len(),
    ensures
        (match sp_skip_number(v@.skip(i as int)) {
            Some(n) => r matches Some(j) && j == i + n,
            None => r is None,
        }),
{
    let n = v.len();
    let ghost s = v@.skip(i as int);
    let mut k: usize = i;
    if k < n && v[k] == '-' {
        assert(s[0] == v@[i as int]);
        k = k + 1;
    } else {
        proof {
            if k < n {
                assert(s[0] == v@[i as int]);
            }
        }
    }
    proof {
        lemma_skip_skip(v@, i as int, k - i);
        assert(s.skip(k - i) == v@.skip(k as int));
    }
    if k == n {
        return None;
    }
    let c0 = v[k];
    assert(v@.skip(k as int)[0] == v@[k as int]);
    let u0 = c0 as u32;
    if !(48 <= u0 && u0 <= 57) {
        return None;
    }
    proof {
        lemma_digits_len_bounds(v@.skip(k as int));
    }
    let ka = if c0 == '0' {
        k + 1
    } else {
        p_digits(v, k)
    };
    proof {
        lemma_skip_skip(v@, k as int, ka - k);
        assert(v@.skip(k as int).skip(ka - k) == v@.skip(ka as int));
    }
    let kb = if ka < n && v[ka] == '.' {
        assert(v@.skip(ka as int)[0] == v@[ka as int]);
        proof {
            lemma_skip_skip(v@, ka as int, 1);
            assert(v@.skip(ka as int).skip(1) == v@.skip(ka as int + 1));
        }
        let kd = p_digits(v, ka + 1);
        if kd == ka + 1 {
            return None;
        }
        kd
    } else {
        proof {
            if ka < n {
                assert(v@.skip(ka as int)[0] == v@[ka as int]);
            }
        }
        ka
    };
    proof {
        lemma_skip_skip(v@, ka as int, kb - ka);
        assert(v@.skip(ka as int).skip(kb - ka) == v@.skip(kb as int));
    }
    if kb < n && (v[kb] == 'e' || v[kb] == 'E') {
        assert(v@.skip(kb as int)[0] == v@[kb as int]);
        proof {
            lemma_skip_skip(v@, kb as int, 1);
            assert(v@.skip(kb as int).skip(1) == v@.skip(kb as int + 1));
        }
        let ks = if kb + 1 < n && (v[kb + 1] == '+' || v[kb + 1] == '-') {
            assert(v@.skip(kb as int + 1)[0] == v@[kb as int + 1]);
            kb + 2
        } else {
            proof {
                if kb + 1 < n {
                    assert(v@.skip(kb as int + 1)[0] == v@[kb as int + 1]);
                }
            }
            kb + 1
        };
        proof {
            lemma_skip_skip(v@, kb as int + 1, ks - (kb + 1));
            assert(v@.skip(kb as int + 1).skip(ks - (kb + 1)) == v@.skip(ks as int));
        }
        let kd = p_digits(v, ks);
        if kd == ks {
            return None;
        }
        Some(kd)
    } else {
        proof {
            if kb < n {
                assert(v@.skip(kb as int)[0] == v@[kb as int]);
            }
        }
        Some(kb)
    }
}

/// Passes over the value that starts at `v[i]`: the index just past it.
#[verifier::rlimit(100)]
pub fn p_skip_value(v: &[char], i: usize) -> (r: Option<usize>)
    requires
        i <= v@.len(),
    ensures
        (match sp_skip_value(v@.skip(i as int)) {
            Some(n) => r matches Some(j) && j == i + n,
            None => r is None,
        }),
    decreases v@.len() - i, 0int,
{
    let n = v.len();
    let ghost s = v@.skip(i as int);
    if i == n {
        return None;
    }
    let c = v[i];
    assert(s[0] == v@[i as int]);
    if c == '"' {
        match p_string(v, i) {
            Some((x, j)) => Some(j),
            None => None,
        }
    } else if c == '{' {
        proof {
            lemma_skip_skip(v@, i as int, 1);
            assert(s.skip(1) == v@.skip(i as int + 1));
        }
        let j1 = p_ws(v, i + 1);
        proof {
            lemma_skip_skip(v@, i as int + 1, j1 - (i + 1));
            assert(v@.skip(i as int + 1).skip(j1 - (i + 1)) == v@.skip(j1 as int));
        }
        if j1 < n && v[j1] == '}' {
            assert(v@.skip(j1 as int)[0] == v@[j1 as int]);
            return Some(j1 + 1);
        }
        proof {
            if j1 < n {
                assert(v@.skip(j1 as int)[0] == v@[j1 as int]);
            }
        }
        p_skip_members(v, i + 1)
    } else if c == '[' {
        proof {
            lemma_skip_skip(v@, i as int, 1);
            assert(s.skip(1) == v@.skip(i as int + 1));
        }
        let j1 = p_ws(v, i + 1);
        proof {
            lemma_skip_skip(v@, i as int + 1, j1 - (i + 1));
            assert(v@.skip(i as int + 1).skip(j1 - (i + 1)) == v@.skip(j1 as int));
        }
        if j1 < n && v[j1] == ']' {
            assert(v@.skip(j1 as int)[0] == v@[j1 as int]);
            return Some(j1 + 1);
        }
        proof {
            if j1 < n {
                assert(v@.skip(j1 as int)[0] == v@[j1 as int]);
            }
        }
        p_skip_items(v, i + 1)
    } else if p_null(v, i) {
        proof {
            assert(v@.skip(i as int).len() >= 4);
        }
        Some(i + 4)
    } else if p_true(v, i) {
        proof {
            assert(v@.skip(i as int).len() >= 4);
        }
        Some(i + 4)
    } else if p_false(v, i) {
        proof {
            assert(v@.skip(i as int).len() >= 5);
        }
        Some(i + 5)
    } else {
        p_skip_number(v, i)
    }
}

#[verifier::rlimit(100)]
fn p_skip_members(v: &[char], i: usize) -> (r: Option<usize>)
    requires
        i <= v@.len(),
    ensures
        (match sp_skip_members(v@.skip(i as int)) {
            Some(n) => r matches Some(j) && j == i + n,
            None => r is None,
        }),
    decreases v@.len() - i, 1int,
{
    let ghost s = v@.skip(i as int);
    let j0 = p_ws(v, i);
    proof {
        lemma_skip_skip(v@, i as int, j0 - i);
        assert(s.skip(j0 - i) == v@.skip(j0 as int));
    }
    match p_string(v, j0) {
        None => None,
        Some((name, j1)) => {
            proof {
                lemma_string_bounds(v@.skip(j0 as int));
                lemma_skip_skip(v@, j0 as int, j1 - j0);
                assert(v@.skip(j0 as int).skip(j1 - j0) == v@.skip(j1 as int));
            }
            let j1b = p_ws(v, j1);
            proof {
                lemma_skip_skip(v@, j1 as int, j1b - j1);
                assert(v@.skip(j1 as int).skip(j1b - j1) == v@.skip(j1b as int));
            }
            if j1b == v.len() || v[j1b] != ':' {
                proof {
                    if j1b < v.len() {
                        assert(v@.skip(j1b as int)[0] == v@[j1b as int]);
                    }
                }
                None
            } else {
                assert(v@.skip(j1b as int)[0] == v@[j1b as int]);
                proof {
                    lemma_skip_skip(v@, j1b as int, 1);
                    assert(v@.skip(j1b as int).skip(1) == v@.skip(j1b as int + 1));
                }
                let j2w = p_ws(v, j1b + 1);
                proof {
                    lemma_skip_skip(v@, j1b as int + 1, j2w - (j1b + 1));
                    assert(v@.skip(j1b as int + 1).skip(j2w - (j1b + 1)) == v@.skip(j2w as int));
                }
                match p_skip_value(v, j2w) {
                    None => None,
                    Some(j2) => {
                        proof {
                            lemma_skip_value_bounds(v@.skip(j2w as int));
                            lemma_skip_skip(v@, j2w as int, j2 - j2w);
                            assert(v@.skip(j2w as int).skip(j2 - j2w) == v@.skip(j2 as int));
                        }
                        let j3 = p_ws(v, j2);
                        proof {
                            lemma_skip_skip(v@, j2 as int, j3 - j2);
                            assert(v@.skip(j2 as int).skip(j3 - j2) == v@.skip(j3 as int));
                        }
                        if j3 == v.len() {
                            return None;
                        }
                        let c = v[j3];
                        assert(v@.skip(j3 as int)[0] == v@[j3 as int]);
                        if c == ',' {
                            proof {
                                lemma_skip_skip(v@, j3 as int, 1);
                                assert(v@.skip(j3 as int).skip(1) == v@.skip(j3 as int + 1));
                            }
                            p_skip_members(v, j3 + 1)
                        } else if c == '}' {
                            Some(j3 + 1)
                        } else {
                            None
                        }
                    },
                }
            }
        },
    }
}

#[verifier::rlimit(100)]
fn p_skip_items(v: &[char], i: usize) -> (r: Option<usize>)
    requires
        i <= v@.len(),
    ensures
        (match sp_skip_items(v@.skip(i as int)) {
            Some(n) => r matches Some(j) && j == i + n,
            None => r is None,
        }),
    decreases v@.len() - i, 1int,
{
    let ghost s = v@.skip(i as int);
    let j0 = p_ws(v, i);
    proof {
        lemma_skip_skip(v@, i as int, j0 - i);
        assert(s.skip(j0 - i) == v@.skip(j0 as int));
    }
    match p_skip_value(v, j0) {
        None => None,
        Some(j1) => {
            proof {
                lemma_skip_value_bounds(v@.skip(j0 as int));
                lemma_skip_skip(v@, j0 as int, j1 - j0);
                assert(v@.skip(j0 as int).skip(j1 - j0) == v@.skip(j1 as int));
            }
            let j1b = p_ws(v, j1);
            proof {
                lemma_skip_skip(v@, j1 as int, j1b - j1);
                assert(v@.skip(j1 as int).skip(j1b - j1) == v@.skip(j1b as int));
            }
            if j1b == v.len() {
                return None;
            }
            let c = v[j1b];
            assert(v@.skip(j1b as int)[0] == v@[j1b as int]);
            if c == ',' {
                proof {
                    lemma_skip_skip(v@, j1b as int, 1);
                    assert(v@.skip(j1b as int).skip(1) == v@.skip(j1b as int + 1));
                }
                p_skip_items(v, j1b + 1)
            } else if c == ']' {
                Some(j1b + 1)
            } else {
                None
            }
        },
    }
}

/// Reads the string literal that starts at `v[i]`.
#[verifier::rlimit(100)]
pub fn p_string(v: &[char], i: usize) -> (r: Option<(String, usize)>)
    requires
        i <= v@.len(),
    ensures
        match sp_string(v@.skip(i as int)) {
            Some((t, n)) => r matches Some((out, j)) && out@ == t && j == i + n,
            None => r is None,
        },
{
    let n = v.len();
    if i == n || v[i] != '"' {
        return None;
    }
    let ghost s0 = v@.skip(i as int);
    assert(s0[0] == v@[i as int]);
    let mut out = String::new();
    let mut j: usize = i + 1;
    proof {
        lemma_skip_skip(v@, i as int, 1);
        assert(s0.skip(1) == v@.skip(i as int + 1));
        assert(match sp_str_body(v@.skip(j as int)) {
            Some((t, m)) => out@ + t =~= t,
            None => true,
        });
    }
    loop
        invariant
            i + 1 <= j <= n == v@.len(),
            s0 == v@.skip(i as int),
            s0.len() > 0 && s0[0] == '"',
            match sp_str_body(v@.skip(j as int)) {
                Some((t, m)) => sp_str_body(s0.skip(1)) == Some::<(Seq<char>, int)>(
                    (out@ + t, j - (i + 1) + m),
                ),
                None => sp_str_body(s0.skip(1)) is None,
            },
        decreases n - j,
    {
        let ghost rem = v@.skip(j as int);
        proof {
            assert(rem.len() == n - j);
        }
        if j == n {
            return None;
        }
        let c = v[j];
        assert(rem[0] == v@[j as int]);
        if c == '"' {
            proof {
                assert(sp_str_body(rem) == Some::<(Seq<char>, int)>((Seq::empty(), 1)));
                assert(out@ + Seq::<char>::empty() =~= out@);
                lemma_str_body_bounds(s0.skip(1));
            }
            return Some((out, j + 1));
        } else if c == '\\' {
            if j + 1 == n {
                proof {
                    assert(rem.len() < 2);
                    assert(sp_str_body(rem) is None);
                }
                return None;
            }
            let e = v[j + 1];
            assert(rem[1] == v@[j as int + 1]);
            if e == 'u' {
                proof {
                    lemma_skip_skip(v@, j as int, 2);
                    assert(rem.skip(2) == v@.skip(j as int + 2));
                }
                let hv = match hex4(v, j + 2) {
                    Some(hv) => hv,
                    None => {
                        proof {
                            assert(sp_str_body(rem) is None);
                        }
                        return None;
                    },
                };
                proof {
                    assert(rem.skip(2).len() >= 4);
                    assert(rem.len() >= 6);
                }
                if hv < 0xd800 || 0xe000 <= hv {
                    let d = match char_from_u32(hv) {
                        Some(d) => d,
                        None => {
                            // The code is a valid scalar, so this is never
                            // reached.
                            return None;
                        },
                    };
                    let ghost out0 = out@;
                    proof {
                        lemma_char_code_round(d, hv);
                        lemma_skip_skip(v@, j as int, 6);
                        assert(rem.skip(6) == v@.skip(j as int + 6));
                    }
                    push_char(&mut out, d);
                    j = j + 6;
                    proof {
                        assert(match sp_str_body(v@.skip(j as int)) {
                            Some((t, m)) => {
                                &&& sp_str_body(rem) == Some::<(Seq<char>, int)>(
                                    (seq![d] + t, m + 6),
                                )
                                &&& (out0 + (seq![d] + t) =~= out@ + t)
                            },
                            None => sp_str_body(rem) is None,
                        });
                    }
                } else if hv < 0xdc00 {
                    if n - j < 12 {
                        proof {
                            assert(rem.len() < 12);
                        }
                        return None;
                    }
                    let b2 = v[j + 6];
                    let u2 = v[j + 7];
                    assert(rem[6] == v@[j as int + 6]);
                    assert(rem[7] == v@[j as int + 7]);
                    if b2 != '\\' || u2 != 'u' {
                        return None;
                    }
                    proof {
                        lemma_skip_skip(v@, j as int, 8);
                        assert(rem.skip(8) == v@.skip(j as int + 8));
                    }
                    let lo = match hex4(v, j + 8) {
                        Some(lo) => lo,
                        None => {
                            return None;
                        },
                    };
                    if !(0xdc00 <= lo && lo < 0xe000) {
                        return None;
                    }
                    let cp: u32 = 0x10000 + (hv - 0xd800) * 0x400 + (lo - 0xdc00);
                    let d = match char_from_u32(cp) {
                        Some(d) => d,
                        None => {
                            // The code is a valid scalar, so this is never
                            // reached.
                            return None;
                        },
                    };
                    let ghost out0 = out@;
                    proof {
                        lemma_char_code_round(d, cp);
                        lemma_skip_skip(v@, j as int, 12);
                        assert(rem.skip(12) == v@.skip(j as int + 12));
                    }
                    push_char(&mut out, d);
                    j = j + 12;
                    proof {
                        assert(match sp_str_body(v@.skip(j as int)) {
                            Some((t, m)) => {
                                &&& sp_str_body(rem) == Some::<(Seq<char>, int)>(
                                    (seq![d] + t, m + 12),
                                )
                                &&& (out0 + (seq![d] + t) =~= out@ + t)
                            },
                            None => sp_str_body(rem) is None,
                        });
                    }
                } else {
                    return None;
                }
                continue ;
            }
            match unescape_char(e) {
                Some(d) => {
                    let ghost out0 = out@;
                    proof {
                        lemma_skip_skip(v@, j as int, 2);
                        assert(rem.skip(2) == v@.skip(j as int + 2));
                    }
                    push_char(&mut out, d);
                    j = j + 2;
                    proof {
                        assert(match sp_str_body(v@.skip(j as int)) {
                            Some((t, m)) => {
                                &&& sp_str_body(rem) == Some::<(Seq<char>, int)>(
                                    (seq![d] + t, m + 2),
                                )
                                &&& (out0 + (seq![d] + t) =~= out@ + t)
                            },
                            None => sp_str_body(rem) is None,
                        });
                    }
                },
                None => {
                    proof {
                        assert(sp_str_body(rem) is None);
                    }
                    return None;
                },
            }
        } else if (c as u32) < 32 {
            proof {
                assert(is_ctrl(c));
                assert(sp_str_body(rem) is None);
            }
            return None;
        } else {
            let ghost out0 = out@;
            proof {
                assert(!is_ctrl(c));
                lemma_skip_skip(v@, j as int, 1);
                assert(rem.skip(1) == v@.skip(j as int + 1));
            }
            push_char(&mut out, c);
            j = j + 1;
            proof {
                assert(match sp_str_body(v@.skip(j as int)) {
                    Some((t, m)) => {
                        &&& sp_str_body(rem) == Some::<(Seq<char>, int)>((seq![c] + t, m + 1))
                        &&& (out0 + (seq![c] + t) =~= out@ + t)
                    },
                    None => sp_str_body(rem) is None,
                });
            }
        }
    }
}

/// Reads the unsigned integer that starts at `v[i]`, when it fits in a
/// `u64`.
pub fn p_number_u64(v: &[char], i: usize) -> (r: Option<(u64, usize)>)
    requires
        i <= v@.len(),
    ensures
        match sp_number(v@.skip(i as int)) {
            Some((val, n)) => {
                if val <= u64::MAX {
                    r matches Some((x, j)) && x as int == val && j == i + n
                } else {
                    r is None
                }
            },
            None => r is None,
        },
{
    let n = v.len();
    let ghost s0 = v@.skip(i as int);
    if i == n {
        return None;
    }
    let c0 = v[i];
    assert(s0[0] == v@[i as int]);
    let u0 = c0 as u32;
    if !(48 <= u0 && u0 <= 57) {
        return None;
    }
    if c0 == '0' {
        return Some((0, i + 1));
    }
    let mut acc: u64 = 0;
    let mut j: usize = i;
    proof {
        lemma_digits_len_bounds(s0);
    }
    loop
        invariant
            i <= j <= n == v@.len(),
            s0 == v@.skip(i as int),
            s0.len() > 0 && is_digit(s0[0]) && s0[0] != '0',
            forall|k: int| 0 <= k < j - i ==> is_digit(#[trigger] s0[k]),
            acc as int == spec_digits_val(s0, j - i),
        decreases n - j,
    {
        if j == n || !(48 <= (v[j] as u32) && (v[j] as u32) <= 57) {
            proof {
                if j < n {
                    assert(s0[j - i] == v@[j as int]);
                }
                lemma_digits_len_eq(s0, j - i);
            }
            if j == i {
                proof {
                    assert(is_digit(s0[0]));
                    assert(false);
                }
            }
            return Some((acc, j));
        }
        let c = v[j];
        assert(s0[j - i] == v@[j as int]);
        let d: u64 = ((c as u32) - 48) as u64;
        if acc > (u64::MAX - d) / 10 {
            // The digits already read outgrow a u64; any longer prefix is
            // larger still.
            proof {
                let full = spec_digits_len(s0);
                lemma_digits_len_bounds(s0);
                assert(j - i < full) by {
                    assert(is_digit(s0[j - i]));
                    if j - i >= full {
                        lemma_digits_len_eq(s0, j - i);
                    }
                }
                assert(spec_digits_val(s0, j - i + 1) > u64::MAX) by (nonlinear_arith)
                    requires
                        acc as int == spec_digits_val(s0, j - i),
                        spec_digits_val(s0, j - i + 1) == spec_digits_val(s0, j - i) * 10
                            + digit_val(s0[j - i]),
                        digit_val(s0[j - i]) == d,
                        0 <= d <= 9,
                        acc > (u64::MAX - d) / 10,
                ;
                lemma_digits_val_mono(s0, j - i + 1, full);
            }
            return None;
        }
        acc = acc * 10 + d;
        j = j + 1;
    }
}

} // verus!
