//! Byte-level scanning of the JSON wire format.
//!
//! The scanners work directly on byte sequences and follow the JSON
//! grammar: strings reject raw control bytes and carry only well-formed
//! escape sequences, numbers and the literals `true`, `false` and `null`
//! are checked in full, and brackets close in kind. String contents are
//! kept raw (escape sequences are validated but not decoded); member names
//! are compared to a key with escapes decoded. Values of members the proxy
//! does not read are validated as JSON down to a fixed nesting depth.

use vstd::prelude::*;

verus! {

pub const QUOTE: u8 = 34;
pub const COMMA: u8 = 44;
pub const COLON: u8 = 58;
pub const BACKSLASH: u8 = 92;
pub const LBRACE: u8 = 123;
pub const RBRACE: u8 = 125;
pub const LBRACK: u8 = 91;
pub const RBRACK: u8 = 93;

/// How deep a value of a member the proxy does not read may nest. Deeper
/// bodies are rejected, as the provider's own parsers reject them; the
/// bound also keeps the scanner's recursion finite in the machine's terms.
pub const NEST_LIMIT: u32 = 128;

/// A byte is JSON insignificant whitespace: space, tab, line feed, carriage return.
pub open spec fn is_ws(c: u8) -> bool {
    c == 32 || c == 9 || c == 10 || c == 13
}

/// An ASCII decimal digit.
pub open spec fn is_digit(c: u8) -> bool {
    48 <= c <= 57
}

/// An ASCII hexadecimal digit.
pub open spec fn is_hex(c: u8) -> bool {
    48 <= c <= 57 || 65 <= c <= 70 || 97 <= c <= 102
}

/// The value of an ASCII hexadecimal digit.
pub open spec fn hex_val(c: u8) -> int {
    if 48 <= c <= 57 {
        c - 48
    } else if 65 <= c <= 70 {
        c - 55
    } else if 97 <= c <= 102 {
        c - 87
    } else {
        -1
    }
}

/// A byte that may follow a backslash as a one-letter escape:
/// quote, backslash, slash, b, f, n, r, t.
pub open spec fn is_simple_escape(c: u8) -> bool {
    c == 34 || c == 92 || c == 47 || c == 98 || c == 102 || c == 110 || c == 114 || c == 116
}

/// The byte a one-letter escape stands for.
pub open spec fn escape_byte(c: u8) -> u8 {
    if c == 98 {
        8
    } else if c == 102 {
        12
    } else if c == 110 {
        10
    } else if c == 114 {
        13
    } else if c == 116 {
        9
    } else {
        c
    }
}

/// The first index at or after `i` holding a non-whitespace byte, or the
/// length of `s` if only whitespace remains.
pub open spec fn ws_end(s: Seq<u8>, i: int) -> int
    decreases s.len() - i when 0 <= i <= s.len()
{
    if i >= s.len() {
        i
    } else if is_ws(s[i]) {
        ws_end(s, i + 1)
    } else {
        i
    }
}

/// Scanning a string body that starts at `i` (just after the opening quote):
/// the index just past the closing quote, or `None` if the string never
/// closes, holds a raw control byte, or holds a malformed escape sequence.
pub open spec fn str_end(s: Seq<u8>, i: int) -> Option<int>
    decreases s.len() - i when 0 <= i <= s.len()
{
    if i >= s.len() {
        None
    } else if s[i] == QUOTE {
        Some(i + 1)
    } else if s[i] == BACKSLASH {
        if i + 1 < s.len() && is_simple_escape(s[i + 1]) {
            str_end(s, i + 2)
        } else if i + 5 < s.len() && s[i + 1] == 117 && is_hex(s[i + 2]) && is_hex(s[i + 3])
            && is_hex(s[i + 4]) && is_hex(s[i + 5]) {
            str_end(s, i + 6)
        } else {
            None
        }
    } else if s[i] < 32 {
        None
    } else {
        str_end(s, i + 1)
    }
}

/// The first index at or after `i` holding a non-digit byte, or the length
/// of `s`.
pub open spec fn digits_end(s: Seq<u8>, i: int) -> int
    decreases s.len() - i when 0 <= i <= s.len()
{
    if i >= s.len() {
        i
    } else if is_digit(s[i]) {
        digits_end(s, i + 1)
    } else {
        i
    }
}

/// The optional exponent part of a number starting at `k`: the index just
/// past it (or `k` itself when there is none), `None` on a malformed one.
pub open spec fn exp_end(s: Seq<u8>, k: int) -> Option<int> {
    if !(0 <= k <= s.len()) {
        None
    } else if k < s.len() && (s[k] == 101 || s[k] == 69) {
        let j = if k + 1 < s.len() && (s[k + 1] == 43 || s[k + 1] == 45) {
            k + 2
        } else {
            k + 1
        };
        let d = digits_end(s, j);
        if d <= j {
            None
        } else {
            Some(d)
        }
    } else {
        Some(k)
    }
}

/// The optional fraction part of a number starting at `k`, followed by the
/// optional exponent: the index just past them, `None` on a malformed one.
pub open spec fn frac_end(s: Seq<u8>, k: int) -> Option<int> {
    if !(0 <= k <= s.len()) {
        None
    } else if k < s.len() && s[k] == 46 {
        let d = digits_end(s, k + 1);
        if d <= k + 1 {
            None
        } else {
            exp_end(s, d)
        }
    } else {
        exp_end(s, k)
    }
}

/// The index just past the JSON number that starts exactly at `i`:
/// an optional minus, an integer part without a leading zero, an optional
/// fraction, an optional exponent. `None` if no number starts there.
pub open spec fn num_end(s: Seq<u8>, i: int) -> Option<int> {
    if !(0 <= i < s.len()) {
        None
    } else {
        let j = if s[i] == 45 {
            i + 1
        } else {
            i
        };
        if !(j < s.len() && is_digit(s[j])) {
            None
        } else {
            let k = if s[j] == 48 {
                j + 1
            } else {
                digits_end(s, j)
            };
            frac_end(s, k)
        }
    }
}

/// Whether the raw content `s` of a member name denotes the same string as
/// the ASCII key `key`, decoding escape sequences: one-letter escapes map
/// to their byte, and a `u` escape matches only an ASCII code point, which
/// is exact for ASCII keys (a non-ASCII code point never equals an ASCII
/// byte). `s` is expected to be a well-formed string body.
pub open spec fn key_eq(s: Seq<u8>, key: Seq<u8>) -> bool
    decreases s.len()
{
    if s.len() == 0 {
        key.len() == 0
    } else if s[0] == BACKSLASH {
        if s.len() >= 2 && is_simple_escape(s[1]) {
            key.len() > 0 && escape_byte(s[1]) == key[0] && key_eq(s.skip(2), key.skip(1))
        } else if s.len() >= 6 && s[1] == 117 && is_hex(s[2]) && is_hex(s[3]) && is_hex(s[4])
            && is_hex(s[5]) {
            let n = 4096 * hex_val(s[2]) + 256 * hex_val(s[3]) + 16 * hex_val(s[4]) + hex_val(
                s[5],
            );
            n < 128 && key.len() > 0 && n == key[0] && key_eq(s.skip(6), key.skip(1))
        } else {
            false
        }
    } else {
        key.len() > 0 && s[0] == key[0] && key_eq(s.skip(1), key.skip(1))
    }
}

/// The index just past the JSON value that starts exactly at `i` (no
/// leading whitespace), `None` if no value of nesting depth at most `d`
/// starts there.
pub open spec fn value_end(s: Seq<u8>, i: int, d: int) -> Option<int>
    decreases s.len() - i, 0int when 0 <= i <= s.len()
{
    if !(0 <= i < s.len()) {
        None
    } else if s[i] == QUOTE {
        str_end(s, i + 1)
    } else if s[i] == LBRACE {
        if d <= 0 {
            None
        } else {
            obj_end(s, i + 1, true, d - 1)
        }
    } else if s[i] == LBRACK {
        if d <= 0 {
            None
        } else {
            arr_end(s, i + 1, true, d - 1)
        }
    } else if s[i] == 116 {
        if i + 4 <= s.len() && s[i + 1] == 114 && s[i + 2] == 117 && s[i + 3] == 101 {
            Some(i + 4)
        } else {
            None
        }
    } else if s[i] == 102 {
        if i + 5 <= s.len() && s[i + 1] == 97 && s[i + 2] == 108 && s[i + 3] == 115 && s[i + 4]
            == 101 {
            Some(i + 5)
        } else {
            None
        }
    } else if s[i] == 110 {
        if i + 4 <= s.len() && s[i + 1] == 117 && s[i + 2] == 108 && s[i + 3] == 108 {
            Some(i + 4)
        } else {
            None
        }
    } else if s[i] == 45 || is_digit(s[i]) {
        num_end(s, i)
    } else {
        None
    }
}

/// Scanning the members of an object from `i` (just past `{` when `first`
/// holds, just past a member-separating comma otherwise): the index just
/// past the closing `}`, `None` on a malformed object.
pub open spec fn obj_end(s: Seq<u8>, i: int, first: bool, d: int) -> Option<int>
    decreases s.len() - i, 1int when 0 <= i <= s.len()
{
    let j = ws_end(s, i);
    if !(i <= j < s.len()) {
        None
    } else if first && s[j] == RBRACE {
        Some(j + 1)
    } else if s[j] != QUOTE {
        None
    } else {
        match str_end(s, j + 1) {
            None => None,
            Some(k) => if !(j + 2 <= k <= s.len()) {
                None
            } else {
                let c = ws_end(s, k);
                if !(k <= c < s.len() && s[c] == COLON) {
                    None
                } else {
                    let v = ws_end(s, c + 1);
                    if !(c + 1 <= v < s.len()) {
                        None
                    } else {
                        match value_end(s, v, d) {
                            None => None,
                            Some(e) => if !(v < e <= s.len()) {
                                None
                            } else {
                                let t = ws_end(s, e);
                                if !(e <= t < s.len()) {
                                    None
                                } else if s[t] == COMMA {
                                    obj_end(s, t + 1, false, d)
                                } else if s[t] == RBRACE {
                                    Some(t + 1)
                                } else {
                                    None
                                }
                            },
                        }
                    }
                }
            },
        }
    }
}

/// Scanning the elements of an array from `i` (just past `[` when `first`
/// holds, just past a comma otherwise): the index just past the closing
/// `]`, `None` on a malformed array.
pub open spec fn arr_end(s: Seq<u8>, i: int, first: bool, d: int) -> Option<int>
    decreases s.len() - i, 1int when 0 <= i <= s.len()
{
    let j = ws_end(s, i);
    if !(i <= j < s.len()) {
        None
    } else if first && s[j] == RBRACK {
        Some(j + 1)
    } else {
        match value_end(s, j, d) {
            None => None,
            Some(e) => if !(j < e <= s.len()) {
                None
            } else {
                let t = ws_end(s, e);
                if !(e <= t < s.len()) {
                    None
                } else if s[t] == COMMA {
                    arr_end(s, t + 1, false, d)
                } else if s[t] == RBRACK {
                    Some(t + 1)
                } else {
                    None
                }
            },
        }
    }
}

/// Scanning the members of an object from `i` (just past `{` when `first`
/// holds, just past a member-separating comma otherwise): the raw content of
/// the string value of the member named `key` — the last occurrence wins —
/// together with the index just past the closing `}`. `None` on a malformed
/// object, and also when `key` is present with a non-string value. The
/// member name is matched with escapes decoded; other members' values are
/// validated as JSON down to the nesting limit.
pub open spec fn obj_scan(
    s: Seq<u8>,
    i: int,
    key: Seq<u8>,
    acc: Option<Seq<u8>>,
    first: bool,
) -> Option<(Option<Seq<u8>>, int)>
    decreases s.len() - i when 0 <= i <= s.len()
{
    let j = ws_end(s, i);
    if !(i <= j < s.len()) {
        None
    } else if first && s[j] == RBRACE {
        Some((acc, j + 1))
    } else if s[j] != QUOTE {
        None
    } else {
        match str_end(s, j + 1) {
            None => None,
            Some(k) => if !(j + 2 <= k <= s.len()) {
                None
            } else {
                let name = s.subrange(j + 1, k - 1);
                let c = ws_end(s, k);
                if !(k <= c < s.len() && s[c] == COLON) {
                    None
                } else {
                    let v = ws_end(s, c + 1);
                    if !(c + 1 <= v < s.len()) {
                        None
                    } else {
                        let step = if key_eq(name, key) {
                            if s[v] != QUOTE {
                                None
                            } else {
                                match str_end(s, v + 1) {
                                    None => None,
                                    Some(e) => if v + 2 <= e <= s.len() {
                                        Some((Some(s.subrange(v + 1, e - 1)), e))
                                    } else {
                                        None
                                    },
                                }
                            }
                        } else {
                            match value_end(s, v, NEST_LIMIT as int) {
                                None => None,
                                Some(e) => if v < e <= s.len() {
                                    Some((acc, e))
                                } else {
                                    None
                                },
                            }
                        };
                        match step {
                            None => None,
                            Some((acc2, e)) => {
                                let t = ws_end(s, e);
                                if !(e <= t < s.len()) {
                                    None
                                } else if s[t] == COMMA {
                                    obj_scan(s, t + 1, key, acc2, false)
                                } else if s[t] == RBRACE {
                                    Some((acc2, t + 1))
                                } else {
                                    None
                                }
                            },
                        }
                    }
                }
            },
        }
    }
}

/// Exec mirror of `is_ws`.
fn ws_byte(c: u8) -> (b: bool)
    ensures
        b == is_ws(c),
{
    c == 32 || c == 9 || c == 10 || c == 13
}

/// Exec mirror of `is_simple_escape`.
fn simple_escape_byte(c: u8) -> (b: bool)
    ensures
        b == is_simple_escape(c),
{
    c == 34 || c == 92 || c == 47 || c == 98 || c == 102 || c == 110 || c == 114 || c == 116
}

/// Exec mirror of `escape_byte`.
fn esc_byte(c: u8) -> (r: u8)
    ensures
        r == escape_byte(c),
{
    if c == 98 {
        8
    } else if c == 102 {
        12
    } else if c == 110 {
        10
    } else if c == 114 {
        13
    } else if c == 116 {
        9
    } else {
        c
    }
}

/// Exec mirror of `is_hex`.
fn hex_byte(c: u8) -> (b: bool)
    ensures
        b == is_hex(c),
{
    (48 <= c && c <= 57) || (65 <= c && c <= 70) || (97 <= c && c <= 102)
}

/// Exec mirror of `hex_val` on hexadecimal digits.
fn hex_digit(c: u8) -> (r: u8)
    requires
        is_hex(c),
    ensures
        r == hex_val(c),
{
    if 48 <= c && c <= 57 {
        c - 48
    } else if 65 <= c && c <= 70 {
        c - 55
    } else {
        c - 87
    }
}

/// Advance past insignificant whitespace.
pub fn skip_ws(s: &[u8], i: usize) -> (r: usize)
    requires
        i <= s@.len(),
    ensures
        r == ws_end(s@, i as int),
        i <= r <= s@.len(),
{
    let n: usize = s.len();
    let mut j: usize = i;
    while j < n && ws_byte(s[j])
        invariant
            i <= j <= n,
            n == s@.len(),
            ws_end(s@, i as int) == ws_end(s@, j as int),
        decreases n - j,
    {
        j = j + 1;
    }
    j
}

/// Scan a string body from just after its opening quote.
pub fn scan_string(s: &[u8], i: usize) -> (r: Option<usize>)
    requires
        i <= s@.len(),
    ensures
        match r {
            Some(k) => str_end(s@, i as int) == Some(k as int) && i < k <= s@.len(),
            None => str_end(s@, i as int) is None,
        },
{
    let n: usize = s.len();
    let mut j: usize = i;
    loop
        invariant
            i <= j <= n,
            n == s@.len(),
            str_end(s@, i as int) == str_end(s@, j as int),
        decreases n - j,
    {
        if j >= n {
            return None;
        }
        let c = s[j];
        if c == QUOTE {
            return Some(j + 1);
        }
        if c == BACKSLASH {
            if j + 1 < n && simple_escape_byte(s[j + 1]) {
                j = j + 2;
            } else if n - j > 5 && s[j + 1] == 117 && hex_byte(s[j + 2]) && hex_byte(s[j + 3])
                && hex_byte(s[j + 4]) && hex_byte(s[j + 5]) {
                j = j + 6;
            } else {
                return None;
            }
        } else if c < 32 {
            return None;
        } else {
            j = j + 1;
        }
    }
}

/// Scan a run of decimal digits from `i`.
fn scan_digits(s: &[u8], i: usize) -> (r: usize)
    requires
        i <= s@.len(),
    ensures
        r == digits_end(s@, i as int),
        i <= r <= s@.len(),
{
    let n: usize = s.len();
    let mut j: usize = i;
    while j < n && 48 <= s[j] && s[j] <= 57
        invariant
            i <= j <= n,
            n == s@.len(),
            digits_end(s@, i as int) == digits_end(s@, j as int),
        decreases n - j,
    {
        j = j + 1;
    }
    j
}

/// A digit run ends at or after where it starts, within the sequence.
proof fn lemma_digits_end_bounds(s: Seq<u8>, i: int)
    requires
        0 <= i <= s.len(),
    ensures
        i <= digits_end(s, i) <= s.len(),
    decreases s.len() - i,
{
    if i < s.len() && is_digit(s[i]) {
        lemma_digits_end_bounds(s, i + 1);
    }
}

/// Scan a JSON number that starts exactly at `i`.
fn scan_number(s: &[u8], i: usize) -> (r: Option<usize>)
    requires
        i <= s@.len(),
    ensures
        match r {
            Some(k) => num_end(s@, i as int) == Some(k as int) && i < k <= s@.len(),
            None => num_end(s@, i as int) is None,
        },
{
    let n: usize = s.len();
    if i >= n {
        return None;
    }
    let j: usize = if s[i] == 45 {
        i + 1
    } else {
        i
    };
    if j >= n {
        return None;
    }
    let cj = s[j];
    if !(48 <= cj && cj <= 57) {
        return None;
    }
    let k: usize = if cj == 48 {
        j + 1
    } else {
        proof {
            lemma_digits_end_bounds(s@, j as int + 1);
        }
        scan_digits(s, j)
    };
    let k2: usize = if k < n && s[k] == 46 {
        let d = scan_digits(s, k + 1);
        if d == k + 1 {
            return None;
        }
        d
    } else {
        k
    };
    if k2 < n && (s[k2] == 101 || s[k2] == 69) {
        let j2: usize = if k2 + 1 < n && (s[k2 + 1] == 43 || s[k2 + 1] == 45) {
            k2 + 2
        } else {
            k2 + 1
        };
        let d = scan_digits(s, j2);
        if d == j2 {
            return None;
        }
        Some(d)
    } else {
        Some(k2)
    }
}

/// Scan one JSON value that starts exactly at `i`, descending at most `d`
/// levels into objects and arrays.
pub fn scan_value(s: &[u8], i: usize, d: u32) -> (r: Option<usize>)
    requires
        i <= s@.len(),
    ensures
        match r {
            Some(k) => value_end(s@, i as int, d as int) == Some(k as int) && i < k
                <= s@.len(),
            None => value_end(s@, i as int, d as int) is None,
        },
    decreases s@.len() - i, 0int,
{
    let n: usize = s.len();
    if i >= n {
        return None;
    }
    let c = s[i];
    if c == QUOTE {
        scan_string(s, i + 1)
    } else if c == LBRACE {
        if d == 0 {
            None
        } else {
            scan_obj_end(s, i + 1, d - 1)
        }
    } else if c == LBRACK {
        if d == 0 {
            None
        } else {
            scan_arr_end(s, i + 1, d - 1)
        }
    } else if c == 116 {
        if n - i >= 4 && s[i + 1] == 114 && s[i + 2] == 117 && s[i + 3] == 101 {
            Some(i + 4)
        } else {
            None
        }
    } else if c == 102 {
        if n - i >= 5 && s[i + 1] == 97 && s[i + 2] == 108 && s[i + 3] == 115 && s[i + 4]
            == 101 {
            Some(i + 5)
        } else {
            None
        }
    } else if c == 110 {
        if n - i >= 4 && s[i + 1] == 117 && s[i + 2] == 108 && s[i + 3] == 108 {
            Some(i + 4)
        } else {
            None
        }
    } else if c == 45 || (48 <= c && c <= 57) {
        scan_number(s, i)
    } else {
        None
    }
}

/// Scan the members of an object from just past its opening brace,
/// descending at most `d` further levels; exec mirror of `obj_end`.
fn scan_obj_end(s: &[u8], i: usize, d: u32) -> (r: Option<usize>)
    requires
        i <= s@.len(),
    ensures
        match r {
            Some(k) => obj_end(s@, i as int, true, d as int) == Some(k as int) && i < k
                <= s@.len(),
            None => obj_end(s@, i as int, true, d as int) is None,
        },
    decreases s@.len() - i, 1int,
{
    let n: usize = s.len();
    let mut j: usize = i;
    let mut first: bool = true;
    loop
        invariant
            i <= j <= n,
            n == s@.len(),
            obj_end(s@, i as int, true, d as int) == obj_end(s@, j as int, first, d as int),
        decreases n - j,
    {
        let j2 = skip_ws(s, j);
        if j2 >= n {
            return None;
        }
        let c = s[j2];
        if first && c == RBRACE {
            return Some(j2 + 1);
        }
        if c != QUOTE {
            return None;
        }
        let k = match scan_string(s, j2 + 1) {
            None => {
                return None;
            },
            Some(k) => k,
        };
        let c2 = skip_ws(s, k);
        if c2 >= n {
            return None;
        }
        if s[c2] != COLON {
            return None;
        }
        let v = skip_ws(s, c2 + 1);
        if v >= n {
            return None;
        }
        let e = match scan_value(s, v, d) {
            None => {
                return None;
            },
            Some(e) => e,
        };
        let t = skip_ws(s, e);
        if t >= n {
            return None;
        }
        let ct = s[t];
        if ct == COMMA {
            j = t + 1;
            first = false;
        } else if ct == RBRACE {
            return Some(t + 1);
        } else {
            return None;
        }
    }
}

/// Scan the elements of an array from just past its opening bracket,
/// descending at most `d` further levels; exec mirror of `arr_end`.
fn scan_arr_end(s: &[u8], i: usize, d: u32) -> (r: Option<usize>)
    requires
        i <= s@.len(),
    ensures
        match r {
            Some(k) => arr_end(s@, i as int, true, d as int) == Some(k as int) && i < k
                <= s@.len(),
            None => arr_end(s@, i as int, true, d as int) is None,
        },
    decreases s@.len() - i, 1int,
{
    let n: usize = s.len();
    let mut j: usize = i;
    let mut first: bool = true;
    loop
        invariant
            i <= j <= n,
            n == s@.len(),
            arr_end(s@, i as int, true, d as int) == arr_end(s@, j as int, first, d as int),
        decreases n - j,
    {
        let j2 = skip_ws(s, j);
        if j2 >= n {
            return None;
        }
        if first && s[j2] == RBRACK {
            return Some(j2 + 1);
        }
        let e = match scan_value(s, j2, d) {
            None => {
                return None;
            },
            Some(e) => e,
        };
        let t = skip_ws(s, e);
        if t >= n {
            return None;
        }
        let ct = s[t];
        if ct == COMMA {
            j = t + 1;
            first = false;
        } else if ct == RBRACK {
            return Some(t + 1);
        } else {
            return None;
        }
    }
}

/// Whether the raw name content `s[a..b]` denotes the ASCII key `key`,
/// with escapes decoded; exec mirror of `key_eq`.
pub fn key_matches(s: &[u8], a: usize, b: usize, key: &[u8]) -> (r: bool)
    requires
        a <= b <= s@.len(),
    ensures
        r == key_eq(s@.subrange(a as int, b as int), key@),
{
    let n: usize = key.len();
    let mut p: usize = a;
    let mut q: usize = 0;
    proof {
        assert(key@.skip(0) =~= key@);
    }
    loop
        invariant
            a <= p <= b <= s@.len(),
            q <= n,
            n == key@.len(),
            key_eq(s@.subrange(a as int, b as int), key@) == key_eq(
                s@.subrange(p as int, b as int),
                key@.skip(q as int),
            ),
        decreases b - p,
    {
        let ghost cur = s@.subrange(p as int, b as int);
        let ghost rest = key@.skip(q as int);
        if p >= b {
            proof {
                assert(cur.len() == 0);
                assert(rest.len() == n - q);
            }
            return q == n;
        }
        proof {
            assert(cur[0] == s@[p as int]);
        }
        let c = s[p];
        if c == BACKSLASH {
            if p + 1 < b && simple_escape_byte(s[p + 1]) {
                proof {
                    assert(cur[1] == s@[p as int + 1]);
                }
                if q < n {
                    let eb = esc_byte(s[p + 1]);
                    if key[q] == eb {
                        proof {
                            assert(rest[0] == key@[q as int]);
                            assert(cur.skip(2) =~= s@.subrange(p as int + 2, b as int));
                            assert(rest.skip(1) =~= key@.skip(q as int + 1));
                        }
                        p = p + 2;
                        q = q + 1;
                    } else {
                        proof {
                            assert(rest[0] == key@[q as int]);
                        }
                        return false;
                    }
                } else {
                    return false;
                }
            } else if b - p > 5 && s[p + 1] == 117 && hex_byte(s[p + 2]) && hex_byte(s[p + 3])
                && hex_byte(s[p + 4]) && hex_byte(s[p + 5]) {
                proof {
                    assert(cur[1] == s@[p as int + 1]);
                    assert(cur[2] == s@[p as int + 2]);
                    assert(cur[3] == s@[p as int + 3]);
                    assert(cur[4] == s@[p as int + 4]);
                    assert(cur[5] == s@[p as int + 5]);
                }
                let hv: u32 = 4096 * (hex_digit(s[p + 2]) as u32) + 256 * (hex_digit(
                    s[p + 3],
                ) as u32) + 16 * (hex_digit(s[p + 4]) as u32) + (hex_digit(s[p + 5]) as u32);
                if q < n && hv < 128 && (key[q] as u32) == hv {
                    proof {
                        assert(rest[0] == key@[q as int]);
                        assert(cur.skip(6) =~= s@.subrange(p as int + 6, b as int));
                        assert(rest.skip(1) =~= key@.skip(q as int + 1));
                    }
                    p = p + 6;
                    q = q + 1;
                } else {
                    proof {
                        if q < n {
                            assert(rest[0] == key@[q as int]);
                        }
                    }
                    return false;
                }
            } else {
                proof {
                    if p as int + 1 < b as int {
                        assert(cur[1] == s@[p as int + 1]);
                    }
                    if p as int + 2 < b as int {
                        assert(cur[2] == s@[p as int + 2]);
                    }
                    if p as int + 3 < b as int {
                        assert(cur[3] == s@[p as int + 3]);
                    }
                    if p as int + 4 < b as int {
                        assert(cur[4] == s@[p as int + 4]);
                    }
                    if p as int + 5 < b as int {
                        assert(cur[5] == s@[p as int + 5]);
                    }
                }
                return false;
            }
        } else {
            if q < n && key[q] == c {
                proof {
                    assert(rest[0] == key@[q as int]);
                    assert(cur.skip(1) =~= s@.subrange(p as int + 1, b as int));
                    assert(rest.skip(1) =~= key@.skip(q as int + 1));
                }
                p = p + 1;
                q = q + 1;
            } else {
                proof {
                    if q < n {
                        assert(rest[0] == key@[q as int]);
                    }
                }
                return false;
            }
        }
    }
}

/// Scan the members of an object, capturing the string value of `key` as a
/// pair of indices into `s`; exec mirror of `obj_scan` started with no
/// capture, just past the opening brace.
pub fn scan_obj(s: &[u8], i: usize, key: &[u8]) -> (r: Option<(Option<(usize, usize)>, usize)>)
    requires
        i <= s@.len(),
    ensures
        match r {
            Some((cap, e)) => i < e <= s@.len() && match cap {
                Some((a, b)) => a <= b <= s@.len() && obj_scan(s@, i as int, key@, None, true)
                    == Some((Some(s@.subrange(a as int, b as int)), e as int)),
                None => obj_scan(s@, i as int, key@, None, true) == Some(
                    (None::<Seq<u8>>, e as int),
                ),
            },
            None => obj_scan(s@, i as int, key@, None, true) is None,
        },
{
    let n: usize = s.len();
    let mut j: usize = i;
    let mut cap: Option<(usize, usize)> = None;
    let mut first: bool = true;
    loop
        invariant
            i <= j <= n,
            n == s@.len(),
            (match cap {
                Some((a, b)) => a <= b <= n,
                None => true,
            }),
            obj_scan(s@, i as int, key@, None, true) == obj_scan(
                s@,
                j as int,
                key@,
                (match cap {
                    Some((a, b)) => Some(s@.subrange(a as int, b as int)),
                    None => None,
                }),
                first,
            ),
        decreases n - j,
    {
        let j2 = skip_ws(s, j);
        if j2 >= n {
            return None;
        }
        let c = s[j2];
        if first && c == RBRACE {
            return Some((cap, j2 + 1));
        }
        if c != QUOTE {
            return None;
        }
        let k = match scan_string(s, j2 + 1) {
            None => {
                return None;
            },
            Some(k) => k,
        };
        let c2 = skip_ws(s, k);
        if c2 >= n {
            return None;
        }
        if s[c2] != COLON {
            return None;
        }
        let v = skip_ws(s, c2 + 1);
        if v >= n {
            return None;
        }
        let name_match = key_matches(s, j2 + 1, k - 1, key);
        let (cap2, e): (Option<(usize, usize)>, usize) = if name_match {
            if s[v] != QUOTE {
                return None;
            }
            match scan_string(s, v + 1) {
                None => {
                    return None;
                },
                Some(e) => (Some((v + 1, e - 1)), e),
            }
        } else {
            match scan_value(s, v, NEST_LIMIT) {
                None => {
                    return None;
                },
                Some(e) => (cap, e),
            }
        };
        let t = skip_ws(s, e);
        if t >= n {
            return None;
        }
        let ct = s[t];
        if ct == COMMA {
            j = t + 1;
            cap = cap2;
            first = false;
        } else if ct == RBRACE {
            return Some((cap2, t + 1));
        } else {
            return None;
        }
    }
}

} // verus!
