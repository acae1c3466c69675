//! The JSON bodies the gateway reads and writes, as functions on bytes.
//!
//! The two request shapes — `{"key": K}` and `{"key": K, "value": V}` with
//! the members in that order — are parsed by a recursive-descent parser whose
//! grammar is stated as spec functions; the response body `{"key":K,"value":V}`
//! is rendered with the same escaping rules. Strings carry the standard JSON
//! escapes for quote, backslash, slash and the control characters; a control
//! byte without a short form renders as a `\u00XX` escape.

use vstd::prelude::*;

verus! {

/// `"`
pub const QUOTE: u8 = 34;

/// `\`
pub const BACKSLASH: u8 = 92;

/// `/`
pub const SLASH: u8 = 47;

/// `{`
pub const LBRACE: u8 = 123;

/// `}`
pub const RBRACE: u8 = 125;

/// `:`
pub const COLON: u8 = 58;

/// `,`
pub const COMMA: u8 = 44;

/// space
pub const SPACE: u8 = 32;

/// horizontal tab
pub const TAB: u8 = 9;

/// line feed
pub const LINEFEED: u8 = 10;

/// carriage return
pub const CARRIAGE: u8 = 13;

/// backspace
pub const BACKSPACE: u8 = 8;

/// form feed
pub const FORMFEED: u8 = 12;

/// `b`
pub const LETTER_B: u8 = 98;

/// `f`
pub const LETTER_F: u8 = 102;

/// `n`
pub const LETTER_N: u8 = 110;

/// `r`
pub const LETTER_R: u8 = 114;

/// `t`
pub const LETTER_T: u8 = 116;

/// `u`
pub const LETTER_U: u8 = 117;

/// The member name `key`.
pub open spec fn key_name() -> Seq<u8> {
    seq![107u8, 101u8, 121u8]
}

/// The member name `value`.
pub open spec fn value_name() -> Seq<u8> {
    seq![118u8, 97u8, 108u8, 117u8, 101u8]
}

/// The lower-case hex digit for a value below sixteen.
pub open spec fn hex_digit(n: u8) -> u8 {
    if n < 10 {
        (48 + n) as u8
    } else {
        (87 + n) as u8
    }
}

/// The rendering of one byte of string content: the two-byte short escapes
/// where JSON has them, a `\u00XX` escape for the remaining control bytes,
/// and the byte itself otherwise.
pub open spec fn escape_byte(b: u8) -> Seq<u8> {
    if b == QUOTE {
        seq![BACKSLASH, QUOTE]
    } else if b == BACKSLASH {
        seq![BACKSLASH, BACKSLASH]
    } else if b == BACKSPACE {
        seq![BACKSLASH, LETTER_B]
    } else if b == FORMFEED {
        seq![BACKSLASH, LETTER_F]
    } else if b == LINEFEED {
        seq![BACKSLASH, LETTER_N]
    } else if b == CARRIAGE {
        seq![BACKSLASH, LETTER_R]
    } else if b == TAB {
        seq![BACKSLASH, LETTER_T]
    } else if b < SPACE {
        seq![BACKSLASH, LETTER_U, 48u8, 48u8, hex_digit(b / 16), hex_digit(b % 16)]
    } else {
        seq![b]
    }
}

/// The rendering of a byte string's content between JSON quotes.
pub open spec fn escaped(s: Seq<u8>) -> Seq<u8>
    decreases s.len(),
{
    if s.len() == 0 {
        Seq::empty()
    } else {
        escaped(s.drop_last()) + escape_byte(s.last())
    }
}

/// A whitespace byte JSON allows between tokens.
pub open spec fn is_ws(b: u8) -> bool {
    b == SPACE || b == TAB || b == LINEFEED || b == CARRIAGE
}

/// The first position at or after `i` holding no whitespace.
pub open spec fn skip_ws(s: Seq<u8>, i: nat) -> nat
    decreases s.len() - i,
{
    if i < s.len() && is_ws(s[i as int]) {
        skip_ws(s, i + 1)
    } else {
        i
    }
}

/// The byte an escape character after a backslash stands for, if the
/// character is one the parser accepts.
pub open spec fn unescape_byte(b: u8) -> Option<u8> {
    if b == QUOTE {
        Some(QUOTE)
    } else if b == BACKSLASH {
        Some(BACKSLASH)
    } else if b == SLASH {
        Some(SLASH)
    } else if b == LETTER_B {
        Some(BACKSPACE)
    } else if b == LETTER_F {
        Some(FORMFEED)
    } else if b == LETTER_N {
        Some(LINEFEED)
    } else if b == LETTER_R {
        Some(CARRIAGE)
    } else if b == LETTER_T {
        Some(TAB)
    } else {
        None
    }
}

/// The value of a hex digit character, either letter case.
pub open spec fn hex_val(b: u8) -> Option<u8> {
    if 48 <= b && b <= 57 {
        Some((b - 48) as u8)
    } else if 97 <= b && b <= 102 {
        Some((b - 87) as u8)
    } else if 65 <= b && b <= 70 {
        Some((b - 55) as u8)
    } else {
        None
    }
}

/// The content and end position of a JSON string whose opening quote stands
/// just before `i`: the unescaped bytes up to the closing quote, and the
/// position after that quote. A `\u00XX` escape below 128 denotes the byte
/// itself, its code point being one byte. `None` on an unterminated string,
/// an escape the parser does not accept, or a raw control byte.
pub open spec fn parse_string_tail(s: Seq<u8>, i: nat) -> Option<(Seq<u8>, nat)>
    decreases s.len() - i,
{
    if i >= s.len() {
        None
    } else if s[i as int] == QUOTE {
        Some((Seq::empty(), (i + 1) as nat))
    } else if s[i as int] == BACKSLASH {
        if i + 1 < s.len() && s[i as int + 1] == LETTER_U {
            if i + 5 < s.len() && s[i as int + 2] == 48 && s[i as int + 3] == 48 {
                match (hex_val(s[i as int + 4]), hex_val(s[i as int + 5])) {
                    (Some(h), Some(l)) => if 16 * h + l < 128 {
                        match parse_string_tail(s, (i + 6) as nat) {
                            Some(p) => Some((seq![(16 * h + l) as u8] + p.0, p.1)),
                            None => None,
                        }
                    } else {
                        None
                    },
                    _ => None,
                }
            } else {
                None
            }
        } else if i + 1 < s.len() {
            match unescape_byte(s[i as int + 1]) {
                Some(b) => match parse_string_tail(s, (i + 2) as nat) {
                    Some(p) => Some((seq![b] + p.0, p.1)),
                    None => None,
                },
                None => None,
            }
        } else {
            None
        }
    } else if s[i as int] < SPACE {
        None
    } else {
        match parse_string_tail(s, (i + 1) as nat) {
            Some(p) => Some((seq![s[i as int]] + p.0, p.1)),
            None => None,
        }
    }
}

/// A JSON string starting at `i`: its content and the position after it.
pub open spec fn parse_string(s: Seq<u8>, i: nat) -> Option<(Seq<u8>, nat)> {
    if i < s.len() && s[i as int] == QUOTE {
        parse_string_tail(s, (i + 1) as nat)
    } else {
        None
    }
}

/// The key of a fetch request body `{"key": K}`, or `None` where the bytes
/// do not form one.
pub open spec fn parse_get_spec(s: Seq<u8>) -> Option<Seq<u8>> {
    let i0 = skip_ws(s, 0);
    if i0 < s.len() && s[i0 as int] == LBRACE {
        match parse_string(s, skip_ws(s, i0 + 1)) {
            Some(nm) => if nm.0 == key_name() {
                let i1 = skip_ws(s, nm.1);
                if i1 < s.len() && s[i1 as int] == COLON {
                    match parse_string(s, skip_ws(s, i1 + 1)) {
                        Some(kv) => {
                            let i2 = skip_ws(s, kv.1);
                            if i2 < s.len() && s[i2 as int] == RBRACE && skip_ws(s, i2 + 1)
                                == s.len() {
                                Some(kv.0)
                            } else {
                                None
                            }
                        },
                        None => None,
                    }
                } else {
                    None
                }
            } else {
                None
            },
            None => None,
        }
    } else {
        None
    }
}

/// The key and value of a store request body `{"key": K, "value": V}`, or
/// `None` where the bytes do not form one.
pub open spec fn parse_set_spec(s: Seq<u8>) -> Option<(Seq<u8>, Seq<u8>)> {
    let i0 = skip_ws(s, 0);
    if i0 < s.len() && s[i0 as int] == LBRACE {
        match parse_string(s, skip_ws(s, i0 + 1)) {
            Some(nm) => if nm.0 == key_name() {
                let i1 = skip_ws(s, nm.1);
                if i1 < s.len() && s[i1 as int] == COLON {
                    match parse_string(s, skip_ws(s, i1 + 1)) {
                        Some(kv) => {
                            let i2 = skip_ws(s, kv.1);
                            if i2 < s.len() && s[i2 as int] == COMMA {
                                match parse_string(s, skip_ws(s, i2 + 1)) {
                                    Some(nm2) => if nm2.0 == value_name() {
                                        let i3 = skip_ws(s, nm2.1);
                                        if i3 < s.len() && s[i3 as int] == COLON {
                                            match parse_string(s, skip_ws(s, i3 + 1)) {
                                                Some(vv) => {
                                                    let i4 = skip_ws(s, vv.1);
                                                    if i4 < s.len() && s[i4 as int] == RBRACE
                                                        && skip_ws(s, i4 + 1) == s.len() {
                                                        Some((kv.0, vv.0))
                                                    } else {
                                                        None
                                                    }
                                                },
                                                None => None,
                                            }
                                        } else {
                                            None
                                        }
                                    } else {
                                        None
                                    },
                                    None => None,
                                }
                            } else {
                                None
                            }
                        },
                        None => None,
                    }
                } else {
                    None
                }
            } else {
                None
            },
            None => None,
        }
    } else {
        None
    }
}

/// `{"key":"`, the opening of the fetch response body.
pub open spec fn get_body_head() -> Seq<u8> {
    seq![LBRACE, QUOTE, 107u8, 101u8, 121u8, QUOTE, COLON, QUOTE]
}

/// `","value":"`, between the two members of the fetch response body.
pub open spec fn get_body_mid() -> Seq<u8> {
    seq![QUOTE, COMMA, QUOTE, 118u8, 97u8, 108u8, 117u8, 101u8, QUOTE, COLON, QUOTE]
}

/// `"}`, the closing of the fetch response body.
pub open spec fn get_body_tail() -> Seq<u8> {
    seq![QUOTE, RBRACE]
}

/// The fetch response body `{"key":K,"value":V}`, both members rendered as
/// JSON strings.
pub open spec fn get_body(k: Seq<u8>, v: Seq<u8>) -> Seq<u8> {
    get_body_head() + escaped(k) + get_body_mid() + escaped(v) + get_body_tail()
}

/// The lower-case hex digit for a value below sixteen.
fn hex_digit_exec(n: u8) -> (r: u8)
    requires
        n < 16,
    ensures
        r == hex_digit(n),
{
    if n < 10 {
        48 + n
    } else {
        87 + n
    }
}

/// Append the rendering of one byte of string content.
fn push_escape_byte(out: &mut Vec<u8>, b: u8)
    ensures
        final(out)@ == old(out)@ + escape_byte(b),
{
    if b == QUOTE {
        out.push(BACKSLASH);
        out.push(QUOTE);
    } else if b == BACKSLASH {
        out.push(BACKSLASH);
        out.push(BACKSLASH);
    } else if b == BACKSPACE {
        out.push(BACKSLASH);
        out.push(LETTER_B);
    } else if b == FORMFEED {
        out.push(BACKSLASH);
        out.push(LETTER_F);
    } else if b == LINEFEED {
        out.push(BACKSLASH);
        out.push(LETTER_N);
    } else if b == CARRIAGE {
        out.push(BACKSLASH);
        out.push(LETTER_R);
    } else if b == TAB {
        out.push(BACKSLASH);
        out.push(LETTER_T);
    } else if b < SPACE {
        out.push(BACKSLASH);
        out.push(LETTER_U);
        out.push(48);
        out.push(48);
        out.push(hex_digit_exec(b / 16));
        out.push(hex_digit_exec(b % 16));
    } else {
        out.push(b);
    }
    proof {
        assert(out@ =~= old(out)@ + escape_byte(b));
    }
}

/// Append the escaped rendering of a byte string's content.
pub fn push_escaped(out: &mut Vec<u8>, s: &Vec<u8>)
    ensures
        final(out)@ == old(out)@ + escaped(s@),
{
    proof {
        assert(out@ =~= old(out)@ + escaped(s@.take(0)));
    }
    let mut i: usize = 0;
    while i < s.len()
        invariant
            i <= s@.len(),
            out@ == old(out)@ + escaped(s@.take(i as int)),
        decreases s@.len() - i,
    {
        push_escape_byte(out, s[i]);
        proof {
            assert(s@.take(i + 1).drop_last() =~= s@.take(i as int));
            assert(s@.take(i + 1).last() == s@[i as int]);
            assert((old(out)@ + escaped(s@.take(i as int))) + escape_byte(s@[i as int]) =~= old(
                out,
            )@ + escaped(s@.take(i + 1)));
        }
        i += 1;
    }
    proof {
        assert(s@.take(s@.len() as int) =~= s@);
    }
}

/// Append the opening of the fetch response body.
fn push_get_body_head(out: &mut Vec<u8>)
    ensures
        final(out)@ == old(out)@ + get_body_head(),
{
    out.push(LBRACE);
    out.push(QUOTE);
    out.push(107);
    out.push(101);
    out.push(121);
    out.push(QUOTE);
    out.push(COLON);
    out.push(QUOTE);
    proof {
        assert(out@ =~= old(out)@ + get_body_head());
    }
}

/// Append the middle of the fetch response body.
fn push_get_body_mid(out: &mut Vec<u8>)
    ensures
        final(out)@ == old(out)@ + get_body_mid(),
{
    out.push(QUOTE);
    out.push(COMMA);
    out.push(QUOTE);
    out.push(118);
    out.push(97);
    out.push(108);
    out.push(117);
    out.push(101);
    out.push(QUOTE);
    out.push(COLON);
    out.push(QUOTE);
    proof {
        assert(out@ =~= old(out)@ + get_body_mid());
    }
}

/// The fetch response body for a key and the value fetched for it.
pub fn render_get_body(key: &Vec<u8>, value: &Vec<u8>) -> (r: Vec<u8>)
    ensures
        r@ == get_body(key@, value@),
{
    let mut out: Vec<u8> = Vec::new();
    push_get_body_head(&mut out);
    push_escaped(&mut out, key);
    push_get_body_mid(&mut out);
    push_escaped(&mut out, value);
    out.push(QUOTE);
    out.push(RBRACE);
    proof {
        assert(out@ =~= get_body(key@, value@));
    }
    out
}

/// Whether a byte is whitespace JSON allows between tokens.
fn is_ws_exec(b: u8) -> (r: bool)
    ensures
        r == is_ws(b),
{
    b == SPACE || b == TAB || b == LINEFEED || b == CARRIAGE
}

/// The first position at or after `i` holding no whitespace.
fn skip_ws_exec(s: &Vec<u8>, i: usize) -> (r: usize)
    requires
        i <= s@.len(),
    ensures
        r == skip_ws(s@, i as nat),
        i <= r <= s@.len(),
{
    let mut j = i;
    while j < s.len() && is_ws_exec(s[j])
        invariant
            i <= j <= s@.len(),
            skip_ws(s@, i as nat) == skip_ws(s@, j as nat),
        decreases s@.len() - j,
    {
        j += 1;
    }
    j
}

/// The value of a hex digit character, either letter case.
fn hex_val_exec(b: u8) -> (r: Option<u8>)
    ensures
        r == hex_val(b),
        r matches Some(h) ==> h < 16,
{
    if 48 <= b && b <= 57 {
        Some(b - 48)
    } else if 97 <= b && b <= 102 {
        Some(b - 87)
    } else if 65 <= b && b <= 70 {
        Some(b - 55)
    } else {
        None
    }
}

/// The byte an accepted escape character stands for.
fn unescape_byte_exec(b: u8) -> (r: Option<u8>)
    ensures
        r == unescape_byte(b),
{
    if b == QUOTE {
        Some(QUOTE)
    } else if b == BACKSLASH {
        Some(BACKSLASH)
    } else if b == SLASH {
        Some(SLASH)
    } else if b == LETTER_B {
        Some(BACKSPACE)
    } else if b == LETTER_F {
        Some(FORMFEED)
    } else if b == LETTER_N {
        Some(LINEFEED)
    } else if b == LETTER_R {
        Some(CARRIAGE)
    } else if b == LETTER_T {
        Some(TAB)
    } else {
        None
    }
}

/// `r` with `a` prepended to its content, when it parsed.
pub open spec fn prepended(a: Seq<u8>, r: Option<(Seq<u8>, nat)>) -> Option<(Seq<u8>, nat)> {
    match r {
        Some(p) => Some((a + p.0, p.1)),
        None => None,
    }
}

/// A JSON string starting at `i`: its unescaped content and the position
/// after its closing quote.
fn parse_string_exec(s: &Vec<u8>, i: usize) -> (r: Option<(Vec<u8>, usize)>)
    requires
        i <= s@.len(),
    ensures
        (match r {
            Some(p) => parse_string(s@, i as nat) == Some((p.0@, p.1 as nat)) && i < p.1 <= s@.len(),
            None => parse_string(s@, i as nat) is None,
        }),
{
    if i >= s.len() {
        return None;
    }
    if s[i] != QUOTE {
        return None;
    }
    let mut j = i + 1;
    let mut acc: Vec<u8> = Vec::new();
    loop
        invariant
            i < s@.len(),
            s@[i as int] == QUOTE,
            i + 1 <= j <= s@.len(),
            prepended(acc@, parse_string_tail(s@, j as nat)) == parse_string_tail(
                s@,
                (i + 1) as nat,
            ),
        decreases s@.len() - j,
    {
        if j >= s.len() {
            return None;
        }
        let b = s[j];
        if b == QUOTE {
            proof {
                assert(parse_string_tail(s@, j as nat) == Some(
                    (Seq::<u8>::empty(), (j + 1) as nat),
                ));
                assert(acc@ + Seq::<u8>::empty() =~= acc@);
                assert(parse_string_tail(s@, (i + 1) as nat) == Some((acc@, (j + 1) as nat)));
                assert(parse_string(s@, i as nat) == Some((acc@, (j + 1) as nat)));
            }
            return Some((acc, j + 1));
        } else if b == BACKSLASH {
            if j + 1 >= s.len() {
                return None;
            }
            if s[j + 1] == LETTER_U {
                if s.len() - j <= 5 {
                    return None;
                }
                if s[j + 2] != 48 || s[j + 3] != 48 {
                    return None;
                }
                let h = match hex_val_exec(s[j + 4]) {
                    None => {
                        return None;
                    },
                    Some(h) => h,
                };
                let l = match hex_val_exec(s[j + 5]) {
                    None => {
                        return None;
                    },
                    Some(l) => l,
                };
                let u = 16 * h + l;
                if u >= 128 {
                    return None;
                }
                proof {
                    match parse_string_tail(s@, (j + 6) as nat) {
                        Some(p) => {
                            assert(acc@ + (seq![u] + p.0) =~= acc@.push(u) + p.0);
                        },
                        None => {},
                    }
                }
                acc.push(u);
                j += 6;
            } else {
                match unescape_byte_exec(s[j + 1]) {
                    None => {
                        return None;
                    },
                    Some(u) => {
                        proof {
                            match parse_string_tail(s@, (j + 2) as nat) {
                                Some(p) => {
                                    assert(acc@ + (seq![u] + p.0) =~= acc@.push(u) + p.0);
                                },
                                None => {},
                            }
                        }
                        acc.push(u);
                        j += 2;
                    },
                }
            }
        } else if b < SPACE {
            return None;
        } else {
            proof {
                match parse_string_tail(s@, (j + 1) as nat) {
                    Some(p) => {
                        assert(acc@ + (seq![b] + p.0) =~= acc@.push(b) + p.0);
                    },
                    None => {},
                }
            }
            acc.push(b);
            j += 1;
        }
    }
}

/// Whether a parsed member name is `key`.
fn is_key_name(v: &Vec<u8>) -> (r: bool)
    ensures
        r == (v@ == key_name()),
{
    if v.len() == 3 && v[0] == 107 && v[1] == 101 && v[2] == 121 {
        proof {
            assert(v@ =~= key_name());
        }
        true
    } else {
        false
    }
}

/// Whether a parsed member name is `value`.
fn is_value_name(v: &Vec<u8>) -> (r: bool)
    ensures
        r == (v@ == value_name()),
{
    if v.len() == 5 && v[0] == 118 && v[1] == 97 && v[2] == 108 && v[3] == 117 && v[4] == 101 {
        proof {
            assert(v@ =~= value_name());
        }
        true
    } else {
        false
    }
}

/// The key of a fetch request body, or `None` where the bytes do not form
/// one.
pub fn parse_get_body(s: &Vec<u8>) -> (r: Option<Vec<u8>>)
    ensures
        (match r {
            Some(k) => parse_get_spec(s@) == Some(k@),
            None => parse_get_spec(s@) is None,
        }),
{
    let i0 = skip_ws_exec(s, 0);
    if i0 >= s.len() {
        return None;
    }
    if s[i0] != LBRACE {
        return None;
    }
    let i1 = skip_ws_exec(s, i0 + 1);
    let nm = match parse_string_exec(s, i1) {
        None => {
            return None;
        },
        Some(p) => p,
    };
    if !is_key_name(&nm.0) {
        return None;
    }
    let i2 = skip_ws_exec(s, nm.1);
    if i2 >= s.len() {
        return None;
    }
    if s[i2] != COLON {
        return None;
    }
    let i3 = skip_ws_exec(s, i2 + 1);
    let kv = match parse_string_exec(s, i3) {
        None => {
            return None;
        },
        Some(p) => p,
    };
    let i4 = skip_ws_exec(s, kv.1);
    if i4 >= s.len() {
        return None;
    }
    if s[i4] != RBRACE {
        return None;
    }
    if skip_ws_exec(s, i4 + 1) != s.len() {
        return None;
    }
    Some(kv.0)
}

/// The key and value of a store request body, or `None` where the bytes do
/// not form one.
pub fn parse_set_body(s: &Vec<u8>) -> (r: Option<(Vec<u8>, Vec<u8>)>)
    ensures
        (match r {
            Some(p) => parse_set_spec(s@) == Some((p.0@, p.1@)),
            None => parse_set_spec(s@) is None,
        }),
{
    let i0 = skip_ws_exec(s, 0);
    if i0 >= s.len() {
        return None;
    }
    if s[i0] != LBRACE {
        return None;
    }
    let i1 = skip_ws_exec(s, i0 + 1);
    let nm = match parse_string_exec(s, i1) {
        None => {
            return None;
        },
        Some(p) => p,
    };
    if !is_key_name(&nm.0) {
        return None;
    }
    let i2 = skip_ws_exec(s, nm.1);
    if i2 >= s.len() {
        return None;
    }
    if s[i2] != COLON {
        return None;
    }
    let i3 = skip_ws_exec(s, i2 + 1);
    let kv = match parse_string_exec(s, i3) {
        None => {
            return None;
        },
        Some(p) => p,
    };
    let i4 = skip_ws_exec(s, kv.1);
    if i4 >= s.len() {
        return None;
    }
    if s[i4] != COMMA {
        return None;
    }
    let i5 = skip_ws_exec(s, i4 + 1);
    let nm2 = match parse_string_exec(s, i5) {
        None => {
            return None;
        },
        Some(p) => p,
    };
    if !is_value_name(&nm2.0) {
        return None;
    }
    let i6 = skip_ws_exec(s, nm2.1);
    if i6 >= s.len() {
        return None;
    }
    if s[i6] != COLON {
        return None;
    }
    let i7 = skip_ws_exec(s, i6 + 1);
    let vv = match parse_string_exec(s, i7) {
        None => {
            return None;
        },
        Some(p) => p,
    };
    let i8 = skip_ws_exec(s, vv.1);
    if i8 >= s.len() {
        return None;
    }
    if s[i8] != RBRACE {
        return None;
    }
    if skip_ws_exec(s, i8 + 1) != s.len() {
        return None;
    }
    Some((kv.0, vv.0))
}

/// The escaping of a non-empty byte string is the escaping of its first byte
/// followed by the escaping of the rest.
proof fn lemma_escaped_head(s: Seq<u8>)
    requires
        s.len() > 0,
    ensures
        escaped(s) == escape_byte(s[0]) + escaped(s.subrange(1, s.len() as int)),
    decreases s.len(),
{
    if s.len() == 1 {
        assert(s.drop_last() =~= Seq::<u8>::empty());
        assert(s.subrange(1, 1) =~= Seq::<u8>::empty());
        assert(escaped(s) =~= escape_byte(s[0]) + escaped(s.subrange(1, 1)));
    } else {
        let s1 = s.subrange(1, s.len() as int);
        lemma_escaped_head(s.drop_last());
        assert(s.drop_last()[0] == s[0]);
        assert(s.drop_last().subrange(1, s.len() - 1) =~= s1.drop_last());
        assert(s1.last() == s.last());
        assert((escape_byte(s[0]) + escaped(s1.drop_last())) + escape_byte(s.last()) =~= escape_byte(
            s[0],
        ) + (escaped(s1.drop_last()) + escape_byte(s1.last())));
    }
}

/// Escaping leaves a byte string without quotes, backslashes or control
/// bytes unchanged.
proof fn lemma_escaped_plain(s: Seq<u8>)
    requires
        forall|j: int| 0 <= j < s.len() ==> SPACE <= s[j] && s[j] != QUOTE && s[j] != BACKSLASH,
    ensures
        escaped(s) == s,
    decreases s.len(),
{
    if s.len() == 0 {
        assert(escaped(s) =~= s);
    } else {
        lemma_escaped_plain(s.drop_last());
        assert(escape_byte(s.last()) =~= seq![s.last()]);
        assert(s.drop_last() + seq![s.last()] =~= s);
    }
}

/// Parsing from just after an opening quote recovers exactly the bytes whose
/// escaped rendering stands there, and ends just past the closing quote,
/// whatever follows it.
#[verifier::rlimit(100)]
#[verifier::spinoff_prover]
proof fn lemma_parse_escaped(full: Seq<u8>, s: Seq<u8>, i: nat, rest: Seq<u8>)
    requires
        i <= full.len(),
        full.subrange(i as int, full.len() as int) == escaped(s) + seq![QUOTE] + rest,
    ensures
        parse_string_tail(full, i) == Some((s, (i + escaped(s).len() + 1) as nat)),
    decreases s.len(),
{
    let suff = full.subrange(i as int, full.len() as int);
    assert(forall|j: int| 0 <= j < suff.len() ==> suff[j] == full[i + j]);
    if s.len() == 0 {
        assert(escaped(s) =~= Seq::<u8>::empty());
        assert(suff[0] == QUOTE);
        assert(full[i as int] == QUOTE);
        assert(s =~= Seq::<u8>::empty());
    } else {
        lemma_escaped_head(s);
        let b = s[0];
        let e = escape_byte(b);
        let s1 = s.subrange(1, s.len() as int);
        let k = e.len() as int;
        assert(escaped(s) == e + escaped(s1));
        assert(escaped(s).len() == k + escaped(s1).len());
        assert(suff.len() == escaped(s).len() + 1 + rest.len());
        assert forall|j: int| 0 <= j < k implies full[i + j] == e[j] by {
            assert(suff[j] == full[i + j]);
            assert(suff[j] == (escaped(s) + seq![QUOTE] + rest)[j]);
            assert((escaped(s) + seq![QUOTE] + rest)[j] == escaped(s)[j]);
            assert(escaped(s)[j] == (e + escaped(s1))[j]);
            assert((e + escaped(s1))[j] == e[j]);
        }
        assert forall|j: int|
            0 <= j < suff.len() - k implies full[i + k + j] == (escaped(s1) + seq![QUOTE]
            + rest).index(j) by {
            assert(suff[k + j] == full[i + (k + j)]);
            assert(suff[k + j] == (escaped(s) + seq![QUOTE] + rest)[k + j]);
            if j < escaped(s1).len() {
                assert((escaped(s) + seq![QUOTE] + rest)[k + j] == escaped(s)[k + j]);
                assert(escaped(s)[k + j] == (e + escaped(s1))[k + j]);
                assert((e + escaped(s1))[k + j] == escaped(s1)[j]);
                assert((escaped(s1) + seq![QUOTE] + rest)[j] == escaped(s1)[j]);
            } else if j == escaped(s1).len() {
                assert((escaped(s) + seq![QUOTE] + rest)[k + j] == QUOTE);
                assert((escaped(s1) + seq![QUOTE] + rest)[j] == QUOTE);
            } else {
                assert((escaped(s) + seq![QUOTE] + rest)[k + j] == rest[j - escaped(s1).len() - 1]);
                assert((escaped(s1) + seq![QUOTE] + rest)[j] == rest[j - escaped(s1).len() - 1]);
            }
        }
        assert(full.subrange(i + k, full.len() as int) =~= escaped(s1) + seq![QUOTE] + rest);
        lemma_parse_escaped(full, s1, (i + k) as nat, rest);
        assert(seq![b] + s1 =~= s);
        if b == QUOTE || b == BACKSLASH || b == BACKSPACE || b == FORMFEED || b == LINEFEED || b
            == CARRIAGE || b == TAB {
            // a two-byte escape: a backslash and a code that is not `u`
            assert(k == 2);
            assert(full[i as int] == BACKSLASH);
            assert(unescape_byte(full[i as int + 1]) == Some(b));
            assert(parse_string_tail(full, i) == Some((s, (i + escaped(s).len() + 1) as nat)));
        } else if b < SPACE {
            // a six-byte `\u00XX` escape
            assert(k == 6);
            assert(full[i as int] == BACKSLASH);
            assert(full[i as int + 1] == LETTER_U);
            assert(full[i as int + 2] == 48);
            assert(full[i as int + 3] == 48);
            assert(hex_val(full[i as int + 4]) == Some((b / 16) as u8));
            assert(hex_val(full[i as int + 5]) == Some((b % 16) as u8));
            assert(16 * (b / 16) + (b % 16) == b) by (bit_vector);
            assert(parse_string_tail(full, i) == Some((s, (i + escaped(s).len() + 1) as nat)));
        } else {
            // a plain byte
            assert(k == 1);
            assert(full[i as int] == b);
            assert(parse_string_tail(full, i) == Some((s, (i + escaped(s).len() + 1) as nat)));
        }
    }
}

/// Rendering a fetch response for a key and value and parsing it back as a
/// store request body recovers exactly that key and value, whatever bytes
/// they hold: the response rendering and the request parser are inverses on
/// the shape they share.
#[verifier::rlimit(100)]
pub proof fn lemma_render_parse_round_trip(k: Seq<u8>, v: Seq<u8>)
    ensures
        parse_set_spec(get_body(k, v)) == Some((k, v)),
{
    let full = get_body(k, v);
    let e1 = escaped(k);
    let e2 = escaped(v);
    let n = full.len() as int;
    assert(full.len() == 21 + e1.len() + e2.len());
    lemma_escaped_plain(key_name());
    lemma_escaped_plain(value_name());

    // the opening brace
    assert(full[0] == LBRACE);
    assert(skip_ws(full, 0) == 0);
    // the member name `key`
    assert(full[1] == QUOTE);
    assert(skip_ws(full, 1) == 1);
    assert(full.subrange(2, n) =~= key_name() + seq![QUOTE] + full.subrange(6, n));
    lemma_parse_escaped(full, key_name(), 2, full.subrange(6, n));
    assert(parse_string(full, 1) == Some((key_name(), 6nat)));
    // the colon and the key content
    assert(full[6] == COLON);
    assert(skip_ws(full, 6) == 6);
    assert(full[7] == QUOTE);
    assert(skip_ws(full, 7) == 7);
    assert(full.subrange(8, n) =~= e1 + seq![QUOTE] + full.subrange(9 + e1.len() as int, n));
    lemma_parse_escaped(full, k, 8, full.subrange(9 + e1.len() as int, n));
    assert(parse_string(full, 7) == Some((k, (9 + e1.len()) as nat)));
    let c: int = 9 + e1.len() as int;
    // the comma and the member name `value`
    assert(full[c] == COMMA);
    assert(skip_ws(full, c as nat) == c);
    assert(full[c + 1] == QUOTE);
    assert(skip_ws(full, (c + 1) as nat) == c + 1);
    assert(full.subrange(c + 2, n) =~= value_name() + seq![QUOTE] + full.subrange(c + 8, n));
    lemma_parse_escaped(full, value_name(), (c + 2) as nat, full.subrange(c + 8, n));
    assert(parse_string(full, (c + 1) as nat) == Some((value_name(), (c + 8) as nat)));
    // the colon and the value content
    assert(full[c + 8] == COLON);
    assert(skip_ws(full, (c + 8) as nat) == c + 8);
    assert(full[c + 9] == QUOTE);
    assert(skip_ws(full, (c + 9) as nat) == c + 9);
    assert(full.subrange(c + 10, n) =~= e2 + seq![QUOTE] + full.subrange(n - 1, n));
    lemma_parse_escaped(full, v, (c + 10) as nat, full.subrange(n - 1, n));
    assert(parse_string(full, (c + 9) as nat) == Some((v, (n - 1) as nat)));
    // the closing brace ends the input
    assert(full[n - 1] == RBRACE);
    assert(skip_ws(full, (n - 1) as nat) == n - 1);
    assert(skip_ws(full, n as nat) == n);
}

} // verus!
