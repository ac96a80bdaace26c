//! The frame grammar: a JSON tree, a serializer that writes the canonical
//! form the host expects, and a parser for the frames the host sends.
//! Both directions are specified against the same spec-level functions.

use vstd::prelude::*;
use crate::util::{string_from_chars, char_from_u32, valid_code_point};

verus! {

#[derive(Debug)]
pub enum Json {
    Null,
    Bool(bool),
    /// A raw number token, kept as its wire text.
    Num(String),
    Str(String),
    Arr(Vec<Json>),
    Obj(Vec<(String, Json)>),
}

pub enum JsonV {
    Null,
    Bool(bool),
    Num(Seq<char>),
    Str(Seq<char>),
    Arr(Seq<JsonV>),
    Obj(Seq<(Seq<char>, JsonV)>),
}

pub open spec fn json_view(j: Json) -> JsonV
    decreases j, 0int,
{
    match j {
        Json::Null => JsonV::Null,
        Json::Bool(b) => JsonV::Bool(b),
        Json::Num(s) => JsonV::Num(s@),
        Json::Str(s) => JsonV::Str(s@),
        Json::Arr(v) => JsonV::Arr(json_view_elems(v, 0)),
        Json::Obj(ps) => JsonV::Obj(json_view_pairs(ps, 0)),
    }
}

pub open spec fn json_view_elems(v: Vec<Json>, i: int) -> Seq<JsonV>
    decreases v, v.len() - i,
{
    if i < 0 || i >= v.len() {
        Seq::empty()
    } else {
        seq![json_view(v[i])] + json_view_elems(v, i + 1)
    }
}

pub open spec fn json_view_pairs(ps: Vec<(String, Json)>, i: int) -> Seq<(Seq<char>, JsonV)>
    decreases ps, ps.len() - i,
{
    if i < 0 || i >= ps.len() {
        Seq::empty()
    } else {
        seq![(ps[i].0@, json_view(ps[i].1))] + json_view_pairs(ps, i + 1)
    }
}

impl View for Json {
    type V = JsonV;

    open spec fn view(&self) -> JsonV {
        json_view(*self)
    }
}

// ---------------------------------------------------------------------------
// Characters
// ---------------------------------------------------------------------------

pub open spec fn is_ws(c: char) -> bool {
    c == ' ' || c == '\t' || c == '\n' || c == '\r'
}

pub open spec fn is_digit(c: char) -> bool {
    '0' <= c && c <= '9'
}

/// Characters that may occur in a JSON number token.
pub open spec fn is_num_char(c: char) -> bool {
    is_digit(c) || c == '-' || c == '+' || c == '.' || c == 'e' || c == 'E'
}

pub open spec fn digit_char(d: int) -> char {
    if d == 0 { '0' } else if d == 1 { '1' } else if d == 2 { '2' } else if d == 3 { '3' }
    else if d == 4 { '4' } else if d == 5 { '5' } else if d == 6 { '6' } else if d == 7 { '7' }
    else if d == 8 { '8' } else { '9' }
}

pub open spec fn digit_val(c: char) -> int {
    c as int - '0' as int
}

pub open spec fn hex_char(d: int) -> char {
    if d < 10 { digit_char(d) }
    else if d == 10 { 'a' } else if d == 11 { 'b' } else if d == 12 { 'c' }
    else if d == 13 { 'd' } else if d == 14 { 'e' } else { 'f' }
}

pub open spec fn hex_val(c: char) -> Option<u32> {
    if is_digit(c) { Some((c as u32 - '0' as u32) as u32) }
    else if 'a' <= c && c <= 'f' { Some((c as u32 - 'a' as u32 + 10) as u32) }
    else if 'A' <= c && c <= 'F' { Some((c as u32 - 'A' as u32 + 10) as u32) }
    else { None }
}

// ---------------------------------------------------------------------------
// Unsigned decimal numbers
// ---------------------------------------------------------------------------

/// The canonical decimal digits of a non-negative number.
pub open spec fn spec_u64_str(n: int) -> Seq<char>
    decreases n,
{
    if n < 10 {
        seq![digit_char(if n < 0 { 0 } else { n })]
    } else {
        spec_u64_str(n / 10) + seq![digit_char(n % 10)]
    }
}

/// The value of a digit string, read left to right.
pub open spec fn spec_digits_val(s: Seq<char>) -> int
    decreases s.len(),
{
    if s.len() == 0 {
        0
    } else {
        spec_digits_val(s.drop_last()) * 10 + digit_val(s.last())
    }
}

pub open spec fn all_digits(s: Seq<char>) -> bool {
    forall|i: int| 0 <= i < s.len() ==> is_digit(#[trigger] s[i])
}

/// A number token that denotes a `u64`: all digits, no redundant leading
/// zero, and within range.
pub open spec fn spec_parse_u64(s: Seq<char>) -> Option<u64> {
    if s.len() > 0 && all_digits(s) && (s.len() == 1 || s[0] != '0')
        && spec_digits_val(s) <= u64::MAX {
        Some(spec_digits_val(s) as u64)
    } else {
        None
    }
}

// ---------------------------------------------------------------------------
// String escaping
// ---------------------------------------------------------------------------

pub open spec fn escape_char(c: char) -> Seq<char> {
    if c == '"' { seq!['\\', '"'] }
    else if c == '\\' { seq!['\\', '\\'] }
    else if c == '\n' { seq!['\\', 'n'] }
    else if c == '\r' { seq!['\\', 'r'] }
    else if c == '\t' { seq!['\\', 't'] }
    else if (c as u32) < 0x20 {
        seq!['\\', 'u', '0', '0', hex_char((c as u32 / 16) as int), hex_char((c as u32 % 16) as int)]
    } else {
        seq![c]
    }
}

pub open spec fn escape(s: Seq<char>) -> Seq<char>
    decreases s.len(),
{
    if s.len() == 0 {
        Seq::empty()
    } else {
        escape_char(s[0]) + escape(s.drop_first())
    }
}

/// The named single-character escapes.
pub open spec fn unescape_char(e: char) -> Option<char> {
    if e == '"' { Some('"') }
    else if e == '\\' { Some('\\') }
    else if e == '/' { Some('/') }
    else if e == 'n' { Some('\n') }
    else if e == 't' { Some('\t') }
    else if e == 'r' { Some('\r') }
    else if e == 'b' { Some('\u{8}') }
    else if e == 'f' { Some('\u{c}') }
    else { None }
}


/// Escaping changes nothing in a string without quotes, backslashes or
/// control characters.
pub proof fn lemma_escape_plain(s: Seq<char>)
    requires
        forall|i: int|
            0 <= i < s.len() ==> (#[trigger] s[i]) != '"' && s[i] != '\\' && s[i] as u32 >= 0x20,
    ensures
        escape(s) == s,
    decreases s.len(),
{
    if s.len() > 0 {
        assert(s[0] != '\n' && s[0] != '\r' && s[0] != '\t');
        assert(escape_char(s[0]) =~= seq![s[0]]);
        assert(forall|i: int|
            0 <= i < s.drop_first().len() ==> (#[trigger] s.drop_first()[i]) == s[i + 1]);
        lemma_escape_plain(s.drop_first());
        assert(escape(s) =~= s);
    } else {
        assert(escape(s) =~= s);
    }
}

// ---------------------------------------------------------------------------
// Spec serializer: the canonical wire form (no added whitespace)
// ---------------------------------------------------------------------------

pub open spec fn spec_ser(v: JsonV) -> Seq<char>
    decreases v, 0int,
{
    match v {
        JsonV::Null => seq!['n', 'u', 'l', 'l'],
        JsonV::Bool(b) => if b { seq!['t', 'r', 'u', 'e'] } else { seq!['f', 'a', 'l', 's', 'e'] },
        JsonV::Num(s) => s,
        JsonV::Str(s) => seq!['"'] + escape(s) + seq!['"'],
        JsonV::Arr(els) => seq!['['] + spec_ser_elems(els, 0) + seq![']'],
        JsonV::Obj(ps) => seq!['{'] + spec_ser_pairs(ps, 0) + seq!['}'],
    }
}

pub open spec fn spec_ser_elems(els: Seq<JsonV>, i: int) -> Seq<char>
    decreases els, els.len() - i,
{
    if i < 0 || i >= els.len() {
        Seq::empty()
    } else if i == els.len() - 1 {
        spec_ser(els[i])
    } else {
        spec_ser(els[i]) + seq![','] + spec_ser_elems(els, i + 1)
    }
}

pub open spec fn spec_ser_pairs(ps: Seq<(Seq<char>, JsonV)>, i: int) -> Seq<char>
    decreases ps, ps.len() - i,
{
    if i < 0 || i >= ps.len() {
        Seq::empty()
    } else {
        let one = seq!['"'] + escape(ps[i].0) + seq!['"', ':'] + spec_ser(ps[i].1);
        if i == ps.len() - 1 {
            one
        } else {
            one + seq![','] + spec_ser_pairs(ps, i + 1)
        }
    }
}

// ---------------------------------------------------------------------------
// Spec parser
// ---------------------------------------------------------------------------

pub open spec fn skip_ws(s: Seq<char>) -> Seq<char>
    decreases s.len(),
{
    if s.len() > 0 && is_ws(s[0]) {
        skip_ws(s.drop_first())
    } else {
        s
    }
}

/// Length of the maximal prefix of number characters.
pub open spec fn scan_num(s: Seq<char>) -> int
    decreases s.len(),
{
    if s.len() > 0 && is_num_char(s[0]) {
        1 + scan_num(s.drop_first())
    } else {
        0
    }
}


/// Length of the run of digits starting at `i`.
pub open spec fn digits_run(s: Seq<char>, i: int) -> int
    decreases s.len() - i,
{
    if 0 <= i < s.len() && is_digit(s[i]) {
        1 + digits_run(s, i + 1)
    } else {
        0
    }
}

/// The JSON number grammar: an optional sign, an integer part without a
/// redundant leading zero, an optional fraction, an optional exponent.
pub open spec fn is_json_number(s: Seq<char>) -> bool {
    let i0: int = if s.len() > 0 && s[0] == '-' {
        1
    } else {
        0
    };
    let di = digits_run(s, i0);
    &&& di > 0
    &&& (di == 1 || s[i0] != '0')
    &&& {
        let i1 = i0 + di;
        let i2: int = if i1 < s.len() && s[i1] == '.' {
            let fd = digits_run(s, i1 + 1);
            if fd > 0 {
                i1 + 1 + fd
            } else {
                -1
            }
        } else {
            i1
        };
        &&& i2 >= 0
        &&& {
            let i3: int = if i2 < s.len() && (s[i2] == 'e' || s[i2] == 'E') {
                let j: int = if i2 + 1 < s.len() && (s[i2 + 1] == '+' || s[i2 + 1] == '-') {
                    i2 + 2
                } else {
                    i2 + 1
                };
                let ed = digits_run(s, j);
                if ed > 0 {
                    j + ed
                } else {
                    -1
                }
            } else {
                i2
            };
            i3 == s.len()
        }
    }
}


/// A string of digits is one whole digit run.
pub proof fn lemma_digits_run_all(s: Seq<char>, i: int)
    requires
        0 <= i <= s.len(),
        all_digits(s),
    ensures
        digits_run(s, i) == s.len() - i,
    decreases s.len() - i,
{
    if i < s.len() {
        lemma_digits_run_all(s, i + 1);
    }
}

/// The content of a string literal, after its opening quote: returns the
/// unescaped characters and the input after the closing quote.
pub open spec fn spec_parse_str(s: Seq<char>) -> Option<(Seq<char>, Seq<char>)>
    decreases s.len(),
{
    if s.len() == 0 {
        None
    } else if s[0] == '"' {
        Some((Seq::empty(), s.drop_first()))
    } else if s[0] == '\\' {
        if s.len() < 2 {
            None
        } else if s[1] == 'u' {
            if s.len() < 6 {
                None
            } else {
                match (hex_val(s[2]), hex_val(s[3]), hex_val(s[4]), hex_val(s[5])) {
                    (Some(h3), Some(h2), Some(h1), Some(h0)) => {
                        let n = (h3 * 4096 + h2 * 256 + h1 * 16 + h0) as u32;
                        if 0xD800 <= n && n < 0xDC00 {
                            // a high surrogate must pair with a low one
                            if s.len() < 12 || s[6] != '\\' || s[7] != 'u' {
                                None
                            } else {
                                match (hex_val(s[8]), hex_val(s[9]), hex_val(s[10]), hex_val(
                                    s[11],
                                )) {
                                    (Some(g3), Some(g2), Some(g1), Some(g0)) => {
                                        let n2 = (g3 * 4096 + g2 * 256 + g1 * 16 + g0) as u32;
                                        if 0xDC00 <= n2 && n2 < 0xE000 {
                                            let cp = (0x10000 + (n - 0xD800) * 0x400 + (n2
                                                - 0xDC00)) as u32;
                                            match spec_parse_str(s.skip(12)) {
                                                Some((cs, r)) => Some((seq![cp as char] + cs, r)),
                                                None => None,
                                            }
                                        } else {
                                            None
                                        }
                                    },
                                    _ => None,
                                }
                            }
                        } else if 0xDC00 <= n && n < 0xE000 {
                            None
                        } else {
                            match spec_parse_str(s.skip(6)) {
                                Some((cs, r)) => Some((seq![n as char] + cs, r)),
                                None => None,
                            }
                        }
                    },
                    _ => None,
                }
            }
        } else {
            match unescape_char(s[1]) {
                Some(c) => match spec_parse_str(s.skip(2)) {
                    Some((cs, r)) => Some((seq![c] + cs, r)),
                    None => None,
                },
                None => None,
            }
        }
    } else if (s[0] as u32) < 0x20 {
        None
    } else {
        match spec_parse_str(s.drop_first()) {
            Some((cs, r)) => Some((seq![s[0]] + cs, r)),
            None => None,
        }
    }
}

/// One JSON value at the head of the input (leading whitespace allowed);
/// `f` bounds the bracket nesting depth.
pub open spec fn spec_parse_value(s: Seq<char>, f: nat) -> Option<(JsonV, Seq<char>)>
    decreases f, s.len(), 0int,
{
    if s.len() == 0 {
        None
    } else if is_ws(s[0]) {
        spec_parse_value(s.drop_first(), f)
    } else if s[0] == 'n' {
        if s.len() >= 4 && s[1] == 'u' && s[2] == 'l' && s[3] == 'l' {
            Some((JsonV::Null, s.skip(4)))
        } else {
            None
        }
    } else if s[0] == 't' {
        if s.len() >= 4 && s[1] == 'r' && s[2] == 'u' && s[3] == 'e' {
            Some((JsonV::Bool(true), s.skip(4)))
        } else {
            None
        }
    } else if s[0] == 'f' {
        if s.len() >= 5 && s[1] == 'a' && s[2] == 'l' && s[3] == 's' && s[4] == 'e' {
            Some((JsonV::Bool(false), s.skip(5)))
        } else {
            None
        }
    } else if s[0] == '"' {
        match spec_parse_str(s.drop_first()) {
            Some((cs, r)) => Some((JsonV::Str(cs), r)),
            None => None,
        }
    } else if s[0] == '[' {
        if f == 0 {
            None
        } else {
            let t = skip_ws(s.drop_first());
            if t.len() > 0 && t[0] == ']' {
                Some((JsonV::Arr(Seq::empty()), t.drop_first()))
            } else if t.len() < s.len() {
                match spec_parse_elems(t, (f - 1) as nat) {
                    Some((vs, r)) => Some((JsonV::Arr(vs), r)),
                    None => None,
                }
            } else {
                None
            }
        }
    } else if s[0] == '{' {
        if f == 0 {
            None
        } else {
            let t = skip_ws(s.drop_first());
            if t.len() > 0 && t[0] == '}' {
                Some((JsonV::Obj(Seq::empty()), t.drop_first()))
            } else if t.len() < s.len() {
                match spec_parse_pairs(t, (f - 1) as nat) {
                    Some((ps, r)) => Some((JsonV::Obj(ps), r)),
                    None => None,
                }
            } else {
                None
            }
        }
    } else if is_num_char(s[0]) {
        let k = scan_num(s);
        if is_json_number(s.take(k)) {
            Some((JsonV::Num(s.take(k)), s.skip(k)))
        } else {
            None
        }
    } else {
        None
    }
}

/// The elements of an array, up to and including the closing bracket.
pub open spec fn spec_parse_elems(s: Seq<char>, f: nat) -> Option<(Seq<JsonV>, Seq<char>)>
    decreases f, s.len(), 1int,
{
    match spec_parse_value(s, f) {
        None => None,
        Some((v, r)) => {
            let t = skip_ws(r);
            if t.len() == 0 {
                None
            } else if t[0] == ']' {
                Some((seq![v], t.drop_first()))
            } else if t[0] == ',' {
                let t2 = t.drop_first();
                if t2.len() < s.len() {
                    match spec_parse_elems(t2, f) {
                        Some((vs, r2)) => Some((seq![v] + vs, r2)),
                        None => None,
                    }
                } else {
                    None
                }
            } else {
                None
            }
        },
    }
}

/// The members of an object, up to and including the closing brace.
pub open spec fn spec_parse_pairs(s: Seq<char>, f: nat) -> Option<(Seq<(Seq<char>, JsonV)>, Seq<char>)>
    decreases f, s.len(), 1int,
{
    let t0 = skip_ws(s);
    if t0.len() == 0 || t0[0] != '"' {
        None
    } else {
        match spec_parse_str(t0.drop_first()) {
            None => None,
            Some((k, r1)) => {
                let t = skip_ws(r1);
                if t.len() == 0 || t[0] != ':' {
                    None
                } else {
                    let t2 = t.drop_first();
                    if t2.len() < s.len() {
                        match spec_parse_value(t2, f) {
                            None => None,
                            Some((v, r2)) => {
                                let t3 = skip_ws(r2);
                                if t3.len() == 0 {
                                    None
                                } else if t3[0] == '}' {
                                    Some((seq![(k, v)], t3.drop_first()))
                                } else if t3[0] == ',' {
                                    let t4 = t3.drop_first();
                                    if t4.len() < s.len() {
                                        match spec_parse_pairs(t4, f) {
                                            Some((ps, r3)) => Some((seq![(k, v)] + ps, r3)),
                                            None => None,
                                        }
                                    } else {
                                        None
                                    }
                                } else {
                                    None
                                }
                            },
                        }
                    } else {
                        None
                    }
                }
            },
        }
    }
}

/// A whole frame: one JSON value and nothing but whitespace after it.
pub open spec fn spec_parse_json(s: Seq<char>) -> Option<JsonV> {
    match spec_parse_value(s, s.len() as nat) {
        Some((v, r)) => if skip_ws(r).len() == 0 { Some(v) } else { None },
        None => None,
    }
}

// ---------------------------------------------------------------------------
// Facts about the views of the executable tree
// ---------------------------------------------------------------------------

pub proof fn lemma_view_elems(v: Vec<Json>, i: int)
    requires
        0 <= i <= v.len(),
    ensures
        json_view_elems(v, i).len() == v.len() - i,
        forall|k: int| 0 <= k < v.len() - i ==> #[trigger] json_view_elems(v, i)[k] == json_view(
            v[i + k],
        ),
    decreases v.len() - i,
{
    if i < v.len() {
        lemma_view_elems(v, i + 1);
    }
}

pub proof fn lemma_view_pairs(ps: Vec<(String, Json)>, i: int)
    requires
        0 <= i <= ps.len(),
    ensures
        json_view_pairs(ps, i).len() == ps.len() - i,
        forall|k: int| 0 <= k < ps.len() - i ==> #[trigger] json_view_pairs(ps, i)[k] == (
            ps[i + k].0@,
            json_view(ps[i + k].1),
        ),
    decreases ps.len() - i,
{
    if i < ps.len() {
        lemma_view_pairs(ps, i + 1);
    }
}

// ---------------------------------------------------------------------------
// Executable serializer
// ---------------------------------------------------------------------------

fn dchar(d: u64) -> (c: char)
    requires
        d < 10,
    ensures
        c == digit_char(d as int),
{
    if d == 0 { '0' } else if d == 1 { '1' } else if d == 2 { '2' } else if d == 3 { '3' }
    else if d == 4 { '4' } else if d == 5 { '5' } else if d == 6 { '6' } else if d == 7 { '7' }
    else if d == 8 { '8' } else { '9' }
}

/// Appends the decimal digits of `n`.
pub fn push_u64(n: u64, out: &mut Vec<char>)
    ensures
        final(out)@ == old(out)@ + spec_u64_str(n as int),
    decreases n,
{
    if n < 10 {
        out.push(dchar(n));
    } else {
        push_u64(n / 10, out);
        out.push(dchar(n % 10));
        proof {
            assert(out@ =~= old(out)@ + spec_u64_str(n as int));
        }
    }
}

pub fn fmt_u64(n: u64) -> (r: String)
    ensures
        r@ == spec_u64_str(n as int),
{
    let mut out: Vec<char> = Vec::new();
    push_u64(n, &mut out);
    string_from_chars(&out)
}

/// Appends the escaped form of one character.
fn push_escaped(c: char, out: &mut Vec<char>)
    ensures
        final(out)@ == old(out)@ + escape_char(c),
{
    if c == '"' {
        out.push('\\');
        out.push('"');
    } else if c == '\\' {
        out.push('\\');
        out.push('\\');
    } else if c == '\n' {
        out.push('\\');
        out.push('n');
    } else if c == '\r' {
        out.push('\\');
        out.push('r');
    } else if c == '\t' {
        out.push('\\');
        out.push('t');
    } else if (c as u32) < 0x20 {
        out.push('\\');
        out.push('u');
        out.push('0');
        out.push('0');
        let hi = (c as u32) / 16;
        let lo = (c as u32) % 16;
        out.push(if hi < 10 { dchar(hi as u64) } else { 'a' });
        out.push(
            if lo == 10 { 'a' } else if lo == 11 { 'b' } else if lo == 12 { 'c' }
            else if lo == 13 { 'd' } else if lo == 14 { 'e' } else if lo == 15 { 'f' }
            else { dchar(lo as u64) },
        );
    } else {
        out.push(c);
    }
    proof {
        assert(out@ =~= old(out)@ + escape_char(c));
    }
}

/// Appends the escaped characters of a string, without the quotes.
fn push_escaped_str(s: &String, out: &mut Vec<char>)
    ensures
        final(out)@ == old(out)@ + escape(s@),
{
    let cs = crate::util::chars_of(s.as_str());
    let mut i: usize = 0;
    while i < cs.len()
        invariant
            i <= cs.len(),
            cs@ == s@,
            out@ == old(out)@ + escape(s@.take(i as int)),
        decreases cs.len() - i,
    {
        let c = cs[i];
        push_escaped(c, out);
        proof {
            lemma_escape_snoc(s@, i as int);
        }
        i = i + 1;
    }
    proof {
        assert(s@.take(s@.len() as int) =~= s@);
    }
}

/// `escape` distributes over appending one character.
proof fn lemma_escape_snoc(s: Seq<char>, i: int)
    requires
        0 <= i < s.len(),
    ensures
        escape(s.take(i + 1)) == escape(s.take(i)) + escape_char(s[i]),
    decreases i,
{
    if i == 0 {
        assert(s.take(1) =~= seq![s[0]]);
        assert(s.take(1)[0] == s[0]);
        assert(s.take(1).drop_first() =~= Seq::<char>::empty());
        assert(escape(Seq::<char>::empty()) =~= Seq::<char>::empty());
        assert(escape(s.take(0)) =~= Seq::<char>::empty());
        assert(escape(s.take(1)) =~= escape_char(s[0]) + escape(s.take(1).drop_first()));
        assert(escape(s.take(1)) =~= escape_char(s[0]));
    } else {
        assert(s.take(i + 1).drop_first() =~= s.drop_first().take(i));
        assert(s.take(i).drop_first() =~= s.drop_first().take(i - 1));
        assert(s.take(i + 1)[0] == s[0]);
        assert(s.take(i)[0] == s[0]);
        lemma_escape_snoc(s.drop_first(), i - 1);
        assert(s.drop_first()[i - 1] == s[i]);
        assert(escape(s.take(i + 1)) == escape_char(s[0]) + escape(s.drop_first().take(i)));
        assert(escape(s.take(i)) == escape_char(s[0]) + escape(s.drop_first().take(i - 1)));
        assert(escape(s.take(i + 1)) =~= escape(s.take(i)) + escape_char(s[i]));
    }
}

pub fn ser_json(j: &Json, out: &mut Vec<char>)
    ensures
        final(out)@ == old(out)@ + spec_ser(j@),
    decreases *j, 0int,
{
    match j {
        Json::Null => {
            out.push('n');
            out.push('u');
            out.push('l');
            out.push('l');
        },
        Json::Bool(b) => {
            if *b {
                out.push('t');
                out.push('r');
                out.push('u');
                out.push('e');
            } else {
                out.push('f');
                out.push('a');
                out.push('l');
                out.push('s');
                out.push('e');
            }
        },
        Json::Num(s) => {
            let cs = crate::util::chars_of(s.as_str());
            let mut i: usize = 0;
            while i < cs.len()
                invariant
                    i <= cs.len(),
                    cs@ == s@,
                    out@ == old(out)@ + s@.take(i as int),
                decreases cs.len() - i,
            {
                out.push(cs[i]);
                proof {
                    assert(old(out)@ + s@.take(i + 1) =~= (old(out)@ + s@.take(i as int)).push(
                        s@[i as int],
                    ));
                }
                i = i + 1;
            }
            proof {
                assert(s@.take(s@.len() as int) =~= s@);
            }
        },
        Json::Str(s) => {
            out.push('"');
            push_escaped_str(s, out);
            out.push('"');
        },
        Json::Arr(v) => {
            out.push('[');
            if v.len() > 0 {
                ser_arr(v, 0, out);
            }
            out.push(']');
            proof {
                lemma_view_elems(*v, 0);
                if v.len() == 0 {
                    assert(spec_ser_elems(json_view_elems(*v, 0), 0) =~= Seq::<char>::empty());
                }
                assert(out@ =~= old(out)@ + spec_ser(j@));
            }
        },
        Json::Obj(ps) => {
            out.push('{');
            if ps.len() > 0 {
                ser_obj(ps, 0, out);
            }
            out.push('}');
            proof {
                lemma_view_pairs(*ps, 0);
                if ps.len() == 0 {
                    assert(spec_ser_pairs(json_view_pairs(*ps, 0), 0) =~= Seq::<char>::empty());
                }
                assert(out@ =~= old(out)@ + spec_ser(j@));
            }
        },
    }
    proof {
        assert(out@ =~= old(out)@ + spec_ser(j@));
    }
}

fn ser_arr(v: &Vec<Json>, i: usize, out: &mut Vec<char>)
    requires
        i < v.len(),
    ensures
        final(out)@ == old(out)@ + spec_ser_elems(json_view_elems(*v, 0), i as int),
    decreases *v, v.len() - i,
{
    proof {
        lemma_view_elems(*v, 0);
    }
    ser_json(&v[i], out);
    if i + 1 < v.len() {
        out.push(',');
        ser_arr(v, i + 1, out);
    }
    proof {
        assert(out@ =~= old(out)@ + spec_ser_elems(json_view_elems(*v, 0), i as int));
    }
}

fn ser_obj(ps: &Vec<(String, Json)>, i: usize, out: &mut Vec<char>)
    requires
        i < ps.len(),
    ensures
        final(out)@ == old(out)@ + spec_ser_pairs(json_view_pairs(*ps, 0), i as int),
    decreases *ps, ps.len() - i,
{
    proof {
        lemma_view_pairs(*ps, 0);
    }
    out.push('"');
    push_escaped_str(&ps[i].0, out);
    out.push('"');
    out.push(':');
    ser_json(&ps[i].1, out);
    if i + 1 < ps.len() {
        out.push(',');
        ser_obj(ps, i + 1, out);
    }
    proof {
        assert(out@ =~= old(out)@ + spec_ser_pairs(json_view_pairs(*ps, 0), i as int));
    }
}

/// Serializes one value to its canonical wire text.
pub fn json_to_string(j: &Json) -> (r: String)
    ensures
        r@ == spec_ser(j@),
{
    let mut out: Vec<char> = Vec::new();
    ser_json(j, &mut out);
    string_from_chars(&out)
}

// ---------------------------------------------------------------------------
// Executable parser
// ---------------------------------------------------------------------------

fn hexv(c: char) -> (r: Option<u32>)
    ensures
        r == hex_val(c),
{
    if '0' <= c && c <= '9' {
        Some(c as u32 - '0' as u32)
    } else if 'a' <= c && c <= 'f' {
        Some(c as u32 - 'a' as u32 + 10)
    } else if 'A' <= c && c <= 'F' {
        Some(c as u32 - 'A' as u32 + 10)
    } else {
        None
    }
}

fn is_ws_c(c: char) -> (r: bool)
    ensures
        r == is_ws(c),
{
    c == ' ' || c == '\t' || c == '\n' || c == '\r'
}

fn is_num_c(c: char) -> (r: bool)
    ensures
        r == is_num_char(c),
{
    ('0' <= c && c <= '9') || c == '-' || c == '+' || c == '.' || c == 'e' || c == 'E'
}

/// Index just past the leading whitespace.
fn p_skip_ws(cs: &Vec<char>, i: usize) -> (j: usize)
    requires
        i <= cs.len(),
    ensures
        i <= j <= cs.len(),
        cs@.skip(j as int) == skip_ws(cs@.skip(i as int)),
{
    let mut j = i;
    while j < cs.len() && is_ws_c(cs[j])
        invariant
            i <= j <= cs.len(),
            skip_ws(cs@.skip(j as int)) == skip_ws(cs@.skip(i as int)),
        decreases cs.len() - j,
    {
        proof {
            assert(cs@.skip(j as int)[0] == cs@[j as int]);
            assert(cs@.skip(j as int).drop_first() =~= cs@.skip(j as int + 1));
        }
        j = j + 1;
    }
    proof {
        if j < cs.len() {
            assert(cs@.skip(j as int)[0] == cs@[j as int]);
        }
    }
    j
}

/// String content after an opening quote, with the escapes resolved.
#[verifier::rlimit(60)]
fn p_str(cs: &Vec<char>, i: usize) -> (r: Option<(Vec<char>, usize)>)
    requires
        i <= cs.len(),
    ensures
        match r {
            Some((content, j)) => i <= j <= cs.len() && spec_parse_str(cs@.skip(i as int))
                == Some((content@, cs@.skip(j as int))),
            None => spec_parse_str(cs@.skip(i as int)) is None,
        },
    decreases cs.len() - i,
{
    let ghost s = cs@.skip(i as int);
    if i == cs.len() {
        return None;
    }
    let c = cs[i];
    proof {
        assert(s[0] == cs@[i as int]);
        assert(s.drop_first() =~= cs@.skip(i as int + 1));
    }
    if c == '"' {
        let v: Vec<char> = Vec::new();
        Some((v, i + 1))
    } else if c == '\\' {
        if i + 1 == cs.len() {
            return None;
        }
        let e = cs[i + 1];
        proof {
            assert(s[1] == cs@[i as int + 1]);
        }
        if e == 'u' {
            if cs.len() - i < 6 {
                return None;
            }
            proof {
                assert(s[2] == cs@[i as int + 2]);
                assert(s[3] == cs@[i as int + 3]);
                assert(s[4] == cs@[i as int + 4]);
                assert(s[5] == cs@[i as int + 5]);
                assert(s.skip(6) =~= cs@.skip(i as int + 6));
            }
            let h3 = hexv(cs[i + 2]);
            let h2 = hexv(cs[i + 3]);
            let h1 = hexv(cs[i + 4]);
            let h0 = hexv(cs[i + 5]);
            match (h3, h2, h1, h0) {
                (Some(a), Some(b), Some(cc), Some(d)) => {
                    let n: u32 = a * 4096 + b * 256 + cc * 16 + d;
                    if 0xD800 <= n && n < 0xDC00 {
                        if cs.len() - i < 12 || cs[i + 6] != '\\' || cs[i + 7] != 'u' {
                            proof {
                                if cs.len() - i >= 12 {
                                    assert(s[6] == cs@[i as int + 6]);
                                    assert(s[7] == cs@[i as int + 7]);
                                }
                            }
                            None
                        } else {
                            proof {
                                assert(s[6] == cs@[i as int + 6]);
                                assert(s[7] == cs@[i as int + 7]);
                                assert(s[8] == cs@[i as int + 8]);
                                assert(s[9] == cs@[i as int + 9]);
                                assert(s[10] == cs@[i as int + 10]);
                                assert(s[11] == cs@[i as int + 11]);
                                assert(s.skip(12) =~= cs@.skip(i as int + 12));
                            }
                            let g3 = hexv(cs[i + 8]);
                            let g2 = hexv(cs[i + 9]);
                            let g1 = hexv(cs[i + 10]);
                            let g0 = hexv(cs[i + 11]);
                            match (g3, g2, g1, g0) {
                                (Some(ga), Some(gb), Some(gc), Some(gd)) => {
                                    let n2: u32 = ga * 4096 + gb * 256 + gc * 16 + gd;
                                    if 0xDC00 <= n2 && n2 < 0xE000 {
                                        let cp: u32 = 0x10000 + (n - 0xD800) * 0x400 + (n2
                                            - 0xDC00);
                                        match char_from_u32(cp) {
                                            Some(ch) => {
                                                proof {
                                                    vstd::utf8::char_u32_cast(ch, cp);
                                                }
                                                match p_str(cs, i + 12) {
                                                    Some((mut v, j)) => {
                                                        let ghost vv = v@;
                                                        v.insert(0, ch);
                                                        proof {
                                                            assert(v@ =~= seq![cp as char] + vv);
                                                        }
                                                        Some((v, j))
                                                    },
                                                    None => None,
                                                }
                                            },
                                            None => {
                                                proof {
                                                    assert(false);
                                                }
                                                None
                                            },
                                        }
                                    } else {
                                        None
                                    }
                                },
                                _ => None,
                            }
                        }
                    } else if 0xDC00 <= n && n < 0xE000 {
                        None
                    } else {
                        match char_from_u32(n) {
                            Some(ch) => {
                                proof {
                                    vstd::utf8::char_u32_cast(ch, n);
                                }
                                match p_str(cs, i + 6) {
                                    Some((mut v, j)) => {
                                        let ghost vv = v@;
                                        v.insert(0, ch);
                                        proof {
                                            assert(v@ =~= seq![n as char] + vv);
                                        }
                                        Some((v, j))
                                    },
                                    None => None,
                                }
                            },
                            None => {
                                proof {
                                    assert(false);
                                }
                                None
                            },
                        }
                    }
                },
                _ => None,
            }
        } else {
            let uc: Option<char> = if e == '"' { Some('"') } else if e == '\\' { Some('\\') }
                else if e == '/' { Some('/') } else if e == 'n' { Some('\n') }
                else if e == 't' { Some('\t') } else if e == 'r' { Some('\r') }
                else if e == 'b' { Some('\u{8}') } else if e == 'f' { Some('\u{c}') }
                else { None };
            proof {
                assert(uc == unescape_char(e));
                assert(s.skip(2) =~= cs@.skip(i as int + 2));
            }
            match uc {
                Some(ch) => match p_str(cs, i + 2) {
                    Some((mut v, j)) => {
                        let ghost vv = v@;
                        v.insert(0, ch);
                        proof {
                            assert(v@ =~= seq![ch] + vv);
                        }
                        Some((v, j))
                    },
                    None => None,
                },
                None => None,
            }
        }
    } else if (c as u32) < 0x20 {
        None
    } else {
        match p_str(cs, i + 1) {
            Some((mut v, j)) => {
                let ghost vv = v@;
                v.insert(0, c);
                proof {
                    assert(v@ =~= seq![c] + vv);
                }
                Some((v, j))
            },
            None => None,
        }
    }
}


fn digits_run_x(v: &Vec<char>, i: usize) -> (r: usize)
    requires
        i <= v.len(),
    ensures
        r == digits_run(v@, i as int),
        i + r <= v.len(),
{
    let mut j = i;
    while j < v.len() && '0' <= v[j] && v[j] <= '9'
        invariant
            i <= j <= v.len(),
            digits_run(v@, i as int) == j - i + digits_run(v@, j as int),
        decreases v.len() - j,
    {
        j = j + 1;
    }
    proof {
        assert(digits_run(v@, j as int) == 0);
    }
    j - i
}

fn is_json_num(v: &Vec<char>) -> (r: bool)
    ensures
        r == is_json_number(v@),
{
    let n = v.len();
    let i0: usize = if n > 0 && v[0] == '-' {
        1
    } else {
        0
    };
    let di = digits_run_x(v, i0);
    if di == 0 {
        return false;
    }
    if di != 1 && v[i0] == '0' {
        return false;
    }
    let i1 = i0 + di;
    let i2: usize = if i1 < n && v[i1] == '.' {
        let fd = digits_run_x(v, i1 + 1);
        if fd == 0 {
            return false;
        }
        i1 + 1 + fd
    } else {
        i1
    };
    let i3: usize = if i2 < n && (v[i2] == 'e' || v[i2] == 'E') {
        let j: usize = if i2 + 1 < n && (v[i2 + 1] == '+' || v[i2 + 1] == '-') {
            i2 + 2
        } else {
            i2 + 1
        };
        let ed = digits_run_x(v, j);
        if ed == 0 {
            return false;
        }
        j + ed
    } else {
        i2
    };
    i3 == n
}

/// One JSON value starting at `i`; `f` bounds the bracket nesting depth.
fn p_value(cs: &Vec<char>, i: usize, f: usize) -> (r: Option<(Json, usize)>)
    requires
        i <= cs.len(),
    ensures
        match r {
            Some((j, p)) => i <= p <= cs.len() && spec_parse_value(cs@.skip(i as int), f as nat)
                == Some((j@, cs@.skip(p as int))),
            None => spec_parse_value(cs@.skip(i as int), f as nat) is None,
        },
    decreases f, cs.len() - i, 0int,
{
    let ghost s = cs@.skip(i as int);
    if i == cs.len() {
        return None;
    }
    let c = cs[i];
    proof {
        assert(s[0] == cs@[i as int]);
        assert(s.drop_first() =~= cs@.skip(i as int + 1));
    }
    if is_ws_c(c) {
        p_value(cs, i + 1, f)
    } else if c == 'n' {
        proof {
            if cs.len() - i >= 4 {
                assert(s[1] == cs@[i as int + 1]);
                assert(s[2] == cs@[i as int + 2]);
                assert(s[3] == cs@[i as int + 3]);
                assert(s.skip(4) =~= cs@.skip(i as int + 4));
            }
        }
        if cs.len() - i >= 4 && cs[i + 1] == 'u' && cs[i + 2] == 'l' && cs[i + 3] == 'l' {
            Some((Json::Null, i + 4))
        } else {
            None
        }
    } else if c == 't' {
        proof {
            if cs.len() - i >= 4 {
                assert(s[1] == cs@[i as int + 1]);
                assert(s[2] == cs@[i as int + 2]);
                assert(s[3] == cs@[i as int + 3]);
                assert(s.skip(4) =~= cs@.skip(i as int + 4));
            }
        }
        if cs.len() - i >= 4 && cs[i + 1] == 'r' && cs[i + 2] == 'u' && cs[i + 3] == 'e' {
            Some((Json::Bool(true), i + 4))
        } else {
            None
        }
    } else if c == 'f' {
        proof {
            if cs.len() - i >= 5 {
                assert(s[1] == cs@[i as int + 1]);
                assert(s[2] == cs@[i as int + 2]);
                assert(s[3] == cs@[i as int + 3]);
                assert(s[4] == cs@[i as int + 4]);
                assert(s.skip(5) =~= cs@.skip(i as int + 5));
            }
        }
        if cs.len() - i >= 5 && cs[i + 1] == 'a' && cs[i + 2] == 'l' && cs[i + 3] == 's'
            && cs[i + 4] == 'e' {
            Some((Json::Bool(false), i + 5))
        } else {
            None
        }
    } else if c == '"' {
        match p_str(cs, i + 1) {
            Some((content, j)) => {
                let st = string_from_chars(&content);
                Some((Json::Str(st), j))
            },
            None => None,
        }
    } else if c == '[' {
        if f == 0 {
            return None;
        }
        let t = p_skip_ws(cs, i + 1);
        let ghost tseq = skip_ws(s.drop_first());
        if t < cs.len() && cs[t] == ']' {
            proof {
                assert(tseq[0] == cs@[t as int]);
                assert(tseq.drop_first() =~= cs@.skip(t as int + 1));
            }
            let v: Vec<Json> = Vec::new();
            proof {
                assert(json_view_elems(v, 0) =~= Seq::<JsonV>::empty());
            }
            Some((Json::Arr(v), t + 1))
        } else {
            proof {
                if t < cs.len() {
                    assert(tseq[0] == cs@[t as int]);
                }
                assert(tseq.len() < s.len());
            }
            match p_elems(cs, t, f - 1) {
                Some((v, p)) => Some((Json::Arr(v), p)),
                None => None,
            }
        }
    } else if c == '{' {
        if f == 0 {
            return None;
        }
        let t = p_skip_ws(cs, i + 1);
        let ghost tseq = skip_ws(s.drop_first());
        if t < cs.len() && cs[t] == '}' {
            proof {
                assert(tseq[0] == cs@[t as int]);
                assert(tseq.drop_first() =~= cs@.skip(t as int + 1));
            }
            let v: Vec<(String, Json)> = Vec::new();
            proof {
                assert(json_view_pairs(v, 0) =~= Seq::<(Seq<char>, JsonV)>::empty());
            }
            Some((Json::Obj(v), t + 1))
        } else {
            proof {
                if t < cs.len() {
                    assert(tseq[0] == cs@[t as int]);
                }
                assert(tseq.len() < s.len());
            }
            match p_pairs(cs, t, f - 1) {
                Some((v, p)) => Some((Json::Obj(v), p)),
                None => None,
            }
        }
    } else if is_num_c(c) {
        let mut j = i;
        while j < cs.len() && is_num_c(cs[j])
            invariant
                i <= j <= cs.len(),
                scan_num(cs@.skip(i as int)) == j - i + scan_num(cs@.skip(j as int)),
                forall|k: int| i <= k < j ==> is_num_char(#[trigger] cs@[k]),
            decreases cs.len() - j,
        {
            proof {
                assert(cs@.skip(j as int)[0] == cs@[j as int]);
                assert(cs@.skip(j as int).drop_first() =~= cs@.skip(j as int + 1));
            }
            j = j + 1;
        }
        proof {
            if j < cs.len() {
                assert(cs@.skip(j as int)[0] == cs@[j as int]);
            }
            assert(scan_num(cs@.skip(j as int)) == 0);
            assert(scan_num(s) == j - i);
        }
        let mut tok: Vec<char> = Vec::new();
        let mut k = i;
        while k < j
            invariant
                i <= k <= j <= cs.len(),
                tok@ == cs@.subrange(i as int, k as int),
            decreases j - k,
        {
            tok.push(cs[k]);
            proof {
                assert(cs@.subrange(i as int, k + 1 as int) =~= cs@.subrange(i as int, k as int)
                    + seq![cs@[k as int]]);
            }
            k = k + 1;
        }
        proof {
            assert(s.take(j - i) =~= cs@.subrange(i as int, j as int));
            assert(s.skip(j - i) =~= cs@.skip(j as int));
        }
        if !is_json_num(&tok) {
            return None;
        }
        let st = string_from_chars(&tok);
        Some((Json::Num(st), j))
    } else {
        None
    }
}

/// Array elements from `i`, through the closing bracket.
fn p_elems(cs: &Vec<char>, i: usize, f: usize) -> (r: Option<(Vec<Json>, usize)>)
    requires
        i <= cs.len(),
    ensures
        match r {
            Some((v, p)) => i <= p <= cs.len() && spec_parse_elems(cs@.skip(i as int), f as nat)
                == Some((json_view_elems(v, 0), cs@.skip(p as int))),
            None => spec_parse_elems(cs@.skip(i as int), f as nat) is None,
        },
    decreases f, cs.len() - i, 1int,
{
    let ghost s = cs@.skip(i as int);
    match p_value(cs, i, f) {
        None => None,
        Some((jv, rpos)) => {
            let t = p_skip_ws(cs, rpos);
            let ghost tseq = skip_ws(cs@.skip(rpos as int));
            if t == cs.len() {
                None
            } else if cs[t] == ']' {
                proof {
                    assert(tseq[0] == cs@[t as int]);
                    assert(tseq.drop_first() =~= cs@.skip(t as int + 1));
                }
                let mut v: Vec<Json> = Vec::new();
                v.push(jv);
                proof {
                    lemma_view_elems(v, 0);
                    assert(json_view_elems(v, 0) =~= seq![json_view(v[0])]);
                }
                Some((v, t + 1))
            } else if cs[t] == ',' {
                proof {
                    assert(tseq[0] == cs@[t as int]);
                    assert(tseq.drop_first() =~= cs@.skip(t as int + 1));
                    assert(cs@.skip(t as int + 1).len() < s.len());
                }
                match p_elems(cs, t + 1, f) {
                    Some((mut v, p)) => {
                        let ghost vv = v;
                        v.insert(0, jv);
                        proof {
                            lemma_view_elems(v, 0);
                            lemma_view_elems(vv, 0);
                            assert(v@ =~= seq![jv] + vv@);
                            assert forall|k: int| 0 <= k < v@.len() implies json_view_elems(v, 0)[k]
                                == (seq![json_view(jv)] + json_view_elems(vv, 0))[k] by {
                                if k > 0 {
                                    assert(v@[k] == vv@[k - 1]);
                                }
                            }
                            assert(json_view_elems(v, 0) =~= seq![json_view(jv)]
                                + json_view_elems(vv, 0));
                        }
                        Some((v, p))
                    },
                    None => None,
                }
            } else {
                proof {
                    assert(tseq[0] == cs@[t as int]);
                }
                None
            }
        },
    }
}

/// Object members from `i`, through the closing brace.
fn p_pairs(cs: &Vec<char>, i: usize, f: usize) -> (r: Option<(Vec<(String, Json)>, usize)>)
    requires
        i <= cs.len(),
    ensures
        match r {
            Some((v, p)) => i <= p <= cs.len() && spec_parse_pairs(cs@.skip(i as int), f as nat)
                == Some((json_view_pairs(v, 0), cs@.skip(p as int))),
            None => spec_parse_pairs(cs@.skip(i as int), f as nat) is None,
        },
    decreases f, cs.len() - i, 1int,
{
    let ghost s = cs@.skip(i as int);
    let t0 = p_skip_ws(cs, i);
    let ghost t0seq = skip_ws(s);
    if t0 == cs.len() {
        return None;
    }
    proof {
        assert(t0seq[0] == cs@[t0 as int]);
        assert(t0seq.drop_first() =~= cs@.skip(t0 as int + 1));
    }
    if cs[t0] != '"' {
        return None;
    }
    match p_str(cs, t0 + 1) {
        None => None,
        Some((kcs, r1)) => {
            let t = p_skip_ws(cs, r1);
            let ghost tseq = skip_ws(cs@.skip(r1 as int));
            if t == cs.len() {
                return None;
            }
            proof {
                assert(tseq[0] == cs@[t as int]);
                assert(tseq.drop_first() =~= cs@.skip(t as int + 1));
            }
            if cs[t] != ':' {
                return None;
            }
            proof {
                assert(cs@.skip(t as int + 1).len() < s.len());
            }
            match p_value(cs, t + 1, f) {
                None => None,
                Some((jv, r2)) => {
                    let t3 = p_skip_ws(cs, r2);
                    let ghost t3seq = skip_ws(cs@.skip(r2 as int));
                    if t3 == cs.len() {
                        return None;
                    }
                    proof {
                        assert(t3seq[0] == cs@[t3 as int]);
                        assert(t3seq.drop_first() =~= cs@.skip(t3 as int + 1));
                    }
                    let key = string_from_chars(&kcs);
                    if cs[t3] == '}' {
                        let mut v: Vec<(String, Json)> = Vec::new();
                        v.push((key, jv));
                        proof {
                            lemma_view_pairs(v, 0);
                            assert(json_view_pairs(v, 0) =~= seq![(v[0].0@, json_view(v[0].1))]);
                        }
                        Some((v, t3 + 1))
                    } else if cs[t3] == ',' {
                        proof {
                            assert(cs@.skip(t3 as int + 1).len() < s.len());
                        }
                        match p_pairs(cs, t3 + 1, f) {
                            Some((mut v, p)) => {
                                let ghost vv = v;
                                v.insert(0, (key, jv));
                                proof {
                                    lemma_view_pairs(v, 0);
                                    lemma_view_pairs(vv, 0);
                                    assert(v@ =~= seq![(key, jv)] + vv@);
                                    assert forall|k: int| 0 <= k < v@.len() implies
                                        json_view_pairs(v, 0)[k] == (seq![(key@, json_view(jv))]
                                        + json_view_pairs(vv, 0))[k] by {
                                        if k > 0 {
                                            assert(v@[k] == vv@[k - 1]);
                                        }
                                    }
                                    assert(json_view_pairs(v, 0) =~= seq![(key@, json_view(jv))]
                                        + json_view_pairs(vv, 0));
                                }
                                Some((v, p))
                            },
                            None => None,
                        }
                    } else {
                        None
                    }
                },
            }
        },
    }
}

/// Parses one whole frame: a single JSON value with nothing but whitespace
/// around it.
pub fn parse_json(s: &str) -> (r: Option<Json>)
    ensures
        match r {
            Some(j) => spec_parse_json(s@) == Some(j@),
            None => spec_parse_json(s@) is None,
        },
{
    let cs = crate::util::chars_of(s);
    proof {
        assert(cs@.skip(0) =~= s@);
    }
    match p_value(&cs, 0, cs.len()) {
        Some((j, p)) => {
            let q = p_skip_ws(&cs, p);
            if q == cs.len() {
                Some(j)
            } else {
                None
            }
        },
        None => None,
    }
}

// ---------------------------------------------------------------------------
// The serializer and the parser are inverse on well-formed values
// ---------------------------------------------------------------------------

/// Well-formed values: every number token is a nonempty run of number
/// characters (everything else serializes unambiguously as it is).
pub open spec fn wf_json(v: JsonV) -> bool
    decreases v, 0int,
{
    match v {
        JsonV::Num(s) => s.len() > 0 && is_json_number(s) && (forall|i: int|
            0 <= i < s.len() ==> is_num_char(#[trigger] s[i])),
        JsonV::Arr(els) => wf_elems(els, 0),
        JsonV::Obj(ps) => wf_pairs(ps, 0),
        _ => true,
    }
}

pub open spec fn wf_elems(els: Seq<JsonV>, i: int) -> bool
    decreases els, els.len() - i,
{
    if i < 0 || i >= els.len() {
        true
    } else {
        wf_json(els[i]) && wf_elems(els, i + 1)
    }
}

pub open spec fn wf_pairs(ps: Seq<(Seq<char>, JsonV)>, i: int) -> bool
    decreases ps, ps.len() - i,
{
    if i < 0 || i >= ps.len() {
        true
    } else {
        wf_json(ps[i].1) && wf_pairs(ps, i + 1)
    }
}

/// Bracket nesting depth, the fuel the parser needs.
pub open spec fn jdepth(v: JsonV) -> nat
    decreases v, 0int,
{
    match v {
        JsonV::Arr(els) => 1 + jdepth_elems(els, 0),
        JsonV::Obj(ps) => 1 + jdepth_pairs(ps, 0),
        _ => 0,
    }
}

pub open spec fn jdepth_elems(els: Seq<JsonV>, i: int) -> nat
    decreases els, els.len() - i,
{
    if i < 0 || i >= els.len() {
        0
    } else {
        let d = jdepth(els[i]);
        let rest = jdepth_elems(els, i + 1);
        if d > rest {
            d
        } else {
            rest
        }
    }
}

pub open spec fn jdepth_pairs(ps: Seq<(Seq<char>, JsonV)>, i: int) -> nat
    decreases ps, ps.len() - i,
{
    if i < 0 || i >= ps.len() {
        0
    } else {
        let d = jdepth(ps[i].1);
        let rest = jdepth_pairs(ps, i + 1);
        if d > rest {
            d
        } else {
            rest
        }
    }
}

/// A character that can begin a serialized value.
pub open spec fn value_start(c: char) -> bool {
    c == 'n' || c == 't' || c == 'f' || c == '"' || c == '[' || c == '{' || is_num_char(c)
}

proof fn lemma_ser_first(v: JsonV)
    requires
        wf_json(v),
    ensures
        spec_ser(v).len() > 0,
        value_start(spec_ser(v)[0]),
    decreases v,
{
    match v {
        JsonV::Null => {
            assert(spec_ser(v)[0] == 'n');
        },
        JsonV::Bool(b) => {
            assert(spec_ser(v)[0] == (if b { 't' } else { 'f' }));
        },
        JsonV::Num(s) => {
            assert(spec_ser(v)[0] == s[0]);
        },
        JsonV::Str(s) => {
            assert(spec_ser(v)[0] == '"');
        },
        JsonV::Arr(els) => {
            assert(spec_ser(v)[0] == '[');
        },
        JsonV::Obj(ps) => {
            assert(spec_ser(v)[0] == '{');
        },
    }
}

/// Parsing the escaped form of a string, through its closing quote, yields
/// the string back and leaves the rest untouched.
#[verifier::rlimit(60)]
proof fn lemma_parse_escape(s: Seq<char>, rest: Seq<char>)
    ensures
        spec_parse_str(escape(s) + seq!['"'] + rest) == Some((s, rest)),
    decreases s.len(),
{
    if s.len() == 0 {
        assert(escape(s) + seq!['"'] + rest =~= seq!['"'] + rest);
        let i = seq!['"'] + rest;
        assert(i[0] == '"');
        assert(i.drop_first() =~= rest);
    } else {
        let c = s[0];
        let t = escape(s.drop_first()) + seq!['"'] + rest;
        lemma_parse_escape(s.drop_first(), rest);
        let i = escape(s) + seq!['"'] + rest;
        assert(i =~= escape_char(c) + t);
        if c == '"' || c == '\\' || c == '\n' || c == '\r' || c == '\t' {
            assert(i[0] == '\\');
            assert(i[1] == escape_char(c)[1]);
            assert(i.skip(2) =~= t);
            assert(unescape_char(escape_char(c)[1]) == Some(c));
            assert(seq![c] + s.drop_first() =~= s);
        } else if (c as u32) < 0x20 {
            let hi = (c as u32 / 16) as int;
            let lo = (c as u32 % 16) as int;
            assert(i[0] == '\\');
            assert(i[1] == 'u');
            assert(i[2] == '0');
            assert(i[3] == '0');
            assert(i[4] == hex_char(hi));
            assert(i[5] == hex_char(lo));
            assert(i.skip(6) =~= t);
            assert(hex_val('0') == Some(0u32));
            assert(hex_val(hex_char(hi)) == Some(hi as u32));
            assert(hex_val(hex_char(lo)) == Some(lo as u32));
            let n = (0 * 4096 + 0 * 256 + (hi as u32) * 16 + lo as u32) as u32;
            assert(n == c as u32);
            assert(valid_code_point(n));
            vstd::utf8::char_u32_cast(c, n);
            assert(seq![n as char] + s.drop_first() =~= s);
        } else {
            assert(escape_char(c) =~= seq![c]);
            assert(i[0] == c);
            assert(i.drop_first() =~= t);
            assert(c != '"' && c != '\\' && !((c as u32) < 0x20));
            assert(seq![c] + s.drop_first() =~= s);
        }
    }
}

/// A maximal number token followed by a non-number character scans as
/// exactly its own length.
proof fn lemma_scan_token(tok: Seq<char>, rest: Seq<char>)
    requires
        forall|i: int| 0 <= i < tok.len() ==> is_num_char(#[trigger] tok[i]),
        rest.len() == 0 || !is_num_char(rest[0]),
    ensures
        scan_num(tok + rest) == tok.len(),
    decreases tok.len(),
{
    let i = tok + rest;
    if tok.len() == 0 {
        assert(i =~= rest);
    } else {
        assert(i[0] == tok[0]);
        assert(i.drop_first() =~= tok.drop_first() + rest);
        assert(forall|k: int| 0 <= k < tok.drop_first().len() ==> is_num_char(
            #[trigger] tok.drop_first()[k],
        ));
        lemma_scan_token(tok.drop_first(), rest);
    }
}

/// Parsing the serialized form of a well-formed value yields the value
/// back, for any fuel that covers its nesting depth; a number must not be
/// followed by more number characters.
#[verifier::rlimit(100)]
pub proof fn lemma_parse_ser_value(v: JsonV, rest: Seq<char>, f: nat)
    requires
        wf_json(v),
        f >= jdepth(v),
        v is Num ==> rest.len() == 0 || !is_num_char(rest[0]),
    ensures
        spec_parse_value(spec_ser(v) + rest, f) == Some((v, rest)),
    decreases v, 0int,
{
    let i = spec_ser(v) + rest;
    lemma_ser_first(v);
    assert(i[0] == spec_ser(v)[0]);
    match v {
        JsonV::Null => {
            assert(i[0] == 'n');
            assert(i[1] == 'u');
            assert(i[2] == 'l');
            assert(i[3] == 'l');
            assert(i.skip(4) =~= rest);
            assert(spec_parse_value(i, f) == Some((v, rest)));
        },
        JsonV::Bool(b) => {
            if b {
                assert(i[0] == 't');
                assert(i[1] == 'r');
                assert(i[2] == 'u');
                assert(i[3] == 'e');
                assert(i.skip(4) =~= rest);
            } else {
                assert(i[0] == 'f');
                assert(i[1] == 'a');
                assert(i[2] == 'l');
                assert(i[3] == 's');
                assert(i[4] == 'e');
                assert(i.skip(5) =~= rest);
            }
        },
        JsonV::Num(s) => {
            lemma_scan_token(s, rest);
            assert(scan_num(i) == s.len());
            assert(i.take(s.len() as int) =~= s);
            assert(i.skip(s.len() as int) =~= rest);
            assert(is_json_number(i.take(s.len() as int)));
            assert(!is_ws(i[0]) && i[0] != 'n' && i[0] != 't' && i[0] != 'f' && i[0] != '"'
                && i[0] != '[' && i[0] != '{');
            assert(spec_parse_value(i, f) == Some((v, rest)));
        },
        JsonV::Str(s) => {
            assert(i[0] == '"');
            assert(i.drop_first() =~= escape(s) + seq!['"'] + rest);
            lemma_parse_escape(s, rest);
            assert(spec_parse_value(i, f) == Some((v, rest)));
        },
        JsonV::Arr(els) => {
            assert(i[0] == '[');
            let e = spec_ser_elems(els, 0);
            assert(i.drop_first() =~= e + seq![']'] + rest);
            if els.len() == 0 {
                assert(els =~= Seq::<JsonV>::empty());
                assert(e =~= Seq::<char>::empty());
                let t = seq![']'] + rest;
                assert(i.drop_first() =~= t);
                assert(t[0] == ']');
                assert(skip_ws(t) == t);
                assert(t.drop_first() =~= rest);
            } else {
                lemma_ser_first(els[0]);
                let t = i.drop_first();
                assert(t[0] == e[0]);
                assert(e[0] == spec_ser(els[0])[0]);
                assert(!is_ws(t[0]));
                assert(skip_ws(t) == t);
                assert(t[0] != ']');
                assert(t.len() < i.len());
                lemma_parse_ser_elems(els, 0, rest, (f - 1) as nat);
                assert(els.skip(0) =~= els);
            }
            assert(spec_parse_value(i, f) == Some((v, rest)));
        },
        JsonV::Obj(ps) => {
            assert(i[0] == '{');
            let e = spec_ser_pairs(ps, 0);
            assert(i.drop_first() =~= e + seq!['}'] + rest);
            if ps.len() == 0 {
                assert(ps =~= Seq::<(Seq<char>, JsonV)>::empty());
                assert(e =~= Seq::<char>::empty());
                let t = seq!['}'] + rest;
                assert(i.drop_first() =~= t);
                assert(t[0] == '}');
                assert(skip_ws(t) == t);
                assert(t.drop_first() =~= rest);
            } else {
                let t = i.drop_first();
                assert(e[0] == '"');
                assert(t[0] == '"');
                assert(!is_ws(t[0]));
                assert(skip_ws(t) == t);
                assert(t[0] != '}');
                assert(t.len() < i.len());
                lemma_parse_ser_pairs(ps, 0, rest, (f - 1) as nat);
                assert(ps.skip(0) =~= ps);
            }
            assert(spec_parse_value(i, f) == Some((v, rest)));
        },
    }
}

#[verifier::rlimit(100)]
proof fn lemma_parse_ser_elems(els: Seq<JsonV>, i: int, rest: Seq<char>, f: nat)
    requires
        0 <= i < els.len(),
        wf_elems(els, i),
        f >= jdepth_elems(els, i),
    ensures
        spec_parse_elems(spec_ser_elems(els, i) + seq![']'] + rest, f) == Some(
            (els.skip(i), rest),
        ),
    decreases els, els.len() - i,
{
    let s = spec_ser_elems(els, i) + seq![']'] + rest;
    lemma_ser_first(els[i]);
    if i == els.len() - 1 {
        let tail = seq![']'] + rest;
        assert(s =~= spec_ser(els[i]) + tail);
        assert(tail[0] == ']');
        lemma_parse_ser_value(els[i], tail, f);
        assert(skip_ws(tail) == tail);
        assert(tail.drop_first() =~= rest);
        assert(els.skip(i) =~= seq![els[i]]);
    } else {
        let tail = seq![','] + (spec_ser_elems(els, i + 1) + seq![']'] + rest);
        assert(s =~= spec_ser(els[i]) + tail);
        assert(tail[0] == ',');
        lemma_parse_ser_value(els[i], tail, f);
        assert(skip_ws(tail) == tail);
        let t2 = tail.drop_first();
        assert(t2 =~= spec_ser_elems(els, i + 1) + seq![']'] + rest);
        assert(t2.len() < s.len());
        lemma_parse_ser_elems(els, i + 1, rest, f);
        assert(seq![els[i]] + els.skip(i + 1) =~= els.skip(i));
    }
}

#[verifier::rlimit(100)]
proof fn lemma_parse_ser_pairs(ps: Seq<(Seq<char>, JsonV)>, i: int, rest: Seq<char>, f: nat)
    requires
        0 <= i < ps.len(),
        wf_pairs(ps, i),
        f >= jdepth_pairs(ps, i),
    ensures
        spec_parse_pairs(spec_ser_pairs(ps, i) + seq!['}'] + rest, f) == Some(
            (ps.skip(i), rest),
        ),
    decreases ps, ps.len() - i,
{
    let k = ps[i].0;
    let v = ps[i].1;
    let tail: Seq<char> = if i == ps.len() - 1 {
        seq!['}'] + rest
    } else {
        seq![','] + (spec_ser_pairs(ps, i + 1) + seq!['}'] + rest)
    };
    let vtail = spec_ser(v) + tail;
    let s = spec_ser_pairs(ps, i) + seq!['}'] + rest;
    assert(s =~= seq!['"'] + (escape(k) + seq!['"'] + (seq![':'] + vtail)));
    let s0 = seq!['"'] + (escape(k) + seq!['"'] + (seq![':'] + vtail));
    assert(s0[0] == '"');
    assert(skip_ws(s0) == s0);
    assert(s0.drop_first() =~= escape(k) + seq!['"'] + (seq![':'] + vtail));
    lemma_parse_escape(k, seq![':'] + vtail);
    let after_key = seq![':'] + vtail;
    assert(after_key[0] == ':');
    assert(skip_ws(after_key) == after_key);
    assert(after_key.drop_first() =~= vtail);
    assert(vtail.len() < s.len());
    lemma_ser_first(v);
    assert(tail[0] == (if i == ps.len() - 1 { '}' } else { ',' }));
    lemma_parse_ser_value(v, tail, f);
    assert(skip_ws(tail) == tail);
    if i == ps.len() - 1 {
        assert(tail.drop_first() =~= rest);
        assert(ps.skip(i) =~= seq![ps[i]]);
    } else {
        let t4 = tail.drop_first();
        assert(t4 =~= spec_ser_pairs(ps, i + 1) + seq!['}'] + rest);
        assert(t4.len() < s.len());
        lemma_parse_ser_pairs(ps, i + 1, rest, f);
        assert(seq![ps[i]] + ps.skip(i + 1) =~= ps.skip(i));
    }
}

/// The serialized text is at least as long as the value is deep, so the
/// whole-frame parser's fuel always suffices.
pub proof fn lemma_depth_le_len(v: JsonV)
    requires
        wf_json(v),
    ensures
        jdepth(v) <= spec_ser(v).len(),
    decreases v, 0int,
{
    match v {
        JsonV::Arr(els) => {
            lemma_depth_le_len_elems(els, 0);
        },
        JsonV::Obj(ps) => {
            lemma_depth_le_len_pairs(ps, 0);
        },
        JsonV::Num(s) => {},
        _ => {},
    }
}

proof fn lemma_depth_le_len_elems(els: Seq<JsonV>, i: int)
    requires
        0 <= i,
        wf_elems(els, i),
    ensures
        jdepth_elems(els, i) <= spec_ser_elems(els, i).len() + 1,
    decreases els, els.len() - i,
{
    if i < els.len() {
        lemma_depth_le_len(els[i]);
        lemma_depth_le_len_elems(els, i + 1);
    }
}

proof fn lemma_depth_le_len_pairs(ps: Seq<(Seq<char>, JsonV)>, i: int)
    requires
        0 <= i,
        wf_pairs(ps, i),
    ensures
        jdepth_pairs(ps, i) <= spec_ser_pairs(ps, i).len() + 1,
    decreases ps, ps.len() - i,
{
    if i < ps.len() {
        lemma_depth_le_len(ps[i].1);
        lemma_depth_le_len_pairs(ps, i + 1);
    }
}

/// Round trip at the frame level: a well-formed value parses back from its
/// own canonical text.
pub proof fn lemma_parse_ser_json(v: JsonV)
    requires
        wf_json(v),
        !(v is Num),
    ensures
        spec_parse_json(spec_ser(v)) == Some(v),
{
    let s = spec_ser(v);
    lemma_depth_le_len(v);
    lemma_parse_ser_value(v, Seq::empty(), s.len() as nat);
    assert(s + Seq::<char>::empty() =~= s);
    assert(skip_ws(Seq::<char>::empty()).len() == 0);
}

} // verus!
