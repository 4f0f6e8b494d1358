//! The self-describing line format.
//!
//! A record is framed as one line of text: an object of `"name":value`
//! members in record order, between braces, closed by a single line feed.
//! Values are text in double quotes with the usual escapes, decimal
//! integers, `true`, `false`, or `null`. [`decode_line`] is the exact
//! specification of reading such a line back; encoding then decoding yields
//! the record unchanged.
use vstd::prelude::*;

use crate::record::{Record, Value, ValueV};
use crate::text::string_of;

verus! {

/// The decimal digit of `n`.
pub open spec fn digit_char(n: int) -> char {
    if n == 0 {
        '0'
    } else if n == 1 {
        '1'
    } else if n == 2 {
        '2'
    } else if n == 3 {
        '3'
    } else if n == 4 {
        '4'
    } else if n == 5 {
        '5'
    } else if n == 6 {
        '6'
    } else if n == 7 {
        '7'
    } else if n == 8 {
        '8'
    } else {
        '9'
    }
}

/// The lower-case hexadecimal digit of `n`.
pub open spec fn hex_char(n: int) -> char {
    if n < 10 {
        digit_char(n)
    } else if n == 10 {
        'a'
    } else if n == 11 {
        'b'
    } else if n == 12 {
        'c'
    } else if n == 13 {
        'd'
    } else if n == 14 {
        'e'
    } else {
        'f'
    }
}

/// How one character is written inside a quoted text.
pub open spec fn esc_char(c: char) -> Seq<char> {
    if c == '"' {
        seq!['\\', '"']
    } else if c == '\\' {
        seq!['\\', '\\']
    } else if c == '\u{8}' {
        seq!['\\', 'b']
    } else if c == '\t' {
        seq!['\\', 't']
    } else if c == '\n' {
        seq!['\\', 'n']
    } else if c == '\u{c}' {
        seq!['\\', 'f']
    } else if c == '\r' {
        seq!['\\', 'r']
    } else if (c as u32) < 0x20 {
        seq!['\\', 'u', '0', '0', hex_char((c as u32 / 16) as int), hex_char((c as u32 % 16) as int)]
    } else {
        seq![c]
    }
}

/// A text with every character written in its escaped form.
pub open spec fn escape(s: Seq<char>) -> Seq<char>
    decreases s.len(),
{
    if s.len() == 0 {
        Seq::empty()
    } else {
        esc_char(s[0]) + escape(s.drop_first())
    }
}

/// A text in double quotes.
pub open spec fn quoted(s: Seq<char>) -> Seq<char> {
    seq!['"'] + escape(s) + seq!['"']
}

/// The decimal digits of `n`, most significant first.
pub open spec fn dec_digits(n: nat) -> Seq<char>
    decreases n,
{
    if n < 10 {
        seq![digit_char(n as int)]
    } else {
        dec_digits(n / 10) + seq![digit_char((n % 10) as int)]
    }
}

/// The decimal form of `i`, with a leading minus sign when negative.
pub open spec fn dec_int(i: int) -> Seq<char> {
    if i < 0 {
        seq!['-'] + dec_digits((-i) as nat)
    } else {
        dec_digits(i as nat)
    }
}

/// How one value is written.
pub open spec fn enc_value(v: ValueV) -> Seq<char> {
    match v {
        ValueV::Null => seq!['n', 'u', 'l', 'l'],
        ValueV::Bool(b) => if b {
            seq!['t', 'r', 'u', 'e']
        } else {
            seq!['f', 'a', 'l', 's', 'e']
        },
        ValueV::Int(i) => dec_int(i),
        ValueV::Text(s) => quoted(s),
    }
}

/// How one field is written: its quoted name, a colon, its value.
pub open spec fn enc_field(f: (Seq<char>, ValueV)) -> Seq<char> {
    quoted(f.0) + seq![':'] + enc_value(f.1)
}

/// The fields in order, separated by commas.
pub open spec fn enc_fields(fs: Seq<(Seq<char>, ValueV)>) -> Seq<char>
    decreases fs.len(),
{
    if fs.len() == 0 {
        Seq::empty()
    } else if fs.len() == 1 {
        enc_field(fs[0])
    } else {
        enc_field(fs[0]) + seq![','] + enc_fields(fs.drop_first())
    }
}

/// A whole line: the fields between braces, closed by one line feed.
pub open spec fn enc_line(fs: Seq<(Seq<char>, ValueV)>) -> Seq<char> {
    seq!['{'] + enc_fields(fs) + seq!['}', '\n']
}

proof fn lemma_escape_snoc(s: Seq<char>, c: char)
    ensures
        escape(s.push(c)) == escape(s) + esc_char(c),
    decreases s.len(),
{
    let p = s.push(c);
    assert(escape(p) == esc_char(p[0]) + escape(p.drop_first()));
    if s.len() == 0 {
        assert(p[0] == c);
        assert(p.drop_first() =~= Seq::<char>::empty());
        assert(escape(s) =~= Seq::<char>::empty());
        assert(escape(p) =~= escape(s) + esc_char(c));
    } else {
        assert(p[0] == s[0]);
        assert(p.drop_first() =~= s.drop_first().push(c));
        lemma_escape_snoc(s.drop_first(), c);
        assert(escape(s) == esc_char(s[0]) + escape(s.drop_first()));
        assert(escape(p) =~= escape(s) + esc_char(c));
    }
}

proof fn lemma_enc_fields_snoc(fs: Seq<(Seq<char>, ValueV)>, x: (Seq<char>, ValueV))
    ensures
        enc_fields(fs.push(x)) == if fs.len() == 0 {
            enc_field(x)
        } else {
            enc_fields(fs) + seq![','] + enc_field(x)
        },
    decreases fs.len(),
{
    let p = fs.push(x);
    if fs.len() == 0 {
        assert(p[0] == x);
    } else {
        assert(p[0] == fs[0]);
        assert(p.drop_first() =~= fs.drop_first().push(x));
        lemma_enc_fields_snoc(fs.drop_first(), x);
        if fs.len() == 1 {
            assert(fs.drop_first().len() == 0);
            assert(enc_fields(p) == enc_field(p[0]) + seq![','] + enc_fields(p.drop_first()));
            assert(enc_fields(p.drop_first()) == enc_field(x));
            assert(enc_fields(fs) == enc_field(fs[0]));
            assert(enc_fields(p) =~= enc_fields(fs) + seq![','] + enc_field(x));
        } else {
            assert(enc_fields(p) == enc_field(p[0]) + seq![','] + enc_fields(p.drop_first()));
            assert(enc_fields(fs) == enc_field(fs[0]) + seq![','] + enc_fields(fs.drop_first()));
            assert(enc_fields(p) =~= enc_fields(fs) + seq![','] + enc_field(x));
        }
    }
}

/// The decimal digit for `0 <= n <= 9`.
fn digit_char_exec(n: u64) -> (c: char)
    requires
        n < 10,
    ensures
        c == digit_char(n as int),
{
    let c = match n {
        0 => '0',
        1 => '1',
        2 => '2',
        3 => '3',
        4 => '4',
        5 => '5',
        6 => '6',
        7 => '7',
        8 => '8',
        _ => '9',
    };
    assert(c == digit_char(n as int));
    c
}

/// The lower-case hexadecimal digit for `0 <= n <= 15`.
fn hex_char_exec(n: u32) -> (c: char)
    requires
        n < 16,
    ensures
        c == hex_char(n as int),
{
    let c = match n {
        0 => '0',
        1 => '1',
        2 => '2',
        3 => '3',
        4 => '4',
        5 => '5',
        6 => '6',
        7 => '7',
        8 => '8',
        9 => '9',
        10 => 'a',
        11 => 'b',
        12 => 'c',
        13 => 'd',
        14 => 'e',
        _ => 'f',
    };
    assert(c == hex_char(n as int));
    c
}

/// Appends the escaped form of one character.
fn push_esc_char(out: &mut Vec<char>, c: char)
    ensures
        final(out)@ == old(out)@ + esc_char(c),
{
    if c == '"' {
        out.push('\\');
        out.push('"');
    } else if c == '\\' {
        out.push('\\');
        out.push('\\');
    } else if c == '\u{8}' {
        out.push('\\');
        out.push('b');
    } else if c == '\t' {
        out.push('\\');
        out.push('t');
    } else if c == '\n' {
        out.push('\\');
        out.push('n');
    } else if c == '\u{c}' {
        out.push('\\');
        out.push('f');
    } else if c == '\r' {
        out.push('\\');
        out.push('r');
    } else if (c as u32) < 0x20 {
        out.push('\\');
        out.push('u');
        out.push('0');
        out.push('0');
        out.push(hex_char_exec((c as u32) / 16));
        out.push(hex_char_exec((c as u32) % 16));
    } else {
        out.push(c);
    }
    assert(final(out)@ =~= old(out)@ + esc_char(c));
}

/// Appends the escaped form of a text.
fn push_escaped(out: &mut Vec<char>, s: &str)
    ensures
        final(out)@ == old(out)@ + escape(s@),
{
    let n = s.unicode_len();
    let mut i: usize = 0;
    while i < n
        invariant
            i <= n,
            n == s@.len(),
            out@ == old(out)@ + escape(s@.take(i as int)),
        decreases n - i,
    {
        push_esc_char(out, s.get_char(i));
        proof {
            assert(s@.take(i + 1 as int) =~= s@.take(i as int).push(s@[i as int]));
            lemma_escape_snoc(s@.take(i as int), s@[i as int]);
        }
        i = i + 1;
    }
    proof {
        assert(s@.take(n as int) =~= s@);
    }
}

/// Appends a text in double quotes.
fn push_quoted(out: &mut Vec<char>, s: &str)
    ensures
        final(out)@ == old(out)@ + quoted(s@),
{
    out.push('"');
    push_escaped(out, s);
    out.push('"');
    assert(final(out)@ =~= old(out)@ + quoted(s@));
}

/// Appends the decimal digits of `n`.
fn push_u64(out: &mut Vec<char>, n: u64)
    ensures
        final(out)@ == old(out)@ + dec_digits(n as nat),
    decreases n,
{
    if n < 10 {
        out.push(digit_char_exec(n));
        assert(final(out)@ =~= old(out)@ + dec_digits(n as nat));
    } else {
        push_u64(out, n / 10);
        out.push(digit_char_exec(n % 10));
        assert(final(out)@ =~= old(out)@ + dec_digits(n as nat));
    }
}

/// Appends the decimal form of `i`.
fn push_i64(out: &mut Vec<char>, i: i64)
    ensures
        final(out)@ == old(out)@ + dec_int(i as int),
{
    if i < 0 {
        out.push('-');
        let m: u64 = if i == i64::MIN {
            9223372036854775808u64
        } else {
            (-i) as u64
        };
        assert(m as nat == (-(i as int)) as nat);
        push_u64(out, m);
        assert(final(out)@ =~= old(out)@ + dec_int(i as int));
    } else {
        push_u64(out, i as u64);
    }
}

/// Appends one value.
fn push_value(out: &mut Vec<char>, v: &Value)
    ensures
        final(out)@ == old(out)@ + enc_value(v@),
{
    match v {
        Value::Null => {
            out.push('n');
            out.push('u');
            out.push('l');
            out.push('l');
            assert(final(out)@ =~= old(out)@ + enc_value(v@));
        },
        Value::Bool(b) => {
            if *b {
                out.push('t');
                out.push('r');
                out.push('u');
                out.push('e');
            } else {
                out.push('f');
                out.push('a');
                out.push('l');
                out.push('s');
                out.push('e');
            }
            assert(final(out)@ =~= old(out)@ + enc_value(v@));
        },
        Value::Unsigned(n) => {
            push_u64(out, *n);
        },
        Value::Signed(n) => {
            push_i64(out, *n);
        },
        Value::Text(s) => {
            push_quoted(out, s.as_str());
        },
    }
}

/// Writes a record as one line: its fields in order between braces, closed
/// by a single line feed.
pub fn encode_line(r: &Record) -> (line: String)
    ensures
        line@ == enc_line(r@),
{
    let mut out: Vec<char> = Vec::new();
    out.push('{');
    let n = r.len();
    let mut i: usize = 0;
    while i < n
        invariant
            i <= n,
            n == r@.len(),
            out@ == seq!['{'] + enc_fields(r@.take(i as int)),
        decreases n - i,
    {
        if i > 0 {
            out.push(',');
        }
        let ghost before = out@;
        push_quoted(&mut out, r.fields[i].0.as_str());
        out.push(':');
        push_value(&mut out, &r.fields[i].1);
        proof {
            assert(r@[i as int] == (r.fields@[i as int].0@, r.fields@[i as int].1@));
            assert(out@ =~= before + enc_field(r@[i as int]));
            assert(r@.take(i + 1 as int) =~= r@.take(i as int).push(r@[i as int]));
            lemma_enc_fields_snoc(r@.take(i as int), r@[i as int]);
            if i > 0 {
                assert(out@ =~= seq!['{'] + enc_fields(r@.take(i + 1 as int)));
            } else {
                assert(r@.take(0).len() == 0);
                assert(out@ =~= seq!['{'] + enc_fields(r@.take(i + 1 as int)));
            }
        }
        i = i + 1;
    }
    out.push('}');
    out.push('\n');
    proof {
        assert(r@.take(n as int) =~= r@);
        assert(out@ =~= enc_line(r@));
    }
    string_of(&out)
}


/// The character written by a short escape, if `c` is one.
pub open spec fn unesc_short(c: char) -> Option<char> {
    if c == '"' {
        Some('"')
    } else if c == '\\' {
        Some('\\')
    } else if c == '/' {
        Some('/')
    } else if c == 'b' {
        Some('\u{8}')
    } else if c == 'f' {
        Some('\u{c}')
    } else if c == 'n' {
        Some('\n')
    } else if c == 'r' {
        Some('\r')
    } else if c == 't' {
        Some('\t')
    } else {
        None
    }
}

/// The value of a hexadecimal digit, if `c` is one.
pub open spec fn unhex(c: char) -> Option<int> {
    if '0' <= c && c <= '9' {
        Some(c as int - '0' as int)
    } else if 'a' <= c && c <= 'f' {
        Some(c as int - 'a' as int + 10)
    } else if 'A' <= c && c <= 'F' {
        Some(c as int - 'A' as int + 10)
    } else {
        None
    }
}

/// Reads quoted text after its opening quote: the unescaped content, and
/// what follows the closing quote. Raw control characters are refused.
pub open spec fn parse_string(s: Seq<char>) -> Option<(Seq<char>, Seq<char>)>
    decreases s.len(),
{
    if s.len() == 0 {
        None
    } else if s[0] == '"' {
        Some((Seq::empty(), s.drop_first()))
    } else if s[0] == '\\' {
        if s.len() < 2 {
            None
        } else if s[1] == 'u' {
            if s.len() < 6 {
                None
            } else {
                match (unhex(s[2]), unhex(s[3]), unhex(s[4]), unhex(s[5])) {
                    (Some(a), Some(b), Some(c), Some(d)) => {
                        let code = a * 4096 + b * 256 + c * 16 + d;
                        if 0xD800 <= code && code < 0xE000 {
                            None
                        } else {
                            match parse_string(s.skip(6)) {
                                Some((t, rest)) => Some((seq![(code as u32) as char] + t, rest)),
                                None => None,
                            }
                        }
                    },
                    _ => None,
                }
            }
        } else {
            match unesc_short(s[1]) {
                Some(u) => match parse_string(s.skip(2)) {
                    Some((t, rest)) => Some((seq![u] + t, rest)),
                    None => None,
                },
                None => None,
            }
        }
    } else if (s[0] as u32) < 0x20 {
        None
    } else {
        match parse_string(s.drop_first()) {
            Some((t, rest)) => Some((seq![s[0]] + t, rest)),
            None => None,
        }
    }
}

/// Whether `c` is a decimal digit.
pub open spec fn is_digit(c: char) -> bool {
    '0' <= c && c <= '9'
}

/// The value of a decimal digit.
pub open spec fn digit_val(c: char) -> int {
    c as int - '0' as int
}

/// How many decimal digits `s` begins with.
pub open spec fn span_digits(s: Seq<char>) -> int
    decreases s.len(),
{
    if s.len() == 0 || !is_digit(s[0]) {
        0
    } else {
        1 + span_digits(s.drop_first())
    }
}

/// The number named by a digit sequence.
pub open spec fn digits_val(d: Seq<char>) -> int
    decreases d.len(),
{
    if d.len() == 0 {
        0
    } else {
        digits_val(d.drop_last()) * 10 + digit_val(d.last())
    }
}

/// Reads a decimal integer, optionally signed: its value and what follows
/// its digits.
pub open spec fn parse_number(s: Seq<char>) -> Option<(int, Seq<char>)> {
    if s.len() > 0 && s[0] == '-' {
        let k = span_digits(s.drop_first());
        if k == 0 {
            None
        } else {
            Some((-digits_val(s.drop_first().take(k)), s.drop_first().skip(k)))
        }
    } else {
        let k = span_digits(s);
        if k == 0 {
            None
        } else {
            Some((digits_val(s.take(k)), s.skip(k)))
        }
    }
}

/// Reads one value: quoted text, `null`, `true`, `false`, or a decimal
/// integer.
pub open spec fn parse_value(s: Seq<char>) -> Option<(ValueV, Seq<char>)> {
    if s.len() == 0 {
        None
    } else if s[0] == '"' {
        match parse_string(s.drop_first()) {
            Some((t, rest)) => Some((ValueV::Text(t), rest)),
            None => None,
        }
    } else if s.len() >= 4 && s.take(4) == seq!['n', 'u', 'l', 'l'] {
        Some((ValueV::Null, s.skip(4)))
    } else if s.len() >= 4 && s.take(4) == seq!['t', 'r', 'u', 'e'] {
        Some((ValueV::Bool(true), s.skip(4)))
    } else if s.len() >= 5 && s.take(5) == seq!['f', 'a', 'l', 's', 'e'] {
        Some((ValueV::Bool(false), s.skip(5)))
    } else {
        match parse_number(s) {
            Some((i, rest)) => Some((ValueV::Int(i), rest)),
            None => None,
        }
    }
}

/// Reads `"name":value` members separated by commas, in order. `fuel`
/// bounds the number of members and only needs to be at least their count.
pub open spec fn parse_fields(s: Seq<char>, fuel: nat) -> Option<
    (Seq<(Seq<char>, ValueV)>, Seq<char>),
>
    decreases fuel,
{
    if fuel == 0 {
        None
    } else if s.len() == 0 || s[0] != '"' {
        None
    } else {
        match parse_string(s.drop_first()) {
            Some((k, r1)) => if r1.len() == 0 || r1[0] != ':' {
                None
            } else {
                match parse_value(r1.drop_first()) {
                    Some((v, r2)) => if r2.len() > 0 && r2[0] == ',' {
                        match parse_fields(r2.drop_first(), (fuel - 1) as nat) {
                            Some((fs, r3)) => Some((seq![(k, v)] + fs, r3)),
                            None => None,
                        }
                    } else {
                        Some((seq![(k, v)], r2))
                    },
                    None => None,
                }
            },
            None => None,
        }
    }
}

/// Reads one whole line back: the fields of the object between the braces,
/// in order. The exact specification of the line format.
pub open spec fn decode_line(s: Seq<char>) -> Option<Seq<(Seq<char>, ValueV)>> {
    if s.len() >= 3 && s[0] == '{' && s[s.len() - 2] == '}' && s.last() == '\n' {
        let inner = s.subrange(1, s.len() - 2);
        if inner.len() == 0 {
            Some(Seq::empty())
        } else {
            match parse_fields(inner, inner.len() as nat) {
                Some((fs, rest)) => if rest.len() == 0 {
                    Some(fs)
                } else {
                    None
                },
                None => None,
            }
        }
    } else {
        None
    }
}

proof fn lemma_unhex_hex(n: int)
    requires
        0 <= n < 16,
    ensures
        unhex(hex_char(n)) == Some(n),
{
}

/// Unescaping undoes escaping: reading quoted text over the escaped form
/// of `t` yields `t` exactly, whatever follows the closing quote.
pub proof fn lemma_parse_string_escape(t: Seq<char>, rest: Seq<char>)
    ensures
        parse_string(escape(t) + seq!['"'] + rest) == Some((t, rest)),
    decreases t.len(),
{
    let s = escape(t) + seq!['"'] + rest;
    if t.len() == 0 {
        assert(s =~= seq!['"'] + rest);
        assert(s[0] == '"');
        assert(s.drop_first() =~= rest);
    } else {
        let c = t[0];
        let t2 = t.drop_first();
        assert(escape(t) == esc_char(c) + escape(t2));
        lemma_parse_string_escape(t2, rest);
        let s2 = escape(t2) + seq!['"'] + rest;
        if c == '"' || c == '\\' {
            assert(s[0] == '\\' && s.len() >= 2);
            assert(s[1] == c);
            assert(s[1] != 'u');
            assert(unesc_short(s[1]) == Some(c));
            assert(s.skip(2) =~= s2);
            assert(seq![c] + t2 =~= t);
        } else if c == '\u{8}' || c == '\t' || c == '\n' || c == '\u{c}' || c == '\r' {
            assert(s[0] == '\\' && s.len() >= 2);
            assert(s[1] != 'u' && s[1] != '"' && s[1] != '\\');
            assert(unesc_short(s[1]) == Some(c));
            assert(s.skip(2) =~= s2);
            assert(seq![c] + t2 =~= t);
        } else if (c as u32) < 0x20 {
            assert(esc_char(c) == seq!['\\', 'u', '0', '0', hex_char((c as u32 / 16) as int),
                hex_char((c as u32 % 16) as int)]);
            assert(s[0] == '\\' && s.len() >= 6);
            assert(s[1] == 'u');
            assert(unhex(s[2]) == Some(0int) && unhex(s[3]) == Some(0int));
            lemma_unhex_hex((c as u32 / 16) as int);
            lemma_unhex_hex((c as u32 % 16) as int);
            assert(unhex(s[4]) == Some((c as u32 / 16) as int));
            assert(unhex(s[5]) == Some((c as u32 % 16) as int));
            let cu = c as u32;
            let code = 0 * 4096 + 0 * 256 + (cu / 16) as int * 16 + (cu % 16) as int;
            assert((cu / 16) * 16 + (cu % 16) == cu) by (nonlinear_arith);
            assert(code == cu as int);
            assert(!(0xD800 <= code && code < 0xE000));
            vstd::utf8::char_u32_cast(c, cu);
            assert(code as u32 == cu);
            assert((code as u32) as char == c);
            assert(s.skip(6) =~= s2);
            assert(seq![c] + t2 =~= t);
        } else {
            assert(esc_char(c) == seq![c]);
            assert(s[0] == c);
            assert(c != '"' && c != '\\');
            assert(!((s[0] as u32) < 0x20));
            assert(s.drop_first() =~= s2);
            assert(seq![c] + t2 =~= t);
        }
    }
}

proof fn lemma_dec_digits_digits(n: nat)
    ensures
        dec_digits(n).len() >= 1,
        forall|i: int| 0 <= i < dec_digits(n).len() ==> is_digit(#[trigger] dec_digits(n)[i]),
    decreases n,
{
    if n < 10 {
        assert(is_digit(digit_char(n as int)));
    } else {
        lemma_dec_digits_digits(n / 10);
        assert(is_digit(digit_char((n % 10) as int)));
    }
}

proof fn lemma_span_digits_all(d: Seq<char>, rest: Seq<char>)
    requires
        forall|i: int| 0 <= i < d.len() ==> is_digit(#[trigger] d[i]),
        rest.len() == 0 || !is_digit(rest[0]),
    ensures
        span_digits(d + rest) == d.len(),
    decreases d.len(),
{
    let s = d + rest;
    if d.len() == 0 {
        assert(s =~= rest);
    } else {
        assert(s[0] == d[0]);
        assert(s.drop_first() =~= d.drop_first() + rest);
        lemma_span_digits_all(d.drop_first(), rest);
    }
}

proof fn lemma_digits_val_dec(n: nat)
    ensures
        digits_val(dec_digits(n)) == n,
    decreases n,
{
    if n < 10 {
        let d = dec_digits(n);
        assert(d =~= seq![digit_char(n as int)]);
        assert(d.drop_last() =~= Seq::<char>::empty());
        assert(digits_val(d) == digits_val(d.drop_last()) * 10 + digit_val(d.last()));
        assert(digits_val(Seq::<char>::empty()) == 0);
        assert(digit_val(digit_char(n as int)) == n);
    } else {
        lemma_digits_val_dec(n / 10);
        let d = dec_digits(n);
        assert(d == dec_digits(n / 10) + seq![digit_char((n % 10) as int)]);
        assert(d.drop_last() =~= dec_digits(n / 10));
        assert(d.last() == digit_char((n % 10) as int));
        assert(digit_val(digit_char((n % 10) as int)) == n % 10);
        assert(digits_val(d) == (n / 10) * 10 + (n % 10));
        assert((n / 10) * 10 + (n % 10) == n) by (nonlinear_arith);
    }
}

/// Reading a number undoes writing one, whatever non-digit text follows.
pub proof fn lemma_parse_number_dec(i: int, rest: Seq<char>)
    requires
        rest.len() == 0 || !is_digit(rest[0]),
    ensures
        parse_number(dec_int(i) + rest) == Some((i, rest)),
{
    let s = dec_int(i) + rest;
    if i < 0 {
        let m = (-i) as nat;
        lemma_dec_digits_digits(m);
        assert(s[0] == '-');
        assert(s.drop_first() =~= dec_digits(m) + rest);
        lemma_span_digits_all(dec_digits(m), rest);
        let k = span_digits(s.drop_first());
        assert(k == dec_digits(m).len());
        assert(s.drop_first().take(k) =~= dec_digits(m));
        assert(s.drop_first().skip(k) =~= rest);
        lemma_digits_val_dec(m);
    } else {
        let m = i as nat;
        lemma_dec_digits_digits(m);
        assert(s =~= dec_digits(m) + rest);
        assert(s[0] == dec_digits(m)[0]);
        assert(is_digit(s[0]));
        assert(s[0] != '-');
        lemma_span_digits_all(dec_digits(m), rest);
        let k = span_digits(s);
        assert(k == dec_digits(m).len());
        assert(s.take(k) =~= dec_digits(m));
        assert(s.skip(k) =~= rest);
        lemma_digits_val_dec(m);
    }
}

/// Reading a value undoes writing one, whatever follows it, as long as a
/// written number is not followed directly by another digit.
pub proof fn lemma_parse_value_enc(v: ValueV, rest: Seq<char>)
    requires
        rest.len() == 0 || !is_digit(rest[0]),
    ensures
        parse_value(enc_value(v) + rest) == Some((v, rest)),
{
    let s = enc_value(v) + rest;
    match v {
        ValueV::Null => {
            assert(s[0] == 'n');
            assert(s.len() >= 4 && s.take(4) =~= seq!['n', 'u', 'l', 'l']);
            assert(s.skip(4) =~= rest);
        },
        ValueV::Bool(b) => {
            if b {
                assert(s[0] == 't');
                assert(s.len() >= 4 && s.take(4) =~= seq!['t', 'r', 'u', 'e']);
                assert(s.take(4)[0] == 't');
                assert(s.take(4) != seq!['n', 'u', 'l', 'l']) by {
                    assert(seq!['n', 'u', 'l', 'l'][0] == 'n');
                }
                assert(s.skip(4) =~= rest);
            } else {
                assert(s[0] == 'f');
                assert(s.len() >= 5 && s.take(5) =~= seq!['f', 'a', 'l', 's', 'e']);
                if s.len() >= 4 {
                    assert(s.take(4)[0] == 'f');
                    assert(s.take(4) != seq!['n', 'u', 'l', 'l']) by {
                        assert(seq!['n', 'u', 'l', 'l'][0] == 'n');
                    }
                    assert(s.take(4) != seq!['t', 'r', 'u', 'e']) by {
                        assert(seq!['t', 'r', 'u', 'e'][0] == 't');
                    }
                }
                assert(s.skip(5) =~= rest);
            }
        },
        ValueV::Int(i) => {
            lemma_parse_number_dec(i, rest);
            if i < 0 {
                assert(s[0] == '-');
            } else {
                lemma_dec_digits_digits(i as nat);
                assert(s[0] == dec_digits(i as nat)[0]);
                assert(is_digit(s[0]));
            }
            assert(s[0] != '"');
            if s.len() >= 4 {
                assert(s.take(4)[0] == s[0]);
                assert(s.take(4) != seq!['n', 'u', 'l', 'l']) by {
                    assert(seq!['n', 'u', 'l', 'l'][0] == 'n');
                }
                assert(s.take(4) != seq!['t', 'r', 'u', 'e']) by {
                    assert(seq!['t', 'r', 'u', 'e'][0] == 't');
                }
            }
            if s.len() >= 5 {
                assert(s.take(5)[0] == s[0]);
                assert(s.take(5) != seq!['f', 'a', 'l', 's', 'e']) by {
                    assert(seq!['f', 'a', 'l', 's', 'e'][0] == 'f');
                }
            }
        },
        ValueV::Text(t) => {
            assert(s[0] == '"');
            assert(s.drop_first() =~= escape(t) + seq!['"'] + rest);
            lemma_parse_string_escape(t, rest);
        },
    }
}

/// Reading members undoes writing them, whatever tail follows, as long as
/// the tail does not begin with a comma or a digit.
#[verifier::rlimit(100)]
pub proof fn lemma_parse_fields_enc(fs: Seq<(Seq<char>, ValueV)>, tail: Seq<char>, fuel: nat)
    requires
        fs.len() >= 1,
        fuel >= fs.len(),
        tail.len() == 0 || (tail[0] != ',' && !is_digit(tail[0])),
    ensures
        parse_fields(enc_fields(fs) + tail, fuel) == Some((fs, tail)),
    decreases fs.len(),
{
    let s = enc_fields(fs) + tail;
    let k = fs[0].0;
    let v = fs[0].1;
    if fs.len() == 1 {
        assert(enc_fields(fs) == enc_field(fs[0]));
        assert(s =~= seq!['"'] + (escape(k) + seq!['"'] + (seq![':'] + (enc_value(v) + tail))));
        assert(s[0] == '"');
        assert(s.drop_first() =~= escape(k) + seq!['"'] + (seq![':'] + (enc_value(v) + tail)));
        lemma_parse_string_escape(k, seq![':'] + (enc_value(v) + tail));
        let r1 = seq![':'] + (enc_value(v) + tail);
        assert(r1[0] == ':');
        assert(r1.drop_first() =~= enc_value(v) + tail);
        lemma_parse_value_enc(v, tail);
        let r2 = tail;
        assert(!(r2.len() > 0 && r2[0] == ','));
        assert(seq![(k, v)] =~= fs);
    } else {
        let fs2 = fs.drop_first();
        assert(enc_fields(fs) == enc_field(fs[0]) + seq![','] + enc_fields(fs2));
        let x = seq![','] + (enc_fields(fs2) + tail);
        assert(s =~= seq!['"'] + (escape(k) + seq!['"'] + (seq![':'] + (enc_value(v) + x))));
        assert(s[0] == '"');
        assert(s.drop_first() =~= escape(k) + seq!['"'] + (seq![':'] + (enc_value(v) + x)));
        lemma_parse_string_escape(k, seq![':'] + (enc_value(v) + x));
        let r1 = seq![':'] + (enc_value(v) + x);
        assert(r1[0] == ':');
        assert(r1.drop_first() =~= enc_value(v) + x);
        assert(x[0] == ',');
        assert(!is_digit(','));
        lemma_parse_value_enc(v, x);
        let r2 = x;
        assert(r2.len() > 0 && r2[0] == ',');
        assert(r2.drop_first() =~= enc_fields(fs2) + tail);
        lemma_parse_fields_enc(fs2, tail, (fuel - 1) as nat);
        assert(seq![(k, v)] + fs2 =~= fs);
    }
}

proof fn lemma_enc_value_len(v: ValueV)
    ensures
        enc_value(v).len() >= 1,
{
    match v {
        ValueV::Int(i) => {
            if i < 0 {
                lemma_dec_digits_digits((-i) as nat);
            } else {
                lemma_dec_digits_digits(i as nat);
            }
        },
        _ => (),
    }
}

proof fn lemma_enc_fields_len(fs: Seq<(Seq<char>, ValueV)>)
    ensures
        enc_fields(fs).len() >= fs.len(),
    decreases fs.len(),
{
    if fs.len() == 0 {
    } else if fs.len() == 1 {
        lemma_enc_value_len(fs[0].1);
    } else {
        lemma_enc_fields_len(fs.drop_first());
        lemma_enc_value_len(fs[0].1);
    }
}

/// Every line decodes back to exactly the fields it was written from: the
/// line framing round-trip.
pub proof fn lemma_line_round_trip(fs: Seq<(Seq<char>, ValueV)>)
    ensures
        decode_line(enc_line(fs)) == Some(fs),
{
    let s = enc_line(fs);
    assert(s.len() >= 3);
    assert(s[0] == '{');
    assert(s[s.len() - 2] == '}');
    assert(s.last() == '\n');
    let inner = s.subrange(1, s.len() - 2);
    assert(inner =~= enc_fields(fs));
    if fs.len() == 0 {
        assert(inner.len() == 0);
        assert(fs =~= Seq::<(Seq<char>, ValueV)>::empty());
    } else {
        lemma_enc_fields_len(fs);
        assert(inner.len() >= fs.len());
        assert(enc_fields(fs) + Seq::<char>::empty() =~= inner);
        lemma_parse_fields_enc(fs, Seq::empty(), inner.len() as nat);
    }
}


proof fn lemma_escape_no_nl(t: Seq<char>)
    ensures
        forall|i: int| 0 <= i < escape(t).len() ==> #[trigger] escape(t)[i] != '\n',
    decreases t.len(),
{
    if t.len() > 0 {
        lemma_escape_no_nl(t.drop_first());
        let c = t[0];
        assert(forall|i: int| 0 <= i < esc_char(c).len() ==> #[trigger] esc_char(c)[i] != '\n');
        assert(escape(t) == esc_char(c) + escape(t.drop_first()));
    }
}

proof fn lemma_enc_value_no_nl(v: ValueV)
    ensures
        forall|i: int| 0 <= i < enc_value(v).len() ==> #[trigger] enc_value(v)[i] != '\n',
{
    match v {
        ValueV::Null => (),
        ValueV::Bool(_) => (),
        ValueV::Int(n) => {
            if n < 0 {
                lemma_dec_digits_digits((-n) as nat);
                assert(enc_value(v) == seq!['-'] + dec_digits((-n) as nat));
            } else {
                lemma_dec_digits_digits(n as nat);
            }
        },
        ValueV::Text(t) => {
            lemma_escape_no_nl(t);
            assert(enc_value(v) == seq!['"'] + escape(t) + seq!['"']);
        },
    }
}

proof fn lemma_enc_fields_no_nl(fs: Seq<(Seq<char>, ValueV)>)
    ensures
        forall|i: int| 0 <= i < enc_fields(fs).len() ==> #[trigger] enc_fields(fs)[i] != '\n',
    decreases fs.len(),
{
    if fs.len() == 0 {
    } else {
        lemma_escape_no_nl(fs[0].0);
        lemma_enc_value_no_nl(fs[0].1);
        assert(enc_field(fs[0]) == seq!['"'] + escape(fs[0].0) + seq!['"'] + seq![':']
            + enc_value(fs[0].1));
        if fs.len() == 1 {
        } else {
            lemma_enc_fields_no_nl(fs.drop_first());
            assert(enc_fields(fs) == enc_field(fs[0]) + seq![','] + enc_fields(fs.drop_first()));
        }
    }
}

/// A written line ends in exactly one line feed: its last character, and
/// no other.
pub proof fn lemma_line_single_newline(fs: Seq<(Seq<char>, ValueV)>)
    ensures
        enc_line(fs).len() >= 3,
        enc_line(fs).last() == '\n',
        forall|i: int| 0 <= i < enc_line(fs).len() - 1 ==> #[trigger] enc_line(fs)[i] != '\n',
{
    lemma_enc_fields_no_nl(fs);
}

} // verus!
