//! The collection file format.
//!
//! A collection is stored as one JSON array in canonical form: no spacing,
//! fields in a fixed order, strings escaped with `\"`, `\\` and `\u00XX`
//! for control characters.  An active record is written as
//! `{"id":N,"priority":"H"|"M"|"L"|null,"description":["..",..],"due":"YYYY-MM-DD"|null}`,
//! an archived record as `{"summary":".."}`.  The serializer and the parser
//! are both verified against the spec-level grammar here, and parsing what
//! was serialized provably returns the records unchanged.

use vstd::prelude::*;

use crate::active_params::{ActiveParams, ParamsV};
use crate::date::Date;
use crate::priority::Priority;
use crate::store::{views_of, ActiveFilable, Filable};
use crate::task::CompletedTask;

verus! {

// ---------------------------------------------------------------------------
// Decimal numbers
// ---------------------------------------------------------------------------
/// The digit character for a value below ten.
pub open spec fn digit_char(d: nat) -> char {
    (48 + d) as char
}

/// The decimal form of a number, most significant digit first.
pub open spec fn spec_dec(n: nat) -> Seq<char>
    decreases n,
{
    if n < 10 {
        seq![digit_char(n)]
    } else {
        spec_dec(n / 10).push(digit_char(n % 10))
    }
}

/// Whether a character is a decimal digit.
pub open spec fn is_digit(c: char) -> bool {
    '0' <= c <= '9'
}

/// The value of a digit character.
pub open spec fn digit_val(c: char) -> nat {
    ((c as int) - 48) as nat
}

/// Reads digits into `acc` until a non-digit, refusing values beyond `u32`.
pub open spec fn p_num_rec(s: Seq<char>, acc: nat) -> Option<(u32, Seq<char>)>
    decreases s.len(),
{
    if s.len() > 0 && is_digit(s[0]) {
        let acc2 = acc * 10 + digit_val(s[0]);
        if acc2 > u32::MAX {
            None
        } else {
            p_num_rec(s.skip(1), acc2)
        }
    } else {
        Some((acc as u32, s))
    }
}

/// Reads a decimal number: at least one digit, value within `u32`.
pub open spec fn p_num(s: Seq<char>) -> Option<(u32, Seq<char>)> {
    if s.len() > 0 && is_digit(s[0]) {
        p_num_rec(s, 0)
    } else {
        None
    }
}

/// Ten to the `k`.
pub open spec fn pow10(k: nat) -> nat
    decreases k,
{
    if k == 0 {
        1nat
    } else {
        10 * pow10((k - 1) as nat)
    }
}

/// Every character of a decimal form is a digit, and its value fits it.
pub proof fn lemma_dec_digits(n: nat)
    ensures
        spec_dec(n).len() >= 1,
        forall|i: int| 0 <= i < spec_dec(n).len() ==> is_digit(#[trigger] spec_dec(n)[i]),
        is_digit(spec_dec(n)[0]),
    decreases n,
{
    if n < 10 {
        assert(is_digit(digit_char(n)));
    } else {
        lemma_dec_digits(n / 10);
        assert(forall|i: int|
            0 <= i < spec_dec(n / 10).len() ==> is_digit(#[trigger] spec_dec(n)[i]));
        assert(is_digit(digit_char(n % 10)));
    }
}

/// Reading the decimal form of `m` from accumulator `acc` lands on
/// `acc * pow10(len) + m` and continues behind it.
proof fn lemma_p_num_chain(m: nat, acc: nat, tail: Seq<char>)
    requires
        acc * pow10(spec_dec(m).len()) + m <= u32::MAX,
    ensures
        p_num_rec(spec_dec(m) + tail, acc) == p_num_rec(
            tail,
            acc * pow10(spec_dec(m).len()) + m,
        ),
    decreases m,
{
    let s = spec_dec(m) + tail;
    if m < 10 {
        assert(spec_dec(m) == seq![digit_char(m)]);
        assert(s[0] == digit_char(m));
        assert(is_digit(s[0]));
        assert(digit_val(s[0]) == m);
        assert(pow10(0) == 1);
        assert(pow10(1) == 10);
        assert(acc * 10 + m <= u32::MAX);
        assert(s.skip(1) =~= tail);
    } else {
        let hi = m / 10;
        let d = m % 10;
        assert(spec_dec(m) == spec_dec(hi).push(digit_char(d)));
        let tail2 = seq![digit_char(d)] + tail;
        assert(s =~= spec_dec(hi) + tail2);
        let k = spec_dec(hi).len();
        assert(spec_dec(m).len() == k + 1);
        assert(pow10(k + 1) == 10 * pow10(k));
        let acc1 = acc * pow10(k) + hi;
        assert(acc1 * 10 + d == acc * (10 * pow10(k)) + m) by (nonlinear_arith)
            requires
                acc1 == acc * pow10(k) + hi,
                hi == m / 10,
                d == m % 10,
                m >= 10,
        ;
        assert(acc1 * 10 + d <= u32::MAX);
        assert(acc1 <= u32::MAX) by (nonlinear_arith)
            requires
                acc1 * 10 + d <= u32::MAX,
        ;
        lemma_p_num_chain(hi, acc, tail2);
        assert(p_num_rec(s, acc) == p_num_rec(tail2, acc1));
        assert(tail2[0] == digit_char(d));
        assert(is_digit(tail2[0]));
        assert(digit_val(tail2[0]) == d);
        assert(tail2.skip(1) =~= tail);
        assert(p_num_rec(tail2, acc1) == p_num_rec(tail, acc1 * 10 + d));
    }
}

/// Parsing the decimal form of a number, followed by anything that does not
/// begin with a digit, yields the number back and consumes exactly its form.
pub proof fn lemma_num_round_trip(n: u32, rest: Seq<char>)
    requires
        rest.len() == 0 || !is_digit(rest[0]),
    ensures
        p_num(spec_dec(n as nat) + rest) == Some((n, rest)),
{
    lemma_dec_digits(n as nat);
    let s = spec_dec(n as nat) + rest;
    assert(s[0] == spec_dec(n as nat)[0]);
    assert(pow10(spec_dec(n as nat).len()) >= 1) by {
        lemma_pow10_pos(spec_dec(n as nat).len());
    }
    lemma_p_num_chain(n as nat, 0, rest);
    assert(0 * pow10(spec_dec(n as nat).len()) + n as nat == n as nat);
    assert(p_num_rec(rest, n as nat) == Some((n, rest)));
}

/// Ten to any power is positive.
proof fn lemma_pow10_pos(k: nat)
    ensures
        pow10(k) >= 1,
    decreases k,
{
    if k > 0 {
        lemma_pow10_pos((k - 1) as nat);
    }
}

/// Appends one digit character.
fn push_digit(out: &mut Vec<char>, d: u32)
    requires
        d < 10,
    ensures
        final(out)@ == old(out)@.push(digit_char(d as nat)),
{
    let c = (48 + d as u8) as char;
    proof {
        assert(c == digit_char(d as nat));
    }
    out.push(c);
}

/// Appends the decimal form of a number.
fn push_dec(out: &mut Vec<char>, n: u64)
    ensures
        final(out)@ == old(out)@ + spec_dec(n as nat),
    decreases n,
{
    if n >= 10 {
        push_dec(out, n / 10);
        push_digit(out, (n % 10) as u32);
        proof {
            assert(out@ =~= old(out)@ + spec_dec(n as nat));
        }
    } else {
        push_digit(out, n as u32);
        proof {
            assert(out@ =~= old(out)@ + spec_dec(n as nat));
        }
    }
}

/// Reads a decimal number at position `i`: the exec face of `p_num`.
fn parse_num(s: &str, i: usize) -> (r: Option<(u32, usize)>)
    requires
        i <= s@.len(),
    ensures
        match r {
            Some((v, j)) => {
                &&& i <= j <= s@.len()
                &&& p_num(s@.skip(i as int)) == Some((v, s@.skip(j as int)))
            },
            None => p_num(s@.skip(i as int)) is None,
        },
{
    let n = s.unicode_len();
    if i >= n {
        return None;
    }
    let c0 = s.get_char(i);
    if !(c0 >= '0' && c0 <= '9') {
        proof {
            assert(s@.skip(i as int)[0] == c0);
        }
        return None;
    }
    let ghost whole = s@.skip(i as int);
    let mut acc: u64 = 0;
    let mut j: usize = i;
    while j < n
        invariant
            i <= j <= n,
            n == s@.len(),
            whole == s@.skip(i as int),
            acc <= u32::MAX,
            p_num_rec(whole, 0) == p_num_rec(s@.skip(j as int), acc as nat),
            s@.skip(i as int).len() > 0 && is_digit(s@.skip(i as int)[0]),
        decreases n - j,
    {
        let c = s.get_char(j);
        proof {
            assert(s@.skip(j as int)[0] == c);
        }
        if !(c >= '0' && c <= '9') {
            proof {
                assert(p_num_rec(s@.skip(j as int), acc as nat) == Some(
                    (acc as u32, s@.skip(j as int)),
                ));
            }
            return Some((acc as u32, j));
        }
        let d = (c as u32) - 48;
        proof {
            assert(d == digit_val(c));
            assert(d < 10);
        }
        let acc2: u64 = acc * 10 + (d as u64);
        if acc2 > 0xffff_ffffu64 {
            proof {
                assert(p_num_rec(s@.skip(j as int), acc as nat) is None);
            }
            return None;
        }
        proof {
            assert(s@.skip(j as int).skip(1) =~= s@.skip(j + 1));
            assert(p_num_rec(s@.skip(j as int), acc as nat) == p_num_rec(
                s@.skip(j + 1),
                acc2 as nat,
            ));
        }
        acc = acc2;
        j += 1;
    }
    proof {
        assert(s@.skip(j as int).len() == 0);
        assert(p_num_rec(s@.skip(j as int), acc as nat) == Some(
            (acc as u32, s@.skip(j as int)),
        ));
    }
    Some((acc as u32, j))
}

// ---------------------------------------------------------------------------
// JSON strings
// ---------------------------------------------------------------------------
/// The hexadecimal digit character for a value below sixteen.
pub open spec fn hex_char(d: nat) -> char {
    if d < 10 {
        digit_char(d)
    } else {
        (87 + d) as char
    }
}

/// How one character is written inside a JSON string: `"` and `\` get a
/// backslash, control characters become `\u00XX`, all else stands as is.
pub open spec fn esc_char(c: char) -> Seq<char> {
    if c == '"' {
        seq!['\\', '"']
    } else if c == '\\' {
        seq!['\\', '\\']
    } else if (c as nat) < 32 {
        seq!['\\', 'u', '0', '0', hex_char((c as nat) / 16), hex_char((c as nat) % 16)]
    } else {
        seq![c]
    }
}

/// A text with every character written as `esc_char` says.
pub open spec fn esc_str(s: Seq<char>) -> Seq<char>
    decreases s.len(),
{
    if s.len() == 0 {
        Seq::<char>::empty()
    } else {
        esc_char(s[0]) + esc_str(s.skip(1))
    }
}

/// A JSON string: the escaped text between two quotes.
pub open spec fn ser_jstring(s: Seq<char>) -> Seq<char> {
    seq!['"'] + esc_str(s) + seq!['"']
}

/// Whether a character is a lowercase hexadecimal digit.
pub open spec fn is_hex(c: char) -> bool {
    is_digit(c) || ('a' <= c <= 'f')
}

/// The value of a hexadecimal digit character.
pub open spec fn hex_val(c: char) -> nat {
    if is_digit(c) {
        digit_val(c)
    } else {
        ((c as int) - 87) as nat
    }
}

/// Reads the body of a JSON string up to its closing quote, undoing the
/// escapes; `\u00XX` is accepted for the control range only.
pub open spec fn p_jstr_rec(s: Seq<char>, acc: Seq<char>) -> Option<(Seq<char>, Seq<char>)>
    decreases s.len(),
{
    if s.len() == 0 {
        None
    } else if s[0] == '"' {
        Some((acc, s.skip(1)))
    } else if s[0] == '\\' {
        if s.len() >= 2 && (s[1] == '"' || s[1] == '\\') {
            p_jstr_rec(s.skip(2), acc.push(s[1]))
        } else if s.len() >= 6 && s[1] == 'u' && s[2] == '0' && s[3] == '0' && is_hex(s[4])
            && is_hex(s[5]) && hex_val(s[4]) * 16 + hex_val(s[5]) < 32 {
            p_jstr_rec(s.skip(6), acc.push((hex_val(s[4]) * 16 + hex_val(s[5])) as char))
        } else {
            None
        }
    } else {
        p_jstr_rec(s.skip(1), acc.push(s[0]))
    }
}

/// Reads a JSON string: a quote, the escaped body, a quote.
pub open spec fn p_jstring(s: Seq<char>) -> Option<(Seq<char>, Seq<char>)> {
    if s.len() > 0 && s[0] == '"' {
        p_jstr_rec(s.skip(1), Seq::<char>::empty())
    } else {
        None
    }
}

/// Escaping one more character appends its escape.
pub proof fn lemma_esc_str_push(s: Seq<char>, c: char)
    ensures
        esc_str(s.push(c)) == esc_str(s) + esc_char(c),
    decreases s.len(),
{
    assert(s.push(c)[0] == if s.len() == 0 { c } else { s[0] });
    if s.len() == 0 {
        assert(s.push(c).skip(1) =~= Seq::<char>::empty());
        assert(esc_str(s.push(c)) == esc_char(c) + esc_str(s.push(c).skip(1)));
        assert(esc_str(s.push(c)) =~= esc_str(s) + esc_char(c));
    } else {
        assert(s.push(c).skip(1) =~= s.skip(1).push(c));
        lemma_esc_str_push(s.skip(1), c);
        assert(esc_str(s.push(c)) =~= esc_str(s) + esc_char(c));
    }
}

/// A hexadecimal digit character carries its value.
proof fn lemma_hex_char(d: nat)
    requires
        d < 16,
    ensures
        is_hex(hex_char(d)),
        hex_val(hex_char(d)) == d,
        hex_char(d) != '"' && hex_char(d) != '\\',
{
}

/// Reading the escaped form of `t` followed by a closing quote appends `t`
/// to what was read so far and continues behind the quote.
proof fn lemma_jstr_chain(t: Seq<char>, acc: Seq<char>, tail: Seq<char>)
    ensures
        p_jstr_rec(esc_str(t) + (seq!['"'] + tail), acc) == Some((acc + t, tail)),
    decreases t.len(),
{
    let s = esc_str(t) + (seq!['"'] + tail);
    if t.len() == 0 {
        assert(s =~= seq!['"'] + tail);
        assert(s[0] == '"');
        assert(s.skip(1) =~= tail);
        assert(acc + t =~= acc);
    } else {
        let c = t[0];
        let e = esc_char(c);
        assert(esc_str(t) == e + esc_str(t.skip(1)));
        let s2 = esc_str(t.skip(1)) + (seq!['"'] + tail);
        assert(s =~= e + s2);
        lemma_jstr_chain(t.skip(1), acc.push(c), tail);
        assert(acc.push(c) + t.skip(1) =~= acc + t);
        if c == '"' {
            assert(s[0] == '\\' && s[1] == '"');
            assert(s.skip(2) =~= s2);
        } else if c == '\\' {
            assert(s[0] == '\\' && s[1] == '\\');
            assert(s.skip(2) =~= s2);
        } else if (c as nat) < 32 {
            let hi = (c as nat) / 16;
            let lo = (c as nat) % 16;
            lemma_hex_char(hi);
            lemma_hex_char(lo);
            assert(e.len() == 6);
            assert(e[0] == '\\' && e[1] == 'u' && e[2] == '0' && e[3] == '0' && e[4]
                == hex_char(hi) && e[5] == hex_char(lo));
            assert(s[0] == '\\' && s[1] == 'u' && s[2] == '0' && s[3] == '0');
            assert(s[4] == hex_char(hi) && s[5] == hex_char(lo));
            assert(hex_val(s[4]) * 16 + hex_val(s[5]) == c as nat);
            assert((((c as nat) as char) as nat) == c as nat);
            lemma_char_code_inj((c as nat) as char, c);
            assert(((c as nat) as char) == c);
            assert(s.skip(6) =~= s2);
        } else {
            assert(s[0] == c);
            assert(c != '"' && c != '\\');
            assert(s.skip(1) =~= s2);
        }
    }
}

/// Parsing a serialized JSON string yields the text back and consumes
/// exactly the serialized form.
pub proof fn lemma_jstring_round_trip(t: Seq<char>, tail: Seq<char>)
    ensures
        p_jstring(ser_jstring(t) + tail) == Some((t, tail)),
{
    let s = ser_jstring(t) + tail;
    assert(s[0] == '"');
    assert(s.skip(1) =~= esc_str(t) + (seq!['"'] + tail));
    lemma_jstr_chain(t, Seq::<char>::empty(), tail);
    assert(Seq::<char>::empty() + t =~= t);
}

/// Relies on `String`'s `FromIterator` over `char`: collecting characters
/// yields the string of exactly those characters, in order.
#[verifier::external_body]
fn chars_to_string(v: &Vec<char>) -> (r: String)
    ensures
        r@ == v@,
{
    v.iter().collect()
}

/// Appends every character of a text.
fn push_str_chars(out: &mut Vec<char>, s: &str)
    ensures
        final(out)@ == old(out)@ + s@,
{
    let n = s.unicode_len();
    let mut i: usize = 0;
    while i < n
        invariant
            i <= n,
            n == s@.len(),
            out@ == old(out)@ + s@.take(i as int),
        decreases n - i,
    {
        out.push(s.get_char(i));
        proof {
            assert(s@.take(i + 1) =~= s@.take(i as int).push(s@[i as int]));
            assert(out@ =~= old(out)@ + s@.take(i + 1));
        }
        i += 1;
    }
    proof {
        assert(s@.take(n as int) =~= s@);
    }
}

/// Appends one hexadecimal digit character.
fn push_hex(out: &mut Vec<char>, d: u32)
    requires
        d < 16,
    ensures
        final(out)@ == old(out)@.push(hex_char(d as nat)),
{
    if d < 10 {
        push_digit(out, d);
    } else {
        let c = (87 + d as u8) as char;
        proof {
            assert(c == hex_char(d as nat));
        }
        out.push(c);
    }
}

/// Appends a text as a JSON string.
fn push_jstring(out: &mut Vec<char>, s: &str)
    ensures
        final(out)@ == old(out)@ + ser_jstring(s@),
{
    out.push('"');
    let n = s.unicode_len();
    let mut i: usize = 0;
    while i < n
        invariant
            i <= n,
            n == s@.len(),
            out@ == old(out)@ + seq!['"'] + esc_str(s@.take(i as int)),
        decreases n - i,
    {
        let c = s.get_char(i);
        if c == '"' {
            out.push('\\');
            out.push('"');
        } else if c == '\\' {
            out.push('\\');
            out.push('\\');
        } else if (c as u32) < 32 {
            let code = c as u32;
            out.push('\\');
            out.push('u');
            out.push('0');
            out.push('0');
            push_hex(out, code / 16);
            push_hex(out, code % 16);
        } else {
            out.push(c);
        }
        proof {
            lemma_esc_str_push(s@.take(i as int), c);
            assert(s@.take(i + 1) =~= s@.take(i as int).push(c));
            assert(out@ =~= old(out)@ + seq!['"'] + esc_str(s@.take(i + 1)));
        }
        i += 1;
    }
    out.push('"');
    proof {
        assert(s@.take(n as int) =~= s@);
        assert(out@ =~= old(out)@ + ser_jstring(s@));
    }
}

/// Reads a JSON string at position `i`: the exec face of `p_jstring`.
fn parse_jstring(s: &str, i: usize) -> (r: Option<(String, usize)>)
    requires
        i <= s@.len(),
    ensures
        match r {
            Some((v, j)) => {
                &&& i + 2 <= j <= s@.len()
                &&& p_jstring(s@.skip(i as int)) == Some((v@, s@.skip(j as int)))
            },
            None => p_jstring(s@.skip(i as int)) is None,
        },
{
    let n = s.unicode_len();
    if i >= n {
        return None;
    }
    if s.get_char(i) != '"' {
        proof {
            assert(s@.skip(i as int)[0] == s@[i as int]);
        }
        return None;
    }
    proof {
        assert(s@.skip(i as int)[0] == '"');
        assert(s@.skip(i as int).skip(1) =~= s@.skip(i + 1));
    }
    let mut acc: Vec<char> = Vec::new();
    let mut j: usize = i + 1;
    loop
        invariant
            i + 1 <= j <= n,
            n == s@.len(),
            p_jstring(s@.skip(i as int)) == p_jstr_rec(s@.skip(j as int), acc@),
        decreases n - j,
    {
        if j >= n {
            proof {
                assert(s@.skip(j as int).len() == 0);
            }
            return None;
        }
        let c = s.get_char(j);
        proof {
            assert(s@.skip(j as int)[0] == c);
        }
        if c == '"' {
            proof {
                assert(s@.skip(j as int).skip(1) =~= s@.skip(j + 1));
            }
            return Some((chars_to_string(&acc), j + 1));
        } else if c == '\\' {
            if j + 1 >= n {
                proof {
                    assert(s@.skip(j as int).len() == 1);
                }
                return None;
            }
            let c2 = s.get_char(j + 1);
            proof {
                assert(s@.skip(j as int)[1] == c2);
            }
            if c2 == '"' || c2 == '\\' {
                acc.push(c2);
                proof {
                    assert(s@.skip(j as int).skip(2) =~= s@.skip(j + 2));
                }
                j += 2;
            } else if c2 == 'u' {
                if n - j <= 5 {
                    proof {
                        assert(s@.skip(j as int).len() <= 5);
                    }
                    return None;
                }
                let c3 = s.get_char(j + 2);
                let c4 = s.get_char(j + 3);
                let h1 = s.get_char(j + 4);
                let h2 = s.get_char(j + 5);
                proof {
                    assert(s@.skip(j as int)[2] == c3);
                    assert(s@.skip(j as int)[3] == c4);
                    assert(s@.skip(j as int)[4] == h1);
                    assert(s@.skip(j as int)[5] == h2);
                }
                let h1_ok = (h1 >= '0' && h1 <= '9') || (h1 >= 'a' && h1 <= 'f');
                let h2_ok = (h2 >= '0' && h2 <= '9') || (h2 >= 'a' && h2 <= 'f');
                if c3 == '0' && c4 == '0' && h1_ok && h2_ok {
                    let v1 = if h1 <= '9' {
                        (h1 as u32) - 48
                    } else {
                        (h1 as u32) - 87
                    };
                    let v2 = if h2 <= '9' {
                        (h2 as u32) - 48
                    } else {
                        (h2 as u32) - 87
                    };
                    proof {
                        assert(v1 == hex_val(h1));
                        assert(v2 == hex_val(h2));
                    }
                    let code = v1 * 16 + v2;
                    if code < 32 {
                        let decoded = (code as u8) as char;
                        proof {
                            assert(decoded == ((hex_val(h1) * 16 + hex_val(h2)) as char));
                            assert(s@.skip(j as int).skip(6) =~= s@.skip(j + 6));
                        }
                        acc.push(decoded);
                        j += 6;
                    } else {
                        return None;
                    }
                } else {
                    return None;
                }
            } else {
                return None;
            }
        } else {
            acc.push(c);
            proof {
                assert(s@.skip(j as int).skip(1) =~= s@.skip(j + 1));
            }
            j += 1;
        }
    }
}

/// Two characters with the same code point are the same character.
proof fn lemma_char_code_inj(a: char, b: char)
    requires
        a as nat == b as nat,
    ensures
        a == b,
{
}

// ---------------------------------------------------------------------------
// Literals, priorities, dates
// ---------------------------------------------------------------------------
/// Whether the text begins with the given characters.
pub open spec fn has_prefix(s: Seq<char>, pat: Seq<char>) -> bool {
    pat.len() <= s.len() && s.take(pat.len() as int) == pat
}

/// How an optional priority is stored: its quoted letter, or `null`.
pub open spec fn ser_prio(p: Option<Priority>) -> Seq<char> {
    match p {
        None => "null"@,
        Some(Priority::H) => "\"H\""@,
        Some(Priority::M) => "\"M\""@,
        Some(Priority::L) => "\"L\""@,
    }
}

/// Reads an optional priority.
pub open spec fn p_prio(s: Seq<char>) -> Option<(Option<Priority>, Seq<char>)> {
    if has_prefix(s, "null"@) {
        Some((None, s.skip(4)))
    } else if has_prefix(s, "\"H\""@) {
        Some((Some(Priority::H), s.skip(3)))
    } else if has_prefix(s, "\"M\""@) {
        Some((Some(Priority::M), s.skip(3)))
    } else if has_prefix(s, "\"L\""@) {
        Some((Some(Priority::L), s.skip(3)))
    } else {
        None
    }
}

/// A prefix of known content pins down the leading characters.
proof fn lemma_prefix_concat(a: Seq<char>, tail: Seq<char>)
    ensures
        has_prefix(a + tail, a),
        (a + tail).skip(a.len() as int) == tail,
{
    assert((a + tail).take(a.len() as int) =~= a);
    assert((a + tail).skip(a.len() as int) =~= tail);
}

/// Parsing a stored priority yields it back and consumes exactly its form.
pub proof fn lemma_prio_round_trip(p: Option<Priority>, tail: Seq<char>)
    ensures
        p_prio(ser_prio(p) + tail) == Some((p, tail)),
{
    reveal_strlit("null");
    reveal_strlit("\"H\"");
    reveal_strlit("\"M\"");
    reveal_strlit("\"L\"");
    let s = ser_prio(p) + tail;
    lemma_prefix_concat(ser_prio(p), tail);
    match p {
        None => {
            assert(has_prefix(s, "null"@));
        },
        Some(q) => {
            assert(s[0] == '"');
            if has_prefix(s, "null"@) {
                assert(s.take(4)[0] == s[0]);
                assert(false);
            }
            match q {
                Priority::H => {
                    if has_prefix(s, "\"M\""@) {
                        assert(s.take(3)[1] == s[1]);
                        assert(false);
                    }
                    if has_prefix(s, "\"L\""@) {
                        assert(s.take(3)[1] == s[1]);
                        assert(false);
                    }
                },
                Priority::M => {
                    if has_prefix(s, "\"H\""@) {
                        assert(s.take(3)[1] == s[1]);
                        assert(false);
                    }
                    if has_prefix(s, "\"L\""@) {
                        assert(s.take(3)[1] == s[1]);
                        assert(false);
                    }
                },
                Priority::L => {
                    if has_prefix(s, "\"H\""@) {
                        assert(s.take(3)[1] == s[1]);
                        assert(false);
                    }
                    if has_prefix(s, "\"M\""@) {
                        assert(s.take(3)[1] == s[1]);
                        assert(false);
                    }
                },
            }
        },
    }
}

/// A number as exactly two digits, leading zero included.
pub open spec fn pad2(n: nat) -> Seq<char> {
    seq![digit_char((n / 10) % 10), digit_char(n % 10)]
}

/// A number as exactly four digits, leading zeros included.
pub open spec fn pad4(n: nat) -> Seq<char> {
    seq![
        digit_char((n / 1000) % 10),
        digit_char((n / 100) % 10),
        digit_char((n / 10) % 10),
        digit_char(n % 10),
    ]
}

/// How a date is stored: `"YYYY-MM-DD"`.
pub open spec fn ser_date(d: Date) -> Seq<char> {
    seq!['"'] + pad4(d.year as nat) + seq!['-'] + pad2(d.month as nat) + seq!['-'] + pad2(
        d.day as nat,
    ) + seq!['"']
}

/// How an optional due date is stored: the date, or `null`.
pub open spec fn ser_due(d: Option<Date>) -> Seq<char> {
    match d {
        None => "null"@,
        Some(d) => ser_date(d),
    }
}

/// The value of exactly two digits.
pub open spec fn p_fixed2(s: Seq<char>) -> Option<(nat, Seq<char>)> {
    if s.len() >= 2 && is_digit(s[0]) && is_digit(s[1]) {
        Some((digit_val(s[0]) * 10 + digit_val(s[1]), s.skip(2)))
    } else {
        None
    }
}

/// The value of exactly four digits.
pub open spec fn p_fixed4(s: Seq<char>) -> Option<(nat, Seq<char>)> {
    if s.len() >= 4 && is_digit(s[0]) && is_digit(s[1]) && is_digit(s[2]) && is_digit(s[3]) {
        Some(
            (
                digit_val(s[0]) * 1000 + digit_val(s[1]) * 100 + digit_val(s[2]) * 10
                    + digit_val(s[3]),
                s.skip(4),
            ),
        )
    } else {
        None
    }
}

/// Reads a date: quoted, fixed width, month and day within range.
pub open spec fn p_date(s: Seq<char>) -> Option<(Date, Seq<char>)> {
    if s.len() > 0 && s[0] == '"' {
        match p_fixed4(s.skip(1)) {
            Some((y, s1)) => if s1.len() > 0 && s1[0] == '-' {
                match p_fixed2(s1.skip(1)) {
                    Some((m, s2)) => if s2.len() > 0 && s2[0] == '-' {
                        match p_fixed2(s2.skip(1)) {
                            Some((dd, s3)) => if s3.len() > 0 && s3[0] == '"' && 1 <= m <= 12
                                && 1 <= dd <= 31 {
                                Some(
                                    (
                                        Date { year: y as u32, month: m as u32, day: dd as u32 },
                                        s3.skip(1),
                                    ),
                                )
                            } else {
                                None
                            },
                            None => None,
                        }
                    } else {
                        None
                    },
                    None => None,
                }
            } else {
                None
            },
            None => None,
        }
    } else {
        None
    }
}

/// Reads an optional due date.
pub open spec fn p_due(s: Seq<char>) -> Option<(Option<Date>, Seq<char>)> {
    if has_prefix(s, "null"@) {
        Some((None, s.skip(4)))
    } else {
        match p_date(s) {
            Some((d, rest)) => Some((Some(d), rest)),
            None => None,
        }
    }
}

/// Parsing a stored date yields it back and consumes exactly its form.
pub proof fn lemma_date_round_trip(d: Date, tail: Seq<char>)
    requires
        d.valid(),
    ensures
        p_date(ser_date(d) + tail) == Some((d, tail)),
{
    let s = ser_date(d) + tail;
    let y = d.year as nat;
    let mo = d.month as nat;
    let dy = d.day as nat;
    let s1 = pad2(mo) + seq!['-'] + pad2(dy) + seq!['"'] + tail;
    assert(s =~= seq!['"'] + pad4(y) + seq!['-'] + s1);
    assert(s[0] == '"');
    assert(s.skip(1) =~= pad4(y) + (seq!['-'] + s1));
    assert(s.skip(1)[0] == digit_char((y / 1000) % 10));
    assert(s.skip(1)[1] == digit_char((y / 100) % 10));
    assert(s.skip(1)[2] == digit_char((y / 10) % 10));
    assert(s.skip(1)[3] == digit_char(y % 10));
    assert(((y / 1000) % 10) * 1000 + ((y / 100) % 10) * 100 + ((y / 10) % 10) * 10 + y % 10
        == y) by {
        assert(y / 1000 == (y / 1000) % 10);
        assert(y == (y / 1000) * 1000 + ((y / 100) % 10) * 100 + ((y / 10) % 10) * 10 + y
            % 10) by (nonlinear_arith)
            requires
                y <= 9999,
        ;
    }
    assert(p_fixed4(s.skip(1)) == Some((y, s.skip(1).skip(4))));
    assert(s.skip(1).skip(4) =~= seq!['-'] + s1);
    let t1 = seq!['-'] + s1;
    assert(t1[0] == '-');
    assert(t1.skip(1) =~= pad2(mo) + (seq!['-'] + (pad2(dy) + (seq!['"'] + tail))));
    assert(t1.skip(1)[0] == digit_char((mo / 10) % 10));
    assert(t1.skip(1)[1] == digit_char(mo % 10));
    assert(((mo / 10) % 10) * 10 + mo % 10 == mo) by (nonlinear_arith)
        requires
            mo <= 12,
    ;
    assert(p_fixed2(t1.skip(1)) == Some((mo, t1.skip(1).skip(2))));
    let t2 = t1.skip(1).skip(2);
    assert(t2 =~= seq!['-'] + (pad2(dy) + (seq!['"'] + tail)));
    assert(t2[0] == '-');
    assert(t2.skip(1) =~= pad2(dy) + (seq!['"'] + tail));
    assert(t2.skip(1)[0] == digit_char((dy / 10) % 10));
    assert(t2.skip(1)[1] == digit_char(dy % 10));
    assert(((dy / 10) % 10) * 10 + dy % 10 == dy) by (nonlinear_arith)
        requires
            dy <= 31,
    ;
    assert(p_fixed2(t2.skip(1)) == Some((dy, t2.skip(1).skip(2))));
    let t3 = t2.skip(1).skip(2);
    assert(t3 =~= seq!['"'] + tail);
    assert(t3[0] == '"');
    assert(t3.skip(1) =~= tail);
}

/// Parsing a stored optional due date yields it back.
pub proof fn lemma_due_round_trip(d: Option<Date>, tail: Seq<char>)
    requires
        match d {
            Some(x) => x.valid(),
            None => true,
        },
    ensures
        p_due(ser_due(d) + tail) == Some((d, tail)),
{
    reveal_strlit("null");
    let s = ser_due(d) + tail;
    match d {
        None => {
            lemma_prefix_concat("null"@, tail);
        },
        Some(x) => {
            lemma_date_round_trip(x, tail);
            assert(s[0] == '"');
            if has_prefix(s, "null"@) {
                assert(s.take(4)[0] == s[0]);
                assert(false);
            }
        },
    }
}

// ---------------------------------------------------------------------------
// Description lists and records
// ---------------------------------------------------------------------------
/// The items of a description list after the first: `,` then a string, for
/// each remaining line.
pub open spec fn ser_items_rest(ss: Seq<Seq<char>>) -> Seq<char>
    decreases ss.len(),
{
    if ss.len() == 0 {
        Seq::<char>::empty()
    } else {
        seq![','] + ser_jstring(ss[0]) + ser_items_rest(ss.skip(1))
    }
}

/// The items of a description list, comma separated.
pub open spec fn ser_strlist_items(ss: Seq<Seq<char>>) -> Seq<char> {
    if ss.len() == 0 {
        Seq::<char>::empty()
    } else {
        ser_jstring(ss[0]) + ser_items_rest(ss.skip(1))
    }
}

/// A description list: the items between brackets.
pub open spec fn ser_strlist(ss: Seq<Seq<char>>) -> Seq<char> {
    seq!['['] + ser_strlist_items(ss) + seq![']']
}

/// Reads `,string` items until the closing bracket.
pub open spec fn p_strlist_rest(s: Seq<char>, acc: Seq<Seq<char>>) -> Option<
    (Seq<Seq<char>>, Seq<char>),
>
    decreases s.len(),
{
    if s.len() > 0 && s[0] == ']' {
        Some((acc, s.skip(1)))
    } else if s.len() > 0 && s[0] == ',' {
        match p_jstring(s.skip(1)) {
            Some((v, s2)) => if s2.len() < s.len() {
                p_strlist_rest(s2, acc.push(v))
            } else {
                None
            },
            None => None,
        }
    } else {
        None
    }
}

/// Reads a description list.
pub open spec fn p_strlist(s: Seq<char>) -> Option<(Seq<Seq<char>>, Seq<char>)> {
    if s.len() >= 1 && s[0] == '[' {
        if s.len() >= 2 && s[1] == ']' {
            Some((Seq::<Seq<char>>::empty(), s.skip(2)))
        } else {
            match p_jstring(s.skip(1)) {
                Some((v, s2)) => p_strlist_rest(s2, seq![v]),
                None => None,
            }
        }
    } else {
        None
    }
}

/// A serialized JSON string is never empty and begins with a quote.
proof fn lemma_ser_jstring_len(t: Seq<char>)
    ensures
        ser_jstring(t).len() >= 2,
        ser_jstring(t)[0] == '"',
{
}

/// Reading serialized `,item` runs followed by the closing bracket gathers
/// exactly those items.
proof fn lemma_items_rest_chain(ss: Seq<Seq<char>>, acc: Seq<Seq<char>>, tail: Seq<char>)
    ensures
        p_strlist_rest(ser_items_rest(ss) + (seq![']'] + tail), acc) == Some((acc + ss, tail)),
    decreases ss.len(),
{
    let s = ser_items_rest(ss) + (seq![']'] + tail);
    if ss.len() == 0 {
        assert(s =~= seq![']'] + tail);
        assert(s[0] == ']');
        assert(s.skip(1) =~= tail);
        assert(acc + ss =~= acc);
    } else {
        let rest2 = ser_items_rest(ss.skip(1)) + (seq![']'] + tail);
        assert(s =~= seq![','] + (ser_jstring(ss[0]) + rest2));
        assert(s[0] == ',');
        lemma_ser_jstring_len(ss[0]);
        assert(s[0] != ']');
        assert(s.skip(1) =~= ser_jstring(ss[0]) + rest2);
        lemma_jstring_round_trip(ss[0], rest2);
        assert(rest2.len() < s.len());
        lemma_items_rest_chain(ss.skip(1), acc.push(ss[0]), tail);
        assert(acc.push(ss[0]) + ss.skip(1) =~= acc + ss);
    }
}

/// Parsing a stored description list yields the lines back.
pub proof fn lemma_strlist_round_trip(ss: Seq<Seq<char>>, tail: Seq<char>)
    ensures
        p_strlist(ser_strlist(ss) + tail) == Some((ss, tail)),
{
    let s = ser_strlist(ss) + tail;
    assert(s[0] == '[');
    if ss.len() == 0 {
        assert(s =~= seq!['[', ']'] + tail);
        assert(s[1] == ']');
        assert(s.skip(2) =~= tail);
    } else {
        let rest2 = ser_items_rest(ss.skip(1)) + (seq![']'] + tail);
        assert(s.skip(1) =~= ser_jstring(ss[0]) + rest2);
        lemma_ser_jstring_len(ss[0]);
        assert(s[1] == ser_jstring(ss[0])[0]);
        assert(s[1] != ']');
        lemma_jstring_round_trip(ss[0], rest2);
        lemma_items_rest_chain(ss.skip(1), seq![ss[0]], tail);
        assert(seq![ss[0]] + ss.skip(1) =~= ss);
    }
}

/// How an active record is stored: its fields, in a fixed order.
pub open spec fn ser_params(p: ParamsV) -> Seq<char> {
    "{\"id\":"@ + spec_dec(p.id as nat) + ",\"priority\":"@ + ser_prio(p.priority)
        + ",\"description\":"@ + ser_strlist(p.description) + ",\"due\":"@ + ser_due(p.due)
        + seq!['}']
}

/// Reads an active record; one with a zero id or no description line is
/// refused.
pub open spec fn p_params(s: Seq<char>) -> Option<(ParamsV, Seq<char>)> {
    if has_prefix(s, "{\"id\":"@) {
        match p_num(s.skip("{\"id\":"@.len() as int)) {
            Some((id, s1)) => if has_prefix(s1, ",\"priority\":"@) {
                match p_prio(s1.skip(",\"priority\":"@.len() as int)) {
                    Some((pr, s2)) => if has_prefix(s2, ",\"description\":"@) {
                        match p_strlist(s2.skip(",\"description\":"@.len() as int)) {
                            Some((desc, s3)) => if has_prefix(s3, ",\"due\":"@) {
                                match p_due(s3.skip(",\"due\":"@.len() as int)) {
                                    Some((due, s4)) => if s4.len() > 0 && s4[0] == '}' && id
                                        >= 1 && desc.len() >= 1 {
                                        Some(
                                            (
                                                ParamsV {
                                                    id,
                                                    priority: pr,
                                                    description: desc,
                                                    due,
                                                },
                                                s4.skip(1),
                                            ),
                                        )
                                    } else {
                                        None
                                    },
                                    None => None,
                                }
                            } else {
                                None
                            },
                            None => None,
                        }
                    } else {
                        None
                    },
                    None => None,
                }
            } else {
                None
            },
            None => None,
        }
    } else {
        None
    }
}

/// Parsing a stored well-formed active record yields it back.
#[verifier::rlimit(80)]
pub proof fn lemma_params_round_trip(p: ParamsV, tail: Seq<char>)
    requires
        p.wf(),
    ensures
        p_params(ser_params(p) + tail) == Some((p, tail)),
{
    reveal_strlit("{\"id\":");
    reveal_strlit(",\"priority\":");
    reveal_strlit(",\"description\":");
    reveal_strlit(",\"due\":");
    let s = ser_params(p) + tail;
    let l0 = "{\"id\":"@;
    let l1 = ",\"priority\":"@;
    let l2 = ",\"description\":"@;
    let l3 = ",\"due\":"@;
    let r0 = spec_dec(p.id as nat) + (l1 + (ser_prio(p.priority) + (l2 + (ser_strlist(
        p.description,
    ) + (l3 + (ser_due(p.due) + (seq!['}'] + tail)))))));
    assert(s =~= l0 + r0);
    lemma_prefix_concat(l0, r0);
    assert(s.skip(l0.len() as int) == r0);
    let r1 = l1 + (ser_prio(p.priority) + (l2 + (ser_strlist(p.description) + (l3 + (ser_due(
        p.due,
    ) + (seq!['}'] + tail))))));
    assert(r0 =~= spec_dec(p.id as nat) + r1);
    assert(r1[0] == ',');
    assert(!is_digit(','));
    lemma_num_round_trip(p.id, r1);
    let r2 = ser_prio(p.priority) + (l2 + (ser_strlist(p.description) + (l3 + (ser_due(p.due)
        + (seq!['}'] + tail)))));
    lemma_prefix_concat(l1, r2);
    assert(r1 =~= l1 + r2);
    let r3 = l2 + (ser_strlist(p.description) + (l3 + (ser_due(p.due) + (seq!['}'] + tail))));
    assert(r2 =~= ser_prio(p.priority) + r3);
    lemma_prio_round_trip(p.priority, r3);
    let r4 = ser_strlist(p.description) + (l3 + (ser_due(p.due) + (seq!['}'] + tail)));
    lemma_prefix_concat(l2, r4);
    assert(r3 =~= l2 + r4);
    let r5 = l3 + (ser_due(p.due) + (seq!['}'] + tail));
    assert(r4 =~= ser_strlist(p.description) + r5);
    lemma_strlist_round_trip(p.description, r5);
    let r6 = ser_due(p.due) + (seq!['}'] + tail);
    lemma_prefix_concat(l3, r6);
    assert(r5 =~= l3 + r6);
    let r7 = seq!['}'] + tail;
    lemma_due_round_trip(p.due, r7);
    assert(r7[0] == '}');
    assert(r7.skip(1) =~= tail);
}

// ---------------------------------------------------------------------------
// Record lists
// ---------------------------------------------------------------------------
/// The records of a collection after the first: `,` then a record each.
pub open spec fn ser_active_rest(ps: Seq<ParamsV>) -> Seq<char>
    decreases ps.len(),
{
    if ps.len() == 0 {
        Seq::<char>::empty()
    } else {
        seq![','] + ser_params(ps[0]) + ser_active_rest(ps.skip(1))
    }
}

/// A collection of active records: a JSON array in canonical form.
pub open spec fn ser_active_list(ps: Seq<ParamsV>) -> Seq<char> {
    if ps.len() == 0 {
        seq!['[', ']']
    } else {
        seq!['['] + ser_params(ps[0]) + ser_active_rest(ps.skip(1)) + seq![']']
    }
}

/// Reads `,record` items until the closing bracket.
pub open spec fn p_active_rest(s: Seq<char>, acc: Seq<ParamsV>) -> Option<
    (Seq<ParamsV>, Seq<char>),
>
    decreases s.len(),
{
    if s.len() > 0 && s[0] == ']' {
        Some((acc, s.skip(1)))
    } else if s.len() > 0 && s[0] == ',' {
        match p_params(s.skip(1)) {
            Some((v, s2)) => if s2.len() < s.len() {
                p_active_rest(s2, acc.push(v))
            } else {
                None
            },
            None => None,
        }
    } else {
        None
    }
}

/// Reads a collection of active records.
pub open spec fn p_active_list(s: Seq<char>) -> Option<(Seq<ParamsV>, Seq<char>)> {
    if s.len() >= 1 && s[0] == '[' {
        if s.len() >= 2 && s[1] == ']' {
            Some((Seq::<ParamsV>::empty(), s.skip(2)))
        } else {
            match p_params(s.skip(1)) {
                Some((v, s2)) => p_active_rest(s2, seq![v]),
                None => None,
            }
        }
    } else {
        None
    }
}

/// A serialized record is never empty and begins with a brace.
proof fn lemma_ser_params_head(p: ParamsV)
    ensures
        ser_params(p).len() >= 1,
        ser_params(p)[0] == '{',
{
    reveal_strlit("{\"id\":");
    assert(ser_params(p)[0] == "{\"id\":"@[0]);
}

/// Reading serialized `,record` runs followed by the closing bracket
/// gathers exactly those records.
proof fn lemma_active_rest_chain(ps: Seq<ParamsV>, acc: Seq<ParamsV>, tail: Seq<char>)
    requires
        forall|i: int| 0 <= i < ps.len() ==> ps[i].wf(),
    ensures
        p_active_rest(ser_active_rest(ps) + (seq![']'] + tail), acc) == Some((acc + ps, tail)),
    decreases ps.len(),
{
    let s = ser_active_rest(ps) + (seq![']'] + tail);
    if ps.len() == 0 {
        assert(s =~= seq![']'] + tail);
        assert(s[0] == ']');
        assert(s.skip(1) =~= tail);
        assert(acc + ps =~= acc);
    } else {
        let rest2 = ser_active_rest(ps.skip(1)) + (seq![']'] + tail);
        assert(s =~= seq![','] + (ser_params(ps[0]) + rest2));
        assert(s[0] == ',');
        lemma_ser_params_head(ps[0]);
        assert(s[0] != ']');
        assert(s.skip(1) =~= ser_params(ps[0]) + rest2);
        lemma_params_round_trip(ps[0], rest2);
        assert(rest2.len() < s.len());
        lemma_active_rest_chain(ps.skip(1), acc.push(ps[0]), tail);
        assert(acc.push(ps[0]) + ps.skip(1) =~= acc + ps);
    }
}

/// Parsing a stored collection of well-formed active records yields them
/// back, in order.
#[verifier::rlimit(80)]
pub proof fn lemma_active_list_round_trip(ps: Seq<ParamsV>, tail: Seq<char>)
    requires
        forall|i: int| 0 <= i < ps.len() ==> ps[i].wf(),
    ensures
        p_active_list(ser_active_list(ps) + tail) == Some((ps, tail)),
{
    let s = ser_active_list(ps) + tail;
    if ps.len() == 0 {
        assert(s =~= seq!['[', ']'] + tail);
        assert(s[0] == '[' && s[1] == ']');
        assert(s.skip(2) =~= tail);
    } else {
        let rest2 = ser_active_rest(ps.skip(1)) + (seq![']'] + tail);
        assert(s =~= seq!['['] + (ser_params(ps[0]) + rest2));
        assert(s[0] == '[');
        lemma_ser_params_head(ps[0]);
        assert(s[1] == ser_params(ps[0])[0]);
        assert(s[1] != ']');
        assert(s.skip(1) =~= ser_params(ps[0]) + rest2);
        lemma_params_round_trip(ps[0], rest2);
        lemma_active_rest_chain(ps.skip(1), seq![ps[0]], tail);
        assert(seq![ps[0]] + ps.skip(1) =~= ps);
    }
}

// ---------------------------------------------------------------------------
// Archived records
// ---------------------------------------------------------------------------
/// How an archived record is stored: its summary alone.
pub open spec fn ser_completed(sum: Seq<char>) -> Seq<char> {
    "{\"summary\":"@ + ser_jstring(sum) + seq!['}']
}

/// Reads an archived record.
pub open spec fn p_completed(s: Seq<char>) -> Option<(Seq<char>, Seq<char>)> {
    if has_prefix(s, "{\"summary\":"@) {
        match p_jstring(s.skip("{\"summary\":"@.len() as int)) {
            Some((v, s1)) => if s1.len() > 0 && s1[0] == '}' {
                Some((v, s1.skip(1)))
            } else {
                None
            },
            None => None,
        }
    } else {
        None
    }
}

/// The archived records after the first: `,` then a record each.
pub open spec fn ser_completed_rest(ss: Seq<Seq<char>>) -> Seq<char>
    decreases ss.len(),
{
    if ss.len() == 0 {
        Seq::<char>::empty()
    } else {
        seq![','] + ser_completed(ss[0]) + ser_completed_rest(ss.skip(1))
    }
}

/// A collection of archived records: a JSON array in canonical form.
pub open spec fn ser_completed_list(ss: Seq<Seq<char>>) -> Seq<char> {
    if ss.len() == 0 {
        seq!['[', ']']
    } else {
        seq!['['] + ser_completed(ss[0]) + ser_completed_rest(ss.skip(1)) + seq![']']
    }
}

/// Reads `,record` items until the closing bracket.
pub open spec fn p_completed_rest(s: Seq<char>, acc: Seq<Seq<char>>) -> Option<
    (Seq<Seq<char>>, Seq<char>),
>
    decreases s.len(),
{
    if s.len() > 0 && s[0] == ']' {
        Some((acc, s.skip(1)))
    } else if s.len() > 0 && s[0] == ',' {
        match p_completed(s.skip(1)) {
            Some((v, s2)) => if s2.len() < s.len() {
                p_completed_rest(s2, acc.push(v))
            } else {
                None
            },
            None => None,
        }
    } else {
        None
    }
}

/// Reads a collection of archived records.
pub open spec fn p_completed_list(s: Seq<char>) -> Option<(Seq<Seq<char>>, Seq<char>)> {
    if s.len() >= 1 && s[0] == '[' {
        if s.len() >= 2 && s[1] == ']' {
            Some((Seq::<Seq<char>>::empty(), s.skip(2)))
        } else {
            match p_completed(s.skip(1)) {
                Some((v, s2)) => p_completed_rest(s2, seq![v]),
                None => None,
            }
        }
    } else {
        None
    }
}

/// Parsing a stored archived record yields its summary back.
proof fn lemma_completed_round_trip(sum: Seq<char>, tail: Seq<char>)
    ensures
        p_completed(ser_completed(sum) + tail) == Some((sum, tail)),
{
    reveal_strlit("{\"summary\":");
    let s = ser_completed(sum) + tail;
    let l0 = "{\"summary\":"@;
    let r0 = ser_jstring(sum) + (seq!['}'] + tail);
    assert(s =~= l0 + r0);
    lemma_prefix_concat(l0, r0);
    let r1 = seq!['}'] + tail;
    lemma_jstring_round_trip(sum, r1);
    assert(r1[0] == '}');
    assert(r1.skip(1) =~= tail);
}

/// A serialized archived record is never empty and begins with a brace.
proof fn lemma_ser_completed_head(sum: Seq<char>)
    ensures
        ser_completed(sum).len() >= 1,
        ser_completed(sum)[0] == '{',
{
    reveal_strlit("{\"summary\":");
    assert(ser_completed(sum)[0] == "{\"summary\":"@[0]);
}

/// Reading serialized `,record` runs followed by the closing bracket
/// gathers exactly those summaries.
#[verifier::rlimit(80)]
proof fn lemma_completed_rest_chain(ss: Seq<Seq<char>>, acc: Seq<Seq<char>>, tail: Seq<char>)
    ensures
        p_completed_rest(ser_completed_rest(ss) + (seq![']'] + tail), acc) == Some(
            (acc + ss, tail),
        ),
    decreases ss.len(),
{
    let s = ser_completed_rest(ss) + (seq![']'] + tail);
    if ss.len() == 0 {
        assert(s =~= seq![']'] + tail);
        assert(s[0] == ']');
        assert(s.skip(1) =~= tail);
        assert(acc + ss =~= acc);
    } else {
        let rest2 = ser_completed_rest(ss.skip(1)) + (seq![']'] + tail);
        assert(s =~= seq![','] + (ser_completed(ss[0]) + rest2));
        assert(s[0] == ',');
        lemma_ser_completed_head(ss[0]);
        assert(s[0] != ']');
        assert(s.skip(1) =~= ser_completed(ss[0]) + rest2);
        lemma_completed_round_trip(ss[0], rest2);
        assert(rest2.len() < s.len());
        lemma_completed_rest_chain(ss.skip(1), acc.push(ss[0]), tail);
        assert(acc.push(ss[0]) + ss.skip(1) =~= acc + ss);
    }
}

/// Parsing a stored collection of archived records yields them back.
#[verifier::rlimit(60)]
pub proof fn lemma_completed_list_round_trip(ss: Seq<Seq<char>>, tail: Seq<char>)
    ensures
        p_completed_list(ser_completed_list(ss) + tail) == Some((ss, tail)),
{
    let s = ser_completed_list(ss) + tail;
    if ss.len() == 0 {
        assert(s =~= seq!['[', ']'] + tail);
        assert(s[0] == '[' && s[1] == ']');
        assert(s.skip(2) =~= tail);
    } else {
        let rest2 = ser_completed_rest(ss.skip(1)) + (seq![']'] + tail);
        assert(s =~= seq!['['] + (ser_completed(ss[0]) + rest2));
        assert(s[0] == '[');
        lemma_ser_completed_head(ss[0]);
        assert(s[1] == ser_completed(ss[0])[0]);
        assert(s[1] != ']');
        assert(s.skip(1) =~= ser_completed(ss[0]) + rest2);
        lemma_completed_round_trip(ss[0], rest2);
        lemma_completed_rest_chain(ss.skip(1), seq![ss[0]], tail);
        assert(seq![ss[0]] + ss.skip(1) =~= ss);
    }
}

// ---------------------------------------------------------------------------
// Writing collections
// ---------------------------------------------------------------------------
/// One more item appends a comma and its string.
proof fn lemma_items_rest_push(ss: Seq<Seq<char>>, t: Seq<char>)
    ensures
        ser_items_rest(ss.push(t)) == ser_items_rest(ss) + (seq![','] + ser_jstring(t)),
    decreases ss.len(),
{
    assert(ss.push(t)[0] == if ss.len() == 0 { t } else { ss[0] });
    assert(ser_items_rest(ss.push(t)) == seq![','] + ser_jstring(ss.push(t)[0])
        + ser_items_rest(ss.push(t).skip(1)));
    if ss.len() == 0 {
        assert(ss.push(t).skip(1) =~= Seq::<Seq<char>>::empty());
        assert(ser_items_rest(ss.push(t)) =~= ser_items_rest(ss) + (seq![','] + ser_jstring(
            t,
        )));
    } else {
        assert(ss.push(t).skip(1) =~= ss.skip(1).push(t));
        lemma_items_rest_push(ss.skip(1), t);
        assert(ser_items_rest(ss.push(t)) =~= ser_items_rest(ss) + (seq![','] + ser_jstring(
            t,
        )));
    }
}

/// One more record appends a comma and its form.
proof fn lemma_active_rest_push(ps: Seq<ParamsV>, p: ParamsV)
    ensures
        ser_active_rest(ps.push(p)) == ser_active_rest(ps) + (seq![','] + ser_params(p)),
    decreases ps.len(),
{
    assert(ps.push(p)[0] == if ps.len() == 0 { p } else { ps[0] });
    assert(ser_active_rest(ps.push(p)) == seq![','] + ser_params(ps.push(p)[0])
        + ser_active_rest(ps.push(p).skip(1)));
    if ps.len() == 0 {
        assert(ps.push(p).skip(1) =~= Seq::<ParamsV>::empty());
        assert(ser_active_rest(ps.push(p)) =~= ser_active_rest(ps) + (seq![','] + ser_params(
            p,
        )));
    } else {
        assert(ps.push(p).skip(1) =~= ps.skip(1).push(p));
        lemma_active_rest_push(ps.skip(1), p);
        assert(ser_active_rest(ps.push(p)) =~= ser_active_rest(ps) + (seq![','] + ser_params(
            p,
        )));
    }
}

/// One more record appends a comma and its form.
proof fn lemma_completed_rest_push(ss: Seq<Seq<char>>, t: Seq<char>)
    ensures
        ser_completed_rest(ss.push(t)) == ser_completed_rest(ss) + (seq![','] + ser_completed(
            t,
        )),
    decreases ss.len(),
{
    assert(ss.push(t)[0] == if ss.len() == 0 { t } else { ss[0] });
    assert(ser_completed_rest(ss.push(t)) == seq![','] + ser_completed(ss.push(t)[0])
        + ser_completed_rest(ss.push(t).skip(1)));
    if ss.len() == 0 {
        assert(ss.push(t).skip(1) =~= Seq::<Seq<char>>::empty());
        assert(ser_completed_rest(ss.push(t)) =~= ser_completed_rest(ss) + (seq![',']
            + ser_completed(t)));
    } else {
        assert(ss.push(t).skip(1) =~= ss.skip(1).push(t));
        lemma_completed_rest_push(ss.skip(1), t);
        assert(ser_completed_rest(ss.push(t)) =~= ser_completed_rest(ss) + (seq![',']
            + ser_completed(t)));
    }
}

/// Appends an optional priority.
fn push_prio(out: &mut Vec<char>, p: &Option<Priority>)
    ensures
        final(out)@ == old(out)@ + ser_prio(*p),
{
    match p {
        None => push_str_chars(out, "null"),
        Some(Priority::H) => push_str_chars(out, "\"H\""),
        Some(Priority::M) => push_str_chars(out, "\"M\""),
        Some(Priority::L) => push_str_chars(out, "\"L\""),
    }
}

/// Appends a number as exactly two digits.
fn push_pad2(out: &mut Vec<char>, n: u32)
    requires
        n < 100,
    ensures
        final(out)@ == old(out)@ + pad2(n as nat),
{
    push_digit(out, n / 10);
    push_digit(out, n % 10);
    proof {
        assert(out@ =~= old(out)@ + pad2(n as nat));
    }
}

/// Appends a number as exactly four digits.
fn push_pad4(out: &mut Vec<char>, n: u32)
    requires
        n <= 9999,
    ensures
        final(out)@ == old(out)@ + pad4(n as nat),
{
    push_digit(out, n / 1000);
    push_digit(out, (n / 100) % 10);
    push_digit(out, (n / 10) % 10);
    push_digit(out, n % 10);
    proof {
        assert(out@ =~= old(out)@ + pad4(n as nat));
    }
}

/// Appends an optional due date.
fn push_due(out: &mut Vec<char>, d: &Option<Date>)
    requires
        match *d {
            Some(x) => x.valid(),
            None => true,
        },
    ensures
        final(out)@ == old(out)@ + ser_due(*d),
{
    match d {
        None => push_str_chars(out, "null"),
        Some(x) => {
            out.push('"');
            push_pad4(out, x.year);
            out.push('-');
            push_pad2(out, x.month);
            out.push('-');
            push_pad2(out, x.day);
            out.push('"');
            proof {
                assert(out@ =~= old(out)@ + ser_due(*d));
            }
        },
    }
}

/// Appends a description list.
fn push_strlist(out: &mut Vec<char>, v: &Vec<String>)
    ensures
        final(out)@ == old(out)@ + ser_strlist(v.deep_view()),
{
    let ghost dv = v.deep_view();
    out.push('[');
    if v.len() > 0 {
        push_jstring(out, v[0].as_str());
        let mut i: usize = 1;
        proof {
            assert(dv.subrange(1, 1) =~= Seq::<Seq<char>>::empty());
            assert(out@ =~= old(out)@ + seq!['['] + ser_jstring(dv[0]) + ser_items_rest(
                dv.subrange(1, 1),
            ));
        }
        while i < v.len()
            invariant
                1 <= i <= v.len(),
                dv == v.deep_view(),
                out@ == old(out)@ + seq!['['] + ser_jstring(dv[0]) + ser_items_rest(
                    dv.subrange(1, i as int),
                ),
            decreases v.len() - i,
        {
            out.push(',');
            push_jstring(out, v[i].as_str());
            proof {
                lemma_items_rest_push(dv.subrange(1, i as int), dv[i as int]);
                assert(dv.subrange(1, i + 1) =~= dv.subrange(1, i as int).push(dv[i as int]));
                assert(out@ =~= old(out)@ + seq!['['] + ser_jstring(dv[0]) + ser_items_rest(
                    dv.subrange(1, i + 1),
                ));
            }
            i += 1;
        }
        proof {
            assert(dv.subrange(1, dv.len() as int) =~= dv.skip(1));
        }
    }
    out.push(']');
    proof {
        assert(out@ =~= old(out)@ + ser_strlist(dv));
    }
}

/// Appends an active record.
fn push_params(out: &mut Vec<char>, p: &ActiveParams)
    requires
        match p@.due {
            Some(x) => x.valid(),
            None => true,
        },
    ensures
        final(out)@ == old(out)@ + ser_params(p@),
{
    push_str_chars(out, "{\"id\":");
    push_dec(out, p.id as u64);
    push_str_chars(out, ",\"priority\":");
    push_prio(out, &p.priority);
    push_str_chars(out, ",\"description\":");
    push_strlist(out, &p.description);
    push_str_chars(out, ",\"due\":");
    push_due(out, &p.due);
    out.push('}');
    proof {
        assert(out@ =~= old(out)@ + ser_params(p@));
    }
}

/// Serializes a collection of active tasks as its file content.
pub fn tasks_to_json<T: ActiveFilable>(tasks: &Vec<T>) -> (r: String)
    requires
        crate::store::all_wf(views_of(tasks@)),
    ensures
        r@ == ser_active_list(views_of(tasks@)),
{
    let ghost vs = views_of(tasks@);
    let mut out: Vec<char> = Vec::new();
    out.push('[');
    if tasks.len() > 0 {
        proof {
            assert(vs[0].wf());
        }
        push_params(&mut out, (&tasks[0]).params());
        let mut i: usize = 1;
        proof {
            assert(vs.subrange(1, 1) =~= Seq::<ParamsV>::empty());
        }
        while i < tasks.len()
            invariant
                1 <= i <= tasks.len(),
                vs == views_of(tasks@),
                crate::store::all_wf(vs),
                out@ == seq!['['] + ser_params(vs[0]) + ser_active_rest(
                    vs.subrange(1, i as int),
                ),
            decreases tasks.len() - i,
        {
            out.push(',');
            proof {
                assert(vs[i as int].wf());
            }
            push_params(&mut out, (&tasks[i]).params());
            proof {
                lemma_active_rest_push(vs.subrange(1, i as int), vs[i as int]);
                assert(vs.subrange(1, i + 1) =~= vs.subrange(1, i as int).push(vs[i as int]));
                assert(out@ =~= seq!['['] + ser_params(vs[0]) + ser_active_rest(
                    vs.subrange(1, i + 1),
                ));
            }
            i += 1;
        }
        proof {
            assert(vs.subrange(1, vs.len() as int) =~= vs.skip(1));
        }
    }
    out.push(']');
    proof {
        assert(out@ =~= ser_active_list(vs));
    }
    chars_to_string(&out)
}

/// Serializes the archive as its file content.
pub fn completed_to_json(tasks: &Vec<CompletedTask>) -> (r: String)
    ensures
        r@ == ser_completed_list(views_of(tasks@)),
{
    let ghost vs = views_of(tasks@);
    let mut out: Vec<char> = Vec::new();
    out.push('[');
    if tasks.len() > 0 {
        push_str_chars(&mut out, "{\"summary\":");
        push_jstring(&mut out, tasks[0].summary.as_str());
        out.push('}');
        let mut i: usize = 1;
        proof {
            assert(vs.subrange(1, 1) =~= Seq::<Seq<char>>::empty());
            assert(out@ =~= seq!['['] + ser_completed(vs[0]) + ser_completed_rest(
                vs.subrange(1, 1),
            ));
        }
        while i < tasks.len()
            invariant
                1 <= i <= tasks.len(),
                vs == views_of(tasks@),
                out@ == seq!['['] + ser_completed(vs[0]) + ser_completed_rest(
                    vs.subrange(1, i as int),
                ),
            decreases tasks.len() - i,
        {
            out.push(',');
            push_str_chars(&mut out, "{\"summary\":");
            push_jstring(&mut out, tasks[i].summary.as_str());
            out.push('}');
            proof {
                lemma_completed_rest_push(vs.subrange(1, i as int), vs[i as int]);
                assert(vs.subrange(1, i + 1) =~= vs.subrange(1, i as int).push(vs[i as int]));
                assert(out@ =~= seq!['['] + ser_completed(vs[0]) + ser_completed_rest(
                    vs.subrange(1, i + 1),
                ));
            }
            i += 1;
        }
        proof {
            assert(vs.subrange(1, vs.len() as int) =~= vs.skip(1));
        }
    }
    out.push(']');
    proof {
        assert(out@ =~= ser_completed_list(vs));
    }
    chars_to_string(&out)
}

// ---------------------------------------------------------------------------
// Reading collections
// ---------------------------------------------------------------------------
/// Reads an expected literal at position `i`.
fn expect_lit(s: &str, i: usize, lit: &str) -> (r: Option<usize>)
    requires
        i <= s@.len(),
    ensures
        match r {
            Some(j) => {
                &&& has_prefix(s@.skip(i as int), lit@)
                &&& j == i + lit@.len()
                &&& i <= j <= s@.len()
            },
            None => !has_prefix(s@.skip(i as int), lit@),
        },
{
    let n = s.unicode_len();
    let m = lit.unicode_len();
    if n - i < m {
        return None;
    }
    let mut k: usize = 0;
    while k < m
        invariant
            k <= m,
            m <= n - i,
            i <= n,
            n == s@.len(),
            m == lit@.len(),
            forall|x: int| 0 <= x < k ==> s@[i + x] == lit@[x],
        decreases m - k,
    {
        if s.get_char(i + k) != lit.get_char(k) {
            proof {
                if has_prefix(s@.skip(i as int), lit@) {
                    assert(s@.skip(i as int).take(m as int)[k as int] == lit@[k as int]);
                    assert(s@[i + k] == lit@[k as int]);
                }
            }
            return None;
        }
        k += 1;
    }
    proof {
        assert(s@.skip(i as int).take(m as int) =~= lit@);
    }
    Some(i + m)
}

/// Reads an optional priority at position `i`: the exec face of `p_prio`.
fn parse_prio(s: &str, i: usize) -> (r: Option<(Option<Priority>, usize)>)
    requires
        i <= s@.len(),
    ensures
        match r {
            Some((v, j)) => {
                &&& i <= j <= s@.len()
                &&& p_prio(s@.skip(i as int)) == Some((v, s@.skip(j as int)))
            },
            None => p_prio(s@.skip(i as int)) is None,
        },
{
    proof {
        reveal_strlit("null");
        reveal_strlit("\"H\"");
        reveal_strlit("\"M\"");
        reveal_strlit("\"L\"");
    }
    if let Some(j) = expect_lit(s, i, "null") {
        proof {
            assert(s@.skip(i as int).skip("null"@.len() as int) =~= s@.skip(j as int));
        }
        return Some((None, j));
    }
    if let Some(j) = expect_lit(s, i, "\"H\"") {
        proof {
            assert(s@.skip(i as int).skip("\"H\""@.len() as int) =~= s@.skip(j as int));
        }
        return Some((Some(Priority::H), j));
    }
    if let Some(j) = expect_lit(s, i, "\"M\"") {
        proof {
            assert(s@.skip(i as int).skip("\"M\""@.len() as int) =~= s@.skip(j as int));
        }
        return Some((Some(Priority::M), j));
    }
    if let Some(j) = expect_lit(s, i, "\"L\"") {
        proof {
            assert(s@.skip(i as int).skip("\"L\""@.len() as int) =~= s@.skip(j as int));
        }
        return Some((Some(Priority::L), j));
    }
    None
}

/// Reads exactly two digits at position `i`.
fn parse_fixed2(s: &str, i: usize) -> (r: Option<(u32, usize)>)
    requires
        i <= s@.len(),
    ensures
        match r {
            Some((v, j)) => {
                &&& i <= j <= s@.len()
                &&& p_fixed2(s@.skip(i as int)) == Some((v as nat, s@.skip(j as int)))
            },
            None => p_fixed2(s@.skip(i as int)) is None,
        },
{
    let n = s.unicode_len();
    if n - i < 2 {
        return None;
    }
    let c0 = s.get_char(i);
    let c1 = s.get_char(i + 1);
    proof {
        assert(s@.skip(i as int)[0] == c0);
        assert(s@.skip(i as int)[1] == c1);
    }
    if c0 >= '0' && c0 <= '9' && c1 >= '0' && c1 <= '9' {
        let v = ((c0 as u32) - 48) * 10 + ((c1 as u32) - 48);
        proof {
            assert(s@.skip(i as int).skip(2) =~= s@.skip(i + 2));
        }
        Some((v, i + 2))
    } else {
        None
    }
}

/// Reads exactly four digits at position `i`.
fn parse_fixed4(s: &str, i: usize) -> (r: Option<(u32, usize)>)
    requires
        i <= s@.len(),
    ensures
        match r {
            Some((v, j)) => {
                &&& i <= j <= s@.len()
                &&& p_fixed4(s@.skip(i as int)) == Some((v as nat, s@.skip(j as int)))
            },
            None => p_fixed4(s@.skip(i as int)) is None,
        },
{
    let n = s.unicode_len();
    if n - i < 4 {
        return None;
    }
    let c0 = s.get_char(i);
    let c1 = s.get_char(i + 1);
    let c2 = s.get_char(i + 2);
    let c3 = s.get_char(i + 3);
    proof {
        assert(s@.skip(i as int)[0] == c0);
        assert(s@.skip(i as int)[1] == c1);
        assert(s@.skip(i as int)[2] == c2);
        assert(s@.skip(i as int)[3] == c3);
    }
    if c0 >= '0' && c0 <= '9' && c1 >= '0' && c1 <= '9' && c2 >= '0' && c2 <= '9' && c3 >= '0'
        && c3 <= '9' {
        let v = ((c0 as u32) - 48) * 1000 + ((c1 as u32) - 48) * 100 + ((c2 as u32) - 48) * 10
            + ((c3 as u32) - 48);
        proof {
            assert(s@.skip(i as int).skip(4) =~= s@.skip(i + 4));
        }
        Some((v, i + 4))
    } else {
        None
    }
}

/// Reads a date at position `i`: the exec face of `p_date`.
fn parse_date(s: &str, i: usize) -> (r: Option<(Date, usize)>)
    requires
        i <= s@.len(),
    ensures
        match r {
            Some((v, j)) => {
                &&& i <= j <= s@.len()
                &&& p_date(s@.skip(i as int)) == Some((v, s@.skip(j as int)))
                &&& v.valid()
            },
            None => p_date(s@.skip(i as int)) is None,
        },
{
    let n = s.unicode_len();
    if i >= n || s.get_char(i) != '"' {
        proof {
            if i < n {
                assert(s@.skip(i as int)[0] == s@[i as int]);
            }
        }
        return None;
    }
    proof {
        assert(s@.skip(i as int)[0] == '"');
        assert(s@.skip(i as int).skip(1) =~= s@.skip(i + 1));
    }
    let (y, j1) = match parse_fixed4(s, i + 1) {
        Some(x) => x,
        None => {
            return None;
        },
    };
    if j1 >= n || s.get_char(j1) != '-' {
        proof {
            if j1 < n {
                assert(s@.skip(j1 as int)[0] == s@[j1 as int]);
            }
        }
        return None;
    }
    proof {
        assert(s@.skip(j1 as int)[0] == '-');
        assert(s@.skip(j1 as int).skip(1) =~= s@.skip(j1 + 1));
    }
    let (mo, j2) = match parse_fixed2(s, j1 + 1) {
        Some(x) => x,
        None => {
            return None;
        },
    };
    if j2 >= n || s.get_char(j2) != '-' {
        proof {
            if j2 < n {
                assert(s@.skip(j2 as int)[0] == s@[j2 as int]);
            }
        }
        return None;
    }
    proof {
        assert(s@.skip(j2 as int)[0] == '-');
        assert(s@.skip(j2 as int).skip(1) =~= s@.skip(j2 + 1));
    }
    let (dy, j3) = match parse_fixed2(s, j2 + 1) {
        Some(x) => x,
        None => {
            return None;
        },
    };
    if j3 >= n || s.get_char(j3) != '"' {
        proof {
            if j3 < n {
                assert(s@.skip(j3 as int)[0] == s@[j3 as int]);
            }
        }
        return None;
    }
    proof {
        assert(s@.skip(j3 as int)[0] == '"');
        assert(s@.skip(j3 as int).skip(1) =~= s@.skip(j3 + 1));
    }
    if 1 <= mo && mo <= 12 && 1 <= dy && dy <= 31 {
        Some((Date { year: y, month: mo, day: dy }, j3 + 1))
    } else {
        None
    }
}

/// Reads an optional due date at position `i`: the exec face of `p_due`.
fn parse_due(s: &str, i: usize) -> (r: Option<(Option<Date>, usize)>)
    requires
        i <= s@.len(),
    ensures
        match r {
            Some((v, j)) => {
                &&& i <= j <= s@.len()
                &&& p_due(s@.skip(i as int)) == Some((v, s@.skip(j as int)))
                &&& match v {
                    Some(d) => d.valid(),
                    None => true,
                }
            },
            None => p_due(s@.skip(i as int)) is None,
        },
{
    proof {
        reveal_strlit("null");
    }
    if let Some(j) = expect_lit(s, i, "null") {
        proof {
            assert(s@.skip(i as int).skip("null"@.len() as int) =~= s@.skip(j as int));
        }
        return Some((None, j));
    }
    match parse_date(s, i) {
        Some((d, j)) => Some((Some(d), j)),
        None => None,
    }
}

/// Reads a description list at position `i`: the exec face of `p_strlist`.
fn parse_strlist(s: &str, i: usize) -> (r: Option<(Vec<String>, usize)>)
    requires
        i <= s@.len(),
    ensures
        match r {
            Some((v, j)) => {
                &&& i <= j <= s@.len()
                &&& p_strlist(s@.skip(i as int)) == Some((v.deep_view(), s@.skip(j as int)))
            },
            None => p_strlist(s@.skip(i as int)) is None,
        },
{
    let n = s.unicode_len();
    if i >= n || s.get_char(i) != '[' {
        proof {
            if i < n {
                assert(s@.skip(i as int)[0] == s@[i as int]);
            }
        }
        return None;
    }
    proof {
        assert(s@.skip(i as int)[0] == '[');
    }
    if i + 1 < n && s.get_char(i + 1) == ']' {
        let mut out: Vec<String> = Vec::new();
        proof {
            assert(s@.skip(i as int)[1] == ']');
            assert(s@.skip(i as int).skip(2) =~= s@.skip(i + 2));
            assert(out.deep_view() =~= Seq::<Seq<char>>::empty());
        }
        return Some((out, i + 2));
    }
    proof {
        if i + 1 < n {
            assert(s@.skip(i as int)[1] == s@[i + 1]);
        }
        assert(s@.skip(i as int).skip(1) =~= s@.skip(i + 1));
    }
    let (v0, j0) = match parse_jstring(s, i + 1) {
        Some(x) => x,
        None => {
            return None;
        },
    };
    let mut out: Vec<String> = Vec::new();
    out.push(v0);
    let mut j: usize = j0;
    proof {
        assert(out.deep_view() =~= seq![v0@]);
        assert(p_strlist(s@.skip(i as int)) == p_strlist_rest(s@.skip(j as int), out.deep_view()));
    }
    loop
        invariant
            i < j <= n,
            n == s@.len(),
            p_strlist(s@.skip(i as int)) == p_strlist_rest(s@.skip(j as int), out.deep_view()),
        decreases n - j,
    {
        if j >= n {
            proof {
                assert(s@.skip(j as int).len() == 0);
            }
            return None;
        }
        let c = s.get_char(j);
        proof {
            assert(s@.skip(j as int)[0] == c);
        }
        if c == ']' {
            proof {
                assert(s@.skip(j as int).skip(1) =~= s@.skip(j + 1));
            }
            return Some((out, j + 1));
        } else if c == ',' {
            proof {
                assert(s@.skip(j as int).skip(1) =~= s@.skip(j + 1));
            }
            let ghost prev = s@.skip(j as int);
            match parse_jstring(s, j + 1) {
                Some((v, j2)) => {
                    proof {
                        assert(s@.skip(j2 as int).len() < prev.len());
                    }
                    let ghost olddv = out.deep_view();
                    let ghost vv = v@;
                    out.push(v);
                    proof {
                        assert(out.deep_view() =~= olddv.push(vv));
                    }
                    j = j2;
                },
                None => {
                    return None;
                },
            }
        } else {
            return None;
        }
    }
}

/// Reads an active record at position `i`: the exec face of `p_params`.
#[verifier::rlimit(80)]
fn parse_params(s: &str, i: usize) -> (r: Option<(ActiveParams, usize)>)
    requires
        i <= s@.len(),
    ensures
        match r {
            Some((v, j)) => {
                &&& i <= j <= s@.len()
                &&& p_params(s@.skip(i as int)) == Some((v@, s@.skip(j as int)))
                &&& v@.wf()
            },
            None => p_params(s@.skip(i as int)) is None,
        },
{
    let n = s.unicode_len();
    let j0 = match expect_lit(s, i, "{\"id\":") {
        Some(j) => j,
        None => {
            return None;
        },
    };
    proof {
        assert(s@.skip(i as int).skip("{\"id\":"@.len() as int) =~= s@.skip(j0 as int));
    }
    let (id, j1) = match parse_num(s, j0) {
        Some(x) => x,
        None => {
            return None;
        },
    };
    let j2 = match expect_lit(s, j1, ",\"priority\":") {
        Some(j) => j,
        None => {
            return None;
        },
    };
    proof {
        assert(s@.skip(j1 as int).skip(",\"priority\":"@.len() as int) =~= s@.skip(j2 as int));
    }
    let (priority, j3) = match parse_prio(s, j2) {
        Some(x) => x,
        None => {
            return None;
        },
    };
    let j4 = match expect_lit(s, j3, ",\"description\":") {
        Some(j) => j,
        None => {
            return None;
        },
    };
    proof {
        assert(s@.skip(j3 as int).skip(",\"description\":"@.len() as int) =~= s@.skip(
            j4 as int,
        ));
    }
    let (description, j5) = match parse_strlist(s, j4) {
        Some(x) => x,
        None => {
            return None;
        },
    };
    let j6 = match expect_lit(s, j5, ",\"due\":") {
        Some(j) => j,
        None => {
            return None;
        },
    };
    proof {
        assert(s@.skip(j5 as int).skip(",\"due\":"@.len() as int) =~= s@.skip(j6 as int));
    }
    let (due, j7) = match parse_due(s, j6) {
        Some(x) => x,
        None => {
            return None;
        },
    };
    if j7 >= n || s.get_char(j7) != '}' {
        proof {
            if j7 < n {
                assert(s@.skip(j7 as int)[0] == s@[j7 as int]);
            }
        }
        return None;
    }
    proof {
        assert(s@.skip(j7 as int)[0] == '}');
        assert(s@.skip(j7 as int).skip(1) =~= s@.skip(j7 + 1));
    }
    if id >= 1 && description.len() >= 1 {
        let v = ActiveParams { id, priority, description, due };
        Some((v, j7 + 1))
    } else {
        None
    }
}

/// The records of a collection file's whole content, if it is well formed.
pub open spec fn spec_parse_active(s: Seq<char>) -> Option<Seq<ParamsV>> {
    match p_active_list(s) {
        Some((v, rest)) => if rest.len() == 0 {
            Some(v)
        } else {
            None
        },
        None => None,
    }
}

/// The summaries of an archive file's whole content, if it is well formed.
pub open spec fn spec_parse_completed(s: Seq<char>) -> Option<Seq<Seq<char>>> {
    match p_completed_list(s) {
        Some((v, rest)) => if rest.len() == 0 {
            Some(v)
        } else {
            None
        },
        None => None,
    }
}

/// Parses a collection file's content into active tasks of one kind.
/// Nothing is returned unless the whole content is a well-formed list.
pub fn tasks_from_json<T: ActiveFilable>(s: &str) -> (r: Option<Vec<T>>)
    ensures
        match r {
            Some(v) => spec_parse_active(s@) == Some(views_of(v@)) && crate::store::all_wf(
                views_of(v@),
            ),
            None => spec_parse_active(s@) is None,
        },
{
    let n = s.unicode_len();
    proof {
        assert(s@.skip(0) =~= s@);
    }
    if n == 0 || s.get_char(0) != '[' {
        proof {
            if n > 0 {
                assert(s@.skip(0)[0] == s@[0]);
            }
        }
        return None;
    }
    proof {
        assert(s@[0] == '[');
    }
    if n == 2 && s.get_char(1) == ']' {
        let out: Vec<T> = Vec::new();
        proof {
            assert(s@.skip(2).len() == 0);
            assert(views_of(out@) =~= Seq::<ParamsV>::empty());
        }
        return Some(out);
    }
    if n >= 2 && s.get_char(1) == ']' {
        proof {
            assert(s@.skip(2).len() > 0);
        }
        return None;
    }
    proof {
        if n >= 2 {
            assert(s@[1] != ']');
        }
        assert(s@.skip(1) =~= s@.skip(0).skip(1));
    }
    let (p0, j0) = match parse_params(s, 1) {
        Some(x) => x,
        None => {
            return None;
        },
    };
    let mut out: Vec<T> = Vec::new();
    out.push(T::from_params(p0));
    let mut j: usize = j0;
    proof {
        assert(views_of(out@) =~= seq![p0@]);
        assert(p_active_list(s@) == p_active_rest(s@.skip(j as int), views_of(out@)));
        assert(crate::store::all_wf(views_of(out@)));
    }
    loop
        invariant
            j <= n,
            n == s@.len(),
            p_active_list(s@) == p_active_rest(s@.skip(j as int), views_of(out@)),
            crate::store::all_wf(views_of(out@)),
        decreases n - j,
    {
        if j >= n {
            proof {
                assert(s@.skip(j as int).len() == 0);
            }
            return None;
        }
        let c = s.get_char(j);
        proof {
            assert(s@.skip(j as int)[0] == c);
        }
        if c == ']' {
            if j + 1 == n {
                proof {
                    assert(s@.skip(j as int).skip(1) =~= s@.skip(j + 1));
                    assert(s@.skip(j + 1).len() == 0);
                }
                return Some(out);
            } else {
                proof {
                    assert(s@.skip(j as int).skip(1) =~= s@.skip(j + 1));
                    assert(s@.skip(j + 1).len() > 0);
                }
                return None;
            }
        } else if c == ',' {
            proof {
                assert(s@.skip(j as int).skip(1) =~= s@.skip(j + 1));
            }
            let ghost prev = s@.skip(j as int);
            match parse_params(s, j + 1) {
                Some((v, j2)) => {
                    proof {
                        assert(s@.skip(j2 as int).len() < prev.len());
                    }
                    let ghost oldviews = views_of(out@);
                    out.push(T::from_params(v));
                    proof {
                        assert(views_of(out@) =~= oldviews.push(v@));
                        assert(crate::store::all_wf(views_of(out@)));
                    }
                    j = j2;
                },
                None => {
                    return None;
                },
            }
        } else {
            return None;
        }
    }
}

/// Reads an archived record at position `i`: the exec face of `p_completed`.
fn parse_completed(s: &str, i: usize) -> (r: Option<(CompletedTask, usize)>)
    requires
        i <= s@.len(),
    ensures
        match r {
            Some((v, j)) => {
                &&& i <= j <= s@.len()
                &&& p_completed(s@.skip(i as int)) == Some((v@, s@.skip(j as int)))
            },
            None => p_completed(s@.skip(i as int)) is None,
        },
{
    let n = s.unicode_len();
    let j0 = match expect_lit(s, i, "{\"summary\":") {
        Some(j) => j,
        None => {
            return None;
        },
    };
    proof {
        assert(s@.skip(i as int).skip("{\"summary\":"@.len() as int) =~= s@.skip(j0 as int));
    }
    let (summary, j1) = match parse_jstring(s, j0) {
        Some(x) => x,
        None => {
            return None;
        },
    };
    if j1 >= n || s.get_char(j1) != '}' {
        proof {
            if j1 < n {
                assert(s@.skip(j1 as int)[0] == s@[j1 as int]);
            }
        }
        return None;
    }
    proof {
        assert(s@.skip(j1 as int)[0] == '}');
        assert(s@.skip(j1 as int).skip(1) =~= s@.skip(j1 + 1));
    }
    Some((CompletedTask { summary }, j1 + 1))
}

/// Parses an archive file's content into archived records.
/// Nothing is returned unless the whole content is a well-formed list.
pub fn completed_from_json(s: &str) -> (r: Option<Vec<CompletedTask>>)
    ensures
        match r {
            Some(v) => spec_parse_completed(s@) == Some(views_of(v@)),
            None => spec_parse_completed(s@) is None,
        },
{
    let n = s.unicode_len();
    proof {
        assert(s@.skip(0) =~= s@);
    }
    if n == 0 || s.get_char(0) != '[' {
        proof {
            if n > 0 {
                assert(s@.skip(0)[0] == s@[0]);
            }
        }
        return None;
    }
    proof {
        assert(s@[0] == '[');
    }
    if n == 2 && s.get_char(1) == ']' {
        let out: Vec<CompletedTask> = Vec::new();
        proof {
            assert(s@.skip(2).len() == 0);
            assert(views_of(out@) =~= Seq::<Seq<char>>::empty());
        }
        return Some(out);
    }
    if n >= 2 && s.get_char(1) == ']' {
        proof {
            assert(s@.skip(2).len() > 0);
        }
        return None;
    }
    proof {
        if n >= 2 {
            assert(s@[1] != ']');
        }
        assert(s@.skip(1) =~= s@.skip(0).skip(1));
    }
    let (t0, j0) = match parse_completed(s, 1) {
        Some(x) => x,
        None => {
            return None;
        },
    };
    let mut out: Vec<CompletedTask> = Vec::new();
    out.push(t0);
    let mut j: usize = j0;
    proof {
        assert(views_of(out@) =~= seq![out@[0]@]);
        assert(p_completed_list(s@) == p_completed_rest(s@.skip(j as int), views_of(out@)));
    }
    loop
        invariant
            j <= n,
            n == s@.len(),
            p_completed_list(s@) == p_completed_rest(s@.skip(j as int), views_of(out@)),
        decreases n - j,
    {
        if j >= n {
            proof {
                assert(s@.skip(j as int).len() == 0);
            }
            return None;
        }
        let c = s.get_char(j);
        proof {
            assert(s@.skip(j as int)[0] == c);
        }
        if c == ']' {
            if j + 1 == n {
                proof {
                    assert(s@.skip(j as int).skip(1) =~= s@.skip(j + 1));
                    assert(s@.skip(j + 1).len() == 0);
                }
                return Some(out);
            } else {
                proof {
                    assert(s@.skip(j as int).skip(1) =~= s@.skip(j + 1));
                    assert(s@.skip(j + 1).len() > 0);
                }
                return None;
            }
        } else if c == ',' {
            proof {
                assert(s@.skip(j as int).skip(1) =~= s@.skip(j + 1));
            }
            let ghost prev = s@.skip(j as int);
            match parse_completed(s, j + 1) {
                Some((v, j2)) => {
                    proof {
                        assert(s@.skip(j2 as int).len() < prev.len());
                    }
                    let ghost oldviews = views_of(out@);
                    out.push(v);
                    proof {
                        assert(views_of(out@) =~= oldviews.push(v@));
                    }
                    j = j2;
                },
                None => {
                    return None;
                },
            }
        } else {
            return None;
        }
    }
}

// ---------------------------------------------------------------------------
// The round trip
// ---------------------------------------------------------------------------
/// Serializing any well-formed collection of active records and parsing the
/// result yields an equal sequence of records: same ids, priorities,
/// description lines and due dates, in the same order.
pub proof fn lemma_round_trip_active(ps: Seq<ParamsV>)
    requires
        forall|i: int| 0 <= i < ps.len() ==> ps[i].wf(),
    ensures
        spec_parse_active(ser_active_list(ps)) == Some(ps),
{
    lemma_active_list_round_trip(ps, Seq::<char>::empty());
    assert(ser_active_list(ps) + Seq::<char>::empty() =~= ser_active_list(ps));
}

/// Serializing any archive and parsing the result yields an equal sequence
/// of summaries, in the same order.
pub proof fn lemma_round_trip_completed(ss: Seq<Seq<char>>)
    ensures
        spec_parse_completed(ser_completed_list(ss)) == Some(ss),
{
    lemma_completed_list_round_trip(ss, Seq::<char>::empty());
    assert(ser_completed_list(ss) + Seq::<char>::empty() =~= ser_completed_list(ss));
}

/// The decimal form of a number as a string.
pub fn dec_string(n: u64) -> (r: String)
    ensures
        r@ == spec_dec(n as nat),
{
    let mut out: Vec<char> = Vec::new();
    push_dec(&mut out, n);
    proof {
        assert(out@ =~= spec_dec(n as nat));
    }
    chars_to_string(&out)
}

} // verus!
