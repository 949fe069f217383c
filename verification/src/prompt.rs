//! Interpreting the answers typed at the password generator's prompts.
//!
//! Each function takes the line exactly as read from the terminal (newline
//! included); printing the prompt and reading the line are the caller's part.
use vstd::prelude::*;
use crate::text::{chars_of, decimal, digit_char, string_of, trim, trim_chars, trim_end, trim_start};

verus! {

/// What `read_string` gives for a typed line: the line without surrounding
/// whitespace, or `default_val` when nothing else is left.
pub open spec fn read_string_spec(line: Seq<char>, default_val: Seq<char>) -> Seq<char> {
    if trim(line).len() == 0 {
        default_val
    } else {
        trim(line)
    }
}

/// The answer to a text prompt: the trimmed line, or `default_val` when it is
/// empty.
pub fn read_string(line: &str, default_val: &str) -> (r: String)
    ensures
        r@ == read_string_spec(line@, default_val@),
{
    let t = trim_chars(&chars_of(line));
    if t.len() == 0 {
        string_of(&chars_of(default_val))
    } else {
        string_of(&t)
    }
}

// ---------------------------------------------------------------------------
// Integers
// ---------------------------------------------------------------------------

pub open spec fn is_digit(c: char) -> bool {
    '0' <= c <= '9'
}

pub open spec fn all_digits(s: Seq<char>) -> bool {
    forall|i: int| 0 <= i < s.len() ==> is_digit(#[trigger] s[i])
}

/// The value of a string of decimal digits (leading zeros allowed).
pub open spec fn digits_value(s: Seq<char>) -> int
    decreases s.len(),
{
    if s.len() == 0 {
        0
    } else {
        10 * digits_value(s.drop_last()) + (s.last() as int - 48)
    }
}

/// `str::parse::<i32>`: an optional `+` or `-`, then one or more ASCII
/// digits, whose value must fit in an `i32`; anything else is an error.
pub open spec fn parse_i32_spec(s: Seq<char>) -> Option<i32> {
    let signed = s.len() > 0 && (s[0] == '-' || s[0] == '+');
    let negative = s.len() > 0 && s[0] == '-';
    let body = if signed {
        s.drop_first()
    } else {
        s
    };
    let v = if negative {
        -digits_value(body)
    } else {
        digits_value(body)
    };
    if body.len() == 0 || !all_digits(body) || v < i32::MIN || v > i32::MAX {
        None
    } else {
        Some(v as i32)
    }
}

proof fn lemma_digits_value_prefix(s: Seq<char>, k: int)
    requires
        all_digits(s),
        0 <= k <= s.len(),
    ensures
        0 <= digits_value(s.take(k)) <= digits_value(s),
    decreases s.len() - k,
{
    if k < s.len() {
        lemma_digits_value_prefix(s, k + 1);
        assert(s.take(k + 1).drop_last() =~= s.take(k));
        assert(is_digit(s[k]));
    } else {
        assert(s.take(k) =~= s);
        lemma_digits_value_nonneg(s);
    }
}

proof fn lemma_digits_value_nonneg(s: Seq<char>)
    requires
        all_digits(s),
    ensures
        digits_value(s) >= 0,
    decreases s.len(),
{
    if s.len() > 0 {
        assert(all_digits(s.drop_last()));
        lemma_digits_value_nonneg(s.drop_last());
        assert(is_digit(s[s.len() - 1]));
    }
}

/// Parses `s` as `str::parse::<i32>` does.
pub fn parse_i32(s: &Vec<char>) -> (r: Option<i32>)
    ensures
        r == parse_i32_spec(s@),
{
    let n = s.len();
    let signed = n > 0 && (s[0] == '-' || s[0] == '+');
    let negative = n > 0 && s[0] == '-';
    let first: usize = if signed {
        1
    } else {
        0
    };
    let ghost body = if signed {
        s@.drop_first()
    } else {
        s@
    };
    assert(body =~= s@.skip(first as int));
    if first == n {
        return None;
    }
    let mut acc: i64 = 0;
    let mut i: usize = first;
    while i < n
        invariant
            first <= i <= n == s.len(),
            body == s@.skip(first as int),
            body == if s@.len() > 0 && (s@[0] == '-' || s@[0] == '+') {
                s@.drop_first()
            } else {
                s@
            },
            negative == (s@.len() > 0 && s@[0] == '-'),
            all_digits(body.take(i - first)),
            acc == digits_value(body.take(i - first)),
            0 <= acc <= 2147483648,
        decreases n - i,
    {
        let c = s[i];
        if !('0' <= c && c <= '9') {
            assert(body[i - first] == c);
            return None;
        }
        let d = (c as u32 - 48) as i64;
        assert(body.take(i + 1 - first).drop_last() =~= body.take(i - first));
        assert(body.take(i + 1 - first).last() == c);
        acc = acc * 10 + d;
        assert(all_digits(body.take(i + 1 - first)));
        if acc > 2147483648 {
            proof {
                if all_digits(body) {
                    lemma_digits_value_prefix(body, i + 1 - first);
                }
            }
            return None;
        }
        i += 1;
    }
    assert(body.take(n - first) =~= body);
    if negative {
        Some((-acc) as i32)
    } else if acc > 2147483647 {
        None
    } else {
        Some(acc as i32)
    }
}

/// The answer to a number prompt.
pub struct IntReading {
    /// The number to use.
    pub value: i32,
    /// Whether the line held something other than a number, so that the
    /// default is used after a notice.
    pub invalid: bool,
}

/// The answer to a number prompt: the default for an empty (trimmed) line, the
/// number the line holds, or the default with the `invalid` flag when the line
/// is not an `i32`.
pub fn read_int(line: &str, default_val: i32) -> (r: IntReading)
    ensures
        trim(line@).len() == 0 ==> r.value == default_val && !r.invalid,
        trim(line@).len() > 0 ==> match parse_i32_spec(trim(line@)) {
            Some(v) => r.value == v && !r.invalid,
            None => r.value == default_val && r.invalid,
        },
{
    let t = trim_chars(&chars_of(line));
    if t.len() == 0 {
        return IntReading { value: default_val, invalid: false };
    }
    match parse_i32(&t) {
        Some(v) => IntReading { value: v, invalid: false },
        None => IntReading { value: default_val, invalid: true },
    }
}

/// How an `i32` is printed: a `-` for a negative number, then the decimal
/// digits of its magnitude without leading zeros.
pub open spec fn i32_text(n: i32) -> Seq<char> {
    if n < 0 {
        seq!['-'] + decimal((-n) as nat)
    } else {
        decimal(n as nat)
    }
}

proof fn lemma_decimal_digits(m: nat)
    ensures
        decimal(m).len() > 0,
        all_digits(decimal(m)),
        digits_value(decimal(m)) == m,
        is_digit(decimal(m)[0]),
        is_digit(decimal(m).last()),
    decreases m,
{
    assert(digit_char(m % 10) as int == 48 + m % 10);
    if m < 10 {
        assert(decimal(m).drop_last() =~= Seq::<char>::empty());
        assert(digits_value(Seq::<char>::empty()) == 0);
        assert(digit_char(m) as int == 48 + m);
    } else {
        lemma_decimal_digits(m / 10);
        assert(10 * (m / 10) + m % 10 == m);
        let d = decimal(m);
        assert(d.drop_last() =~= decimal(m / 10));
        assert(d.last() == digit_char(m % 10));
        assert forall|i: int| 0 <= i < d.len() implies is_digit(#[trigger] d[i]) by {
            if i < d.len() - 1 {
                assert(d[i] == decimal(m / 10)[i]);
            }
        }
        assert(d[0] == decimal(m / 10)[0]);
    }
}

/// Reading back a printed `i32`, followed by the newline of the typed line,
/// gives the number itself, whatever the default.
pub proof fn lemma_read_printed_int(n: i32)
    ensures
        trim(i32_text(n).push('\n')).len() > 0,
        parse_i32_spec(trim(i32_text(n).push('\n'))) == Some(n),
{
    let t = i32_text(n);
    let m: nat = if n < 0 {
        (-n) as nat
    } else {
        n as nat
    };
    lemma_decimal_digits(m);
    assert(t.len() > 0);
    assert(!crate::text::is_ws(t[0]));
    assert(!crate::text::is_ws(t.last())) by {
        if n < 0 {
            assert(t.last() == decimal(m).last());
        }
    }
    let line = t.push('\n');
    assert(line[0] == t[0]);
    assert(trim_start(line) == line);
    assert(line.drop_last() =~= t);
    assert(trim_end(line) == trim_end(t));
    assert(trim_end(t) == t);
    assert(trim(line) == t);
    if n < 0 {
        assert(t.drop_first() =~= decimal(m));
    }
}

// ---------------------------------------------------------------------------
// Yes / no
// ---------------------------------------------------------------------------

/// Lowercase of an ASCII letter; other characters unchanged.
pub open spec fn ascii_lower(c: char) -> char {
    if 'A' <= c <= 'Z' {
        ((c as int) + 32) as char
    } else {
        c
    }
}

/// Whether `t`, lowercased, is `"y"` or `"yes"`. No character other than
/// `Y`, `E` and `S` has `y`, `e` or `s` as its Unicode lowercase, so ASCII
/// lowercasing decides this as `str::to_lowercase` does.
pub open spec fn is_yes(t: Seq<char>) -> bool {
    (t.len() == 1 && ascii_lower(t[0]) == 'y') || (t.len() == 3 && ascii_lower(t[0]) == 'y'
        && ascii_lower(t[1]) == 'e' && ascii_lower(t[2]) == 's')
}

fn lower_ascii(c: char) -> (r: char)
    ensures
        r == ascii_lower(c),
{
    if 'A' <= c && c <= 'Z' {
        ((c as u8) + 32) as char
    } else {
        c
    }
}

/// The answer to a yes/no prompt: `default_val` for an empty (trimmed) line,
/// otherwise whether the line is `y` or `yes` in any letter case.
pub fn read_bool(line: &str, default_val: bool) -> (r: bool)
    ensures
        r == if trim(line@).len() == 0 {
            default_val
        } else {
            is_yes(trim(line@))
        },
{
    let t = trim_chars(&chars_of(line));
    if t.len() == 0 {
        return default_val;
    }
    if t.len() == 1 {
        lower_ascii(t[0]) == 'y'
    } else if t.len() == 3 {
        lower_ascii(t[0]) == 'y' && lower_ascii(t[1]) == 'e' && lower_ascii(t[2]) == 's'
    } else {
        false
    }
}

/// The answers that count as yes: `y` and `yes`, in any letter case. Every
/// other answer, such as `n`, `N`, `no` or `ye`, is a no.
pub proof fn lemma_yes_answers(t: Seq<char>)
    ensures
        is_yes(t) <==> (t == seq!['y'] || t == seq!['Y'] || (t.len() == 3 && (t[0] == 'y'
            || t[0] == 'Y') && (t[1] == 'e' || t[1] == 'E') && (t[2] == 's' || t[2] == 'S'))),
{
    if t.len() == 1 && (t[0] == 'y' || t[0] == 'Y') {
        assert(t == seq!['y'] || t == seq!['Y']) by {
            if t[0] == 'y' {
                assert(t =~= seq!['y']);
            } else {
                assert(t =~= seq!['Y']);
            }
        }
    }
}

} // verus!
