//! Random password generation and password strength scoring.
//!
//! Randomness is supplied by the caller as a sequence of `u64` draws, consumed
//! in a fixed order: one draw per character picked (the mandatory characters of
//! each selected class first, then the filler characters), then one draw per
//! Fisher–Yates step of the final shuffle.
use vstd::prelude::*;
use crate::text::{chars_of, decimal, decimal_chars, extend_chars, push_chars, string_of};
use vstd::string::StringExecFns;
use vstd::utf8::encode_utf8;

verus! {

broadcast use vstd::seq_lib::group_to_multiset_ensures;

/// `'a'` to `'z'`.
pub open spec fn lower_set() -> Seq<char> {
    Seq::new(26, |i: int| (97 + i) as char)
}

/// `'A'` to `'Z'`.
pub open spec fn upper_set() -> Seq<char> {
    Seq::new(26, |i: int| (65 + i) as char)
}

/// `'0'` to `'9'`.
pub open spec fn digit_set() -> Seq<char> {
    Seq::new(10, |i: int| (48 + i) as char)
}

/// The symbols a password may hold: `!@#$%^&*()-_=+[]{}|;:,.<>?`.
pub open spec fn special_set() -> Seq<char> {
    seq![
        '!', '@', '#', '$', '%', '^', '&', '*', '(', ')', '-', '_', '=',
        '+', '[', ']', '{', '}', '|', ';', ':', ',', '.', '<', '>', '?',
    ]
}

pub open spec fn is_special(c: char) -> bool {
    c == '!' || c == '@' || c == '#' || c == '$' || c == '%' || c == '^' || c == '&' || c == '*'
        || c == '(' || c == ')' || c == '-' || c == '_' || c == '=' || c == '+' || c == '['
        || c == ']' || c == '{' || c == '}' || c == '|' || c == ';' || c == ':' || c == ','
        || c == '.' || c == '<' || c == '>' || c == '?'
}

pub proof fn lemma_lower_set(c: char)
    ensures
        lower_set().contains(c) <==> ('a' <= c <= 'z'),
{
    if 'a' <= c <= 'z' {
        assert(lower_set()[c as int - 97] == c);
    }
}

pub proof fn lemma_upper_set(c: char)
    ensures
        upper_set().contains(c) <==> ('A' <= c <= 'Z'),
{
    if 'A' <= c <= 'Z' {
        assert(upper_set()[c as int - 65] == c);
    }
}

pub proof fn lemma_digit_set(c: char)
    ensures
        digit_set().contains(c) <==> ('0' <= c <= '9'),
{
    if '0' <= c <= '9' {
        assert(digit_set()[c as int - 48] == c);
    }
}

pub proof fn lemma_special_set(c: char)
    ensures
        special_set().contains(c) <==> is_special(c),
{
    let s = special_set();
    if is_special(c) {
        assert(s[0] == '!' && s[1] == '@' && s[2] == '#' && s[3] == '$' && s[4] == '%'
            && s[5] == '^' && s[6] == '&' && s[7] == '*' && s[8] == '(' && s[9] == ')'
            && s[10] == '-' && s[11] == '_' && s[12] == '=' && s[13] == '+' && s[14] == '['
            && s[15] == ']' && s[16] == '{' && s[17] == '}' && s[18] == '|' && s[19] == ';'
            && s[20] == ':' && s[21] == ',' && s[22] == '.' && s[23] == '<' && s[24] == '>'
            && s[25] == '?');
    }
}

/// The consecutive ASCII characters `first`, `first + 1`, ..., `first + count - 1`.
fn ascii_run(first: u8, count: u8) -> (v: Vec<char>)
    requires
        first + count <= 128,
    ensures
        v@ == Seq::new(count as nat, |i: int| (first + i) as char),
{
    let mut v: Vec<char> = Vec::new();
    let mut k: u8 = 0;
    while k < count
        invariant
            k <= count,
            first + count <= 128,
            v@ == Seq::new(k as nat, |i: int| (first + i) as char),
        decreases count - k,
    {
        v.push((first + k) as char);
        k += 1;
        assert(v@ =~= Seq::new(k as nat, |i: int| (first + i) as char));
    }
    v
}

pub fn lower_chars() -> (v: Vec<char>)
    ensures
        v@ == lower_set(),
{
    ascii_run(97, 26)
}

pub fn upper_chars() -> (v: Vec<char>)
    ensures
        v@ == upper_set(),
{
    ascii_run(65, 26)
}

pub fn digit_chars() -> (v: Vec<char>)
    ensures
        v@ == digit_set(),
{
    ascii_run(48, 10)
}

pub fn special_chars() -> (v: Vec<char>)
    ensures
        v@ == special_set(),
{
    vec![
        '!', '@', '#', '$', '%', '^', '&', '*', '(', ')', '-', '_', '=',
        '+', '[', ']', '{', '}', '|', ';', ':', ',', '.', '<', '>', '?',
    ]
}

/// Whether `set` holds `c`.
pub fn contains_char(set: &Vec<char>, c: char) -> (r: bool)
    ensures
        r == set@.contains(c),
{
    let mut i: usize = 0;
    while i < set.len()
        invariant
            i <= set.len(),
            forall|k: int| 0 <= k < i ==> set@[k] != c,
        decreases set.len() - i,
    {
        if set[i] == c {
            return true;
        }
        i += 1;
    }
    false
}

// ---------------------------------------------------------------------------
// Picking characters
// ---------------------------------------------------------------------------

/// The character that a random draw `r` selects from `set`: the draw is taken
/// as a `usize` and reduced modulo the size of the set.
pub open spec fn pick(set: Seq<char>, r: u64) -> char {
    set[((r as usize) as int) % (set.len() as int)]
}

/// The character of `set` that the draw `r` selects.
pub fn random_char_from_set(set: &Vec<char>, r: u64) -> (c: char)
    requires
        set.len() > 0,
    ensures
        c == pick(set@, r),
{
    set[(#[verifier::truncate] (r as usize)) % set.len()]
}

// ---------------------------------------------------------------------------
// Fisher–Yates shuffle
// ---------------------------------------------------------------------------

pub open spec fn swap(s: Seq<char>, i: int, j: int) -> Seq<char> {
    s.update(i, s[j]).update(j, s[i])
}

/// Fisher–Yates steps for positions `i`, `i - 1`, ..., `1`: step for position
/// `p` swaps it with position `r % (p + 1)`, taking the draws `r` from `rands`
/// in order.
pub open spec fn shuffle_down(s: Seq<char>, rands: Seq<u64>, i: nat) -> Seq<char>
    decreases i,
{
    if i == 0 {
        s
    } else {
        let j = ((rands[0] as usize) as int) % ((i + 1) as int);
        shuffle_down(swap(s, i as int, j), rands.drop_first(), (i - 1) as nat)
    }
}

/// The shuffle of `s` under the draws `rands`: positions are visited from the
/// last down to the second.
pub open spec fn shuffled(s: Seq<char>, rands: Seq<u64>) -> Seq<char> {
    if s.len() == 0 {
        s
    } else {
        shuffle_down(s, rands, (s.len() - 1) as nat)
    }
}

/// Number of draws a shuffle of `n` characters consumes.
pub open spec fn shuffle_draws(n: nat) -> nat {
    if n == 0 {
        0
    } else {
        (n - 1) as nat
    }
}

proof fn lemma_swap_multiset(s: Seq<char>, i: int, j: int)
    requires
        0 <= i < s.len(),
        0 <= j < s.len(),
    ensures
        swap(s, i, j).to_multiset() == s.to_multiset(),
        swap(s, i, j).len() == s.len(),
{
    broadcast use vstd::multiset::group_multiset_axioms;

    let t = s.update(i, s[j]);
    assert(t.to_multiset() == s.to_multiset().insert(s[j]).remove(s[i]));
    assert(swap(s, i, j).to_multiset() == t.to_multiset().insert(s[i]).remove(t[j]));
    if i == j {
        assert(t =~= s);
        assert(swap(s, i, j) =~= s);
    } else {
        assert(t[j] == s[j]);
        assert(swap(s, i, j).to_multiset() =~= s.to_multiset());
    }
}

proof fn lemma_shuffle_down_multiset(s: Seq<char>, rands: Seq<u64>, i: nat)
    requires
        i < s.len(),
        rands.len() >= i,
    ensures
        shuffle_down(s, rands, i).to_multiset() == s.to_multiset(),
        shuffle_down(s, rands, i).len() == s.len(),
    decreases i,
{
    if i > 0 {
        let j = ((rands[0] as usize) as int) % ((i + 1) as int);
        lemma_swap_multiset(s, i as int, j);
        lemma_shuffle_down_multiset(swap(s, i as int, j), rands.drop_first(), (i - 1) as nat);
    }
}

/// A shuffle only reorders: it keeps every character, as often as it occurred.
pub proof fn lemma_shuffle_is_permutation(s: Seq<char>, rands: Seq<u64>)
    requires
        rands.len() >= shuffle_draws(s.len()),
    ensures
        shuffled(s, rands).to_multiset() == s.to_multiset(),
        shuffled(s, rands).len() == s.len(),
        forall|c: char| #[trigger] shuffled(s, rands).contains(c) <==> s.contains(c),
{
    if s.len() > 0 {
        lemma_shuffle_down_multiset(s, rands, (s.len() - 1) as nat);
    }
    assert forall|c: char| #[trigger] shuffled(s, rands).contains(c) <==> s.contains(c) by {
        vstd::seq_lib::to_multiset_contains(s, c);
        vstd::seq_lib::to_multiset_contains(shuffled(s, rands), c);
    }
}

/// Shuffles `chars` in place with the draws `rands`, one per step.
pub fn shuffle(chars: &mut Vec<char>, rands: &Vec<u64>)
    requires
        rands.len() >= shuffle_draws(old(chars).len() as nat),
    ensures
        final(chars)@ == shuffled(old(chars)@, rands@),
{
    assert(rands@.skip(0) =~= rands@);
    shuffle_with_draws_from(chars, rands, 0);
}

/// Shuffles `chars` in place with the draws `rands[start..]`.
fn shuffle_with_draws_from(chars: &mut Vec<char>, rands: &Vec<u64>, start: usize)
    requires
        start <= rands.len(),
        rands.len() - start >= shuffle_draws(old(chars).len() as nat),
    ensures
        final(chars)@ == shuffled(old(chars)@, rands@.skip(start as int)),
{
    let n = chars.len();
    if n == 0 {
        return;
    }
    let ghost original = chars@;
    let ghost draws = rands@.skip(start as int);
    let mut i: usize = n - 1;
    assert(draws.skip(0) =~= draws);
    while i > 0
        invariant
            n == chars.len(),
            n > 0,
            i < n,
            start <= rands.len(),
            rands.len() - start >= n - 1,
            draws == rands@.skip(start as int),
            shuffled(original, draws) == shuffle_down(chars@, draws.skip(n - 1 - i), i as nat),
        decreases i,
    {
        let t = n - 1 - i;
        let j = (#[verifier::truncate] (rands[start + t] as usize)) % (i + 1);
        let a = chars[i];
        let b = chars[j];
        assert(draws.skip(t as int)[0] == rands@[start + t]);
        assert(draws.skip(t as int).drop_first() =~= draws.skip(t + 1));
        chars.set(i, b);
        chars.set(j, a);
        i -= 1;
    }
}

// ---------------------------------------------------------------------------
// Password generation
// ---------------------------------------------------------------------------

/// The character classes a password must draw from, in the order in which
/// their mandatory characters are picked: lowercase always, then uppercase,
/// digits and symbols when asked for.
pub open spec fn selected_classes(upper: bool, digits: bool, symbols: bool) -> Seq<Seq<char>> {
    seq![lower_set()] + (if upper {
        seq![upper_set()]
    } else {
        Seq::empty()
    }) + (if digits {
        seq![digit_set()]
    } else {
        Seq::empty()
    }) + (if symbols {
        seq![special_set()]
    } else {
        Seq::empty()
    })
}

/// All characters a password may hold: the selected classes, concatenated.
pub open spec fn pool(upper: bool, digits: bool, symbols: bool) -> Seq<char> {
    lower_set() + (if upper {
        upper_set()
    } else {
        Seq::empty()
    }) + (if digits {
        digit_set()
    } else {
        Seq::empty()
    }) + (if symbols {
        special_set()
    } else {
        Seq::empty()
    })
}

/// The number of characters of a generated password: the requested length,
/// but at least one per selected class.
pub open spec fn password_len(length: int, upper: bool, digits: bool, symbols: bool) -> nat {
    let k = selected_classes(upper, digits, symbols).len();
    if length > k {
        length as nat
    } else {
        k
    }
}

/// The number of random draws a password generation consumes.
pub open spec fn draws_needed(length: int, upper: bool, digits: bool, symbols: bool) -> nat {
    let n = password_len(length, upper, digits, symbols);
    n + shuffle_draws(n)
}

/// The password before its shuffle: one character of each selected class,
/// then characters of the whole pool up to the password's length; the `i`th
/// character uses the `i`th draw.
pub open spec fn unshuffled_password(
    length: int,
    upper: bool,
    digits: bool,
    symbols: bool,
    rands: Seq<u64>,
) -> Seq<char> {
    let classes = selected_classes(upper, digits, symbols);
    Seq::new(
        password_len(length, upper, digits, symbols),
        |i: int|
            if i < classes.len() {
                pick(classes[i], rands[i])
            } else {
                pick(pool(upper, digits, symbols), rands[i])
            },
    )
}

/// The generated password: the unshuffled password shuffled with the draws
/// that follow those used for picking.
pub open spec fn password_spec(
    length: int,
    upper: bool,
    digits: bool,
    symbols: bool,
    rands: Seq<u64>,
) -> Seq<char> {
    let n = password_len(length, upper, digits, symbols);
    shuffled(unshuffled_password(length, upper, digits, symbols, rands), rands.skip(n as int))
}

/// The number of random draws `generate_password` consumes for these settings.
pub fn random_draws_needed(length: i32, upper: bool, digits: bool, symbols: bool) -> (n: u64)
    requires
        length >= 0,
    ensures
        n == draws_needed(length as int, upper, digits, symbols),
{
    let mut k: u64 = 1;
    if upper {
        k += 1;
    }
    if digits {
        k += 1;
    }
    if symbols {
        k += 1;
    }
    let len: u64 = if (length as u64) > k {
        length as u64
    } else {
        k
    };
    2 * len - 1
}

/// A random password of at least `length` characters (at least one per
/// selected class) made of lowercase letters, plus uppercase letters, digits
/// and symbols when asked for, holding at least one character of each selected
/// class; the draws `rands` decide every pick and the shuffle.
pub fn generate_password(
    length: i32,
    upper: bool,
    digits: bool,
    symbols: bool,
    rands: &Vec<u64>,
) -> (pwd: String)
    requires
        length >= 0,
        rands.len() >= draws_needed(length as int, upper, digits, symbols),
    ensures
        pwd@ == password_spec(length as int, upper, digits, symbols, rands@),
{
    assert(rands@.skip(0) =~= rands@);
    generate_password_from(length, upper, digits, symbols, rands, 0)
}

/// `generate_password` with the draws `rands[start..]`.
fn generate_password_from(
    length: i32,
    upper: bool,
    digits: bool,
    symbols: bool,
    rands: &Vec<u64>,
    start: usize,
) -> (pwd: String)
    requires
        length >= 0,
        start <= rands.len(),
        rands.len() - start >= draws_needed(length as int, upper, digits, symbols),
    ensures
        pwd@ == password_spec(length as int, upper, digits, symbols, rands@.skip(start as int)),
{
    let ghost draws = rands@.skip(start as int);
    let ghost classes = selected_classes(upper, digits, symbols);
    let ghost target = unshuffled_password(length as int, upper, digits, symbols, draws);
    let ghost n = password_len(length as int, upper, digits, symbols);

    let lower_set_v = lower_chars();
    let mut pool_v = lower_chars();
    if upper {
        extend_chars(&mut pool_v, &upper_chars());
    }
    if digits {
        extend_chars(&mut pool_v, &digit_chars());
    }
    if symbols {
        extend_chars(&mut pool_v, &special_chars());
    }
    assert(pool_v@ =~= pool(upper, digits, symbols));

    let mut pwd: Vec<char> = Vec::new();
    pwd.push(random_char_from_set(&lower_set_v, rands[start]));
    assert(pwd@ =~= target.take(1));
    if upper {
        let set = upper_chars();
        let idx = pwd.len();
        assert(classes[idx as int] == upper_set());
        pwd.push(random_char_from_set(&set, rands[start + idx]));
        assert(pwd@ =~= target.take(idx + 1));
    }
    if digits {
        let set = digit_chars();
        let idx = pwd.len();
        assert(classes[idx as int] == digit_set());
        pwd.push(random_char_from_set(&set, rands[start + idx]));
        assert(pwd@ =~= target.take(idx + 1));
    }
    if symbols {
        let set = special_chars();
        let idx = pwd.len();
        assert(classes[idx as int] == special_set());
        pwd.push(random_char_from_set(&set, rands[start + idx]));
        assert(pwd@ =~= target.take(idx + 1));
    }
    assert(pwd.len() == classes.len());

    while pwd.len() < length as usize
        invariant
            classes.len() <= pwd.len() <= n,
            n == password_len(length as int, upper, digits, symbols),
            classes == selected_classes(upper, digits, symbols),
            target == unshuffled_password(length as int, upper, digits, symbols, draws),
            draws == rands@.skip(start as int),
            start <= rands.len(),
            rands.len() - start >= draws_needed(length as int, upper, digits, symbols),
            length >= 0,
            pool_v@ == pool(upper, digits, symbols),
            pwd@ == target.take(pwd.len() as int),
        decreases length - pwd.len(),
    {
        let idx = pwd.len();
        pwd.push(random_char_from_set(&pool_v, rands[start + idx]));
        assert(pwd@ =~= target.take(idx + 1));
    }
    assert(pwd@ =~= target);
    let picked = pwd.len();
    assert(draws.skip(picked as int) =~= rands@.skip(start + picked));
    shuffle_with_draws_from(&mut pwd, rands, start + picked);
    string_of(&pwd)
}


// ---------------------------------------------------------------------------
// Strength
// ---------------------------------------------------------------------------

/// Whether some character of `p` belongs to `set`.
pub open spec fn has_char_of(p: Seq<char>, set: Seq<char>) -> bool {
    exists|i: int| 0 <= i < p.len() && set.contains(#[trigger] p[i])
}

pub open spec fn point(b: bool) -> int {
    if b {
        1
    } else {
        0
    }
}

/// The strength score, out of 5: one point for a UTF-8 length of at least 8
/// bytes, and one point for each of the classes lowercase, uppercase, digits
/// and symbols that the password draws on.
pub open spec fn strength_spec(p: Seq<char>) -> int {
    point(encode_utf8(p).len() >= 8) + point(has_char_of(p, lower_set())) + point(
        has_char_of(p, upper_set()),
    ) + point(has_char_of(p, digit_set())) + point(has_char_of(p, special_set()))
}

/// Whether some character of `p` belongs to `set`.
fn any_char_of(p: &Vec<char>, set: &Vec<char>) -> (r: bool)
    ensures
        r == has_char_of(p@, set@),
{
    let mut i: usize = 0;
    while i < p.len()
        invariant
            i <= p.len(),
            forall|k: int| 0 <= k < i ==> !set@.contains(#[trigger] p@[k]),
        decreases p.len() - i,
    {
        if contains_char(set, p[i]) {
            return true;
        }
        i += 1;
    }
    false
}

/// Scores a password out of 5 (see [`strength_spec`]).
pub fn evaluate_strength(pwd: &str) -> (score: i32)
    ensures
        score == strength_spec(pwd@),
{
    let mut score: i32 = 0;
    if pwd.as_bytes().len() >= 8 {
        score += 1;
    }
    let chars = chars_of(pwd);
    if any_char_of(&chars, &lower_chars()) {
        score += 1;
    }
    if any_char_of(&chars, &upper_chars()) {
        score += 1;
    }
    if any_char_of(&chars, &digit_chars()) {
        score += 1;
    }
    if any_char_of(&chars, &special_chars()) {
        score += 1;
    }
    score
}

/// The UTF-8 length of `q` is that of its `k`th character plus that of the
/// rest.
proof fn lemma_encode_len_remove(q: Seq<char>, k: int)
    requires
        0 <= k < q.len(),
    ensures
        encode_utf8(q).len() == vstd::utf8::encode_scalar(q[k] as u32).len() + encode_utf8(
            q.remove(k),
        ).len(),
    decreases k,
{
    if k == 0 {
        assert(q.remove(0) =~= q.drop_first());
    } else {
        lemma_encode_len_remove(q.drop_first(), k - 1);
        assert(q.drop_first().remove(k - 1) =~= q.remove(k).drop_first());
        assert(q.remove(k)[0] == q[0]);
        assert(q.remove(k).len() > 0);
    }
}

/// Rearranging characters keeps the UTF-8 length.
proof fn lemma_encode_len_permutation(p: Seq<char>, q: Seq<char>)
    requires
        p.to_multiset() == q.to_multiset(),
    ensures
        encode_utf8(p).len() == encode_utf8(q).len(),
    decreases p.len(),
{
    broadcast use vstd::multiset::group_multiset_axioms;

    if p.len() == 0 {
        vstd::seq_lib::to_multiset_len(p);
        vstd::seq_lib::to_multiset_len(q);
        assert(q =~= Seq::<char>::empty());
    } else {
        let c = p[0];
        vstd::seq_lib::to_multiset_contains(p, c);
        vstd::seq_lib::to_multiset_contains(q, c);
        assert(p.contains(c));
        let k = choose|k: int| 0 <= k < q.len() && q[k] == c;
        vstd::seq_lib::to_multiset_remove(q, k);
        vstd::seq_lib::to_multiset_remove(p, 0);
        assert(p.remove(0) =~= p.drop_first());
        lemma_encode_len_permutation(p.drop_first(), q.remove(k));
        lemma_encode_len_remove(q, k);
    }
}

proof fn lemma_has_char_of_permutation(p: Seq<char>, q: Seq<char>, set: Seq<char>)
    requires
        p.to_multiset() == q.to_multiset(),
    ensures
        has_char_of(p, set) == has_char_of(q, set),
{
    if has_char_of(p, set) {
        let i = choose|i: int| 0 <= i < p.len() && set.contains(#[trigger] p[i]);
        vstd::seq_lib::to_multiset_contains(p, p[i]);
        vstd::seq_lib::to_multiset_contains(q, p[i]);
        assert(p.contains(p[i]));
        let j = choose|j: int| 0 <= j < q.len() && q[j] == p[i];
        assert(set.contains(q[j]));
    }
    if has_char_of(q, set) {
        let j = choose|j: int| 0 <= j < q.len() && set.contains(#[trigger] q[j]);
        vstd::seq_lib::to_multiset_contains(p, q[j]);
        vstd::seq_lib::to_multiset_contains(q, q[j]);
        assert(q.contains(q[j]));
        let i = choose|i: int| 0 <= i < p.len() && p[i] == q[j];
        assert(set.contains(p[i]));
    }
}

/// The strength does not depend on the order of the characters: a
/// rearrangement (such as a shuffle) keeps the score.
pub proof fn lemma_strength_permutation(p: Seq<char>, q: Seq<char>)
    requires
        p.to_multiset() == q.to_multiset(),
    ensures
        strength_spec(p) == strength_spec(q),
{
    lemma_encode_len_permutation(p, q);
    lemma_has_char_of_permutation(p, q, lower_set());
    lemma_has_char_of_permutation(p, q, upper_set());
    lemma_has_char_of_permutation(p, q, digit_set());
    lemma_has_char_of_permutation(p, q, special_set());
}

// ---------------------------------------------------------------------------
// Properties of generated passwords
// ---------------------------------------------------------------------------

/// Membership in the pool, class by class.
pub proof fn lemma_pool_member(c: char, upper: bool, digits: bool, symbols: bool)
    ensures
        pool(upper, digits, symbols).contains(c) <==> ('a' <= c <= 'z' || (upper && 'A' <= c
            <= 'Z') || (digits && '0' <= c <= '9') || (symbols && is_special(c))),
{
    broadcast use vstd::seq_lib::group_seq_properties;

    lemma_lower_set(c);
    lemma_upper_set(c);
    lemma_digit_set(c);
    lemma_special_set(c);
    let e = Seq::<char>::empty();
    let a = lower_set();
    let b = if upper {
        upper_set()
    } else {
        e
    };
    let d = if digits {
        digit_set()
    } else {
        e
    };
    let f = if symbols {
        special_set()
    } else {
        e
    };
    assert(!e.contains(c));
    assert((a + b).contains(c) <==> a.contains(c) || b.contains(c));
    assert((a + b + d).contains(c) <==> (a + b).contains(c) || d.contains(c));
    assert((a + b + d + f).contains(c) <==> (a + b + d).contains(c) || f.contains(c));
}

proof fn lemma_pick_in_set(set: Seq<char>, r: u64)
    requires
        set.len() > 0,
    ensures
        set.contains(pick(set, r)),
{
    let k = ((r as usize) as int) % (set.len() as int);
    assert(0 <= k < set.len());
    assert(set[k] == pick(set, r));
}

proof fn lemma_unshuffled_in_pool(
    length: int,
    upper: bool,
    digits: bool,
    symbols: bool,
    rands: Seq<u64>,
    i: int,
)
    requires
        0 <= i < password_len(length, upper, digits, symbols),
    ensures
        pool(upper, digits, symbols).contains(
            unshuffled_password(length, upper, digits, symbols, rands)[i],
        ),
{
    let classes = selected_classes(upper, digits, symbols);
    let c = unshuffled_password(length, upper, digits, symbols, rands)[i];
    lemma_pool_member(c, upper, digits, symbols);
    if i < classes.len() {
        let set = classes[i];
        assert(set == lower_set() || (upper && set == upper_set()) || (digits && set
            == digit_set()) || (symbols && set == special_set()));
        assert(set.len() > 0);
        lemma_pick_in_set(set, rands[i]);
        lemma_lower_set(c);
        lemma_upper_set(c);
        lemma_digit_set(c);
        lemma_special_set(c);
    } else {
        assert(pool(upper, digits, symbols).len() > 0);
        lemma_pick_in_set(pool(upper, digits, symbols), rands[i]);
    }
}

/// A generated password is as long as asked (but at least one character per
/// selected class), holds only characters of the selected classes, and holds
/// at least one character of every selected class.
pub proof fn lemma_generated_password_classes(
    length: int,
    upper: bool,
    digits: bool,
    symbols: bool,
    rands: Seq<u64>,
)
    requires
        rands.len() >= draws_needed(length, upper, digits, symbols),
    ensures
        password_spec(length, upper, digits, symbols, rands).len() == password_len(
            length,
            upper,
            digits,
            symbols,
        ),
        forall|i: int|
            0 <= i < password_spec(length, upper, digits, symbols, rands).len() ==> pool(
                upper,
                digits,
                symbols,
            ).contains(#[trigger] password_spec(length, upper, digits, symbols, rands)[i]),
        has_char_of(password_spec(length, upper, digits, symbols, rands), lower_set()),
        upper ==> has_char_of(password_spec(length, upper, digits, symbols, rands), upper_set()),
        digits ==> has_char_of(password_spec(length, upper, digits, symbols, rands), digit_set()),
        symbols ==> has_char_of(
            password_spec(length, upper, digits, symbols, rands),
            special_set(),
        ),
{
    let n = password_len(length, upper, digits, symbols);
    let u = unshuffled_password(length, upper, digits, symbols, rands);
    let r = rands.skip(n as int);
    let p = password_spec(length, upper, digits, symbols, rands);
    let classes = selected_classes(upper, digits, symbols);
    lemma_shuffle_is_permutation(u, r);
    assert(p == shuffled(u, r));
    assert forall|i: int| 0 <= i < p.len() implies pool(upper, digits, symbols).contains(
        #[trigger] p[i],
    ) by {
        assert(p.contains(p[i]));
        assert(u.contains(p[i]));
        let k = choose|k: int| 0 <= k < u.len() && u[k] == p[i];
        lemma_unshuffled_in_pool(length, upper, digits, symbols, rands, k);
    }
    // The mandatory character of the class at position `k` survives the shuffle.
    assert forall|k: int| 0 <= k < classes.len() implies has_char_of(p, #[trigger] classes[k]) by {
        let set = classes[k];
        assert(set.len() > 0);
        lemma_pick_in_set(set, rands[k]);
        assert(u[k] == pick(set, rands[k]));
        assert(u.contains(u[k]));
        assert(p.contains(u[k]));
        let i = choose|i: int| 0 <= i < p.len() && p[i] == u[k];
        assert(set.contains(p[i]));
    }
    assert(classes[0] == lower_set());
    if upper {
        assert(classes[1] == upper_set());
    }
    if digits {
        assert(classes[1 + point(upper)] == digit_set());
    }
    if symbols {
        assert(classes[1 + point(upper) + point(digits)] == special_set());
    }
}

/// Where each character of a generated password comes from, before the
/// shuffle rearranges them: the first character is the pick of the first draw
/// among the lowercase letters; then, for each selected class in the order
/// uppercase, digits, symbols, one pick of the next draw from that class;
/// every later character is the pick of its own draw from the whole pool of
/// selected characters (lowercase, then uppercase, digits and symbols when
/// selected). The password holds exactly these characters.
pub proof fn lemma_password_picks(
    length: int,
    upper: bool,
    digits: bool,
    symbols: bool,
    rands: Seq<u64>,
)
    requires
        rands.len() >= draws_needed(length, upper, digits, symbols),
    ensures
        ({
            let u = unshuffled_password(length, upper, digits, symbols, rands);
            let full = lower_set() + (if upper {
                upper_set()
            } else {
                Seq::empty()
            }) + (if digits {
                digit_set()
            } else {
                Seq::empty()
            }) + (if symbols {
                special_set()
            } else {
                Seq::empty()
            });
            let k = 1 + point(upper) + point(digits) + point(symbols);
            let n = if length > k {
                length
            } else {
                k
            };
            &&& u.len() == n
            &&& full.len() == 26 + 26 * point(upper) + 10 * point(digits) + 26 * point(symbols)
            &&& u[0] == lower_set()[((rands[0] as usize) as int) % 26]
            &&& upper ==> u[1] == upper_set()[((rands[1] as usize) as int) % 26]
            &&& digits ==> u[1 + point(upper)] == digit_set()[((rands[1 + point(upper)] as usize) as int) % 10]
            &&& symbols ==> u[1 + point(upper) + point(digits)] == special_set()[((rands[1
                + point(upper) + point(digits)] as usize) as int) % 26]
            &&& forall|i: int|
                k <= i < n ==> #[trigger] u[i] == full[((rands[i] as usize) as int) % (
                full.len() as int)]
            &&& password_spec(length, upper, digits, symbols, rands).to_multiset()
                == u.to_multiset()
        }),
{
    let u = unshuffled_password(length, upper, digits, symbols, rands);
    let classes = selected_classes(upper, digits, symbols);
    let n = password_len(length, upper, digits, symbols);
    assert(classes[0] == lower_set());
    if upper {
        assert(classes[1] == upper_set());
    }
    if digits {
        assert(classes[1 + point(upper)] == digit_set());
    }
    if symbols {
        assert(classes[1 + point(upper) + point(digits)] == special_set());
    }
    lemma_shuffle_is_permutation(u, rands.skip(n as int));
}

/// Scoring a generated password: one point for each selected class (lowercase
/// always counts) and one point when it is at least 8 characters long.
pub proof fn lemma_generated_password_strength(
    length: int,
    upper: bool,
    digits: bool,
    symbols: bool,
    rands: Seq<u64>,
)
    requires
        rands.len() >= draws_needed(length, upper, digits, symbols),
    ensures
        strength_spec(password_spec(length, upper, digits, symbols, rands)) == point(
            password_len(length, upper, digits, symbols) >= 8,
        ) + 1 + point(upper) + point(digits) + point(symbols),
{
    let p = password_spec(length, upper, digits, symbols, rands);
    lemma_generated_password_classes(length, upper, digits, symbols, rands);
    assert forall|i: int| 0 <= i < p.len() implies '\0' <= #[trigger] p[i] <= '\u{7f}' by {
        lemma_pool_member(p[i], upper, digits, symbols);
    }
    assert(vstd::utf8::is_ascii_chars(p));
    vstd::utf8::is_ascii_chars_encode_utf8(p);
    if !upper {
        assert forall|i: int| 0 <= i < p.len() implies !upper_set().contains(#[trigger] p[i]) by {
            lemma_pool_member(p[i], upper, digits, symbols);
            lemma_upper_set(p[i]);
        }
    }
    if !digits {
        assert forall|i: int| 0 <= i < p.len() implies !digit_set().contains(#[trigger] p[i]) by {
            lemma_pool_member(p[i], upper, digits, symbols);
            lemma_digit_set(p[i]);
        }
    }
    if !symbols {
        assert forall|i: int| 0 <= i < p.len() implies !special_set().contains(#[trigger] p[i]) by {
            lemma_pool_member(p[i], upper, digits, symbols);
            lemma_special_set(p[i]);
        }
    }
}


// ---------------------------------------------------------------------------
// Report of several passwords
// ---------------------------------------------------------------------------

/// The report block for the password at 0-based position `i`:
/// `Password <i+1>: <pwd>\nStrength: <strength>/5\n\n`.
pub open spec fn report_entry(i: nat, pwd: Seq<char>, strength: nat) -> Seq<char> {
    "Password "@ + decimal(i + 1) + ": "@ + pwd + "\nStrength: "@ + decimal(strength) + "/5\n\n"@
}

/// The report on the first `k` passwords, the `i`th generated with the draws
/// that start at `i * draws_needed(..)`.
pub open spec fn report_spec(
    k: nat,
    length: int,
    upper: bool,
    digits: bool,
    symbols: bool,
    rands: Seq<u64>,
) -> Seq<char>
    decreases k,
{
    if k == 0 {
        Seq::empty()
    } else {
        let i = (k - 1) as nat;
        let per = draws_needed(length, upper, digits, symbols);
        let pwd = password_spec(length, upper, digits, symbols, rands.skip((i * per) as int));
        report_spec(i, length, upper, digits, symbols, rands) + report_entry(
            i,
            pwd,
            strength_spec(pwd) as nat,
        )
    }
}

pub open spec fn count_of(count: i32) -> nat {
    if count > 0 {
        count as nat
    } else {
        0
    }
}

/// The strength is a score out of 5.
pub proof fn lemma_strength_bounds(p: Seq<char>)
    ensures
        0 <= strength_spec(p) <= 5,
{
}

/// Appends the report block of the password at position `i`.
fn append_report_entry(out: &mut String, i: i32, pwd: &String, strength: i32)
    requires
        0 <= i < i32::MAX,
        strength == strength_spec(pwd@),
    ensures
        final(out)@ == old(out)@ + report_entry(i as nat, pwd@, strength as nat),
{
    proof {
        lemma_strength_bounds(pwd@);
    }
    out.append("Password ");
    push_chars(out, &decimal_chars((i + 1) as u32));
    out.append(": ");
    out.append(pwd.as_str());
    out.append("\nStrength: ");
    push_chars(out, &decimal_chars(strength as u32));
    out.append("/5\n\n");
}

/// The text saved for `count` generated passwords (none when `count` is not
/// positive): each password with its strength, numbered from 1.
pub fn password_report(
    count: i32,
    length: i32,
    upper: bool,
    digits: bool,
    symbols: bool,
    rands: &Vec<u64>,
) -> (out: String)
    requires
        count > 0 ==> length >= 0,
        rands.len() >= count_of(count) * draws_needed(length as int, upper, digits, symbols),
    ensures
        out@ == report_spec(count_of(count), length as int, upper, digits, symbols, rands@),
{
    if count <= 0 {
        return String::new();
    }
    let per = random_draws_needed(length, upper, digits, symbols);
    let ghost per_n = draws_needed(length as int, upper, digits, symbols);
    let mut out = String::new();
    let mut i: i32 = 0;
    let mut start: usize = 0;
    while i < count
        invariant
            0 <= i <= count,
            length >= 0,
            per == per_n,
            per_n == draws_needed(length as int, upper, digits, symbols),
            rands.len() >= count_of(count) * per_n,
            start == i * per_n,
            out@ == report_spec(i as nat, length as int, upper, digits, symbols, rands@),
        decreases count - i,
    {
        proof {
            assert((i + 1) * per_n <= count * per_n) by (nonlinear_arith)
                requires
                    i + 1 <= count,
                    per_n >= 0,
            ;
            assert((i + 1) * per_n == i * per_n + per_n) by (nonlinear_arith);
        }
        let pwd = generate_password_from(length, upper, digits, symbols, rands, start);
        let strength = evaluate_strength(pwd.as_str());
        append_report_entry(&mut out, i, &pwd, strength);
        start = start + per as usize;
        i = i + 1;
    }
    out
}

/// The password length the generator uses for a requested one: at least 8.
pub fn effective_length(requested: i32) -> (r: i32)
    ensures
        r == if requested < 8 {
            8
        } else {
            requested
        },
{
    if requested < 8 {
        8
    } else {
        requested
    }
}

/// The number of passwords the generator makes for a requested one: at least 1.
pub fn effective_count(requested: i32) -> (r: i32)
    ensures
        r == if requested < 1 {
            1
        } else {
            requested
        },
{
    if requested < 1 {
        1
    } else {
        requested
    }
}

} // verus!
