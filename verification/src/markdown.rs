//! A small Markdown to HTML converter: HTML escaping, inline markup
//! (`**strong**`, `*emphasis*`, `` `code` ``), and a line-by-line block
//! converter for paragraphs, headings and bullet lists.
use vstd::prelude::*;
use crate::text::{
    chars_of, decimal, decimal_chars, extend_chars, push_chars, string_of, trim, trim_chars, views,
};
use vstd::string::StringExecFns;

verus! {

broadcast use vstd::seq::group_seq_axioms;

// ---------------------------------------------------------------------------
// Escaping
// ---------------------------------------------------------------------------

/// What one character becomes in HTML text: `&`, `<` and `>` become entities.
pub open spec fn escape_char(c: char) -> Seq<char> {
    if c == '&' {
        "&amp;"@
    } else if c == '<' {
        "&lt;"@
    } else if c == '>' {
        "&gt;"@
    } else {
        seq![c]
    }
}

/// `s` with every character escaped.
pub open spec fn escape_spec(s: Seq<char>) -> Seq<char>
    decreases s.len(),
{
    if s.len() == 0 {
        Seq::empty()
    } else {
        escape_spec(s.drop_last()) + escape_char(s.last())
    }
}

fn escape_chars(v: &Vec<char>) -> (r: Vec<char>)
    ensures
        r@ == escape_spec(v@),
{
    let amp = chars_of("&amp;");
    let lt = chars_of("&lt;");
    let gt = chars_of("&gt;");
    let mut r: Vec<char> = Vec::new();
    let mut i: usize = 0;
    while i < v.len()
        invariant
            i <= v.len(),
            amp@ == "&amp;"@,
            lt@ == "&lt;"@,
            gt@ == "&gt;"@,
            r@ == escape_spec(v@.take(i as int)),
        decreases v.len() - i,
    {
        let c = v[i];
        assert(v@.take(i + 1).drop_last() =~= v@.take(i as int));
        if c == '&' {
            extend_chars(&mut r, &amp);
        } else if c == '<' {
            extend_chars(&mut r, &lt);
        } else if c == '>' {
            extend_chars(&mut r, &gt);
        } else {
            r.push(c);
        }
        i += 1;
    }
    assert(v@.take(v.len() as int) =~= v@);
    r
}

/// `text` with `&`, `<` and `>` replaced by `&amp;`, `&lt;` and `&gt;`.
pub fn escape_html(text: &str) -> (r: String)
    ensures
        r@ == escape_spec(text@),
{
    string_of(&escape_chars(&chars_of(text)))
}

// ---------------------------------------------------------------------------
// Splitting at a delimiter
// ---------------------------------------------------------------------------

/// Whether `s` begins with `d`.
pub open spec fn starts_with(s: Seq<char>, d: Seq<char>) -> bool {
    d.len() <= s.len() && s.take(d.len() as int) == d
}

/// `parts` with `c` put in front of its first part.
pub open spec fn prepend_first(c: Seq<char>, parts: Seq<Seq<char>>) -> Seq<Seq<char>> {
    parts.update(0, c + parts[0])
}

/// The pieces of `s` between the occurrences of the nonempty delimiter `d`,
/// found from left to right without overlap, as `str::split` gives them.
pub open spec fn split_spec(s: Seq<char>, d: Seq<char>) -> Seq<Seq<char>>
    decreases s.len(),
{
    if s.len() == 0 {
        seq![Seq::empty()]
    } else if d.len() > 0 && starts_with(s, d) {
        seq![Seq::<char>::empty()] + split_spec(s.skip(d.len() as int), d)
    } else {
        prepend_first(seq![s[0]], split_spec(s.drop_first(), d))
    }
}

/// The parts joined with `d` between neighbours.
pub open spec fn join_spec(parts: Seq<Seq<char>>, d: Seq<char>) -> Seq<char>
    decreases parts.len(),
{
    if parts.len() == 0 {
        Seq::empty()
    } else if parts.len() == 1 {
        parts[0]
    } else {
        parts[0] + d + join_spec(parts.drop_first(), d)
    }
}

pub proof fn lemma_split_nonempty(s: Seq<char>, d: Seq<char>)
    ensures
        split_spec(s, d).len() >= 1,
    decreases s.len(),
{
    if s.len() == 0 {
    } else if d.len() > 0 && starts_with(s, d) {
        lemma_split_nonempty(s.skip(d.len() as int), d);
    } else {
        lemma_split_nonempty(s.drop_first(), d);
    }
}

/// Whether `d` occurs in `s` at position `i`.
fn occurs_at(s: &Vec<char>, i: usize, d: &Vec<char>) -> (r: bool)
    requires
        i <= s.len(),
    ensures
        r == starts_with(s@.skip(i as int), d@),
{
    if d.len() > s.len() - i {
        return false;
    }
    let mut k: usize = 0;
    while k < d.len()
        invariant
            k <= d.len(),
            i + d.len() <= s.len(),
            forall|m: int| 0 <= m < k ==> s@[i + m] == d@[m],
        decreases d.len() - k,
    {
        if s[i + k] != d[k] {
            assert(s@.skip(i as int).take(d.len() as int)[k as int] != d@[k as int]);
            return false;
        }
        k += 1;
    }
    assert(s@.skip(i as int).take(d.len() as int) =~= d@);
    true
}

/// The pieces of `s` between the occurrences of `d` (see [`split_spec`]).
pub fn split(s: &Vec<char>, d: &Vec<char>) -> (parts: Vec<Vec<char>>)
    requires
        d.len() > 0,
    ensures
        parts.len() == split_spec(s@, d@).len(),
        forall|k: int| 0 <= k < parts.len() ==> #[trigger] parts[k]@ == split_spec(s@, d@)[k],
{
    let n = s.len();
    let mut parts: Vec<Vec<char>> = Vec::new();
    let mut cur: Vec<char> = Vec::new();
    let ghost mut done: Seq<Seq<char>> = Seq::empty();
    let mut i: usize = 0;
    assert(s@.skip(0) =~= s@);
    proof {
        lemma_split_nonempty(s@, d@);
        assert(Seq::<char>::empty() + split_spec(s@, d@)[0] =~= split_spec(s@, d@)[0]);
        assert(prepend_first(Seq::empty(), split_spec(s@, d@)) =~= split_spec(s@, d@));
        assert(done + split_spec(s@, d@) =~= split_spec(s@, d@));
    }
    while i < n
        invariant
            i <= n == s.len(),
            d.len() > 0,
            parts.len() == done.len(),
            forall|k: int| 0 <= k < parts.len() ==> #[trigger] parts[k]@ == done[k],
            split_spec(s@, d@) == done + prepend_first(cur@, split_spec(s@.skip(i as int), d@)),
        decreases n - i,
    {
        let ghost t = s@.skip(i as int);
        proof {
            lemma_split_nonempty(t, d@);
        }
        if occurs_at(s, i, d) {
            let ghost rest = split_spec(t.skip(d.len() as int), d@);
            proof {
                lemma_split_nonempty(t.skip(d.len() as int), d@);
                assert(t.skip(d.len() as int) =~= s@.skip(i + d.len()));
                assert(split_spec(t, d@) == seq![Seq::<char>::empty()] + rest);
                assert(cur@ + Seq::<char>::empty() =~= cur@);
                assert(prepend_first(cur@, split_spec(t, d@)) =~= seq![cur@] + rest);
                assert(Seq::<char>::empty() + rest[0] =~= rest[0]);
                assert(prepend_first(Seq::empty(), rest) =~= rest);
                assert(done + (seq![cur@] + rest) =~= done.push(cur@) + prepend_first(
                    Seq::empty(),
                    rest,
                ));
                done = done.push(cur@);
            }
            let finished = cur;
            parts.push(finished);
            cur = Vec::new();
            i = i + d.len();
        } else {
            let ghost rest = split_spec(t.drop_first(), d@);
            proof {
                lemma_split_nonempty(t.drop_first(), d@);
                assert(t.drop_first() =~= s@.skip(i + 1));
                assert(split_spec(t, d@) == prepend_first(seq![s@[i as int]], rest));
                assert(cur@ + (seq![s@[i as int]] + rest[0]) =~= cur@.push(s@[i as int])
                    + rest[0]);
                assert(prepend_first(cur@, prepend_first(seq![s@[i as int]], rest))
                    =~= prepend_first(cur@.push(s@[i as int]), rest));
            }
            cur.push(s[i]);
            i = i + 1;
        }
    }
    proof {
        assert(s@.skip(i as int) =~= Seq::<char>::empty());
        assert(cur@ + Seq::<char>::empty() =~= cur@);
        assert(prepend_first(cur@, seq![Seq::<char>::empty()]) =~= seq![cur@]);
        assert(done + seq![cur@] =~= done.push(cur@));
        done = done.push(cur@);
    }
    parts.push(cur);
    parts
}

/// Joining the pieces of a split with the delimiter gives back the text.
pub proof fn lemma_split_join(s: Seq<char>, d: Seq<char>)
    requires
        d.len() > 0,
    ensures
        join_spec(split_spec(s, d), d) == s,
    decreases s.len(),
{
    if s.len() == 0 {
    } else if starts_with(s, d) {
        let rest = split_spec(s.skip(d.len() as int), d);
        lemma_split_nonempty(s.skip(d.len() as int), d);
        lemma_split_join(s.skip(d.len() as int), d);
        let parts = seq![Seq::<char>::empty()] + rest;
        assert(parts.drop_first() =~= rest);
        assert(join_spec(parts, d) == Seq::<char>::empty() + d + join_spec(rest, d));
        assert(s =~= s.take(d.len() as int) + s.skip(d.len() as int));
        assert(Seq::<char>::empty() + d + s.skip(d.len() as int) =~= s);
    } else {
        let rest = split_spec(s.drop_first(), d);
        lemma_split_nonempty(s.drop_first(), d);
        lemma_split_join(s.drop_first(), d);
        lemma_join_prepend(seq![s[0]], rest, d);
        assert(seq![s[0]] + s.drop_first() =~= s);
    }
}

proof fn lemma_join_prepend(c: Seq<char>, parts: Seq<Seq<char>>, d: Seq<char>)
    requires
        parts.len() >= 1,
    ensures
        join_spec(prepend_first(c, parts), d) == c + join_spec(parts, d),
{
    let p = prepend_first(c, parts);
    if parts.len() == 1 {
    } else {
        assert(p.drop_first() =~= parts.drop_first());
        assert(c + parts[0] + d + join_spec(parts.drop_first(), d) =~= c + (parts[0] + d
            + join_spec(parts.drop_first(), d)));
    }
}

/// Text free of the delimiter's first character is a single piece.
pub proof fn lemma_split_without_delimiter(s: Seq<char>, d: Seq<char>)
    requires
        d.len() > 0,
        !s.contains(d[0]),
    ensures
        split_spec(s, d) == seq![s],
    decreases s.len(),
{
    if s.len() > 0 {
        if starts_with(s, d) {
            assert(s.take(d.len() as int)[0] == s[0]);
            assert(s.contains(s[0]));
        }
        assert(!s.drop_first().contains(d[0])) by {
            if s.drop_first().contains(d[0]) {
                let k = choose|k: int| 0 <= k < s.drop_first().len() && s.drop_first()[k] == d[0];
                assert(s[k + 1] == d[0]);
            }
        }
        lemma_split_without_delimiter(s.drop_first(), d);
        assert(seq![s[0]] + s.drop_first() =~= s);
        assert(prepend_first(seq![s[0]], seq![s.drop_first()]) =~= seq![s]);
    } else {
        assert(s =~= Seq::<char>::empty());
    }
}

// ---------------------------------------------------------------------------
// Inline markup
// ---------------------------------------------------------------------------

/// The parts joined together, every odd-numbered one (counting from 0)
/// wrapped in `open` and `close`.
pub open spec fn wrap_odd_parts(
    parts: Seq<Seq<char>>,
    open: Seq<char>,
    close: Seq<char>,
) -> Seq<char>
    decreases parts.len(),
{
    if parts.len() == 0 {
        Seq::empty()
    } else {
        let i = parts.len() - 1;
        wrap_odd_parts(parts.drop_last(), open, close) + (if i % 2 == 1 {
            open + parts[i] + close
        } else {
            parts[i]
        })
    }
}

/// `s` with the text between each pair of delimiters `d` wrapped in `open`
/// and `close`; the delimiters themselves are dropped, and an unpaired one
/// wraps the rest of the text.
pub open spec fn wrap_markers(
    s: Seq<char>,
    d: Seq<char>,
    open: Seq<char>,
    close: Seq<char>,
) -> Seq<char> {
    wrap_odd_parts(split_spec(s, d), open, close)
}

/// Inline markup: `**x**` becomes `<strong>x</strong>`, then `*x*` becomes
/// `<em>x</em>`, then `` `x` `` becomes `<Code>x</Code>`.
pub open spec fn parse_inline_spec(s: Seq<char>) -> Seq<char> {
    wrap_markers(
        wrap_markers(
            wrap_markers(s, "**"@, "<strong>"@, "</strong>"@),
            "*"@,
            "<em>"@,
            "</em>"@,
        ),
        "`"@,
        "<Code>"@,
        "</Code>"@,
    )
}

fn wrap_markers_chars(s: &Vec<char>, d: &Vec<char>, open: &Vec<char>, close: &Vec<char>) -> (r:
    Vec<char>)
    requires
        d.len() > 0,
    ensures
        r@ == wrap_markers(s@, d@, open@, close@),
{
    let parts = split(s, d);
    let ghost spec_parts = split_spec(s@, d@);
    let mut r: Vec<char> = Vec::new();
    let mut i: usize = 0;
    while i < parts.len()
        invariant
            i <= parts.len() == spec_parts.len(),
            spec_parts == split_spec(s@, d@),
            forall|k: int| 0 <= k < parts.len() ==> #[trigger] parts[k]@ == spec_parts[k],
            r@ == wrap_odd_parts(spec_parts.take(i as int), open@, close@),
        decreases parts.len() - i,
    {
        assert(spec_parts.take(i + 1).drop_last() =~= spec_parts.take(i as int));
        assert(spec_parts.take(i + 1)[i as int] == parts[i as int]@);
        if i % 2 == 1 {
            extend_chars(&mut r, open);
            extend_chars(&mut r, &parts[i]);
            extend_chars(&mut r, close);
            assert(r@ =~= wrap_odd_parts(spec_parts.take(i as int), open@, close@) + (open@
                + parts[i as int]@ + close@));
        } else {
            extend_chars(&mut r, &parts[i]);
        }
        i += 1;
    }
    assert(spec_parts.take(parts.len() as int) =~= spec_parts);
    r
}

fn parse_inline_chars(s: &Vec<char>) -> (r: Vec<char>)
    ensures
        r@ == parse_inline_spec(s@),
{
    proof {
        reveal_strlit("**");
        reveal_strlit("*");
        reveal_strlit("`");
    }
    let a = wrap_markers_chars(s, &chars_of("**"), &chars_of("<strong>"), &chars_of("</strong>"));
    let b = wrap_markers_chars(&a, &chars_of("*"), &chars_of("<em>"), &chars_of("</em>"));
    wrap_markers_chars(&b, &chars_of("`"), &chars_of("<Code>"), &chars_of("</Code>"))
}

/// Converts the inline markup of `text` (see [`parse_inline_spec`]).
pub fn parse_inline(text: &str) -> (r: String)
    ensures
        r@ == parse_inline_spec(text@),
{
    string_of(&parse_inline_chars(&chars_of(text)))
}

/// Text free of the delimiter's first character, then more text, splits into
/// that text glued to the first piece of the rest.
proof fn lemma_split_free_prefix(x: Seq<char>, t: Seq<char>, d: Seq<char>)
    requires
        d.len() > 0,
        !x.contains(d[0]),
    ensures
        split_spec(x + t, d) == prepend_first(x, split_spec(t, d)),
    decreases x.len(),
{
    lemma_split_nonempty(t, d);
    if x.len() == 0 {
        assert(x + t =~= t);
        assert(x + split_spec(t, d)[0] =~= split_spec(t, d)[0]);
        assert(prepend_first(x, split_spec(t, d)) =~= split_spec(t, d));
    } else {
        let s = x + t;
        let x1 = x.drop_first();
        assert(s[0] == x[0]);
        assert(x.contains(x[0]));
        if starts_with(s, d) {
            assert(s.take(d.len() as int)[0] == s[0]);
        }
        assert(!x1.contains(d[0])) by {
            if x1.contains(d[0]) {
                let k = choose|k: int| 0 <= k < x1.len() && x1[k] == d[0];
                assert(x[k + 1] == d[0]);
            }
        }
        assert(s.drop_first() =~= x1 + t);
        lemma_split_free_prefix(x1, t, d);
        lemma_split_nonempty(s.drop_first(), d);
        assert(seq![x[0]] + (x1 + split_spec(t, d)[0]) =~= x + split_spec(t, d)[0]);
        assert(prepend_first(seq![s[0]], prepend_first(x1, split_spec(t, d))) =~= prepend_first(
            x,
            split_spec(t, d),
        ));
    }
}

/// Text free of the delimiter's first character, the delimiter, then more
/// text: the first piece is that text.
proof fn lemma_split_piece(x: Seq<char>, t: Seq<char>, d: Seq<char>)
    requires
        d.len() > 0,
        !x.contains(d[0]),
    ensures
        split_spec(x + d + t, d) == seq![x] + split_spec(t, d),
{
    let r = d + t;
    assert(x + d + t =~= x + r);
    lemma_split_free_prefix(x, r, d);
    assert(r.take(d.len() as int) =~= d);
    assert(r.skip(d.len() as int) =~= t);
    assert(r.len() > 0);
    lemma_split_nonempty(t, d);
    assert(split_spec(r, d) == seq![Seq::<char>::empty()] + split_spec(t, d));
    assert(x + Seq::<char>::empty() =~= x);
    assert(prepend_first(x, seq![Seq::<char>::empty()] + split_spec(t, d)) =~= seq![x]
        + split_spec(t, d));
}

/// Markers wrap every span between a pair of delimiters, not only the first:
/// for pieces free of the delimiter's first character, four delimiters make
/// two wrapped spans, in place, and the delimiters disappear.
pub proof fn lemma_wrap_markers_pairs(
    x: Seq<char>,
    y: Seq<char>,
    z: Seq<char>,
    w: Seq<char>,
    v: Seq<char>,
    d: Seq<char>,
    open: Seq<char>,
    close: Seq<char>,
)
    requires
        d.len() > 0,
        !x.contains(d[0]),
        !y.contains(d[0]),
        !z.contains(d[0]),
        !w.contains(d[0]),
        !v.contains(d[0]),
    ensures
        wrap_markers(x + d + y + d + z + d + w + d + v, d, open, close) == x + open + y + close + z
            + open + w + close + v,
{
    let t4 = w + d + v;
    let t3 = z + d + t4;
    let t2 = y + d + t3;
    assert(x + d + y + d + z + d + w + d + v =~= x + d + t2);
    lemma_split_without_delimiter(v, d);
    lemma_split_piece(w, v, d);
    lemma_split_piece(z, t4, d);
    lemma_split_piece(y, t3, d);
    lemma_split_piece(x, t2, d);
    let parts = seq![x, y, z, w, v];
    assert(split_spec(x + d + t2, d) =~= parts);
    assert(parts.drop_last() =~= seq![x, y, z, w]);
    assert(seq![x, y, z, w].drop_last() =~= seq![x, y, z]);
    assert(seq![x, y, z].drop_last() =~= seq![x, y]);
    assert(seq![x, y].drop_last() =~= seq![x]);
    assert(seq![x].drop_last() =~= Seq::<Seq<char>>::empty());
    assert(wrap_odd_parts(Seq::<Seq<char>>::empty(), open, close) == Seq::<char>::empty());
    let a1 = wrap_odd_parts(seq![x], open, close);
    assert(a1 =~= x);
    let a2 = wrap_odd_parts(seq![x, y], open, close);
    assert(a2 == a1 + (open + y + close));
    let a3 = wrap_odd_parts(seq![x, y, z], open, close);
    assert(a3 == a2 + z);
    let a4 = wrap_odd_parts(seq![x, y, z, w], open, close);
    assert(a4 == a3 + (open + w + close));
    assert(wrap_odd_parts(parts, open, close) == a4 + v);
    assert(a4 + v =~= x + open + y + close + z + open + w + close + v);
}

/// `**` pairs become `<strong>` spans, each in place, in text that has no
/// other markup.
pub proof fn lemma_parse_inline_strong_pairs(
    x: Seq<char>,
    y: Seq<char>,
    z: Seq<char>,
    w: Seq<char>,
    v: Seq<char>,
)
    requires
        !x.contains('*') && !x.contains('`'),
        !y.contains('*') && !y.contains('`'),
        !z.contains('*') && !z.contains('`'),
        !w.contains('*') && !w.contains('`'),
        !v.contains('*') && !v.contains('`'),
    ensures
        parse_inline_spec(x + "**"@ + y + "**"@ + z + "**"@ + w + "**"@ + v) == x + "<strong>"@
            + y + "</strong>"@ + z + "<strong>"@ + w + "</strong>"@ + v,
{
    reveal_strlit("**");
    reveal_strlit("*");
    reveal_strlit("`");
    reveal_strlit("<strong>");
    reveal_strlit("</strong>");
    let r = x + "<strong>"@ + y + "</strong>"@ + z + "<strong>"@ + w + "</strong>"@ + v;
    lemma_wrap_markers_pairs(x, y, z, w, v, "**"@, "<strong>"@, "</strong>"@);
    assert(!r.contains('*') && !r.contains('`')) by {
        if r.contains('*') || r.contains('`') {
            let k = choose|k: int| 0 <= k < r.len() && (r[k] == '*' || r[k] == '`');
            lemma_concat_char_from(x, "<strong>"@, y, "</strong>"@, z, "<strong>"@, w, "</strong>"@, v, k);
        }
    }
    lemma_wrap_markers_absent(r, "*"@, "<em>"@, "</em>"@);
    lemma_wrap_markers_absent(r, "`"@, "<Code>"@, "</Code>"@);
}

/// A character of a concatenation of nine pieces comes from one of them.
proof fn lemma_concat_char_from(
    a: Seq<char>,
    b: Seq<char>,
    c: Seq<char>,
    d: Seq<char>,
    e: Seq<char>,
    f: Seq<char>,
    g: Seq<char>,
    h: Seq<char>,
    i: Seq<char>,
    k: int,
)
    requires
        0 <= k < (a + b + c + d + e + f + g + h + i).len(),
    ensures
        a.contains((a + b + c + d + e + f + g + h + i)[k]) || b.contains((a + b + c + d + e + f + g
            + h + i)[k]) || c.contains((a + b + c + d + e + f + g + h + i)[k]) || d.contains((a + b
            + c + d + e + f + g + h + i)[k]) || e.contains((a + b + c + d + e + f + g + h + i)[k])
            || f.contains((a + b + c + d + e + f + g + h + i)[k]) || g.contains((a + b + c + d + e
            + f + g + h + i)[k]) || h.contains((a + b + c + d + e + f + g + h + i)[k]) || i.contains(
            (a + b + c + d + e + f + g + h + i)[k],
        ),
{
    broadcast use vstd::seq_lib::group_seq_properties;

}

/// Text without `*` and `` ` `` passes through inline markup unchanged.
pub proof fn lemma_parse_inline_plain(s: Seq<char>)
    requires
        !s.contains('*'),
        !s.contains('`'),
    ensures
        parse_inline_spec(s) == s,
{
    reveal_strlit("**");
    reveal_strlit("*");
    reveal_strlit("`");
    lemma_wrap_markers_absent(s, "**"@, "<strong>"@, "</strong>"@);
    lemma_wrap_markers_absent(s, "*"@, "<em>"@, "</em>"@);
    lemma_wrap_markers_absent(s, "`"@, "<Code>"@, "</Code>"@);
}

proof fn lemma_wrap_markers_absent(s: Seq<char>, d: Seq<char>, open: Seq<char>, close: Seq<char>)
    requires
        d.len() > 0,
        !s.contains(d[0]),
    ensures
        wrap_markers(s, d, open, close) == s,
{
    lemma_split_without_delimiter(s, d);
    let parts = seq![s];
    assert(parts.drop_last() =~= Seq::<Seq<char>>::empty());
    assert(wrap_odd_parts(Seq::<Seq<char>>::empty(), open, close) == Seq::<char>::empty());
    assert(Seq::<char>::empty() + s =~= s);
}

/// Escaping leaves no `<` or `>` in the text.
pub proof fn lemma_escape_no_angle_brackets(s: Seq<char>)
    ensures
        !escape_spec(s).contains('<'),
        !escape_spec(s).contains('>'),
    decreases s.len(),
{
    reveal_strlit("&amp;");
    reveal_strlit("&lt;");
    reveal_strlit("&gt;");
    if s.len() > 0 {
        lemma_escape_no_angle_brackets(s.drop_last());
        let a = escape_spec(s.drop_last());
        let b = escape_char(s.last());
        assert(!b.contains('<') && !b.contains('>')) by {
            if b.contains('<') || b.contains('>') {
                let k = choose|k: int| 0 <= k < b.len() && (b[k] == '<' || b[k] == '>');
                assert(false);
            }
        }
        assert forall|k: int| 0 <= k < (a + b).len() implies (a + b)[k] != '<' && (a + b)[k]
            != '>' by {
            if k < a.len() {
                assert((a + b)[k] == a[k]);
                assert(a.contains(a[k]));
            } else {
                assert((a + b)[k] == b[k - a.len()]);
                assert(b.contains(b[k - a.len()]));
            }
        }
    }
}

/// Text without `&`, `<` and `>` is left as it is by escaping.
pub proof fn lemma_escape_plain(s: Seq<char>)
    requires
        !s.contains('&'),
        !s.contains('<'),
        !s.contains('>'),
    ensures
        escape_spec(s) == s,
    decreases s.len(),
{
    if s.len() > 0 {
        let t = s.drop_last();
        assert(!t.contains('&') && !t.contains('<') && !t.contains('>')) by {
            if t.contains('&') || t.contains('<') || t.contains('>') {
                let k = choose|k: int|
                    0 <= k < t.len() && (t[k] == '&' || t[k] == '<' || t[k] == '>');
                assert(s[k] == t[k]);
                assert(s.contains(s[k]));
            }
        }
        lemma_escape_plain(t);
        assert(s.contains(s.last()));
        assert(t + seq![s.last()] =~= s);
    }
}

/// `&lt;`, `&gt;` and `&amp;`, the entities that escaping writes.
pub open spec fn lt_entity() -> Seq<char> {
    seq!['&', 'l', 't', ';']
}

pub open spec fn gt_entity() -> Seq<char> {
    seq!['&', 'g', 't', ';']
}

pub open spec fn amp_entity() -> Seq<char> {
    seq!['&', 'a', 'm', 'p', ';']
}

/// Reads `t` from the left, turning `&lt;`, `&gt;` and `&amp;` back into `<`,
/// `>` and `&`.
pub open spec fn unescape_spec(t: Seq<char>) -> Seq<char>
    decreases t.len(),
{
    if t.len() == 0 {
        Seq::empty()
    } else if starts_with(t, lt_entity()) {
        seq!['<'] + unescape_spec(t.skip(4))
    } else if starts_with(t, gt_entity()) {
        seq!['>'] + unescape_spec(t.skip(4))
    } else if starts_with(t, amp_entity()) {
        seq!['&'] + unescape_spec(t.skip(5))
    } else {
        seq![t[0]] + unescape_spec(t.drop_first())
    }
}

proof fn lemma_escape_front(s: Seq<char>)
    requires
        s.len() > 0,
    ensures
        escape_spec(s) == escape_char(s[0]) + escape_spec(s.drop_first()),
    decreases s.len(),
{
    if s.len() == 1 {
        assert(s.drop_last() =~= Seq::<char>::empty());
        assert(s.drop_first() =~= Seq::<char>::empty());
        assert(escape_spec(Seq::<char>::empty()) == Seq::<char>::empty());
        assert(escape_spec(s) =~= escape_char(s[0]) + Seq::<char>::empty());
    } else {
        lemma_escape_front(s.drop_last());
        assert(s.drop_last().drop_first() =~= s.drop_first().drop_last());
        assert(s.drop_first().last() == s.last());
        assert(escape_spec(s) =~= escape_char(s[0]) + escape_spec(s.drop_first()));
    }
}

/// Escaping can be undone: decoding the three entities gives the text back.
pub proof fn lemma_unescape_escape(s: Seq<char>)
    ensures
        unescape_spec(escape_spec(s)) == s,
    decreases s.len(),
{
    reveal_strlit("&amp;");
    reveal_strlit("&lt;");
    reveal_strlit("&gt;");
    if s.len() == 0 {
        assert(escape_spec(s) == Seq::<char>::empty());
    } else {
        let c = s[0];
        let r = escape_spec(s.drop_first());
        let e = escape_char(c);
        let t = e + r;
        lemma_escape_front(s);
        lemma_unescape_escape(s.drop_first());
        assert(t.len() > 0);
        if c == '<' {
            assert(e =~= lt_entity());
            assert(t.take(4) =~= lt_entity());
            assert(t.skip(4) =~= r);
        } else if c == '>' {
            assert(e =~= gt_entity());
            assert(t[1] == 'g');
            assert(!starts_with(t, lt_entity())) by {
                if starts_with(t, lt_entity()) {
                    assert(t.take(4)[1] == 'l');
                }
            }
            assert(t.take(4) =~= gt_entity());
            assert(t.skip(4) =~= r);
        } else if c == '&' {
            assert(e =~= amp_entity());
            assert(t[1] == 'a');
            assert(!starts_with(t, lt_entity())) by {
                if starts_with(t, lt_entity()) {
                    assert(t.take(4)[1] == 'l');
                }
            }
            assert(!starts_with(t, gt_entity())) by {
                if starts_with(t, gt_entity()) {
                    assert(t.take(4)[1] == 'g');
                }
            }
            assert(t.take(5) =~= amp_entity());
            assert(t.skip(5) =~= r);
        } else {
            assert(e =~= seq![c]);
            assert(t[0] == c);
            assert(!starts_with(t, lt_entity())) by {
                if starts_with(t, lt_entity()) {
                    assert(t.take(4)[0] == '&');
                }
            }
            assert(!starts_with(t, gt_entity())) by {
                if starts_with(t, gt_entity()) {
                    assert(t.take(4)[0] == '&');
                }
            }
            assert(!starts_with(t, amp_entity())) by {
                if starts_with(t, amp_entity()) {
                    assert(t.take(5)[0] == '&');
                }
            }
            assert(t.drop_first() =~= r);
        }
        assert(seq![c] + s.drop_first() =~= s);
    }
}

/// Different texts escape differently.
pub proof fn lemma_escape_injective(a: Seq<char>, b: Seq<char>)
    requires
        escape_spec(a) == escape_spec(b),
    ensures
        a == b,
{
    lemma_unescape_escape(a);
    lemma_unescape_escape(b);
}

// ---------------------------------------------------------------------------
// Blocks
// ---------------------------------------------------------------------------

/// The number of `#` characters that `s` begins with.
pub open spec fn leading_hashes(s: Seq<char>) -> nat
    decreases s.len(),
{
    if s.len() > 0 && s[0] == '#' {
        1 + leading_hashes(s.drop_first())
    } else {
        0
    }
}

/// A source line as the converter looks at it: trimmed, then escaped.
pub open spec fn prepared_line(line: Seq<char>) -> Seq<char> {
    escape_spec(trim(line))
}

/// Whether the line is a heading of level 1 to 6 (it begins with `#` and is
/// no bullet item).
pub open spec fn is_short_heading(l: Seq<char>) -> bool {
    l.len() > 0 && !starts_with(l, "- "@) && l[0] == '#' && leading_hashes(l) <= 6
}

/// Whether the converter can take this line: the content of a heading of
/// level 1 to 6 starts one byte after the `#` marks, which must fall inside
/// the line and on a character boundary, so some character must follow the
/// marks and it must be ASCII.
pub open spec fn line_convertible(line: Seq<char>) -> bool {
    let l = prepared_line(line);
    is_short_heading(l) ==> (leading_hashes(l) < l.len() && (l[leading_hashes(l) as int] as u32)
        < 128)
}

/// The HTML lines that one source line produces, given whether a bullet list
/// is open: an empty line closes an open list (which the converter keeps
/// regarding as open); `- item` opens a list if needed and adds an item; a
/// heading of level 1 to 6 gives `<hN>`, a deeper one nothing; any other line
/// closes an open list and gives a paragraph.
pub open spec fn step_lines(in_list: bool, line: Seq<char>) -> Seq<Seq<char>> {
    let l = prepared_line(line);
    let h = leading_hashes(l);
    if l.len() == 0 {
        if in_list {
            seq!["</ul>"@]
        } else {
            Seq::empty()
        }
    } else if starts_with(l, "- "@) {
        (if in_list {
            Seq::empty()
        } else {
            seq!["<ul>"@]
        }).push("<li>"@ + parse_inline_spec(l.skip(2)) + "</li>"@)
    } else if l[0] == '#' {
        if h <= 6 {
            seq![
                "<h"@ + decimal(h) + ">"@ + parse_inline_spec(trim(l.skip((h + 1) as int))) + "</h"@
                    + decimal(h) + ">"@,
            ]
        } else {
            Seq::empty()
        }
    } else {
        (if in_list {
            seq!["</ul>"@]
        } else {
            Seq::empty()
        }).push("<p>"@ + parse_inline_spec(l) + "</p>"@)
    }
}

/// Whether a bullet list is open after the line.
pub open spec fn step_in_list(in_list: bool, line: Seq<char>) -> bool {
    let l = prepared_line(line);
    if l.len() == 0 {
        in_list
    } else if starts_with(l, "- "@) {
        true
    } else if l[0] == '#' {
        in_list
    } else {
        false
    }
}

/// A paragraph line (after trimming and escaping: not empty, not a `- `
/// bullet, not starting with `#`) gives `<p>`, its inline markup converted,
/// `</p>`, preceded by `</ul>` when a list was open, and leaves no list open.
pub proof fn lemma_paragraph_line(in_list: bool, line: Seq<char>)
    requires
        ({
            let l = escape_spec(trim(line));
            &&& l.len() > 0
            &&& !(l.len() >= 2 && l[0] == '-' && l[1] == ' ')
            &&& l[0] != '#'
        }),
    ensures
        ({
            let l = escape_spec(trim(line));
            let out = step_lines(in_list, line);
            &&& out.len() == if in_list {
                2int
            } else {
                1int
            }
            &&& in_list ==> out[0] == "</ul>"@
            &&& out.last() == "<p>"@ + parse_inline_spec(l) + "</p>"@
            &&& !step_in_list(in_list, line)
        }),
{
    reveal_strlit("- ");
    let l = escape_spec(trim(line));
    if starts_with(l, "- "@) {
        assert(l.take(2)[0] == l[0] && l.take(2)[1] == l[1]);
    }
}

/// The outcome of converting one source line.
pub struct BlockStep {
    /// The HTML lines to write, in order.
    pub lines: Vec<String>,
    /// Whether a bullet list is open afterwards.
    pub in_list: bool,
}

fn count_leading_hashes(l: &Vec<char>) -> (h: usize)
    ensures
        h == leading_hashes(l@),
        h <= l.len(),
{
    let mut h: usize = 0;
    assert(l@.skip(0) =~= l@);
    while h < l.len() && l[h] == '#'
        invariant
            h <= l.len(),
            leading_hashes(l@) == h + leading_hashes(l@.skip(h as int)),
        decreases l.len() - h,
    {
        assert(l@.skip(h as int).drop_first() =~= l@.skip(h + 1));
        h += 1;
    }
    h
}

fn chars_from(v: &Vec<char>, k: usize) -> (r: Vec<char>)
    requires
        k <= v.len(),
    ensures
        r@ == v@.skip(k as int),
{
    let mut r: Vec<char> = Vec::new();
    let mut i: usize = k;
    while i < v.len()
        invariant
            k <= i <= v.len(),
            r@ == v@.subrange(k as int, i as int),
        decreases v.len() - i,
    {
        r.push(v[i]);
        assert(r@ =~= v@.subrange(k as int, i + 1));
        i += 1;
    }
    assert(r@ =~= v@.skip(k as int));
    r
}

/// A string made of `a`, the characters `v`, and `b`.
fn framed(a: &str, v: &Vec<char>, b: &str) -> (r: String)
    ensures
        r@ == a@ + v@ + b@,
{
    let mut r = String::new();
    r.append(a);
    push_chars(&mut r, v);
    r.append(b);
    r
}

/// Whether [`markdown_line`] can take `line` (see [`line_convertible`]).
pub fn line_is_convertible(line: &str) -> (r: bool)
    ensures
        r == line_convertible(line@),
{
    let l = escape_chars(&trim_chars(&chars_of(line)));
    proof {
        reveal_strlit("- ");
    }
    if l.len() == 0 || occurs_at(&l, 0, &chars_of("- ")) || l[0] != '#' {
        assert(l@.skip(0) =~= l@);
        return true;
    }
    assert(l@.skip(0) =~= l@);
    let h = count_leading_hashes(&l);
    if h > 6 {
        return true;
    }
    h < l.len() && (l[h] as u32) < 128
}

/// Converts one source line, given whether a bullet list is open.
pub fn markdown_line(in_list: bool, line: &str) -> (r: BlockStep)
    requires
        line_convertible(line@),
    ensures
        r.lines.len() == step_lines(in_list, line@).len(),
        forall|k: int| 0 <= k < r.lines.len() ==> #[trigger] r.lines[k]@ == step_lines(in_list, line@)[k],
        r.in_list == step_in_list(in_list, line@),
{
    let l = escape_chars(&trim_chars(&chars_of(line)));
    let ghost want = step_lines(in_list, line@);
    let mut lines: Vec<String> = Vec::new();
    proof {
        reveal_strlit("- ");
    }
    assert(l@.skip(0) =~= l@);
    if l.len() == 0 {
        if in_list {
            lines.push(String::from_str("</ul>"));
        }
        assert(lines@.len() == want.len());
        return BlockStep { lines, in_list };
    }
    if occurs_at(&l, 0, &chars_of("- ")) {
        if !in_list {
            lines.push(String::from_str("<ul>"));
        }
        let content = parse_inline_chars(&chars_from(&l, 2));
        lines.push(framed("<li>", &content, "</li>"));
        return BlockStep { lines, in_list: true };
    }
    if l[0] == '#' {
        let h = count_leading_hashes(&l);
        if h <= 6 {
            let content = parse_inline_chars(&trim_chars(&chars_from(&l, h + 1)));
            let level = decimal_chars(h as u32);
            let mut out = String::new();
            out.append("<h");
            push_chars(&mut out, &level);
            out.append(">");
            push_chars(&mut out, &content);
            out.append("</h");
            push_chars(&mut out, &level);
            out.append(">");
            lines.push(out);
        }
        return BlockStep { lines, in_list };
    }
    if in_list {
        lines.push(String::from_str("</ul>"));
    }
    let content = parse_inline_chars(&l);
    lines.push(framed("<p>", &content, "</p>"));
    BlockStep { lines, in_list: false }
}

/// The HTML lines for a whole document, and whether a list is open at its
/// end; conversion starts outside any list.
pub open spec fn markdown_spec(lines: Seq<Seq<char>>) -> (Seq<Seq<char>>, bool)
    decreases lines.len(),
{
    if lines.len() == 0 {
        (Seq::empty(), false)
    } else {
        let (out, in_list) = markdown_spec(lines.drop_last());
        (out + step_lines(in_list, lines.last()), step_in_list(in_list, lines.last()))
    }
}

/// Converts a whole document, line by line.
pub fn parse_markdown(lines: &Vec<String>) -> (html: Vec<String>)
    requires
        forall|i: int| 0 <= i < lines.len() ==> line_convertible(#[trigger] lines[i]@),
    ensures
        views(html@) == markdown_spec(views(lines@)).0,
{
    let mut html: Vec<String> = Vec::new();
    let mut in_list = false;
    let mut i: usize = 0;
    while i < lines.len()
        invariant
            i <= lines.len(),
            forall|i: int| 0 <= i < lines.len() ==> line_convertible(#[trigger] lines[i]@),
            markdown_spec(views(lines@).take(i as int)) == (views(html@), in_list),
        decreases lines.len() - i,
    {
        let ghost before = html@;
        let step = markdown_line(in_list, lines[i].as_str());
        assert(views(lines@).take(i + 1).drop_last() =~= views(lines@).take(i as int));
        assert(views(lines@).take(i + 1).last() == lines@[i as int]@);
        let mut k: usize = 0;
        let new_lines = step.lines;
        while k < new_lines.len()
            invariant
                k <= new_lines.len(),
                html@ == before + new_lines@.take(k as int),
            decreases new_lines.len() - k,
        {
            html.push(new_lines[k].clone());
            assert(html@ =~= before + new_lines@.take(k + 1));
            k += 1;
        }
        assert(new_lines@.take(new_lines.len() as int) =~= new_lines@);
        assert(views(new_lines@) =~= step_lines(in_list, lines@[i as int]@));
        assert(views(html@) =~= views(before) + step_lines(in_list, lines@[i as int]@));
        in_list = step.in_list;
        i += 1;
    }
    assert(views(lines@).take(lines.len() as int) =~= views(lines@));
    html
}

} // verus!
