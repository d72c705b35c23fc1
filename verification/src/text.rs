//! Text as a sequence of characters: what it means to trim, split, search and join it,
//! and executable functions that do so.
use vstd::prelude::*;

verus! {

/// `String::push` appends one character.
pub assume_specification[ String::push ](s: &mut String, ch: char)
    ensures
        final(s)@ == old(s)@.push(ch),
;

/// A character with Unicode's White_Space property.
pub open spec fn is_white(c: char) -> bool {
    ||| '\u{9}' <= c <= '\u{d}'
    ||| c == '\u{20}'
    ||| c == '\u{85}'
    ||| c == '\u{a0}'
    ||| c == '\u{1680}'
    ||| '\u{2000}' <= c <= '\u{200a}'
    ||| c == '\u{2028}'
    ||| c == '\u{2029}'
    ||| c == '\u{202f}'
    ||| c == '\u{205f}'
    ||| c == '\u{3000}'
}

pub open spec fn is_digit(c: char) -> bool {
    '0' <= c <= '9'
}

/// The text of each slice in a list.
pub open spec fn views(v: Seq<&str>) -> Seq<Seq<char>> {
    v.map_values(|t: &str| t@)
}

/// The text of each string in a list.
pub open spec fn string_views(v: Seq<String>) -> Seq<Seq<char>> {
    v.map_values(|t: String| t@)
}

/// The text of a string that may be missing.
pub open spec fn opt_text(s: Option<String>) -> Option<Seq<char>> {
    match s {
        Some(t) => Some(t@),
        None => None,
    }
}

/// `s` without its leading white space.
pub open spec fn trimmed_start(s: Seq<char>) -> Seq<char>
    decreases s.len(),
{
    if s.len() > 0 && is_white(s[0]) {
        trimmed_start(s.skip(1))
    } else {
        s
    }
}

/// `s` without its trailing white space.
pub open spec fn trimmed_end(s: Seq<char>) -> Seq<char>
    decreases s.len(),
{
    if s.len() > 0 && is_white(s.last()) {
        trimmed_end(s.drop_last())
    } else {
        s
    }
}

/// `s` without the white space around it.
pub open spec fn trimmed(s: Seq<char>) -> Seq<char> {
    trimmed_end(trimmed_start(s))
}

pub open spec fn all_white(s: Seq<char>) -> bool {
    forall|i: int| 0 <= i < s.len() ==> is_white(#[trigger] s[i])
}

/// White space before a text goes with its own leading white space; what follows a text that
/// is not all white stays behind it.
proof fn lemma_trimmed_start_of(a: Seq<char>, b: Seq<char>)
    ensures
        trimmed_start(a).len() == 0 ==> trimmed_start(a + b) == trimmed_start(b),
        trimmed_start(a).len() > 0 ==> trimmed_start(a + b) == trimmed_start(a) + b,
        all_white(a) ==> trimmed_start(a).len() == 0,
    decreases a.len(),
{
    if a.len() == 0 {
        assert(a + b == b);
    } else if is_white(a[0]) {
        assert((a + b).skip(1) == a.skip(1) + b);
        if all_white(a) {
            assert forall|i: int| 0 <= i < a.skip(1).len() implies is_white(
                #[trigger] a.skip(1)[i],
            ) by {
                assert(a.skip(1)[i] == a[i + 1]);
            }
        }
        lemma_trimmed_start_of(a.skip(1), b);
    }
}

/// White space after a text goes with its own trailing white space.
proof fn lemma_trimmed_end_of(a: Seq<char>, b: Seq<char>)
    requires
        all_white(b),
    ensures
        trimmed_end(a + b) == trimmed_end(a),
    decreases b.len(),
{
    if b.len() == 0 {
        assert(a + b == a);
    } else {
        let front = b.drop_last();
        assert((a + b).drop_last() == a + front);
        assert(is_white(b[b.len() - 1]));
        assert forall|i: int| 0 <= i < front.len() implies is_white(#[trigger] front[i]) by {
            assert(front[i] == b[i]);
        }
        lemma_trimmed_end_of(a, front);
    }
}

/// White space around a text makes no difference to what is left of it by trimming.
pub proof fn law_white_space_around_is_trimmed(before: Seq<char>, s: Seq<char>, after: Seq<char>)
    requires
        all_white(before),
        all_white(after),
    ensures
        trimmed(before + s + after) == trimmed(s),
{
    let e = Seq::<char>::empty();
    assert(before + s + after == before + (s + after));
    lemma_trimmed_start_of(before, s + after);
    lemma_trimmed_start_of(s, after);
    lemma_trimmed_start_of(after, e);
    lemma_trimmed_end_of(trimmed_start(s), after);
    if trimmed_start(s).len() == 0 {
        assert(trimmed_start(s) == e);
        assert(trimmed_start(after) == e);
    }
}

/// The length of the longest prefix of `s` that holds no white space.
pub open spec fn word_len(s: Seq<char>) -> nat
    decreases s.len(),
{
    if s.len() > 0 && !is_white(s[0]) {
        1 + word_len(s.skip(1))
    } else {
        0
    }
}

pub proof fn lemma_word_len(s: Seq<char>)
    ensures
        word_len(s) <= s.len(),
        s.len() > 0 && !is_white(s[0]) ==> word_len(s) > 0,
    decreases s.len(),
{
    if s.len() > 0 && !is_white(s[0]) {
        lemma_word_len(s.skip(1));
    }
}

pub proof fn lemma_trimmed_start(s: Seq<char>)
    ensures
        trimmed_start(s).len() <= s.len(),
        trimmed_start(s).len() > 0 ==> !is_white(trimmed_start(s)[0]),
    decreases s.len(),
{
    if s.len() > 0 && is_white(s[0]) {
        lemma_trimmed_start(s.skip(1));
    }
}

/// The maximal runs of characters other than white space, in order.
pub open spec fn words(s: Seq<char>) -> Seq<Seq<char>>
    decreases s.len(),
{
    let t = trimmed_start(s);
    if t.len() == 0 {
        Seq::empty()
    } else {
        proof {
            lemma_trimmed_start(s);
            lemma_word_len(t);
        }
        seq![t.take(word_len(t) as int)] + words(t.skip(word_len(t) as int))
    }
}

/// Text that is not empty and holds no white space.
pub open spec fn is_word(s: Seq<char>) -> bool {
    s.len() > 0 && forall|i: int| 0 <= i < s.len() ==> !is_white(#[trigger] s[i])
}

proof fn lemma_word_then_space(w: Seq<char>, rest: Seq<char>)
    requires
        forall|i: int| 0 <= i < w.len() ==> !is_white(#[trigger] w[i]),
        rest.len() == 0 || is_white(rest[0]),
    ensures
        word_len(w + rest) == w.len(),
    decreases w.len(),
{
    if w.len() > 0 {
        assert((w + rest)[0] == w[0]);
        assert((w + rest).skip(1) == w.skip(1) + rest);
        assert forall|i: int| 0 <= i < w.skip(1).len() implies !is_white(
            #[trigger] w.skip(1)[i],
        ) by {
            assert(w.skip(1)[i] == w[i + 1]);
        }
        lemma_word_then_space(w.skip(1), rest);
    } else {
        assert(w + rest == rest);
    }
}

/// A word is the only word of itself.
pub proof fn lemma_one_word(w: Seq<char>)
    requires
        is_word(w),
    ensures
        words(w) == seq![w],
{
    lemma_word_then_space(w, Seq::empty());
    assert(w + Seq::<char>::empty() == w);
    assert(w.take(w.len() as int) == w);
    assert(w.skip(w.len() as int) == Seq::<char>::empty());
    assert(words(Seq::<char>::empty()) == Seq::<Seq<char>>::empty());
    assert(words(w) == seq![w] + words(w.skip(w.len() as int)));
}

/// A word before a space is the first word of the text.
pub proof fn lemma_first_word(w: Seq<char>, rest: Seq<char>)
    requires
        is_word(w),
    ensures
        words(w + " "@ + rest) == seq![w] + words(rest),
{
    reveal_strlit(" ");
    let s = w + " "@ + rest;
    let tail = " "@ + rest;
    assert(s == w + tail);
    lemma_word_then_space(w, tail);
    assert(s.take(w.len() as int) == w);
    assert(s.skip(w.len() as int) == tail);
    assert(words(s) == seq![w] + words(tail));
    assert(tail.skip(1) == rest);
    assert(trimmed_start(tail) == trimmed_start(rest));
}

/// Whether `c` occurs in `s`.
pub open spec fn has_char(s: Seq<char>, c: char) -> bool {
    exists|i: int| 0 <= i < s.len() && s[i] == c
}

/// The position of the first `c` in `s`, or the length of `s` where there is none.
pub open spec fn find_char(s: Seq<char>, c: char) -> nat
    decreases s.len(),
{
    if s.len() == 0 || s[0] == c {
        0
    } else {
        1 + find_char(s.skip(1), c)
    }
}

pub proof fn lemma_find_char(s: Seq<char>, c: char)
    ensures
        find_char(s, c) <= s.len(),
        find_char(s, c) < s.len() ==> s[find_char(s, c) as int] == c,
        forall|j: int| 0 <= j < find_char(s, c) ==> s[j] != c,
    decreases s.len(),
{
    if s.len() > 0 && s[0] != c {
        lemma_find_char(s.skip(1), c);
        assert forall|j: int| 0 <= j < find_char(s, c) implies s[j] != c by {
            if j > 0 {
                assert(s.skip(1)[j - 1] == s[j]);
            }
        }
    }
}

/// The pieces of `s` between the occurrences of `c`; always at least one.
pub open spec fn pieces(s: Seq<char>, c: char) -> Seq<Seq<char>>
    decreases s.len(),
{
    let i = find_char(s, c) as int;
    if i >= s.len() {
        seq![s]
    } else {
        seq![s.take(i)] + pieces(s.skip(i + 1), c)
    }
}

/// The lower-case ASCII letter of an upper-case one; any other character as it is.
pub open spec fn ascii_lower(c: char) -> char {
    if 'A' <= c <= 'Z' {
        (c as int + 32) as char
    } else {
        c
    }
}

/// A text of ASCII characters in lower case.
pub open spec fn ascii_lowered(s: Seq<char>) -> Seq<char> {
    s.map_values(|c: char| ascii_lower(c))
}

pub open spec fn is_ascii_text(s: Seq<char>) -> bool {
    forall|i: int| 0 <= i < s.len() ==> (#[trigger] s[i]) as u32 <= 127
}

proof fn lemma_lowering_keeps_white_space(s: Seq<char>)
    requires
        is_ascii_text(s),
    ensures
        trimmed_start(ascii_lowered(s)) == ascii_lowered(trimmed_start(s)),
        trimmed_end(ascii_lowered(s)) == ascii_lowered(trimmed_end(s)),
        is_ascii_text(trimmed_start(s)),
        is_ascii_text(trimmed_end(s)),
    decreases s.len(),
{
    if s.len() > 0 {
        let rest = s.skip(1);
        let front = s.drop_last();
        assert forall|i: int| 0 <= i < rest.len() implies (#[trigger] rest[i]) as u32 <= 127 by {
            assert(s[i + 1] as u32 <= 127);
        }
        assert forall|i: int| 0 <= i < front.len() implies (#[trigger] front[i]) as u32 <= 127 by {
            assert(s[i] as u32 <= 127);
        }
        lemma_lowering_keeps_white_space(rest);
        lemma_lowering_keeps_white_space(front);
        assert(ascii_lowered(s).skip(1) == ascii_lowered(rest));
        assert(ascii_lowered(s).drop_last() == ascii_lowered(front));
        assert(is_white(ascii_lower(s[0])) == is_white(s[0]));
        assert(is_white(ascii_lower(s.last())) == is_white(s.last()));
    } else {
        assert(ascii_lowered(s) == s);
    }
}

/// Two texts of ASCII characters that differ only in the case of their letters are the same
/// once they are trimmed and in lower case.
pub proof fn law_case_makes_no_difference(a: Seq<char>, b: Seq<char>)
    requires
        is_ascii_text(a),
        is_ascii_text(b),
        ascii_lowered(a) == ascii_lowered(b),
    ensures
        lower_text(trimmed(a)) == lower_text(trimmed(b)),
{
    lemma_lowering_keeps_white_space(a);
    lemma_lowering_keeps_white_space(b);
    lemma_lowering_keeps_white_space(trimmed_start(a));
    lemma_lowering_keeps_white_space(trimmed_start(b));
}

/// `str::to_lowercase`: a text in lower case, after Unicode's tables.
pub uninterp spec fn lowered(s: Seq<char>) -> Seq<char>;

/// A text in lower case.
pub open spec fn lower_text(s: Seq<char>) -> Seq<char> {
    if is_ascii_text(s) {
        ascii_lowered(s)
    } else {
        lowered(s)
    }
}

/// `str::to_lowercase`, which maps each upper-case letter of ASCII to its lower-case one and
/// leaves the rest of ASCII alone. Of other characters the contract says only that the
/// result depends on the text alone.
#[verifier::external_body]
fn to_lowercase(s: &str) -> (r: String)
    ensures
        r@ == lowered(s@),
        is_ascii_text(s@) ==> r@ == ascii_lowered(s@),
{
    s.to_lowercase()
}

/// A text in lower case.
pub fn lowercase(s: &str) -> (r: String)
    ensures
        r@ == lower_text(s@),
{
    to_lowercase(s)
}

/// `format!` with `{:?}`: a text in quotes, with escapes for what is not printable.
pub uninterp spec fn quoted(s: Seq<char>) -> Seq<char>;

/// `format!` with `{:?}` of a string slice.
#[verifier::external_body]
pub(crate) fn quote(s: &str) -> (r: String)
    ensures
        r@ == quoted(s@),
{
    format!("{:?}", s)
}

pub fn is_whitespace(c: char) -> (r: bool)
    ensures
        r == is_white(c),
{
    ('\u{9}' <= c && c <= '\u{d}') || c == '\u{20}' || c == '\u{85}' || c == '\u{a0}' || c
        == '\u{1680}' || ('\u{2000}' <= c && c <= '\u{200a}') || c == '\u{2028}' || c == '\u{2029}'
        || c == '\u{202f}' || c == '\u{205f}' || c == '\u{3000}'
}

pub fn is_ascii_digit(c: char) -> (r: bool)
    ensures
        r == is_digit(c),
{
    '0' <= c && c <= '9'
}

/// The characters of `s`.
pub fn chars_of(s: &str) -> (r: Vec<char>)
    ensures
        r@ == s@,
{
    let mut r: Vec<char> = Vec::new();
    for c in it: s.chars()
        invariant
            it.seq() == s@,
            r@ == s@.take(it.index() as int),
    {
        r.push(c);
    }
    proof {
        assert(s@.take(s@.len() as int) == s@);
    }
    r
}

/// `s` without the white space around it.
pub fn trim<'a>(s: &'a str) -> (r: &'a str)
    ensures
        r@ == trimmed(s@),
{
    let v = chars_of(s);
    let n = v.len();
    let mut a: usize = 0;
    assert(v@.skip(0) == v@);
    while a < n && is_whitespace(v[a])
        invariant
            a <= n == v@.len(),
            trimmed_start(v@.skip(a as int)) == trimmed_start(v@),
        decreases n - a,
    {
        assert(v@.skip(a as int).skip(1) == v@.skip(a + 1));
        a += 1;
    }
    let ghost t = v@.skip(a as int);
    let mut b: usize = n;
    assert(v@.subrange(a as int, n as int) == t);
    while b > a && is_whitespace(v[b - 1])
        invariant
            a <= b <= n == v@.len(),
            t == v@.skip(a as int),
            trimmed_end(v@.subrange(a as int, b as int)) == trimmed_end(t),
        decreases b,
    {
        assert(v@.subrange(a as int, b as int).drop_last() == v@.subrange(a as int, b - 1));
        b -= 1;
    }
    s.substring_char(a, b)
}

/// The words of `s`.
pub fn split_whitespace<'a>(s: &'a str) -> (r: Vec<&'a str>)
    ensures
        views(r@) == words(s@),
{
    let v = chars_of(s);
    let n = v.len();
    let mut r: Vec<&'a str> = Vec::new();
    let mut i: usize = 0;
    assert(v@.skip(0) == v@);
    assert(views(r@) + words(v@) == words(v@));
    while i < n
        invariant
            i <= n == v@.len(),
            v@ == s@,
            views(r@) + words(v@.skip(i as int)) == words(v@),
        decreases n - i,
    {
        if is_whitespace(v[i]) {
            assert(v@.skip(i as int).skip(1) == v@.skip(i + 1));
            assert(trimmed_start(v@.skip(i as int)) == trimmed_start(v@.skip(i + 1)));
            i += 1;
        } else {
            let start = i;
            let ghost t = v@.skip(start as int);
            assert(t.skip(0) == t);
            while i < n && !is_whitespace(v[i])
                invariant
                    start <= i <= n == v@.len(),
                    t == v@.skip(start as int),
                    word_len(t) == (i - start) + word_len(v@.skip(i as int)),
                decreases n - i,
            {
                assert(v@.skip(i as int).skip(1) == v@.skip(i + 1));
                i += 1;
            }
            let w = s.substring_char(start, i);
            let ghost before = r@;
            r.push(w);
            proof {
                assert(word_len(t) == i - start);
                assert(w@ == t.take(i - start));
                assert(t.skip(i - start) == v@.skip(i as int));
                assert(views(r@) == views(before).push(w@));
                assert(views(before) + (seq![w@] + words(v@.skip(i as int))) == views(r@) + words(
                    v@.skip(i as int),
                ));
            }
        }
    }
    proof {
        assert(v@.skip(n as int).len() == 0);
        assert(words(v@.skip(n as int)) == Seq::<Seq<char>>::empty());
        assert(views(r@) + Seq::<Seq<char>>::empty() == views(r@));
    }
    r
}

/// The pieces of `s` between the occurrences of `c`.
pub fn split_on<'a>(s: &'a str, c: char) -> (r: Vec<&'a str>)
    ensures
        views(r@) == pieces(s@, c),
        r@.len() >= 1,
{
    let v = chars_of(s);
    let n = v.len();
    let mut r: Vec<&'a str> = Vec::new();
    let mut start: usize = 0;
    let mut i: usize = 0;
    assert(v@.skip(0) == v@);
    assert(views(r@) + pieces(v@, c) == pieces(v@, c));
    while i < n
        invariant
            start <= i <= n == v@.len(),
            v@ == s@,
            views(r@) + pieces(v@.skip(start as int), c) == pieces(v@, c),
            find_char(v@.skip(start as int), c) == (i - start) + find_char(v@.skip(i as int), c),
        decreases n - i,
    {
        assert(v@.skip(i as int).skip(1) == v@.skip(i + 1));
        if v[i] == c {
            let w = s.substring_char(start, i);
            let ghost before = r@;
            let ghost t = v@.skip(start as int);
            r.push(w);
            proof {
                assert(find_char(t, c) == i - start);
                assert(w@ == t.take(i - start));
                assert(t.skip(i - start + 1) == v@.skip(i + 1));
                assert(views(r@) == views(before).push(w@));
                assert(views(before) + (seq![w@] + pieces(v@.skip(i + 1), c)) == views(r@) + pieces(
                    v@.skip(i + 1),
                    c,
                ));
            }
            start = i + 1;
        }
        i += 1;
    }
    let w = s.substring_char(start, n);
    let ghost before = r@;
    r.push(w);
    proof {
        assert(v@.skip(n as int).len() == 0);
        assert(w@ == v@.skip(start as int));
        assert(views(r@) == views(before).push(w@));
        assert(views(before) + seq![w@] == views(r@));
    }
    r
}

/// Whether `p` occurs in `s` as a run of neighbouring characters.
pub open spec fn has_text(s: Seq<char>, p: Seq<char>) -> bool {
    exists|i: int| #![trigger s.subrange(i, i + p.len())]
        0 <= i <= s.len() - p.len() && s.subrange(i, i + p.len()) == p
}

pub open spec fn starts_with(s: Seq<char>, p: Seq<char>) -> bool {
    p.len() <= s.len() && s.take(p.len() as int) == p
}

pub open spec fn ends_with(s: Seq<char>, p: Seq<char>) -> bool {
    p.len() <= s.len() && s.skip(s.len() - p.len()) == p
}

/// What follows `p` in a text that starts with it.
pub open spec fn after_prefix(s: Seq<char>, p: Seq<char>) -> Option<Seq<char>> {
    if starts_with(s, p) {
        Some(s.skip(p.len() as int))
    } else {
        None
    }
}

/// What precedes `p` in a text that ends with it.
pub open spec fn before_suffix(s: Seq<char>, p: Seq<char>) -> Option<Seq<char>> {
    if ends_with(s, p) {
        Some(s.take(s.len() - p.len()))
    } else {
        None
    }
}

/// `s` without any copies of `p` at its end.
pub open spec fn without_suffixes(s: Seq<char>, p: Seq<char>) -> Seq<char>
    decreases s.len(),
{
    if p.len() > 0 && ends_with(s, p) {
        without_suffixes(s.take(s.len() - p.len()), p)
    } else {
        s
    }
}

/// `parts` one after the other, with `sep` between neighbours.
pub open spec fn joined(parts: Seq<Seq<char>>, sep: Seq<char>) -> Seq<char>
    decreases parts.len(),
{
    if parts.len() == 0 {
        Seq::empty()
    } else if parts.len() == 1 {
        parts[0]
    } else {
        joined(parts.drop_last(), sep) + sep + parts.last()
    }
}

/// A list joined, taken from its front.
proof fn lemma_joined_front(parts: Seq<Seq<char>>, sep: Seq<char>)
    requires
        parts.len() >= 2,
    ensures
        joined(parts, sep) == parts[0] + sep + joined(parts.skip(1), sep),
    decreases parts.len(),
{
    if parts.len() == 2 {
        assert(joined(parts.drop_last(), sep) == parts[0]);
        assert(joined(parts.skip(1), sep) == parts.last());
    } else {
        let front = parts.drop_last();
        lemma_joined_front(front, sep);
        assert(front.skip(1) == parts.skip(1).drop_last());
        assert(parts.skip(1).last() == parts.last());
        assert(joined(parts.skip(1), sep) == joined(front.skip(1), sep) + sep + parts.last());
        assert(parts[0] + sep + joined(front.skip(1), sep) + sep + parts.last() == parts[0] + sep + (
        joined(front.skip(1), sep) + sep + parts.last()));
    }
}

/// The first `c` of a text stands behind a part that has none.
proof fn lemma_find_char_after(a: Seq<char>, c: char, rest: Seq<char>)
    requires
        !has_char(a, c),
        rest.len() == 0 || rest[0] == c,
    ensures
        find_char(a + rest, c) == a.len(),
{
    let s = a + rest;
    lemma_find_char(s, c);
    let f = find_char(s, c) as int;
    if f < a.len() {
        assert(a[f] == s[f]);
    } else if f > a.len() {
        assert(s[a.len() as int] == rest[0]);
    }
}

/// A list of texts without `c`, joined with `c` between them, is taken apart at `c` into the
/// same list.
pub proof fn lemma_pieces_of_joined(parts: Seq<Seq<char>>, c: char)
    requires
        parts.len() > 0,
        forall|i: int| 0 <= i < parts.len() ==> !has_char(#[trigger] parts[i], c),
    ensures
        pieces(joined(parts, seq![c]), c) == parts,
    decreases parts.len(),
{
    let s = joined(parts, seq![c]);
    if parts.len() == 1 {
        lemma_find_char_after(parts[0], c, Seq::empty());
        assert(parts[0] + Seq::<char>::empty() == s);
        assert(pieces(s, c) == parts);
    } else {
        let rest = parts.skip(1);
        let tail = seq![c] + joined(rest, seq![c]);
        lemma_joined_front(parts, seq![c]);
        assert(s == parts[0] + tail);
        lemma_find_char_after(parts[0], c, tail);
        assert forall|i: int| 0 <= i < rest.len() implies !has_char(#[trigger] rest[i], c) by {
            assert(rest[i] == parts[i + 1]);
        }
        lemma_pieces_of_joined(rest, c);
        assert(s.take(parts[0].len() as int) == parts[0]);
        assert(s.skip((parts[0].len() + 1) as int) == joined(rest, seq![c]));
        assert(pieces(s, c) == seq![parts[0]] + rest);
        assert(seq![parts[0]] + rest == parts);
    }
}

/// A list of more than one text has what stands between them.
pub proof fn lemma_joined_has_separator(parts: Seq<Seq<char>>, c: char)
    requires
        parts.len() >= 2,
    ensures
        has_char(joined(parts, seq![c]), c),
{
    let front = joined(parts.drop_last(), seq![c]);
    assert(joined(parts, seq![c])[front.len() as int] == c);
}

/// `s` with every `c` replaced by `by`.
pub open spec fn replaced(s: Seq<char>, c: char, by: Seq<char>) -> Seq<char>
    decreases s.len(),
{
    if s.len() == 0 {
        Seq::empty()
    } else if s.last() == c {
        replaced(s.drop_last(), c, by) + by
    } else {
        replaced(s.drop_last(), c, by).push(s.last())
    }
}

/// A line without the carriage return that may end it.
pub open spec fn without_cr(s: Seq<char>) -> Seq<char> {
    if s.len() > 0 && s.last() == '\r' {
        s.drop_last()
    } else {
        s
    }
}

/// The lines of `s`: each ends at a line feed or at the end of the text, and an empty
/// last one is none. A carriage return before the line feed belongs to the line end.
pub open spec fn lines(s: Seq<char>) -> Seq<Seq<char>>
    decreases s.len(),
{
    let i = find_char(s, '\n') as int;
    if s.len() == 0 {
        Seq::empty()
    } else if i >= s.len() {
        seq![s]
    } else {
        seq![without_cr(s.take(i))] + lines(s.skip(i + 1))
    }
}

pub fn same(a: &str, b: &str) -> (r: bool)
    ensures
        r == (a@ == b@),
{
    a.to_owned() == b.to_owned()
}

pub fn contains_char(s: &str, c: char) -> (r: bool)
    ensures
        r == has_char(s@, c),
{
    let v = chars_of(s);
    let mut i: usize = 0;
    while i < v.len()
        invariant
            i <= v@.len(),
            v@ == s@,
            forall|j: int| 0 <= j < i ==> v@[j] != c,
        decreases v.len() - i,
    {
        if v[i] == c {
            return true;
        }
        i += 1;
    }
    false
}

/// What follows `p` in a text that starts with it.
pub fn strip_prefix<'a>(s: &'a str, p: &str) -> (r: Option<&'a str>)
    ensures
        r is Some <==> after_prefix(s@, p@) is Some,
        r matches Some(t) ==> after_prefix(s@, p@) == Some(t@),
{
    let n = s.unicode_len();
    let m = p.unicode_len();
    if m > n || !same(s.substring_char(0, m), p) {
        assert(m <= n ==> s@.subrange(0, m as int) == s@.take(m as int));
        return None;
    }
    assert(s@.subrange(0, m as int) == s@.take(m as int));
    assert(s@.subrange(m as int, n as int) == s@.skip(m as int));
    Some(s.substring_char(m, n))
}

/// What precedes `p` in a text that ends with it.
pub fn strip_suffix<'a>(s: &'a str, p: &str) -> (r: Option<&'a str>)
    ensures
        r is Some <==> before_suffix(s@, p@) is Some,
        r matches Some(t) ==> before_suffix(s@, p@) == Some(t@),
{
    let n = s.unicode_len();
    let m = p.unicode_len();
    if m > n || !same(s.substring_char(n - m, n), p) {
        assert(m <= n ==> s@.subrange(n - m, n as int) == s@.skip(n - m));
        return None;
    }
    assert(s@.subrange(n - m, n as int) == s@.skip(n - m));
    assert(s@.subrange(0, n - m) == s@.take(n - m));
    Some(s.substring_char(0, (n - m) as usize))
}

/// `s` without any copies of `p` at its end.
pub fn trim_end_matches<'a>(s: &'a str, p: &str) -> (r: &'a str)
    requires
        p@.len() > 0,
    ensures
        r@ == without_suffixes(s@, p@),
{
    let mut t: &'a str = s;
    loop
        invariant
            p@.len() > 0,
            without_suffixes(t@, p@) == without_suffixes(s@, p@),
        decreases t@.len(),
    {
        match strip_suffix(t, p) {
            Some(u) => {
                t = u;
            },
            None => {
                return t;
            },
        }
    }
}

pub fn contains_text(s: &str, p: &str) -> (r: bool)
    ensures
        r == has_text(s@, p@),
{
    let n = s.unicode_len();
    let m = p.unicode_len();
    if m > n {
        return false;
    }
    let mut i: usize = 0;
    while i <= n - m
        invariant
            m <= n,
            n == s@.len(),
            m == p@.len(),
            i <= n - m + 1,
            forall|j: int| 0 <= j < i ==> #[trigger] s@.subrange(j, j + m) != p@,
        decreases n + 1 - i,
    {
        if same(s.substring_char(i, i + m), p) {
            return true;
        }
        if i == n - m {
            return false;
        }
        i += 1;
    }
    false
}

/// Whether some string of `list` holds `s`.
pub fn contains_string(list: &Vec<String>, s: &str) -> (r: bool)
    ensures
        r == string_views(list@).contains(s@),
{
    let mut i: usize = 0;
    while i < list.len()
        invariant
            i <= list@.len(),
            forall|j: int| 0 <= j < i ==> #[trigger] list@[j]@ != s@,
        decreases list.len() - i,
    {
        if same(list[i].as_str(), s) {
            assert(string_views(list@)[i as int] == s@);
            return true;
        }
        i += 1;
    }
    false
}

/// The strings of `parts` one after the other, with `sep` between neighbours.
pub fn join(parts: &Vec<String>, sep: &str) -> (r: String)
    ensures
        r@ == joined(string_views(parts@), sep@),
{
    let mut r = String::new();
    let mut i: usize = 0;
    let ghost all = string_views(parts@);
    while i < parts.len()
        invariant
            i <= parts@.len(),
            all == string_views(parts@),
            r@ == joined(all.take(i as int), sep@),
        decreases parts.len() - i,
    {
        assert(all.take(i + 1).drop_last() == all.take(i as int));
        assert(all.take(i + 1).last() == parts@[i as int]@);
        if i > 0 {
            r.append(sep);
        }
        r.append(parts[i].as_str());
        assert(i == 0 ==> r@ == parts@[0]@);
        i += 1;
    }
    assert(all.take(parts@.len() as int) == all);
    r
}

/// `s` with every `c` replaced by `by`.
pub fn replace(s: &str, c: char, by: &str) -> (r: String)
    ensures
        r@ == replaced(s@, c, by@),
{
    let v = chars_of(s);
    let mut r = String::new();
    let mut i: usize = 0;
    while i < v.len()
        invariant
            i <= v@.len(),
            v@ == s@,
            r@ == replaced(s@.take(i as int), c, by@),
        decreases v.len() - i,
    {
        assert(s@.take(i + 1).drop_last() == s@.take(i as int));
        if v[i] == c {
            r.append(by);
        } else {
            r.push(v[i]);
        }
        i += 1;
    }
    assert(s@.take(v@.len() as int) == s@);
    r
}

/// The lines of `s`.
pub fn split_lines<'a>(s: &'a str) -> (r: Vec<&'a str>)
    ensures
        views(r@) == lines(s@),
{
    let v = chars_of(s);
    let n = v.len();
    let mut r: Vec<&'a str> = Vec::new();
    let mut start: usize = 0;
    let mut i: usize = 0;
    assert(v@.skip(0) == v@);
    assert(views(r@) + lines(v@) == lines(v@));
    while i < n
        invariant
            start <= i <= n == v@.len(),
            v@ == s@,
            views(r@) + lines(v@.skip(start as int)) == lines(v@),
            find_char(v@.skip(start as int), '\n') == (i - start) + find_char(
                v@.skip(i as int),
                '\n',
            ),
        decreases n - i,
    {
        assert(v@.skip(i as int).skip(1) == v@.skip(i + 1));
        if v[i] == '\n' {
            let end: usize = if i > start && v[i - 1] == '\r' {
                i - 1
            } else {
                i
            };
            let w = s.substring_char(start, end);
            let ghost before = r@;
            let ghost t = v@.skip(start as int);
            r.push(w);
            proof {
                assert(find_char(t, '\n') == i - start);
                assert(t.take(i - start).len() == i - start);
                assert(i > start ==> t.take(i - start).last() == v@[i - 1]);
                assert(w@ == without_cr(t.take(i - start)));
                assert(t.skip(i - start + 1) == v@.skip(i + 1));
                assert(views(r@) == views(before).push(w@));
                assert(views(before) + (seq![w@] + lines(v@.skip(i + 1))) == views(r@) + lines(
                    v@.skip(i + 1),
                ));
            }
            start = i + 1;
        }
        i += 1;
    }
    assert(v@.skip(n as int).len() == 0);
    if start < n {
        let w = s.substring_char(start, n);
        let ghost before = r@;
        r.push(w);
        proof {
            assert(w@ == v@.skip(start as int));
            assert(views(r@) == views(before).push(w@));
            assert(views(before) + seq![w@] == views(r@));
        }
    } else {
        assert(lines(v@.skip(start as int)) == Seq::<Seq<char>>::empty());
        assert(views(r@) + Seq::<Seq<char>>::empty() == views(r@));
    }
    r
}

/// A copy of a list of strings.
pub fn copy_strings(list: &Vec<String>) -> (r: Vec<String>)
    ensures
        string_views(r@) == string_views(list@),
{
    let mut r: Vec<String> = Vec::new();
    let mut i: usize = 0;
    while i < list.len()
        invariant
            i <= list@.len(),
            r@.len() == i,
            forall|j: int| 0 <= j < i ==> r@[j]@ == list@[j]@,
        decreases list.len() - i,
    {
        r.push(list[i].clone());
        i += 1;
    }
    assert(string_views(r@) == string_views(list@));
    r
}

/// A copy of a string that may be missing.
pub fn copy_string(s: &Option<String>) -> (r: Option<String>)
    ensures
        opt_text(r) == opt_text(*s),
{
    match s {
        Some(t) => Some(t.clone()),
        None => None,
    }
}

/// The white space of Unicode, code point by code point.
pub proof fn law_white_space(c: char)
    ensures
        is_white(c) <==> {
            let n = c as int;
            9 <= n <= 13 || n == 32 || n == 133 || n == 160 || n == 5760 || 8192 <= n <= 8202 || n
                == 8232 || n == 8233 || n == 8239 || n == 8287 || n == 12288
        },
{
}

/// Trimming takes away white space and nothing else, and leaves none at either end.
pub proof fn law_trimming_takes_white_space_only(s: Seq<char>)
    ensures
        exists|before: Seq<char>, after: Seq<char>|
            all_white(before) && all_white(after) && s == #[trigger] (before + trimmed(s) + after),
        trimmed(s).len() > 0 ==> !is_white(trimmed(s)[0]) && !is_white(
            trimmed(s)[trimmed(s).len() - 1],
        ),
{
    let t = trimmed_start(s);
    let before = lemma_start_is_white(s);
    let after = lemma_end_is_white(t);
    let r = trimmed(s);
    lemma_trimmed_start(s);
    if r.len() > 0 {
        assert(t[0] == r[0]) by {
            assert(t == r + after);
        }
    }
    assert(s == before + r + after);
}

/// What trimming takes from the front.
proof fn lemma_start_is_white(s: Seq<char>) -> (before: Seq<char>)
    ensures
        all_white(before),
        s == before + trimmed_start(s),
    decreases s.len(),
{
    if s.len() > 0 && is_white(s[0]) {
        let rest = lemma_start_is_white(s.skip(1));
        let before = seq![s[0]] + rest;
        assert(s == seq![s[0]] + s.skip(1));
        assert(s == before + trimmed_start(s));
        before
    } else {
        let before = Seq::<char>::empty();
        assert(s == before + trimmed_start(s));
        before
    }
}

/// What trimming takes from the end.
proof fn lemma_end_is_white(s: Seq<char>) -> (after: Seq<char>)
    ensures
        all_white(after),
        s == trimmed_end(s) + after,
        trimmed_end(s).len() > 0 ==> !is_white(trimmed_end(s).last()),
    decreases s.len(),
{
    if s.len() > 0 && is_white(s.last()) {
        let rest = lemma_end_is_white(s.drop_last());
        let after = rest.push(s.last());
        assert(s == s.drop_last().push(s.last()));
        assert(s == trimmed_end(s) + after);
        after
    } else {
        let after = Seq::<char>::empty();
        assert(s == trimmed_end(s) + after);
        after
    }
}

/// The words of a text are its runs of other characters than white space: the first one, and
/// then those of what follows it. White space alone has none.
pub proof fn law_words_are_runs(before: Seq<char>, w: Seq<char>, rest: Seq<char>)
    requires
        all_white(before),
        is_word(w),
        rest.len() == 0 || is_white(rest[0]),
    ensures
        words(before) == Seq::<Seq<char>>::empty(),
        words(before + w + rest) == seq![w] + words(rest),
{
    let e = Seq::<char>::empty();
    lemma_trimmed_start_of(before, e);
    assert(before + e == before);
    assert(words(before) == Seq::<Seq<char>>::empty());
    assert(before + w + rest == before + (w + rest));
    lemma_trimmed_start_of(before, w + rest);
    assert(!is_white(w[0]) && (w + rest)[0] == w[0]);
    let t = w + rest;
    assert(trimmed_start(t) == t);
    lemma_word_len_is(w, rest);
    assert(t.take(w.len() as int) == w);
    assert(t.skip(w.len() as int) == rest);
}

proof fn lemma_word_len_is(w: Seq<char>, rest: Seq<char>)
    requires
        forall|i: int| 0 <= i < w.len() ==> !is_white(#[trigger] w[i]),
        rest.len() == 0 || is_white(rest[0]),
    ensures
        word_len(w + rest) == w.len(),
    decreases w.len(),
{
    if w.len() == 0 {
        assert(w + rest == rest);
    } else {
        assert(!is_white(w[0]));
        assert((w + rest)[0] == w[0]);
        assert((w + rest).skip(1) == w.skip(1) + rest);
        assert forall|i: int| 0 <= i < w.skip(1).len() implies !is_white(
            #[trigger] w.skip(1)[i],
        ) by {
            assert(w.skip(1)[i] == w[i + 1]);
        }
        lemma_word_len_is(w.skip(1), rest);
    }
}

/// The pieces of a text hold no separator, and make up the text again with one between each
/// two.
pub proof fn law_pieces_join_back(s: Seq<char>, c: char)
    ensures
        pieces(s, c).len() > 0,
        forall|i: int| 0 <= i < pieces(s, c).len() ==> !has_char(#[trigger] pieces(s, c)[i], c),
        joined(pieces(s, c), seq![c]) == s,
    decreases s.len(),
{
    lemma_find_char(s, c);
    let i = find_char(s, c) as int;
    let ps = pieces(s, c);
    if i >= s.len() {
        assert(ps == seq![s]);
    } else {
        let rest = s.skip(i + 1);
        law_pieces_join_back(rest, c);
        assert(ps == seq![s.take(i)] + pieces(rest, c));
        assert(ps.skip(1) == pieces(rest, c));
        lemma_joined_front(ps, seq![c]);
        assert(s == s.take(i) + seq![c] + rest);
        assert forall|k: int| 0 <= k < ps.len() implies !has_char(#[trigger] ps[k], c) by {
            if k > 0 {
                assert(ps[k] == pieces(rest, c)[k - 1]);
            }
        }
    }
}

/// Two lists joined make up the list of both joined.
pub proof fn law_joining_goes_on(a: Seq<Seq<char>>, b: Seq<Seq<char>>, sep: Seq<char>)
    requires
        a.len() > 0,
        b.len() > 0,
    ensures
        joined(a + b, sep) == joined(a, sep) + sep + joined(b, sep),
        joined(seq![a[0]], sep) == a[0],
        joined(Seq::<Seq<char>>::empty(), sep) == Seq::<char>::empty(),
    decreases b.len(),
{
    let all = a + b;
    assert(all.last() == b.last());
    if b.len() == 1 {
        assert(all.drop_last() == a);
    } else {
        assert(all.drop_last() == a + b.drop_last());
        law_joining_goes_on(a, b.drop_last(), sep);
        assert(joined(a, sep) + sep + joined(b.drop_last(), sep) + sep + b.last() == joined(a, sep)
            + sep + (joined(b.drop_last(), sep) + sep + b.last()));
    }
}

/// A text holds another where it is made up of something, that text, and something; it starts
/// with it where nothing comes first, and ends with it where nothing follows.
pub proof fn law_text_within(a: Seq<char>, p: Seq<char>, b: Seq<char>, s: Seq<char>)
    ensures
        has_text(a + p + b, p),
        starts_with(p + b, p),
        ends_with(a + p, p),
        after_prefix(p + b, p) == Some(b),
        before_suffix(a + p, p) == Some(a),
        has_text(s, p) ==> exists|x: Seq<char>, y: Seq<char>| s == #[trigger] (x + p + y),
        starts_with(s, p) ==> exists|y: Seq<char>| s == #[trigger] (p + y),
        ends_with(s, p) ==> exists|x: Seq<char>| s == #[trigger] (x + p),
{
    let t = a + p + b;
    let k = a.len() as int;
    assert(t.subrange(k, k + p.len()) == p);
    assert((p + b).take(p.len() as int) == p);
    assert((p + b).skip(p.len() as int) == b);
    assert((a + p).skip(k) == p);
    assert((a + p).take(k) == a);
    if has_text(s, p) {
        let i = choose|i: int|
            #![trigger s.subrange(i, i + p.len())]
            0 <= i <= s.len() - p.len() && s.subrange(i, i + p.len()) == p;
        assert(s == s.take(i) + p + s.skip(i + p.len()));
    }
    if starts_with(s, p) {
        assert(s == p + s.skip(p.len() as int));
    }
    if ends_with(s, p) {
        assert(s == s.take(s.len() - p.len()) + p);
    }
}

/// Copies of a text at the end are all taken off, and nothing else is.
pub proof fn law_suffixes_are_taken_off(s: Seq<char>, p: Seq<char>)
    requires
        p.len() > 0,
    ensures
        !ends_with(without_suffixes(s, p), p),
        without_suffixes(s + p, p) == without_suffixes(s, p),
        !ends_with(s, p) ==> without_suffixes(s, p) == s,
    decreases s.len(),
{
    assert((s + p).skip(s.len() as int) == p);
    assert((s + p).take(s.len() as int) == s);
    if ends_with(s, p) {
        law_suffixes_are_taken_off(s.take(s.len() - p.len()), p);
    }
}

/// Every occurrence of a character is replaced, wherever it stands, and nothing else is.
pub proof fn law_replacing(a: Seq<char>, b: Seq<char>, c: char, by: Seq<char>)
    ensures
        replaced(a + seq![c] + b, c, by) == replaced(a, c, by) + by + replaced(b, c, by),
        !has_char(a, c) ==> replaced(a, c, by) == a,
    decreases b.len(), a.len(),
{
    if !has_char(a, c) && a.len() > 0 {
        let front = a.drop_last();
        assert(a[a.len() - 1] != c);
        assert(!has_char(front, c)) by {
            assert forall|i: int| 0 <= i < front.len() implies front[i] != c by {
                assert(a[i] != c);
            }
        }
        law_replacing(front, Seq::empty(), c, by);
        assert(front.push(a.last()) == a);
    } else if a.len() == 0 {
        assert(replaced(a, c, by) == a);
    }
    lemma_replaced_middle(a, b, c, by);
}

proof fn lemma_replaced_middle(a: Seq<char>, b: Seq<char>, c: char, by: Seq<char>)
    ensures
        replaced(a + seq![c] + b, c, by) == replaced(a, c, by) + by + replaced(b, c, by),
    decreases b.len(),
{
    let s = a + seq![c] + b;
    if b.len() == 0 {
        assert(s.drop_last() == a);
        assert(s.last() == c);
        assert(replaced(b, c, by) == Seq::<char>::empty());
        assert(replaced(a, c, by) + by == replaced(a, c, by) + by + replaced(b, c, by));
    } else {
        let front = b.drop_last();
        lemma_replaced_middle(a, front, c, by);
        assert(s.drop_last() == a + seq![c] + front);
        assert(s.last() == b.last());
        let head = replaced(a, c, by) + by;
        if b.last() == c {
            assert(head + replaced(front, c, by) + by == head + (replaced(front, c, by) + by));
        } else {
            assert((head + replaced(front, c, by)).push(b.last()) == head + replaced(
                front,
                c,
                by,
            ).push(b.last()));
        }
    }
}

/// A line ends at its line feed, a carriage return before which is no part of it; what follows
/// the last line feed is a line where it is not empty.
pub proof fn law_lines_end_at_line_feeds(a: Seq<char>, rest: Seq<char>)
    requires
        !has_char(a, '\n'),
    ensures
        lines(Seq::<char>::empty()) == Seq::<Seq<char>>::empty(),
        a.len() > 0 ==> lines(a) == seq![a],
        !(a.len() > 0 && a.last() == '\r') ==> lines(a + seq!['\n'] + rest) == seq![a] + lines(
            rest,
        ),
        lines(a + seq!['\r', '\n'] + rest) == seq![a] + lines(rest),
{
    let e = Seq::<char>::empty();
    lemma_find_char_after(a, '\n', e);
    assert(a + e == a);
    let s = a + seq!['\n'] + rest;
    assert(s == a + (seq!['\n'] + rest));
    lemma_find_char_after(a, '\n', seq!['\n'] + rest);
    assert(s.take(a.len() as int) == a);
    assert(s.skip(a.len() as int + 1) == rest);
    let b = a.push('\r');
    assert(!has_char(b, '\n')) by {
        assert forall|i: int| 0 <= i < b.len() implies b[i] != '\n' by {
            if i < a.len() {
                assert(a[i] != '\n');
            }
        }
    }
    let t = a + seq!['\r', '\n'] + rest;
    assert(t == b + (seq!['\n'] + rest));
    lemma_find_char_after(b, '\n', seq!['\n'] + rest);
    assert(t.take(b.len() as int) == b);
    assert(t.skip(b.len() as int + 1) == rest);
    assert(b.drop_last() == a);
}

/// Lower case changes the letters from A to Z and nothing else of ASCII, and changes nothing
/// of what is in lower case already.
pub proof fn law_lower_case(s: Seq<char>)
    requires
        is_ascii_text(s),
    ensures
        lower_text(s).len() == s.len(),
        forall|i: int|
            0 <= i < s.len() ==> (#[trigger] lower_text(s)[i]) as int == if 65 <= s[i] as int <= 90 {
                s[i] as int + 32
            } else {
                s[i] as int
            },
        lower_text(lower_text(s)) == lower_text(s),
{
    let t = ascii_lowered(s);
    assert forall|i: int| 0 <= i < t.len() implies (#[trigger] t[i]) as u32 <= 127 by {
        assert(s[i] as u32 <= 127);
    }
    assert(ascii_lowered(t) =~= t);
}

} // verus!
