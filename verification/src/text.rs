//! Text as a sequence of characters: classes of characters, the run of one
//! class at the start of a text, words, lines and prefixes.

use vstd::prelude::*;
use vstd::std_specs::iter::IteratorSpec;

verus! {

/// `c` has the Unicode property `White_Space`.
pub open spec fn blank(c: char) -> bool {
    let u = c as u32;
    ||| 0x09 <= u <= 0x0D
    ||| u == 0x20
    ||| u == 0x85
    ||| u == 0xA0
    ||| u == 0x1680
    ||| 0x2000 <= u <= 0x200A
    ||| u == 0x2028
    ||| u == 0x2029
    ||| u == 0x202F
    ||| u == 0x205F
    ||| u == 0x3000
}

/// Whether `c` is white space.
pub fn is_blank(c: char) -> (r: bool)
    ensures
        r == blank(c),
{
    let u: u32 = c as u32;
    (0x09 <= u && u <= 0x0D) || u == 0x20 || u == 0x85 || u == 0xA0 || u == 0x1680 || (0x2000 <= u
        && u <= 0x200A) || u == 0x2028 || u == 0x2029 || u == 0x202F || u == 0x205F || u == 0x3000
}

/// A class of characters by which a text is cut.
#[derive(Clone, Copy, Debug, PartialEq, Eq, Structural)]
pub enum Class {
    /// White space.
    Blank,
    /// Anything but white space.
    Solid,
    /// Anything but a line feed.
    Inline,
}

/// `c` belongs to `class`.
pub open spec fn in_class(class: Class, c: char) -> bool {
    match class {
        Class::Blank => blank(c),
        Class::Solid => !blank(c),
        Class::Inline => c != '\n',
    }
}

/// Whether `c` belongs to `class`.
pub fn belongs(class: Class, c: char) -> (r: bool)
    ensures
        r == in_class(class, c),
{
    match class {
        Class::Blank => is_blank(c),
        Class::Solid => !is_blank(c),
        Class::Inline => c != '\n',
    }
}

/// How many characters at the start of `s` belong to `class` without a break.
pub open spec fn span(s: Seq<char>, class: Class) -> nat
    decreases s.len(),
{
    if s.len() > 0 && in_class(class, s[0]) {
        1 + span(s.drop_first(), class)
    } else {
        0
    }
}

/// The span is the one length up to which every character belongs to the
/// class and at which the next one, if there is one, does not.
pub proof fn lemma_span_is(s: Seq<char>, class: Class, n: int)
    requires
        0 <= n <= s.len(),
        forall|k: int| 0 <= k < n ==> in_class(class, #[trigger] s[k]),
        n < s.len() ==> !in_class(class, s[n]),
    ensures
        span(s, class) == n,
    decreases n,
{
    if n > 0 {
        let t = s.drop_first();
        assert forall|k: int| 0 <= k < n - 1 implies in_class(class, #[trigger] t[k]) by {
            assert(t[k] == s[k + 1]);
        }
        lemma_span_is(t, class, n - 1);
    }
}

/// The span lies within the text, covers only characters of the class and
/// ends at the first character outside it.
pub proof fn lemma_span_bounds(s: Seq<char>, class: Class)
    ensures
        span(s, class) <= s.len(),
        forall|k: int| 0 <= k < span(s, class) ==> in_class(class, #[trigger] s[k]),
        span(s, class) < s.len() ==> !in_class(class, s[span(s, class) as int]),
    decreases s.len(),
{
    if s.len() > 0 && in_class(class, s[0]) {
        let t = s.drop_first();
        lemma_span_bounds(t, class);
        assert forall|k: int| 0 <= k < span(s, class) implies in_class(class, #[trigger] s[k]) by {
            if k > 0 {
                assert(s[k] == t[k - 1]);
            }
        }
    }
}

/// The words of `s`: its longest runs of characters that are not white
/// space, in order.
pub open spec fn words(s: Seq<char>) -> Seq<Seq<char>>
    decreases s.len(),
    via words_decreases
{
    let t = s.skip(span(s, Class::Blank) as int);
    let n = span(t, Class::Solid);
    if n == 0 {
        Seq::empty()
    } else {
        seq![t.take(n as int)] + words(t.skip(n as int))
    }
}

#[via_fn]
proof fn words_decreases(s: Seq<char>) {
    lemma_span_bounds(s, Class::Blank);
    lemma_span_bounds(s.skip(span(s, Class::Blank) as int), Class::Solid);
}

/// The words in order, with one space between neighbours.
pub open spec fn join(ws: Seq<Seq<char>>) -> Seq<char>
    decreases ws.len(),
{
    if ws.len() == 0 {
        Seq::empty()
    } else if ws.len() == 1 {
        ws[0]
    } else {
        join(ws.drop_last()) + seq![' '] + ws.last()
    }
}

/// The lines of `text`: what stands between its line feeds. A line feed ends
/// a line, so a text that ends in one has no empty line after it.
pub open spec fn lines(text: Seq<char>) -> Seq<Seq<char>>
    decreases text.len(),
    via lines_decreases
{
    let n = span(text, Class::Inline);
    if text.len() == 0 {
        Seq::empty()
    } else if n >= text.len() {
        seq![text]
    } else {
        seq![text.take(n as int)] + lines(text.skip(n as int + 1))
    }
}

#[via_fn]
proof fn lines_decreases(text: Seq<char>) {
    lemma_span_bounds(text, Class::Inline);
}

/// `s` without its line feeds.
pub open spec fn without_line_feeds(s: Seq<char>) -> Seq<char> {
    s.filter(|c: char| c != '\n')
}

/// The characters of `s`, in order.
pub fn chars_of(s: &str) -> (v: Vec<char>)
    ensures
        v@ == s@,
{
    let mut v: Vec<char> = Vec::new();
    for c in it: s.chars()
        invariant
            v@ == s@.take(it.index() as int),
            it.seq() == s@,
    {
        v.push(c);
    }
    v
}

/// The characters of `s` that are not line feeds, in order.
pub fn chars_without_line_feeds(s: &str) -> (v: Vec<char>)
    ensures
        v@ == without_line_feeds(s@),
{
    let mut v: Vec<char> = Vec::new();
    proof {
        reveal(Seq::filter);
    }
    for c in it: s.chars()
        invariant
            v@ == without_line_feeds(s@.take(it.index() as int)),
            it.seq() == s@,
    {
        proof {
            reveal(Seq::filter);
            let k = it.index() as int;
            assert(s@.take(k + 1).drop_last() =~= s@.take(k));
        }
        if c != '\n' {
            v.push(c);
        }
    }
    assert(s@.take(s@.len() as int) =~= s@);
    v
}

/// The index at which the run of `class` that starts at `from` ends.
pub fn span_end(chars: &Vec<char>, from: usize, class: Class) -> (to: usize)
    requires
        from <= chars.len(),
    ensures
        from <= to <= chars.len(),
        to - from == span(chars@.skip(from as int), class),
{
    let mut to: usize = from;
    while to < chars.len() && belongs(class, chars[to])
        invariant
            from <= to <= chars.len(),
            forall|k: int| from <= k < to ==> in_class(class, #[trigger] chars@[k]),
        decreases chars.len() - to,
    {
        to = to + 1;
    }
    proof {
        let s = chars@.skip(from as int);
        assert forall|k: int| 0 <= k < to - from implies in_class(class, #[trigger] s[k]) by {
            assert(s[k] == chars@[from + k]);
        }
        lemma_span_is(s, class, to - from);
    }
    to
}

/// Whether `text` begins with `prefix`.
pub fn starts_with(text: &Vec<char>, prefix: &Vec<char>) -> (r: bool)
    ensures
        r == prefix@.is_prefix_of(text@),
{
    if prefix.len() > text.len() {
        return false;
    }
    let mut i: usize = 0;
    while i < prefix.len()
        invariant
            i <= prefix.len() <= text.len(),
            forall|k: int| 0 <= k < i ==> text@[k] == prefix@[k],
        decreases prefix.len() - i,
    {
        if text[i] != prefix[i] {
            assert(text@.subrange(0, prefix@.len() as int)[i as int] != prefix@[i as int]);
            return false;
        }
        i = i + 1;
    }
    assert(prefix@ =~= text@.subrange(0, prefix@.len() as int));
    true
}

/// Whether the two texts are the same.
pub fn same_text(a: &Vec<char>, b: &Vec<char>) -> (r: bool)
    ensures
        r == (a@ == b@),
{
    if a.len() != b.len() {
        return false;
    }
    let r = starts_with(a, b);
    proof {
        if r {
            assert(a@ =~= a@.subrange(0, b@.len() as int));
        } else if a@ == b@ {
            assert(b@ =~= a@.subrange(0, b@.len() as int));
        }
    }
    r
}

} // verus!
