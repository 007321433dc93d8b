//! The manifest: a text with one item per line, each line a source reference
//! that carries the item's identifier after `?id=`, followed by the words of
//! the item's display name.

use crate::decimal::{
    append_digits, decimal, digits_of, lemma_decimal_round_trip, lemma_decimal_shape,
    parse_i64_in, parsed_i64,
};
use crate::text::{
    blank, chars_of, in_class, join, lemma_span_bounds, lemma_span_is, lines, span, span_end,
    words, Class,
};
use vstd::prelude::*;

verus! {

/// One downloadable package.
#[derive(Clone, Debug, PartialEq, Eq)]
pub struct Item {
    /// The number under which the download client knows the package.
    pub identifier: i64,
    /// The name shown to the user.
    pub display_name: String,
    /// The reference the identifier was taken from.
    pub source_reference: String,
}

/// An item as a mathematical value.
pub struct ItemView {
    pub identifier: i64,
    pub display_name: Seq<char>,
    pub source_reference: Seq<char>,
}

impl View for Item {
    type V = ItemView;

    open spec fn view(&self) -> ItemView {
        ItemView {
            identifier: self.identifier,
            display_name: self.display_name@,
            source_reference: self.source_reference@,
        }
    }
}

/// The items of a list as mathematical values.
pub open spec fn item_views(items: Seq<Item>) -> Seq<ItemView> {
    Seq::new(items.len(), |i: int| items[i]@)
}

/// What is wrong with a manifest line.
#[derive(Clone, Copy, Debug, PartialEq, Eq, Structural)]
pub enum LineFault {
    /// The line has fewer than two words: no reference, or no name after it.
    MissingName,
    /// The reference does not contain `?id=`.
    MissingMarker,
    /// What follows `?id=` is not a 64-bit signed integer.
    BadIdentifier,
}

/// The first line of a manifest that is not an item, and why.
#[derive(Clone, Copy, Debug, PartialEq, Eq, Structural)]
pub struct ManifestFormatError {
    /// The line's number, counted from one.
    pub line: usize,
    /// What is wrong with it.
    pub fault: LineFault,
}

/// What the user is told about a faulty line.
pub open spec fn fault_text(fault: LineFault) -> Seq<char> {
    match fault {
        LineFault::MissingName => "a reference and a name are expected"@,
        LineFault::MissingMarker => "the reference holds no ?id="@,
        LineFault::BadIdentifier => "what follows ?id= is not a 64-bit integer"@,
    }
}

/// What the user is told about a faulty manifest.
pub open spec fn manifest_error_text(e: ManifestFormatError) -> Seq<char> {
    "manifest line "@ + digits_of(e.line as nat) + ": "@ + fault_text(e.fault)
}

impl LineFault {
    /// What the user is told.
    pub fn message(&self) -> (r: &'static str)
        ensures
            r@ == fault_text(*self),
    {
        match self {
            LineFault::MissingName => "a reference and a name are expected",
            LineFault::MissingMarker => "the reference holds no ?id=",
            LineFault::BadIdentifier => "what follows ?id= is not a 64-bit integer",
        }
    }
}

impl ManifestFormatError {
    /// What the user is told.
    pub fn message(&self) -> (r: String)
        ensures
            r@ == manifest_error_text(*self),
    {
        let mut out = "manifest line ".to_owned();
        append_digits(&mut out, self.line as u64);
        out.append(": ");
        out.append(self.fault.message());
        out
    }
}

/// The text that introduces the identifier within a reference.
pub open spec fn marker() -> Seq<char> {
    seq!['?', 'i', 'd', '=']
}

/// `pattern` stands in `s` at index `i`.
pub open spec fn occurs_at(s: Seq<char>, pattern: Seq<char>, i: int) -> bool {
    0 <= i && i + pattern.len() <= s.len() && s.subrange(i, i + pattern.len()) == pattern
}

/// `pattern` stands somewhere in `s`.
pub open spec fn occurs(s: Seq<char>, pattern: Seq<char>) -> bool {
    exists|i: int| occurs_at(s, pattern, i)
}

/// `pattern` stands in `s` at `i` and nowhere before.
pub open spec fn occurs_first_at(s: Seq<char>, pattern: Seq<char>, i: int) -> bool {
    occurs_at(s, pattern, i) && forall|j: int| 0 <= j < i ==> !occurs_at(s, pattern, j)
}

/// The least index at which `pattern` stands in `s`, where it occurs at all.
pub open spec fn first_occurrence(s: Seq<char>, pattern: Seq<char>) -> int {
    choose|i: int| occurs_first_at(s, pattern, i)
}

/// The part of a reference that names the identifier: what follows the first
/// marker, up to the next marker or, without one, to the end. `None` where
/// the reference holds no marker.
pub open spec fn identifier_text(reference: Seq<char>) -> Option<Seq<char>> {
    if !occurs(reference, marker()) {
        None
    } else {
        let rest = reference.skip(first_occurrence(reference, marker()) + marker().len());
        if occurs(rest, marker()) {
            Some(rest.take(first_occurrence(rest, marker())))
        } else {
            Some(rest)
        }
    }
}

/// The item that a manifest line describes, or what is wrong with the line.
/// The first word is the reference; the words after it, joined by single
/// spaces, are the name.
pub open spec fn line_item(line: Seq<char>) -> Result<ItemView, LineFault> {
    let ws = words(line);
    if ws.len() < 2 {
        Err(LineFault::MissingName)
    } else {
        match identifier_text(ws[0]) {
            None => Err(LineFault::MissingMarker),
            Some(t) => match parsed_i64(t) {
                None => Err(LineFault::BadIdentifier),
                Some(identifier) => Ok(
                    ItemView { identifier, display_name: join(ws.skip(1)), source_reference: ws[0] },
                ),
            },
        }
    }
}

/// The manifest line that describes an item: its reference, a space, its name.
pub open spec fn item_line(item: ItemView) -> Seq<char> {
    item.source_reference + seq![' '] + item.display_name
}

/// A pattern that occurs has exactly one first occurrence.
pub proof fn lemma_first_occurrence(s: Seq<char>, pattern: Seq<char>, i: int)
    requires
        occurs_first_at(s, pattern, i),
    ensures
        occurs(s, pattern),
        first_occurrence(s, pattern) == i,
{
    let c = first_occurrence(s, pattern);
    assert(occurs_first_at(s, pattern, c));
    if c < i {
        assert(!occurs_at(s, pattern, c));
    } else if i < c {
        assert(!occurs_at(s, pattern, i));
    }
}

/// The first index from `from` on at which `pattern` stands in `chars`
/// before `to`, if there is one.
fn find(chars: &Vec<char>, from: usize, to: usize, pattern: &Vec<char>) -> (r: Option<usize>)
    requires
        from <= to <= chars.len(),
    ensures
        r is Some <==> occurs(chars@.subrange(from as int, to as int), pattern@),
        r matches Some(p) ==> from <= p && p + pattern.len() <= to && first_occurrence(
            chars@.subrange(from as int, to as int),
            pattern@,
        ) == p - from,
{
    let ghost s = chars@.subrange(from as int, to as int);
    if pattern.len() > to - from {
        assert forall|i: int| !occurs_at(s, pattern@, i) by {}
        return None;
    }
    let last: usize = to - pattern.len();
    let mut p: usize = from;
    while p <= last
        invariant
            from <= p <= last + 1,
            last + pattern.len() == to,
            to <= chars.len(),
            s == chars@.subrange(from as int, to as int),
            forall|j: int| 0 <= j < p - from ==> !occurs_at(s, pattern@, j),
        decreases last + 1 - p,
    {
        let mut k: usize = 0;
        while k < pattern.len() && chars[p + k] == pattern[k]
            invariant
                k <= pattern.len(),
                p + pattern.len() <= to <= chars.len(),
                forall|j: int| 0 <= j < k ==> chars@[p + j] == pattern@[j],
            decreases pattern.len() - k,
        {
            k = k + 1;
        }
        if k == pattern.len() {
            proof {
                assert(s.subrange(p - from, p - from + pattern@.len()) =~= pattern@);
                lemma_first_occurrence(s, pattern@, p - from);
            }
            return Some(p);
        }
        proof {
            let here = s.subrange(p - from, p - from + pattern@.len());
            assert(here[k as int] == chars@[p + k]);
            assert(here != pattern@);
        }
        p = p + 1;
    }
    assert forall|i: int| !occurs_at(s, pattern@, i) by {}
    None
}

/// From an index on, the words of a text are the next word and the words
/// after it.
proof fn lemma_words_from(s: Seq<char>, i: int)
    requires
        0 <= i <= s.len(),
    ensures
        ({
            let c = i + span(s.skip(i), Class::Blank);
            let d = c + span(s.skip(c), Class::Solid);
            &&& i <= c <= d <= s.len()
            &&& words(s.skip(i)) == if c == d {
                Seq::<Seq<char>>::empty()
            } else {
                seq![s.subrange(c, d)] + words(s.skip(d))
            }
        }),
{
    let u = s.skip(i);
    lemma_span_bounds(u, Class::Blank);
    let c = i + span(u, Class::Blank);
    assert(u.skip(c - i) =~= s.skip(c));
    lemma_span_bounds(s.skip(c), Class::Solid);
    let d = c + span(s.skip(c), Class::Solid);
    assert(s.skip(c).take(d - c) =~= s.subrange(c, d));
    assert(s.skip(c).skip(d - c) =~= s.skip(d));
}

/// The name grows by a space and a word with every word after the first.
proof fn lemma_join_push(ws: Seq<Seq<char>>, w: Seq<char>)
    ensures
        join(ws.push(w)) == if ws.len() == 0 {
            w
        } else {
            join(ws) + seq![' '] + w
        },
{
    assert(ws.push(w).drop_last() =~= ws);
}

/// Reads one manifest line.
pub fn parse_line(line: &str) -> (r: Result<Item, LineFault>)
    ensures
        r matches Ok(item) ==> line_item(line@) == Ok::<ItemView, LineFault>(item@),
        r matches Err(fault) ==> line_item(line@) == Err::<ItemView, LineFault>(fault),
{
    let chars = chars_of(line);
    let ghost s = line@;
    let a = span_end(&chars, 0, Class::Blank);
    let b = span_end(&chars, a, Class::Solid);
    proof {
        assert(s.skip(0) =~= s);
        lemma_words_from(s, 0);
    }
    if a == b {
        return Err(LineFault::MissingName);
    }
    let ghost reference = s.subrange(a as int, b as int);
    let mut name = String::new();
    let mut named = false;
    let mut i: usize = b;
    let ghost mut found: Seq<Seq<char>> = seq![reference];
    loop
        invariant_except_break
            words(s) == found + words(s.skip(i as int)),
        invariant
            a < b <= i <= chars.len(),
            chars@ == s,
            s == line@,
            found.len() >= 1,
            found[0] == reference,
            named == (found.len() > 1),
            name@ == join(found.skip(1)),
        ensures
            words(s) == found,
        decreases chars.len() - i,
    {
        let c = span_end(&chars, i, Class::Blank);
        let d = span_end(&chars, c, Class::Solid);
        proof {
            lemma_words_from(s, i as int);
        }
        if c == d {
            break;
        }
        let ghost w = s.subrange(c as int, d as int);
        if named {
            proof {
                reveal_strlit(" ");
            }
            name.append(" ");
            assert(name@ =~= join(found.skip(1)) + seq![' ']);
        }
        name.append(line.substring_char(c, d));
        proof {
            lemma_join_push(found.skip(1), w);
            assert(found.push(w).skip(1) =~= found.skip(1).push(w));
            assert(found + (seq![w] + words(s.skip(d as int))) =~= found.push(w) + words(
                s.skip(d as int),
            ));
            assert(name@ =~= join(found.push(w).skip(1)));
            found = found.push(w);
        }
        named = true;
        i = d;
    }
    if !named {
        return Err(LineFault::MissingName);
    }
    let pattern: Vec<char> = vec!['?', 'i', 'd', '='];
    assert(pattern@ =~= marker());
    assert(reference == chars@.subrange(a as int, b as int));
    let first = match find(&chars, a, b, &pattern) {
        None => {
            return Err(LineFault::MissingMarker);
        },
        Some(p) => p,
    };
    let start: usize = first + 4;
    let ghost rest = reference.skip(first - a + 4);
    assert(rest =~= chars@.subrange(start as int, b as int));
    let end: usize = match find(&chars, start, b, &pattern) {
        None => b,
        Some(q) => q,
    };
    assert(chars@.subrange(start as int, end as int) =~= if occurs(rest, marker()) {
        rest.take(first_occurrence(rest, marker()))
    } else {
        rest
    });
    match parse_i64_in(&chars, start, end) {
        None => Err(LineFault::BadIdentifier),
        Some(identifier) => {
            let source_reference = line.substring_char(a, b).to_owned();
            Ok(Item { identifier, display_name: name, source_reference })
        },
    }
}

/// Writes the manifest line of an item: its reference, a space, its name.
pub fn format_line(item: &Item) -> (r: String)
    ensures
        r@ == item_line(item@),
{
    proof {
        reveal_strlit(" ");
    }
    let mut out = item.source_reference.clone();
    out.append(" ");
    out.append(item.display_name.as_str());
    assert(out@ =~= item_line(item@));
    out
}

/// From an index on, the lines of a text are the next line and the lines
/// after its line feed.
proof fn lemma_lines_from(text: Seq<char>, i: int)
    requires
        0 <= i <= text.len(),
    ensures
        ({
            let end = i + span(text.skip(i), Class::Inline);
            &&& i <= end <= text.len()
            &&& lines(text.skip(i)) == if i == text.len() {
                Seq::<Seq<char>>::empty()
            } else if end == text.len() {
                seq![text.subrange(i, end)]
            } else {
                seq![text.subrange(i, end)] + lines(text.skip(end + 1))
            }
        }),
{
    let u = text.skip(i);
    lemma_span_bounds(u, Class::Inline);
    let end = i + span(u, Class::Inline);
    assert(u.take(end - i) =~= text.subrange(i, end));
    if end == text.len() {
        assert(u =~= text.subrange(i, end));
    } else {
        assert(u.skip(end - i + 1) =~= text.skip(end + 1));
    }
}

/// Reads a manifest: one item from every line, in the order of the lines.
/// The first line that is not an item ends the reading and is reported.
pub fn load_mods(text: &str) -> (r: Result<Vec<Item>, ManifestFormatError>)
    ensures
        r matches Ok(items) ==> {
            &&& items@.len() == lines(text@).len()
            &&& forall|i: int|
                0 <= i < items@.len() ==> line_item(#[trigger] lines(text@)[i]) == Ok::<
                    ItemView,
                    LineFault,
                >(items@[i]@)
        },
        r matches Err(e) ==> {
            &&& 1 <= e.line <= lines(text@).len()
            &&& line_item(lines(text@)[e.line - 1]) == Err::<ItemView, LineFault>(e.fault)
            &&& forall|j: int| 0 <= j < e.line - 1 ==> line_item(#[trigger] lines(text@)[j]) is Ok
        },
{
    let chars = chars_of(text);
    let ghost s = text@;
    let mut items: Vec<Item> = Vec::new();
    let mut start: usize = 0;
    let ghost mut done: Seq<Seq<char>> = Seq::empty();
    assert(s.skip(0) =~= s);
    while start < chars.len()
        invariant
            chars@ == s,
            s == text@,
            start <= chars.len(),
            items@.len() == done.len(),
            done.len() <= start,
            lines(s) == done + lines(s.skip(start as int)),
            forall|i: int|
                0 <= i < done.len() ==> line_item(#[trigger] done[i]) == Ok::<ItemView, LineFault>(
                    items@[i]@,
                ),
        decreases chars.len() - start,
    {
        let end = span_end(&chars, start, Class::Inline);
        let ghost line = s.subrange(start as int, end as int);
        proof {
            lemma_lines_from(s, start as int);
            assert(lines(s)[done.len() as int] == line);
            assert forall|j: int| 0 <= j < done.len() implies #[trigger] lines(s)[j] == done[j] by {}
        }
        match parse_line(text.substring_char(start, end)) {
            Err(fault) => {
                return Err(ManifestFormatError { line: items.len() + 1, fault });
            },
            Ok(item) => {
                items.push(item);
            },
        }
        let next: usize = if end < chars.len() {
            end + 1
        } else {
            end
        };
        proof {
            if end == chars.len() {
                lemma_lines_from(s, next as int);
                assert(done + seq![line] =~= done.push(line) + lines(s.skip(next as int)));
            } else {
                assert(done + (seq![line] + lines(s.skip(next as int))) =~= done.push(line)
                    + lines(s.skip(next as int)));
            }
            done = done.push(line);
        }
        start = next;
    }
    proof {
        lemma_lines_from(s, start as int);
        assert(lines(s) =~= done);
    }
    Ok(items)
}

/// `w` holds at least one character and no white space.
pub open spec fn is_word(w: Seq<char>) -> bool {
    w.len() > 0 && forall|i: int| 0 <= i < w.len() ==> !blank(#[trigger] w[i])
}

/// Every word of a text holds at least one character and no white space.
pub proof fn lemma_words_are_words(s: Seq<char>)
    ensures
        forall|k: int| 0 <= k < words(s).len() ==> is_word(#[trigger] words(s)[k]),
    decreases s.len(),
{
    lemma_span_bounds(s, Class::Blank);
    let t = s.skip(span(s, Class::Blank) as int);
    lemma_span_bounds(t, Class::Solid);
    let n = span(t, Class::Solid);
    if n > 0 {
        lemma_words_are_words(t.skip(n as int));
        let first = t.take(n as int);
        assert forall|i: int| 0 <= i < first.len() implies !blank(#[trigger] first[i]) by {
            assert(in_class(Class::Solid, t[i]));
        }
        assert(is_word(first));
        assert forall|k: int| 0 <= k < words(s).len() implies is_word(#[trigger] words(s)[k]) by {
            if k > 0 {
                assert(words(s)[k] == words(t.skip(n as int))[k - 1]);
            }
        }
    }
}

/// Words joined by spaces are the first word, a space, and the others joined.
pub proof fn lemma_join_front(ws: Seq<Seq<char>>)
    requires
        ws.len() >= 2,
    ensures
        join(ws) == ws[0] + seq![' '] + join(ws.drop_first()),
    decreases ws.len(),
{
    if ws.len() == 2 {
        assert(ws.drop_last().len() == 1);
        assert(ws.drop_first().len() == 1);
        assert(join(ws.drop_last()) == ws[0]);
        assert(join(ws.drop_first()) == ws[1]);
    } else {
        lemma_join_front(ws.drop_last());
        assert(ws.drop_last().drop_first() =~= ws.drop_first().drop_last());
        assert(join(ws) =~= ws[0] + seq![' '] + join(ws.drop_first()));
    }
}

/// White space at the start of a text does not change its words.
proof fn lemma_words_after_blank(s: Seq<char>)
    requires
        s.len() > 0,
        blank(s[0]),
    ensures
        words(s) == words(s.drop_first()),
{
    let u = s.drop_first();
    lemma_span_bounds(u, Class::Blank);
    assert(s.skip(span(s, Class::Blank) as int) =~= u.skip(span(u, Class::Blank) as int));
}

/// Cutting joined words apart gives the words back.
pub proof fn lemma_words_of_join(ws: Seq<Seq<char>>)
    requires
        forall|k: int| 0 <= k < ws.len() ==> is_word(#[trigger] ws[k]),
    ensures
        words(join(ws)) == ws,
    decreases ws.len(),
{
    let joined = join(ws);
    if ws.len() == 0 {
        assert(joined.skip(0) =~= joined);
        assert(words(joined) =~= ws);
    } else {
        let first = ws[0];
        let others = ws.drop_first();
        assert(is_word(first));
        assert forall|k: int| 0 <= k < others.len() implies is_word(#[trigger] others[k]) by {
            assert(others[k] == ws[k + 1]);
        }
        lemma_words_of_join(others);
        if ws.len() >= 2 {
            lemma_join_front(ws);
        }
        let tail = if ws.len() == 1 {
            Seq::<char>::empty()
        } else {
            seq![' '] + join(others)
        };
        assert(joined =~= first + tail);
        assert(!blank(first[0]));
        lemma_span_is(joined, Class::Blank, 0);
        assert(joined.skip(0) =~= joined);
        assert forall|k: int| 0 <= k < first.len() implies in_class(
            Class::Solid,
            #[trigger] joined[k],
        ) by {
            assert(joined[k] == first[k]);
        }
        if first.len() < joined.len() {
            assert(joined[first.len() as int] == ' ');
        }
        lemma_span_is(joined, Class::Solid, first.len() as int);
        assert(joined.take(first.len() as int) =~= first);
        assert(joined.skip(first.len() as int) =~= tail);
        if ws.len() == 1 {
            assert(tail.skip(0) =~= tail);
            assert(words(tail) =~= others);
        } else {
            lemma_words_after_blank(tail);
            assert(tail.drop_first() =~= join(others));
        }
        assert(words(joined) =~= ws);
    }
}

/// A reference that is written as a text without marker, the marker and the
/// decimal notation of an identifier names that identifier.
pub proof fn lemma_reference_names_identifier(head: Seq<char>, identifier: i64)
    requires
        !occurs(head, marker()),
    ensures
        identifier_text(head + marker() + decimal(identifier as int)) == Some(
            decimal(identifier as int),
        ),
        parsed_i64(decimal(identifier as int)) == Some(identifier),
{
    let number = decimal(identifier as int);
    let s = head + marker() + number;
    let at = head.len() as int;
    lemma_decimal_shape(identifier as int);
    lemma_decimal_round_trip(identifier as int);
    assert(s.subrange(at, at + marker().len()) =~= marker());
    assert forall|j: int| 0 <= j < at implies !occurs_at(s, marker(), j) by {
        if j + marker().len() <= head.len() {
            assert(!occurs_at(head, marker(), j));
            assert(s.subrange(j, j + marker().len()) =~= head.subrange(j, j + marker().len()));
        } else if j + marker().len() <= s.len() {
            let window = s.subrange(j, j + marker().len());
            assert(window[at - j] == '?');
            assert(marker()[at - j] != '?');
        }
    }
    lemma_first_occurrence(s, marker(), at);
    let rest = s.skip(at + marker().len());
    assert(rest =~= number);
    assert forall|j: int| !occurs_at(number, marker(), j) by {
        if 0 <= j && j + marker().len() <= number.len() {
            let window = number.subrange(j, j + marker().len());
            assert(window[0] == number[j]);
            assert(marker()[0] == '?');
        }
    }
}

/// A line that describes an item can be written anew from the item: the
/// reference, a space and the name give the same item, and so the same
/// identifier, when read again.
pub proof fn lemma_line_round_trip(line: Seq<char>)
    requires
        line_item(line) is Ok,
    ensures
        line_item(item_line(line_item(line)->Ok_0)) == line_item(line),
{
    let ws = words(line);
    let item = line_item(line)->Ok_0;
    lemma_words_are_words(line);
    lemma_join_front(ws);
    assert(ws.drop_first() =~= ws.skip(1));
    assert(item_line(item) == join(ws));
    lemma_words_of_join(ws);
}

} // verus!
