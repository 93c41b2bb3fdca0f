//! Text, read as a sequence of characters: splitting, trimming and case
//! folding, each with the function it computes.

use vstd::prelude::*;

verus! {

// ---------------------------------------------------------------------------
// Characters
// ---------------------------------------------------------------------------

/// The Unicode `White_Space` property.
pub open spec fn is_space(c: char) -> bool {
    ||| '\u{9}' <= c <= '\u{d}'
    ||| c == ' '
    ||| c == '\u{85}'
    ||| c == '\u{a0}'
    ||| c == '\u{1680}'
    ||| '\u{2000}' <= c <= '\u{200a}'
    ||| c == '\u{2028}'
    ||| c == '\u{2029}'
    ||| c == '\u{202f}'
    ||| c == '\u{205f}'
    ||| c == '\u{3000}'
}

/// The ASCII lower-case form of a character; every other character is its own.
pub open spec fn lower_char(c: char) -> char {
    if 'A' <= c <= 'Z' {
        ((c as u32 + 32) as u32) as char
    } else {
        c
    }
}

/// The ASCII lower-case form of a text.
pub open spec fn lower(s: Seq<char>) -> Seq<char> {
    Seq::new(s.len(), |i: int| lower_char(s[i]))
}

/// The texts of a list of strings.
pub open spec fn views(v: Seq<String>) -> Seq<Seq<char>> {
    Seq::new(v.len(), |i: int| v[i]@)
}

/// The texts of a list of string slices.
pub open spec fn str_views(v: Seq<&str>) -> Seq<Seq<char>> {
    Seq::new(v.len(), |i: int| v[i]@)
}

/// Whether a character is white space.
pub fn char_is_space(c: char) -> (r: bool)
    ensures
        r == is_space(c),
{
    ('\u{9}' <= c && c <= '\u{d}') || c == ' ' || c == '\u{85}' || c == '\u{a0}' || c
        == '\u{1680}' || ('\u{2000}' <= c && c <= '\u{200a}') || c == '\u{2028}' || c == '\u{2029}'
        || c == '\u{202f}' || c == '\u{205f}' || c == '\u{3000}'
}

/// The lower-case form of an ASCII character.
pub fn char_to_lower(c: char) -> (r: char)
    ensures
        r == lower_char(c),
{
    if 'A' <= c && c <= 'Z' {
        ((c as u8) + 32) as char
    } else {
        c
    }
}

// ---------------------------------------------------------------------------
// Between strings and characters
// ---------------------------------------------------------------------------

/// `String::push` puts one character at the end.
pub assume_specification[ std::string::String::push ](s: &mut String, c: char)
    ensures
        final(s)@ == old(s)@.push(c),
;

/// The characters of a string.
pub fn chars_of(s: &str) -> (r: Vec<char>)
    ensures
        r@ == s@,
{
    let mut out: Vec<char> = Vec::new();
    for c in it: s.chars()
        invariant
            it.seq() == s@,
            out@ == s@.take(it.index() as int),
    {
        out.push(c);
    }
    assert(s@.take(s@.len() as int) == s@);
    out
}

/// The string of a run of characters.
pub fn string_of(chars: &[char]) -> (r: String)
    ensures
        r@ == chars@,
{
    let mut out = String::new();
    let mut i: usize = 0;
    while i < chars.len()
        invariant
            i <= chars@.len(),
            out@ == chars@.take(i as int),
        decreases chars.len() - i,
    {
        out.push(chars[i]);
        i = i + 1;
    }
    assert(chars@.take(chars@.len() as int) == chars@);
    out
}

/// Whether two runs of characters are the same.
pub fn chars_eq(a: &[char], b: &[char]) -> (r: bool)
    ensures
        r == (a@ == b@),
{
    if a.len() != b.len() {
        return false;
    }
    let mut i: usize = 0;
    while i < a.len()
        invariant
            a@.len() == b@.len(),
            i <= a@.len(),
            forall|j: int| 0 <= j < i ==> a@[j] == b@[j],
        decreases a.len() - i,
    {
        if a[i] != b[i] {
            return false;
        }
        i = i + 1;
    }
    assert(a@ =~= b@);
    true
}

/// Whether two strings hold the same text.
pub fn str_eq(a: &str, b: &str) -> (r: bool)
    ensures
        r == (a@ == b@),
{
    chars_eq(&chars_of(a), &chars_of(b))
}

// ---------------------------------------------------------------------------
// Splitting and joining
// ---------------------------------------------------------------------------

/// The pieces of `s` between the occurrences of `sep`; a text without `sep`
/// is its own only piece.
pub open spec fn split(s: Seq<char>, sep: char) -> Seq<Seq<char>>
    decreases s.len(),
{
    if s.len() == 0 {
        seq![Seq::<char>::empty()]
    } else {
        let before = split(s.drop_last(), sep);
        if s.last() == sep {
            before.push(Seq::<char>::empty())
        } else {
            before.drop_last().push(before.last().push(s.last()))
        }
    }
}

/// The pieces that are not empty, in order.
pub open spec fn non_empty(parts: Seq<Seq<char>>) -> Seq<Seq<char>>
    decreases parts.len(),
{
    if parts.len() == 0 {
        Seq::empty()
    } else if parts.last().len() == 0 {
        non_empty(parts.drop_last())
    } else {
        non_empty(parts.drop_last()).push(parts.last())
    }
}

/// The parts in order, with `sep` between two of them.
pub open spec fn join(parts: Seq<Seq<char>>, sep: Seq<char>) -> Seq<char>
    decreases parts.len(),
{
    if parts.len() == 0 {
        Seq::empty()
    } else if parts.len() == 1 {
        parts[0]
    } else {
        join(parts.drop_last(), sep) + sep + parts.last()
    }
}

pub proof fn lemma_split_non_empty(s: Seq<char>, sep: char)
    ensures
        split(s, sep).len() >= 1,
    decreases s.len(),
{
    if s.len() > 0 {
        lemma_split_non_empty(s.drop_last(), sep);
    }
}

/// No piece of a split holds the separator.
pub proof fn lemma_split_pieces(s: Seq<char>, sep: char)
    ensures
        split(s, sep).len() >= 1,
        forall|i: int|
            0 <= i < split(s, sep).len() ==> !(#[trigger] split(s, sep)[i]).contains(sep),
    decreases s.len(),
{
    if s.len() > 0 {
        let t = s.drop_last();
        lemma_split_pieces(t, sep);
        let before = split(t, sep);
        let after = split(s, sep);
        assert forall|i: int| 0 <= i < after.len() implies !(#[trigger] after[i]).contains(
            sep,
        ) by {
            if s.last() == sep {
                if i < before.len() {
                    assert(after[i] == before[i]);
                }
            } else if i < before.len() - 1 {
                assert(after[i] == before[i]);
            } else {
                let piece = before.last().push(s.last());
                assert(after[i] == piece);
                if piece.contains(sep) {
                    let k = choose|k: int| 0 <= k < piece.len() && piece[k] == sep;
                    assert(before.last()[k] == sep);
                    assert(before[before.len() - 1].contains(sep));
                }
            }
        }
    }
}

/// Splitting a text and joining the pieces gives the text back.
pub proof fn law_join_of_split(s: Seq<char>, sep: char)
    ensures
        join(split(s, sep), seq![sep]) == s,
    decreases s.len(),
{
    lemma_split_non_empty(s, sep);
    if s.len() > 0 {
        let t = s.drop_last();
        law_join_of_split(t, sep);
        lemma_split_non_empty(t, sep);
        let before = split(t, sep);
        let after = split(s, sep);
        assert(s == t.push(s.last()));
        if s.last() == sep {
            assert(after.drop_last() == before);
            assert(join(after, seq![sep]) == t + seq![sep] + Seq::<char>::empty());
            assert(t + seq![sep] + Seq::<char>::empty() =~= s);
        } else {
            assert(after.drop_last() == before.drop_last());
            if before.len() == 1 {
                assert(after[0] == before[0].push(s.last()));
            } else {
                assert(join(after, seq![sep]) =~= join(before.drop_last(), seq![sep]) + seq![sep]
                    + before.last().push(s.last()));
                assert(join(after, seq![sep]) =~= s);
            }
        }
    }
}

/// Splits a run of characters at every `sep`.
pub fn split_chars(s: &[char], sep: char) -> (r: Vec<Vec<char>>)
    ensures
        r@.len() == split(s@, sep).len(),
        forall|i: int| 0 <= i < r@.len() ==> (#[trigger] r@[i])@ == split(s@, sep)[i],
{
    let mut out: Vec<Vec<char>> = Vec::new();
    let mut cur: Vec<char> = Vec::new();
    let mut i: usize = 0;
    assert(s@.take(0) == Seq::<char>::empty());
    while i < s.len()
        invariant
            i <= s@.len(),
            split(s@.take(i as int), sep).len() == out@.len() + 1,
            forall|j: int|
                0 <= j < out@.len() ==> (#[trigger] out@[j])@ == split(s@.take(i as int), sep)[j],
            split(s@.take(i as int), sep).last() == cur@,
        decreases s.len() - i,
    {
        assert(s@.take(i as int + 1).drop_last() == s@.take(i as int));
        if s[i] == sep {
            out.push(cur);
            cur = Vec::new();
        } else {
            cur.push(s[i]);
        }
        i = i + 1;
    }
    assert(s@.take(s@.len() as int) == s@);
    out.push(cur);
    out
}

/// Splits a string at every `sep`.
pub fn split_str(s: &str, sep: char) -> (r: Vec<String>)
    ensures
        views(r@) == split(s@, sep),
{
    let pieces = split_chars(&chars_of(s), sep);
    let mut out: Vec<String> = Vec::new();
    let mut i: usize = 0;
    while i < pieces.len()
        invariant
            i <= pieces@.len(),
            out@.len() == i,
            pieces@.len() == split(s@, sep).len(),
            forall|j: int| 0 <= j < pieces@.len() ==> (#[trigger] pieces@[j])@ == split(s@, sep)[j],
            forall|j: int| 0 <= j < i ==> (#[trigger] out@[j])@ == split(s@, sep)[j],
        decreases pieces.len() - i,
    {
        out.push(string_of(&pieces[i]));
        i = i + 1;
    }
    assert(views(out@) =~= split(s@, sep));
    out
}

/// The pieces of `s` between slashes that are not empty: the segments of a
/// path.
pub open spec fn segments_of(s: Seq<char>) -> Seq<Seq<char>> {
    non_empty(split(s, '/'))
}

/// Splits a path at its slashes and keeps the pieces that are not empty.
pub fn segments(s: &str) -> (r: Vec<String>)
    ensures
        views(r@) == segments_of(s@),
{
    let pieces = split_chars(&chars_of(s), '/');
    let ghost parts = split(s@, '/');
    let mut out: Vec<String> = Vec::new();
    let mut i: usize = 0;
    assert(parts.take(0) == Seq::<Seq<char>>::empty());
    assert(views(out@) =~= non_empty(parts.take(0)));
    while i < pieces.len()
        invariant
            i <= pieces@.len(),
            parts == split(s@, '/'),
            pieces@.len() == parts.len(),
            forall|j: int| 0 <= j < pieces@.len() ==> (#[trigger] pieces@[j])@ == parts[j],
            views(out@) == non_empty(parts.take(i as int)),
        decreases pieces.len() - i,
    {
        assert(parts.take(i as int + 1).drop_last() == parts.take(i as int));
        assert(parts.take(i as int + 1).last() == pieces@[i as int]@);
        if pieces[i].len() > 0 {
            let ghost prev = out@;
            out.push(string_of(&pieces[i]));
            assert(views(out@) =~= views(prev).push(pieces@[i as int]@));
        }
        i = i + 1;
    }
    assert(parts.take(parts.len() as int) == parts);
    out
}

/// Appends the text of `t` to `s`.
pub fn push_text(s: &mut String, t: &str)
    ensures
        final(s)@ == old(s)@ + t@,
{
    s.append(t);
}

/// Joins strings with `sep` between two of them.
pub fn join_strings(parts: &[String], sep: &str) -> (r: String)
    ensures
        r@ == join(views(parts@), sep@),
{
    let mut out = String::new();
    let ghost all = views(parts@);
    let mut i: usize = 0;
    assert(all.take(0) == Seq::<Seq<char>>::empty());
    while i < parts.len()
        invariant
            i <= parts@.len(),
            all == views(parts@),
            out@ == join(all.take(i as int), sep@),
        decreases parts.len() - i,
    {
        assert(all.take(i as int + 1).drop_last() == all.take(i as int));
        assert(all.take(i as int + 1).last() == parts@[i as int]@);
        if i > 0 {
            push_text(&mut out, sep);
        }
        push_text(&mut out, parts[i].as_str());
        assert(i == 0 ==> out@ =~= parts@[0]@);
        i = i + 1;
    }
    assert(all.take(all.len() as int) == all);
    out
}

// ---------------------------------------------------------------------------
// Trimming
// ---------------------------------------------------------------------------

/// `s` without the white space in front.
pub open spec fn trim_start(s: Seq<char>) -> Seq<char>
    decreases s.len(),
{
    if s.len() > 0 && is_space(s[0]) {
        trim_start(s.skip(1))
    } else {
        s
    }
}

/// `s` without the white space behind.
pub open spec fn trim_end(s: Seq<char>) -> Seq<char>
    decreases s.len(),
{
    if s.len() > 0 && is_space(s.last()) {
        trim_end(s.drop_last())
    } else {
        s
    }
}

/// `s` without the white space at both ends.
pub open spec fn trim(s: Seq<char>) -> Seq<char> {
    trim_end(trim_start(s))
}

/// `s` without the copies of `c` in front.
pub open spec fn trim_char_start(s: Seq<char>, c: char) -> Seq<char>
    decreases s.len(),
{
    if s.len() > 0 && s[0] == c {
        trim_char_start(s.skip(1), c)
    } else {
        s
    }
}

/// `s` without the copies of `c` behind.
pub open spec fn trim_char_end(s: Seq<char>, c: char) -> Seq<char>
    decreases s.len(),
{
    if s.len() > 0 && s.last() == c {
        trim_char_end(s.drop_last(), c)
    } else {
        s
    }
}

/// `s` without the copies of `c` at both ends.
pub open spec fn trim_char(s: Seq<char>, c: char) -> Seq<char> {
    trim_char_end(trim_char_start(s, c), c)
}

/// The characters of `s` from `from` on and before `to`.
pub fn sub_chars(s: &[char], from: usize, to: usize) -> (r: Vec<char>)
    requires
        from <= to <= s@.len(),
    ensures
        r@ == s@.subrange(from as int, to as int),
{
    let mut out: Vec<char> = Vec::new();
    let mut i: usize = from;
    while i < to
        invariant
            from <= i <= to <= s@.len(),
            out@ == s@.subrange(from as int, i as int),
        decreases to - i,
    {
        out.push(s[i]);
        i = i + 1;
    }
    out
}

/// Removes white space at both ends of a run of characters.
pub fn trim_chars(s: &[char]) -> (r: Vec<char>)
    ensures
        r@ == trim(s@),
{
    let mut from: usize = 0;
    assert(s@.skip(0) == s@);
    while from < s.len() && char_is_space(s[from])
        invariant
            from <= s@.len(),
            trim_start(s@) == trim_start(s@.skip(from as int)),
        decreases s.len() - from,
    {
        assert(s@.skip(from as int).skip(1) == s@.skip(from as int + 1));
        from = from + 1;
    }
    let ghost t = s@.skip(from as int);
    assert(trim_start(s@) == t);
    let mut to: usize = s.len();
    assert(s@.subrange(from as int, to as int) == t);
    while from < to && char_is_space(s[to - 1])
        invariant
            from <= to <= s@.len(),
            trim_end(t) == trim_end(s@.subrange(from as int, to as int)),
        decreases to,
    {
        assert(s@.subrange(from as int, to as int).drop_last() == s@.subrange(
            from as int,
            to as int - 1,
        ));
        to = to - 1;
    }
    sub_chars(s, from, to)
}

/// Removes white space at both ends.
pub fn trim_str(s: &str) -> (r: String)
    ensures
        r@ == trim(s@),
{
    string_of(&trim_chars(&chars_of(s)))
}

/// Removes the copies of `c` at both ends.
pub fn trim_char_chars(s: &[char], c: char) -> (r: Vec<char>)
    ensures
        r@ == trim_char(s@, c),
{
    let mut from: usize = 0;
    assert(s@.skip(0) == s@);
    while from < s.len() && s[from] == c
        invariant
            from <= s@.len(),
            trim_char_start(s@, c) == trim_char_start(s@.skip(from as int), c),
        decreases s.len() - from,
    {
        assert(s@.skip(from as int).skip(1) == s@.skip(from as int + 1));
        from = from + 1;
    }
    let ghost t = s@.skip(from as int);
    assert(trim_char_start(s@, c) == t);
    let mut to: usize = s.len();
    assert(s@.subrange(from as int, to as int) == t);
    while from < to && s[to - 1] == c
        invariant
            from <= to <= s@.len(),
            trim_char_end(t, c) == trim_char_end(s@.subrange(from as int, to as int), c),
        decreases to,
    {
        assert(s@.subrange(from as int, to as int).drop_last() == s@.subrange(
            from as int,
            to as int - 1,
        ));
        to = to - 1;
    }
    sub_chars(s, from, to)
}

// ---------------------------------------------------------------------------
// Case
// ---------------------------------------------------------------------------

/// The ASCII lower-case form of a run of characters.
pub fn lower_chars(s: &[char]) -> (r: Vec<char>)
    ensures
        r@ == lower(s@),
{
    let mut out: Vec<char> = Vec::new();
    let mut i: usize = 0;
    while i < s.len()
        invariant
            i <= s@.len(),
            out@ == lower(s@).take(i as int),
        decreases s.len() - i,
    {
        out.push(char_to_lower(s[i]));
        i = i + 1;
    }
    assert(lower(s@).take(s@.len() as int) == lower(s@));
    out
}

/// The ASCII lower-case form of a string.
pub fn lower_str(s: &str) -> (r: String)
    ensures
        r@ == lower(s@),
{
    string_of(&lower_chars(&chars_of(s)))
}

/// Whether two strings hold the same text when ASCII case is left aside.
pub fn eq_ignore_case(a: &str, b: &str) -> (r: bool)
    ensures
        r == (lower(a@) == lower(b@)),
{
    chars_eq(&lower_chars(&chars_of(a)), &lower_chars(&chars_of(b)))
}

// ---------------------------------------------------------------------------
// Parts of a text
// ---------------------------------------------------------------------------

/// Whether `p` stands at the front of `s`.
pub open spec fn starts_with(s: Seq<char>, p: Seq<char>) -> bool {
    p.len() <= s.len() && s.take(p.len() as int) == p
}

/// Whether `p` stands at the end of `s`.
pub open spec fn ends_with(s: Seq<char>, p: Seq<char>) -> bool {
    p.len() <= s.len() && s.skip(s.len() - p.len()) == p
}

/// Whether `p` stands in `s` at position `i`.
pub open spec fn occurs_at(s: Seq<char>, p: Seq<char>, i: int) -> bool {
    0 <= i && i + p.len() <= s.len() && s.subrange(i, i + p.len()) == p
}

/// Whether `p` stands anywhere in `s`.
pub open spec fn contains_text(s: Seq<char>, p: Seq<char>) -> bool {
    exists|i: int| occurs_at(s, p, i)
}

/// `s` with each occurrence of `from`, taken from the left and without
/// overlap, replaced by `to`.
pub open spec fn replace(s: Seq<char>, from: Seq<char>, to: Seq<char>) -> Seq<char>
    recommends
        from.len() > 0,
    decreases s.len(),
{
    if s.len() == 0 || from.len() == 0 {
        s
    } else if starts_with(s, from) {
        to + replace(s.skip(from.len() as int), from, to)
    } else {
        seq![s[0]] + replace(s.skip(1), from, to)
    }
}

/// Whether `p` stands in `s` at position `at`.
pub fn chars_at(s: &[char], p: &[char], at: usize) -> (r: bool)
    requires
        at <= s@.len(),
    ensures
        r == occurs_at(s@, p@, at as int),
        r == starts_with(s@.skip(at as int), p@),
{
    proof {
        if at + p@.len() <= s@.len() {
            assert(s@.skip(at as int).take(p@.len() as int) == s@.subrange(
                at as int,
                at + p@.len() as int,
            ));
        }
    }
    if p.len() > s.len() - at {
        return false;
    }
    let mut i: usize = 0;
    while i < p.len()
        invariant
            at + p@.len() <= s@.len() <= usize::MAX,
            i <= p@.len(),
            forall|j: int| 0 <= j < i ==> s@[at + j] == p@[j],
        decreases p.len() - i,
    {
        if s[at + i] != p[i] {
            assert(s@.subrange(at as int, at + p@.len() as int)[i as int] != p@[i as int]);
            return false;
        }
        i = i + 1;
    }
    assert(s@.subrange(at as int, at + p@.len() as int) =~= p@);
    true
}

/// Whether `p` stands at the front of `s`.
pub fn str_starts_with(s: &str, p: &str) -> (r: bool)
    ensures
        r == starts_with(s@, p@),
{
    assert(s@.skip(0) == s@);
    chars_at(&chars_of(s), &chars_of(p), 0)
}

/// Whether `p` stands at the end of `s`.
pub fn str_ends_with(s: &str, p: &str) -> (r: bool)
    ensures
        r == ends_with(s@, p@),
{
    let text = chars_of(s);
    let part = chars_of(p);
    if part.len() > text.len() {
        return false;
    }
    let at: usize = text.len() - part.len();
    assert(s@.subrange(at as int, at + p@.len() as int) == s@.skip(at as int));
    chars_at(&text, &part, at)
}

/// Whether `p` stands anywhere in `s`.
pub fn str_contains(s: &str, p: &str) -> (r: bool)
    ensures
        r == contains_text(s@, p@),
{
    let text = chars_of(s);
    let part = chars_of(p);
    let mut i: usize = 0;
    while i <= text.len()
        invariant
            i <= text@.len() + 1,
            text@ == s@,
            part@ == p@,
            forall|j: int| 0 <= j < i ==> !occurs_at(s@, p@, j),
        decreases text.len() + 1 - i,
    {
        if chars_at(&text, &part, i) {
            assert(occurs_at(s@, p@, i as int));
            return true;
        }
        if i == text.len() {
            return false;
        }
        i = i + 1;
    }
    false
}

/// The rest of `s` behind `p`, if `p` stands at its front.
pub fn strip_prefix(s: &str, p: &str) -> (r: Option<String>)
    ensures
        r is Some <==> starts_with(s@, p@),
        r matches Some(t) ==> t@ == s@.skip(p@.len() as int),
{
    let text = chars_of(s);
    let part = chars_of(p);
    assert(s@.skip(0) == s@);
    if chars_at(&text, &part, 0) {
        assert(s@.subrange(part@.len() as int, s@.len() as int) == s@.skip(p@.len() as int));
        Some(string_of(&sub_chars(&text, part.len(), text.len())))
    } else {
        None
    }
}

/// Replaces each occurrence of `from` by `to`.
pub fn replace_str(s: &str, from: &str, to: &str) -> (r: String)
    requires
        from@.len() > 0,
    ensures
        r@ == replace(s@, from@, to@),
{
    let text = chars_of(s);
    let part = chars_of(from);
    let mut out = String::new();
    let mut i: usize = 0;
    assert(s@.skip(0) == s@);
    assert(Seq::<char>::empty() + replace(s@, from@, to@) =~= replace(s@, from@, to@));
    while i < text.len()
        invariant
            i <= text@.len(),
            text@ == s@,
            part@ == from@,
            from@.len() > 0,
            out@ + replace(s@.skip(i as int), from@, to@) == replace(s@, from@, to@),
        decreases text.len() - i,
    {
        let ghost rest = s@.skip(i as int);
        let ghost prev = out@;
        if chars_at(&text, &part, i) {
            push_text(&mut out, to);
            assert(rest.skip(from@.len() as int) == s@.skip(i + from@.len() as int));
            assert(prev + (to@ + replace(rest.skip(from@.len() as int), from@, to@)) =~= out@
                + replace(s@.skip(i + from@.len() as int), from@, to@));
            i = i + part.len();
        } else {
            out.push(text[i]);
            assert(rest.skip(1) == s@.skip(i as int + 1));
            assert(prev + (seq![rest[0]] + replace(rest.skip(1), from@, to@)) =~= out@ + replace(
                s@.skip(i as int + 1),
                from@,
                to@,
            ));
            i = i + 1;
        }
    }
    assert(s@.skip(s@.len() as int) =~= Seq::<char>::empty());
    assert(out@ + Seq::<char>::empty() =~= out@);
    out
}

// ---------------------------------------------------------------------------
// Order
// ---------------------------------------------------------------------------

/// Whether `a` stands before `b` in the order of a dictionary, character by
/// character.
pub open spec fn text_less(a: Seq<char>, b: Seq<char>) -> bool
    decreases a.len(),
{
    if b.len() == 0 {
        false
    } else if a.len() == 0 {
        true
    } else if a[0] != b[0] {
        a[0] < b[0]
    } else {
        text_less(a.skip(1), b.skip(1))
    }
}

/// The order is strict: no text stands before itself.
pub proof fn lemma_text_less_irreflexive(a: Seq<char>)
    ensures
        !text_less(a, a),
    decreases a.len(),
{
    if a.len() > 0 {
        lemma_text_less_irreflexive(a.skip(1));
    }
}

/// The order is transitive.
pub proof fn lemma_text_less_transitive(a: Seq<char>, b: Seq<char>, c: Seq<char>)
    requires
        text_less(a, b),
        text_less(b, c),
    ensures
        text_less(a, c),
    decreases a.len(),
{
    if a.len() > 0 && b.len() > 0 && c.len() > 0 && a[0] == b[0] && b[0] == c[0] {
        lemma_text_less_transitive(a.skip(1), b.skip(1), c.skip(1));
    }
}

/// Of two different texts one stands before the other.
pub proof fn lemma_text_less_total(a: Seq<char>, b: Seq<char>)
    ensures
        text_less(a, b) || a == b || text_less(b, a),
    decreases a.len(),
{
    if a.len() > 0 && b.len() > 0 && a[0] == b[0] {
        lemma_text_less_total(a.skip(1), b.skip(1));
        if a.skip(1) == b.skip(1) {
            assert(a =~= seq![a[0]] + a.skip(1));
            assert(b =~= seq![b[0]] + b.skip(1));
        }
    } else if a.len() == 0 && b.len() == 0 {
        assert(a =~= b);
    }
}

/// Whether `a` stands before `b`.
pub fn str_less(a: &str, b: &str) -> (r: bool)
    ensures
        r == text_less(a@, b@),
{
    let left = chars_of(a);
    let right = chars_of(b);
    let mut i: usize = 0;
    assert(a@.skip(0) == a@);
    assert(b@.skip(0) == b@);
    while i < left.len() && i < right.len()
        invariant
            i <= left@.len(),
            i <= right@.len(),
            left@ == a@,
            right@ == b@,
            text_less(a@, b@) == text_less(a@.skip(i as int), b@.skip(i as int)),
        decreases left.len() - i,
    {
        if left[i] != right[i] {
            return left[i] < right[i];
        }
        assert(a@.skip(i as int).skip(1) == a@.skip(i as int + 1));
        assert(b@.skip(i as int).skip(1) == b@.skip(i as int + 1));
        i = i + 1;
    }
    i < right.len()
}

// ---------------------------------------------------------------------------
// Laws of segments
// ---------------------------------------------------------------------------

pub proof fn lemma_split_concat(a: Seq<char>, b: Seq<char>, sep: char)
    ensures
        split(a.push(sep) + b, sep) == split(a, sep) + split(b, sep),
    decreases b.len(),
{
    lemma_split_non_empty(a, sep);
    lemma_split_non_empty(b, sep);
    let whole = a.push(sep) + b;
    if b.len() == 0 {
        assert(whole =~= a.push(sep));
        assert(a.push(sep).drop_last() =~= a);
        assert(split(a, sep).push(Seq::<char>::empty()) =~= split(a, sep) + split(b, sep));
    } else {
        lemma_split_concat(a, b.drop_last(), sep);
        lemma_split_non_empty(b.drop_last(), sep);
        assert(whole.drop_last() =~= a.push(sep) + b.drop_last());
        assert(whole.last() == b.last());
        let left = split(a, sep);
        let right = split(b.drop_last(), sep);
        if b.last() == sep {
            assert((left + right).push(Seq::<char>::empty()) =~= left + right.push(
                Seq::<char>::empty(),
            ));
        } else {
            assert((left + right).last() == right.last());
            assert((left + right).drop_last().push(right.last().push(b.last())) =~= left
                + right.drop_last().push(right.last().push(b.last())));
        }
    }
}

proof fn lemma_non_empty_concat(a: Seq<Seq<char>>, b: Seq<Seq<char>>)
    ensures
        non_empty(a + b) == non_empty(a) + non_empty(b),
    decreases b.len(),
{
    if b.len() == 0 {
        assert(a + b =~= a);
        assert(non_empty(a) + non_empty(b) =~= non_empty(a));
    } else {
        lemma_non_empty_concat(a, b.drop_last());
        assert((a + b).drop_last() =~= a + b.drop_last());
        if b.last().len() > 0 {
            assert((non_empty(a) + non_empty(b.drop_last())).push(b.last()) =~= non_empty(a) + (
            non_empty(b.drop_last()).push(b.last())));
        }
    }
}

/// A slash separates: the segments of two texts with a slash between them are
/// those of the first and then those of the second. A slash in front, behind
/// or beside another one therefore adds no segment.
pub proof fn law_slash_separates(a: Seq<char>, b: Seq<char>)
    ensures
        segments_of(a.push('/') + b) == segments_of(a) + segments_of(b),
        segments_of(seq!['/'] + b) == segments_of(b),
        segments_of(a.push('/')) == segments_of(a),
{
    let none = Seq::<char>::empty();
    lemma_split_concat(a, b, '/');
    lemma_non_empty_concat(split(a, '/'), split(b, '/'));
    assert(segments_of(none) =~= Seq::<Seq<char>>::empty()) by {
        assert(split(none, '/').drop_last() =~= Seq::<Seq<char>>::empty());
        reveal_with_fuel(non_empty, 2);
    }
    lemma_split_concat(none, b, '/');
    lemma_non_empty_concat(split(none, '/'), split(b, '/'));
    assert(none.push('/') + b =~= seq!['/'] + b);
    assert(segments_of(none) + segments_of(b) =~= segments_of(b));
    lemma_split_concat(a, none, '/');
    lemma_non_empty_concat(split(a, '/'), split(none, '/'));
    assert(a.push('/') + none =~= a.push('/'));
    assert(segments_of(a) + segments_of(none) =~= segments_of(a));
}

/// Whether every part is a segment: not empty and without a slash.
pub open spec fn are_segments(parts: Seq<Seq<char>>) -> bool {
    forall|i: int|
        0 <= i < parts.len() ==> (#[trigger] parts[i]).len() > 0 && !parts[i].contains('/')
}

pub proof fn lemma_split_without(s: Seq<char>, sep: char)
    requires
        !s.contains(sep),
    ensures
        split(s, sep) == seq![s],
    decreases s.len(),
{
    if s.len() > 0 {
        assert(s.last() != sep) by {
            assert(s.contains(s.last()));
        }
        assert(!s.drop_last().contains(sep)) by {
            if s.drop_last().contains(sep) {
                let i = s.drop_last().index_of(sep);
                assert(s[i] == sep);
            }
        }
        lemma_split_without(s.drop_last(), sep);
        assert(s.drop_last().push(s.last()) =~= s);
        assert(split(s, sep) =~= seq![s]);
    } else {
        assert(s =~= Seq::<char>::empty());
    }
}

/// Joining segments with slashes and taking the segments of the result gives
/// the segments back.
pub proof fn law_segments_of_joined(parts: Seq<Seq<char>>)
    requires
        are_segments(parts),
    ensures
        segments_of(join(parts, "/"@)) == parts,
    decreases parts.len(),
{
    reveal_strlit("/");
    assert("/"@ =~= seq!['/']);
    if parts.len() == 0 {
        let none = Seq::<char>::empty();
        assert(split(none, '/').drop_last() =~= Seq::<Seq<char>>::empty());
        reveal_with_fuel(non_empty, 2);
        assert(segments_of(none) =~= parts);
    } else {
        let last = parts.last();
        let before = join(parts.drop_last(), "/"@);
        assert(parts[parts.len() - 1] == last);
        lemma_split_without(last, '/');
        assert(segments_of(last) =~= seq![last]) by {
            assert(split(last, '/').drop_last() =~= Seq::<Seq<char>>::empty());
            reveal_with_fuel(non_empty, 2);
        }
        if parts.len() == 1 {
            assert(parts =~= seq![last]);
        } else {
            assert forall|i: int| 0 <= i < parts.drop_last().len() implies (
            #[trigger] parts.drop_last()[i]).len() > 0 && !parts.drop_last()[i].contains('/') by {
                assert(parts.drop_last()[i] == parts[i]);
            }
            law_segments_of_joined(parts.drop_last());
            law_slash_separates(before, last);
            assert(before + seq!['/'] + last =~= before.push('/') + last);
            assert(parts.drop_last() + seq![last] =~= parts);
        }
    }
}

/// Joining pieces and splitting the result gives the pieces back, where no piece
/// holds the separator.
pub proof fn law_split_of_join(parts: Seq<Seq<char>>, sep: char)
    requires
        parts.len() > 0,
        forall|i: int| 0 <= i < parts.len() ==> !(#[trigger] parts[i]).contains(sep),
    ensures
        split(join(parts, seq![sep]), sep) == parts,
    decreases parts.len(),
{
    let last = parts.last();
    assert(!parts[parts.len() - 1].contains(sep));
    lemma_split_without(last, sep);
    if parts.len() == 1 {
        assert(parts =~= seq![last]);
    } else {
        let front = parts.drop_last();
        assert forall|i: int| 0 <= i < front.len() implies !(#[trigger] front[i]).contains(
            sep,
        ) by {
            assert(front[i] == parts[i]);
        }
        law_split_of_join(front, sep);
        let before = join(front, seq![sep]);
        lemma_split_concat(before, last, sep);
        assert(before + seq![sep] + last =~= before.push(sep) + last);
        assert(front + seq![last] =~= parts);
    }
}

/// The segments of a text are segments.
pub proof fn law_segments_are_segments(s: Seq<char>)
    ensures
        are_segments(segments_of(s)),
{
    lemma_split_pieces(s, '/');
    lemma_non_empty_pieces(split(s, '/'));
}

proof fn lemma_non_empty_pieces(parts: Seq<Seq<char>>)
    requires
        forall|i: int| 0 <= i < parts.len() ==> !(#[trigger] parts[i]).contains('/'),
    ensures
        are_segments(non_empty(parts)),
    decreases parts.len(),
{
    if parts.len() > 0 {
        let before = parts.drop_last();
        assert forall|i: int| 0 <= i < before.len() implies !(#[trigger] before[i]).contains(
            '/',
        ) by {
            assert(before[i] == parts[i]);
        }
        lemma_non_empty_pieces(before);
        assert(parts[parts.len() - 1] == parts.last());
        if parts.last().len() > 0 {
            let all = non_empty(parts);
            assert forall|i: int| 0 <= i < all.len() implies (#[trigger] all[i]).len() > 0
                && !all[i].contains('/') by {
                if i < all.len() - 1 {
                    assert(all[i] == non_empty(before)[i]);
                }
            }
        }
    }
}

// ---------------------------------------------------------------------------
// Laws of trimming, case and search
// ---------------------------------------------------------------------------

/// Whether every character is a blank, a tab or an end of line.
pub open spec fn all_blank(s: Seq<char>) -> bool {
    forall|i: int|
        0 <= i < s.len() ==> #[trigger] s[i] == ' ' || s[i] == '\t' || s[i] == '\n' || s[i] == '\r'
}

/// Whether a text is empty, or begins and ends with a visible ASCII character.
pub open spec fn visible_ends(s: Seq<char>) -> bool {
    s.len() > 0 ==> '!' <= s[0] <= '~' && '!' <= s.last() <= '~'
}

proof fn lemma_trim_start_blank(a: Seq<char>, t: Seq<char>)
    requires
        all_blank(a),
    ensures
        trim_start(a + t) == trim_start(t),
    decreases a.len(),
{
    if a.len() == 0 {
        assert(a + t =~= t);
    } else {
        let rest = a.skip(1);
        assert forall|i: int| 0 <= i < rest.len() implies #[trigger] rest[i] == ' ' || rest[i]
            == '\t' || rest[i] == '\n' || rest[i] == '\r' by {
            assert(rest[i] == a[i + 1]);
        }
        assert((a + t)[0] == a[0]);
        assert((a + t).skip(1) =~= rest + t);
        lemma_trim_start_blank(rest, t);
    }
}

proof fn lemma_trim_end_blank(t: Seq<char>, b: Seq<char>)
    requires
        all_blank(b),
    ensures
        trim_end(t + b) == trim_end(t),
    decreases b.len(),
{
    if b.len() == 0 {
        assert(t + b =~= t);
    } else {
        let rest = b.drop_last();
        assert forall|i: int| 0 <= i < rest.len() implies #[trigger] rest[i] == ' ' || rest[i]
            == '\t' || rest[i] == '\n' || rest[i] == '\r' by {
            assert(rest[i] == b[i]);
        }
        assert((t + b).last() == b[b.len() - 1]);
        assert((t + b).drop_last() =~= t + rest);
        lemma_trim_end_blank(t, rest);
    }
}

/// Blanks, tabs and ends of lines around a text are trimmed, and nothing of the
/// text is.
pub proof fn law_padding_is_trimmed(a: Seq<char>, s: Seq<char>, b: Seq<char>)
    requires
        all_blank(a),
        all_blank(b),
        visible_ends(s),
    ensures
        trim(a + s + b) == s,
{
    assert(a + s + b =~= a + (s + b));
    lemma_trim_start_blank(a, s + b);
    if s.len() == 0 {
        assert(s + b =~= b);
        let none = Seq::<char>::empty();
        assert(b + none =~= b);
        lemma_trim_start_blank(b, none);
        assert(trim(a + s + b) =~= s);
    } else {
        assert((s + b)[0] == s[0]);
        lemma_trim_end_blank(s, b);
    }
}

/// What is trimmed off a text is white space, on both sides, and what is left
/// neither begins nor ends with any.
pub proof fn law_trim_takes_white_space_only(s: Seq<char>)
    ensures
        exists|i: int, j: int|
            {
                &&& 0 <= i <= j <= s.len()
                &&& #[trigger] s.subrange(i, j) == trim(s)
                &&& forall|k: int| 0 <= k < i || j <= k < s.len() ==> is_space(#[trigger] s[k])
            },
        trim(s).len() > 0 ==> !is_space(trim(s)[0]) && !is_space(trim(s).last()),
{
    let i = lemma_trim_start_skips(s);
    let t = trim_start(s);
    let n = lemma_trim_end_takes(t);
    let j = i + n;
    assert(s.subrange(i, j) =~= t.take(n));
    assert forall|k: int| 0 <= k < i || j <= k < s.len() implies is_space(#[trigger] s[k]) by {
        if k >= j {
            assert(t[k - i] == s[k]);
        }
    }
}

proof fn lemma_trim_start_skips(s: Seq<char>) -> (i: int)
    ensures
        0 <= i <= s.len(),
        trim_start(s) == s.skip(i),
        forall|k: int| 0 <= k < i ==> is_space(#[trigger] s[k]),
        i < s.len() ==> !is_space(s[i]),
    decreases s.len(),
{
    if s.len() > 0 && is_space(s[0]) {
        let i = lemma_trim_start_skips(s.skip(1));
        assert(s.skip(1).skip(i) =~= s.skip(i + 1));
        assert forall|k: int| 0 <= k < i + 1 implies is_space(#[trigger] s[k]) by {
            if k > 0 {
                assert(s.skip(1)[k - 1] == s[k]);
            }
        }
        i + 1
    } else {
        assert(s.skip(0) =~= s);
        0
    }
}

proof fn lemma_trim_end_takes(s: Seq<char>) -> (n: int)
    ensures
        0 <= n <= s.len(),
        trim_end(s) == s.take(n),
        forall|k: int| n <= k < s.len() ==> is_space(#[trigger] s[k]),
        n > 0 ==> !is_space(s[n - 1]),
        n == 0 && s.len() > 0 ==> is_space(s[0]),
    decreases s.len(),
{
    if s.len() > 0 && is_space(s.last()) {
        let n = lemma_trim_end_takes(s.drop_last());
        assert(s.drop_last().take(n) =~= s.take(n));
        assert forall|k: int| n <= k < s.len() implies is_space(#[trigger] s[k]) by {
            if k < s.len() - 1 {
                assert(s.drop_last()[k] == s[k]);
            }
        }
        n
    } else {
        assert(s.take(s.len() as int) =~= s);
        s.len() as int
    }
}

/// Taking a character off both ends of a text takes all its copies there, and
/// nothing else.
pub proof fn law_trim_char_takes_copies_only(s: Seq<char>, c: char)
    ensures
        exists|i: int, j: int|
            {
                &&& 0 <= i <= j <= s.len()
                &&& #[trigger] s.subrange(i, j) == trim_char(s, c)
                &&& forall|k: int| 0 <= k < i || j <= k < s.len() ==> #[trigger] s[k] == c
            },
        trim_char(s, c).len() > 0 ==> trim_char(s, c)[0] != c && trim_char(s, c).last() != c,
{
    let i = lemma_trim_char_start_skips(s, c);
    let t = trim_char_start(s, c);
    let n = lemma_trim_char_end_takes(t, c);
    let j = i + n;
    assert(s.subrange(i, j) =~= t.take(n));
    assert forall|k: int| 0 <= k < i || j <= k < s.len() implies #[trigger] s[k] == c by {
        if k >= j {
            assert(t[k - i] == s[k]);
        }
    }
}

proof fn lemma_trim_char_start_skips(s: Seq<char>, c: char) -> (i: int)
    ensures
        0 <= i <= s.len(),
        trim_char_start(s, c) == s.skip(i),
        forall|k: int| 0 <= k < i ==> #[trigger] s[k] == c,
        i < s.len() ==> s[i] != c,
    decreases s.len(),
{
    if s.len() > 0 && s[0] == c {
        let i = lemma_trim_char_start_skips(s.skip(1), c);
        assert(s.skip(1).skip(i) =~= s.skip(i + 1));
        assert forall|k: int| 0 <= k < i + 1 implies #[trigger] s[k] == c by {
            if k > 0 {
                assert(s.skip(1)[k - 1] == s[k]);
            }
        }
        i + 1
    } else {
        assert(s.skip(0) =~= s);
        0
    }
}

proof fn lemma_trim_char_end_takes(s: Seq<char>, c: char) -> (n: int)
    ensures
        0 <= n <= s.len(),
        trim_char_end(s, c) == s.take(n),
        forall|k: int| n <= k < s.len() ==> #[trigger] s[k] == c,
        n > 0 ==> s[n - 1] != c,
        n == 0 && s.len() > 0 ==> s[0] == c,
    decreases s.len(),
{
    if s.len() > 0 && s.last() == c {
        let n = lemma_trim_char_end_takes(s.drop_last(), c);
        assert(s.drop_last().take(n) =~= s.take(n));
        assert forall|k: int| n <= k < s.len() implies #[trigger] s[k] == c by {
            if k < s.len() - 1 {
                assert(s.drop_last()[k] == s[k]);
            }
        }
        n
    } else {
        assert(s.take(s.len() as int) =~= s);
        s.len() as int
    }
}

/// Lower case turns the letters `A` to `Z` into `a` to `z`, one by one, and
/// leaves every other character where and as it is.
pub proof fn law_lower_case(s: Seq<char>)
    ensures
        lower(s).len() == s.len(),
        forall|i: int|
            0 <= i < s.len() ==> if 'A' <= s[i] <= 'Z' {
                (#[trigger] lower(s)[i]) as int == s[i] as int + ('a' as int - 'A' as int)
            } else {
                lower(s)[i] == s[i]
            },
        lower(lower(s)) == lower(s),
{
    assert(lower(lower(s)) =~= lower(s));
}

/// A text begins with another exactly where it is that text with something
/// behind it, and ends with another where something stands in front.
pub proof fn law_beginnings_and_ends(p: Seq<char>, rest: Seq<char>, s: Seq<char>)
    ensures
        starts_with(p + rest, p),
        ends_with(rest + p, p),
        starts_with(s, p) ==> s == p + s.skip(p.len() as int),
        ends_with(s, p) ==> s == s.take(s.len() - p.len()) + p,
{
    assert((p + rest).take(p.len() as int) =~= p);
    assert((rest + p).skip(rest.len() as int) =~= p);
    if starts_with(s, p) {
        assert(s =~= s.take(p.len() as int) + s.skip(p.len() as int));
    }
    if ends_with(s, p) {
        assert(s =~= s.take(s.len() - p.len()) + s.skip(s.len() - p.len()));
    }
}

/// A text stands in every text that has it between two others.
pub proof fn law_texts_between_texts(a: Seq<char>, p: Seq<char>, b: Seq<char>)
    ensures
        contains_text(a + p + b, p),
{
    let s = a + p + b;
    assert(s.subrange(a.len() as int, (a.len() + p.len()) as int) =~= p);
    assert(occurs_at(s, p, a.len() as int));
}

/// A text that stands in another has what is left of that on its two sides.
pub proof fn law_texts_have_two_sides(s: Seq<char>, p: Seq<char>)
    requires
        contains_text(s, p),
    ensures
        exists|a: Seq<char>, b: Seq<char>| s == #[trigger] ((a + p) + b),
{
    let i = choose|i: int| occurs_at(s, p, i);
    let a = s.take(i);
    let b = s.skip(i + p.len());
    assert(s =~= (a + s.subrange(i, i + p.len())) + b);
    assert(s == (a + p) + b);
}

/// The first occurrence of a text is replaced, what stands in front of it stays,
/// and the search goes on behind it.
pub proof fn law_occurrences_are_replaced(
    a: Seq<char>,
    b: Seq<char>,
    from: Seq<char>,
    to: Seq<char>,
)
    requires
        from.len() > 0,
        forall|i: int|
            0 <= i < a.len() ==> !starts_with(#[trigger] (a + from + b).skip(i), from),
    ensures
        replace(a + from + b, from, to) == a + to + replace(b, from, to),
    decreases a.len(),
{
    let whole = a + from + b;
    if a.len() == 0 {
        assert(whole.take(from.len() as int) =~= from);
        assert(whole.skip(from.len() as int) =~= b);
        assert(a + to =~= to);
    } else {
        let rest = a.skip(1);
        let less = rest + from + b;
        assert(whole.skip(0) =~= whole);
        assert(whole.skip(1) =~= less);
        assert forall|i: int| 0 <= i < rest.len() implies !starts_with(
            #[trigger] less.skip(i),
            from,
        ) by {
            assert(less.skip(i) =~= whole.skip(i + 1));
        }
        law_occurrences_are_replaced(rest, b, from, to);
        assert(seq![whole[0]] + (rest + to + replace(b, from, to)) =~= a + to + replace(
            b,
            from,
            to,
        ));
    }
}

/// A text in which another does not occur stays as it is when that is replaced.
pub proof fn law_nothing_else_is_replaced(a: Seq<char>, from: Seq<char>, to: Seq<char>)
    requires
        forall|i: int| 0 <= i < a.len() ==> !starts_with(#[trigger] a.skip(i), from),
    ensures
        replace(a, from, to) == a,
    decreases a.len(),
{
    if a.len() > 0 {
        let rest = a.skip(1);
        assert(a.skip(0) =~= a);
        assert forall|i: int| 0 <= i < rest.len() implies !starts_with(
            #[trigger] rest.skip(i),
            from,
        ) by {
            assert(rest.skip(i) =~= a.skip(i + 1));
        }
        law_nothing_else_is_replaced(rest, from, to);
        assert(seq![a[0]] + rest =~= a);
    }
}

/// The order of texts is that of a dictionary: at the first place where two
/// texts differ the lesser character comes first, and a text comes before
/// every longer one that it begins.
pub proof fn law_dictionary_order(p: Seq<char>, a: Seq<char>, b: Seq<char>)
    ensures
        a.len() > 0 && b.len() > 0 && a[0] != b[0] ==> (text_less(p + a, p + b) <==> (a[0] as int)
            < (b[0] as int)),
        b.len() > 0 ==> text_less(p, p + b),
        !text_less(p + b, p),
    decreases p.len(),
{
    if p.len() == 0 {
        assert(p + a =~= a);
        assert(p + b =~= b);
    } else {
        assert((p + a).skip(1) =~= p.skip(1) + a);
        assert((p + b).skip(1) =~= p.skip(1) + b);
        law_dictionary_order(p.skip(1), a, b);
    }
}

proof fn lemma_split_padded(parts: Seq<Seq<char>>)
    requires
        parts.len() > 0,
        forall|i: int|
            0 <= i < parts.len() ==> visible_ends(#[trigger] parts[i]) && !parts[i].contains(','),
    ensures
        split(join(parts, ", "@), ',').len() == parts.len(),
        forall|i: int|
            0 <= i < parts.len() ==> trim(#[trigger] split(join(parts, ", "@), ',')[i]) == parts[i],
    decreases parts.len(),
{
    reveal_strlit(", ");
    let sep = ", "@;
    let none = Seq::<char>::empty();
    let blank = seq![' '];
    assert(sep =~= seq![',', ' ']);
    let last = parts.last();
    assert(visible_ends(parts[parts.len() - 1]) && !parts[parts.len() - 1].contains(','));
    if parts.len() == 1 {
        lemma_split_without(last, ',');
        law_padding_is_trimmed(none, last, none);
        assert(none + last + none =~= last);
    } else {
        let front = parts.drop_last();
        assert forall|i: int| 0 <= i < front.len() implies visible_ends(#[trigger] front[i])
            && !front[i].contains(',') by {
            assert(front[i] == parts[i]);
        }
        lemma_split_padded(front);
        let before = join(front, sep);
        let piece = blank + last;
        assert(!piece.contains(',')) by {
            if piece.contains(',') {
                let k = piece.index_of(',');
                assert(last[k - 1] == ',');
            }
        }
        lemma_split_without(piece, ',');
        lemma_split_concat(before, piece, ',');
        assert(before + sep + last =~= before.push(',') + piece);
        law_padding_is_trimmed(blank, last, none);
        assert(blank + last + none =~= piece);
        let all = split(join(parts, sep), ',');
        assert(all == split(before, ',') + seq![piece]);
        assert forall|i: int| 0 <= i < parts.len() implies trim(#[trigger] all[i]) == parts[i] by {
            if i < front.len() {
                assert(all[i] == split(before, ',')[i]);
                assert(front[i] == parts[i]);
            }
        }
    }
}

/// The items of a list with commas: what stands between them, trimmed.
pub open spec fn list_items(text: Seq<char>) -> Seq<Seq<char>> {
    split(text, ',').map_values(|item: Seq<char>| trim(item))
}

/// A list that is written with commas and blanks reads back item by item.
pub proof fn law_lists_read_back(parts: Seq<Seq<char>>)
    requires
        parts.len() > 0,
        forall|i: int|
            0 <= i < parts.len() ==> visible_ends(#[trigger] parts[i]) && !parts[i].contains(','),
    ensures
        list_items(join(parts, ", "@)) == parts,
{
    lemma_split_padded(parts);
    assert(list_items(join(parts, ", "@)) =~= parts);
}

/// White space is what Unicode calls so, by its numbers.
pub proof fn law_white_space(c: char)
    ensures
        is_space(c) <==> {
            let n = c as int;
            ||| 9 <= n <= 13
            ||| n == 32
            ||| n == 133
            ||| n == 160
            ||| n == 5760
            ||| 8192 <= n <= 8202
            ||| n == 8232
            ||| n == 8233
            ||| n == 8239
            ||| n == 8287
            ||| n == 12288
        },
{
}

} // verus!
