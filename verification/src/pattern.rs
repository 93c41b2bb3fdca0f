//! The patterns of declared routes: the parameters that they name, and which
//! patterns are refused.

use crate::error::text_option;
use crate::routing::capture_name;
use crate::routing::captured;
use crate::routing::matched;
use crate::routing::rest_name;
use crate::routing::rest_token_name;
use crate::text::chars_of;
use crate::text::join;
use crate::text::law_join_of_split;
use crate::text::lemma_split_non_empty;
use crate::text::non_empty;
use crate::text::push_text;
use crate::text::segments_of;
use crate::text::split;
use crate::text::split_str;
use crate::text::starts_with;
use crate::text::string_of;
use crate::text::strip_prefix;
use crate::text::sub_chars;
use crate::text::views;
use vstd::prelude::*;

verus! {

// ---------------------------------------------------------------------------
// The parameters of a pattern
// ---------------------------------------------------------------------------

/// Where the first brace that closes lies, from `i` on; the end where there is
/// none.
pub open spec fn closing(s: Seq<char>, i: int) -> int
    decreases s.len() - i,
{
    if i >= s.len() || s[i] == '}' {
        i
    } else {
        closing(s, i + 1)
    }
}

/// The name that is written between braces: dots in front mark a rest
/// parameter and are no part of its name.
pub open spec fn bare_name(inner: Seq<char>) -> Seq<char> {
    if starts_with(inner, "..."@) {
        inner.skip(3)
    } else {
        inner
    }
}

/// A list of names with one more, unless that is empty.
pub open spec fn with_name(names: Seq<Seq<char>>, name: Seq<char>) -> Seq<Seq<char>> {
    if name.len() == 0 {
        names
    } else {
        names.push(name)
    }
}

/// The names in braces, from `i` on, behind those in `names`.
pub open spec fn names_from(s: Seq<char>, i: int, names: Seq<Seq<char>>) -> Seq<Seq<char>>
    decreases s.len() - i,
    when 0 <= i
{
    if i >= s.len() {
        names
    } else if s[i] != '{' {
        names_from(s, i + 1, names)
    } else {
        proof {
            lemma_closing(s, i + 1);
        }
        let end = closing(s, i + 1);
        let longer = with_name(names, bare_name(s.subrange(i + 1, end)));
        if end >= s.len() {
            longer
        } else {
            names_from(s, end + 1, longer)
        }
    }
}

/// The names of the parameters in a pattern, in order.
pub open spec fn path_param_names(pattern: Seq<char>) -> Seq<Seq<char>> {
    names_from(pattern, 0, Seq::empty())
}

pub proof fn lemma_closing(s: Seq<char>, i: int)
    requires
        0 <= i <= s.len(),
    ensures
        i <= closing(s, i) <= s.len(),
    decreases s.len() - i,
{
    if i < s.len() && s[i] != '}' {
        lemma_closing(s, i + 1);
    }
}

fn find_closing(s: &[char], from: usize) -> (r: usize)
    requires
        from <= s@.len(),
    ensures
        r == closing(s@, from as int),
        from <= r <= s@.len(),
{
    let mut i: usize = from;
    while i < s.len() && s[i] != '}'
        invariant
            from <= i <= s@.len(),
            closing(s@, from as int) == closing(s@, i as int),
        decreases s.len() - i,
    {
        i = i + 1;
    }
    i
}

/// The names of the parameters in a pattern, in order.
pub fn extract_path_params(pattern: &str) -> (r: Vec<String>)
    ensures
        views(r@) == path_param_names(pattern@),
{
    let s = chars_of(pattern);
    let mut names: Vec<String> = Vec::new();
    let mut i: usize = 0;
    assert(views(names@) =~= Seq::<Seq<char>>::empty());
    while i < s.len()
        invariant
            s@ == pattern@,
            i <= s@.len(),
            names_from(s@, 0, Seq::empty()) == names_from(s@, i as int, views(names@)),
        decreases s.len() - i,
    {
        if s[i] != '{' {
            i = i + 1;
        } else {
            let end: usize = find_closing(&s, i + 1);
            let inner = string_of(&sub_chars(&s, i + 1, end));
            let ghost before = views(names@);
            let name = match strip_prefix(&inner, "...") {
                Some(name) => name,
                None => inner,
            };
            proof {
                reveal_strlit("...");
                assert(name@ == bare_name(s@.subrange(i + 1, end as int)));
            }
            if name.as_str().unicode_len() > 0 {
                names.push(name);
            }
            assert(views(names@) =~= with_name(before, name@));
            i = if end < s.len() {
                end + 1
            } else {
                end
            };
        }
    }
    names
}

/// The name of a segment that takes the rest of the path.
pub fn rest_param_name(segment: &str) -> (r: Option<String>)
    ensures
        text_option(r) == rest_name(segment@),
{
    rest_token_name(segment)
}

// ---------------------------------------------------------------------------
// Patterns that are refused
// ---------------------------------------------------------------------------

/// What stands between the braces of a segment that was meant to take the rest
/// of the path: something that begins with a dot.
pub open spec fn dotted(segment: Seq<char>) -> Option<Seq<char>> {
    match capture_name(segment) {
        Some(inner) => if inner.len() > 0 && inner[0] == '.' {
            Some(inner)
        } else {
            None
        },
        None => None,
    }
}

/// What is said of a rest parameter that is not written as one.
pub open spec fn malformed_text(inner: Seq<char>, pattern: Seq<char>) -> Seq<char> {
    "malformed rest parameter `{"@ + inner + "}` in route pattern `"@ + pattern
        + "`; write it as `{...name}` (three dots, then a non-empty name)"@
}

/// What is said of a rest parameter that has segments behind it.
pub open spec fn not_last_text(inner: Seq<char>, pattern: Seq<char>) -> Seq<char> {
    "rest parameter `{"@ + inner + "}` must be the last segment of route pattern `"@ + pattern
        + "` (it captures the entire remaining path)"@
}

/// What is wrong with a segment of a pattern.
pub open spec fn segment_fault(segment: Seq<char>, last: bool, pattern: Seq<char>) -> Option<
    Seq<char>,
> {
    match dotted(segment) {
        Some(inner) => if rest_name(segment) is None {
            Some(malformed_text(inner, pattern))
        } else if !last {
            Some(not_last_text(inner, pattern))
        } else {
            None
        },
        None => None,
    }
}

/// What is wrong with the first segment, from `i` on, with which anything is.
pub open spec fn fault_from(parts: Seq<Seq<char>>, i: int, pattern: Seq<char>) -> Option<Seq<char>>
    decreases parts.len() - i,
{
    if i >= parts.len() {
        None
    } else {
        match segment_fault(parts[i], i == parts.len() - 1, pattern) {
            Some(text) => Some(text),
            None => fault_from(parts, i + 1, pattern),
        }
    }
}

/// What is wrong with a pattern.
pub open spec fn pattern_fault(pattern: Seq<char>) -> Option<Seq<char>> {
    fault_from(split(pattern, '/'), 0, pattern)
}

fn fault_message(front: &str, inner: &str, middle: &str, pattern: &str, end: &str) -> (r: String)
    ensures
        r@ == front@ + inner@ + middle@ + pattern@ + end@,
{
    let mut out = front.to_owned();
    push_text(&mut out, inner);
    push_text(&mut out, middle);
    push_text(&mut out, pattern);
    push_text(&mut out, end);
    out
}

/// Refuses a pattern whose rest parameter is badly written or has segments
/// behind it.
pub fn validate_pattern(pattern: &str) -> (r: Result<(), String>)
    ensures
        r is Ok <==> pattern_fault(pattern@) is None,
        r matches Err(text) ==> pattern_fault(pattern@) == Some(text@),
{
    let parts = split_str(pattern, '/');
    let mut i: usize = 0;
    while i < parts.len()
        invariant
            views(parts@) == split(pattern@, '/'),
            i <= parts@.len(),
            pattern_fault(pattern@) == fault_from(views(parts@), i as int, pattern@),
        decreases parts.len() - i,
    {
        let segment = parts[i].as_str();
        assert(segment@ == views(parts@)[i as int]);
        let chars = chars_of(segment);
        let n: usize = chars.len();
        if n >= 3 && chars[0] == '{' && chars[n - 1] == '}' && chars[1] == '.' {
            let inner = string_of(&sub_chars(&chars, 1, n - 1));
            assert(dotted(segment@) == Some(inner@));
            if rest_param_name(segment).is_none() {
                return Err(
                    fault_message(
                        "malformed rest parameter `{",
                        &inner,
                        "}` in route pattern `",
                        pattern,
                        "`; write it as `{...name}` (three dots, then a non-empty name)",
                    ),
                );
            }
            if i != parts.len() - 1 {
                return Err(
                    fault_message(
                        "rest parameter `{",
                        &inner,
                        "}` must be the last segment of route pattern `",
                        pattern,
                        "` (it captures the entire remaining path)",
                    ),
                );
            }
        } else {
            assert(dotted(segment@) is None);
        }
        i = i + 1;
    }
    Ok(())
}

proof fn lemma_no_fault(parts: Seq<Seq<char>>, i: int, pattern: Seq<char>)
    requires
        0 <= i <= parts.len(),
    ensures
        fault_from(parts, i, pattern) is None <==> forall|k: int|
            i <= k < parts.len() && dotted(#[trigger] parts[k]) is Some ==> rest_name(parts[k])
                is Some && k == parts.len() - 1,
    decreases parts.len() - i,
{
    if i < parts.len() {
        lemma_no_fault(parts, i + 1, pattern);
        if fault_from(parts, i, pattern) is None {
            assert forall|k: int|
                i <= k < parts.len() && dotted(#[trigger] parts[k]) is Some implies rest_name(
                parts[k],
            ) is Some && k == parts.len() - 1 by {
                if k == i {
                    assert(segment_fault(parts[i], i == parts.len() - 1, pattern) is None);
                }
            }
        } else {
            if segment_fault(parts[i], i == parts.len() - 1, pattern) is Some {
                assert(dotted(parts[i]) is Some);
            }
        }
    }
}

/// A pattern is accepted if and only if every segment that was meant to take
/// the rest of the path is written so, and is the last one. There is then no
/// second one.
pub proof fn law_rest_parameters_come_last(pattern: Seq<char>)
    ensures
        pattern_fault(pattern) is None <==> forall|k: int|
            0 <= k < split(pattern, '/').len() && dotted(#[trigger] split(pattern, '/')[k]) is Some
                ==> rest_name(split(pattern, '/')[k]) is Some && k == split(pattern, '/').len() - 1,
        pattern_fault(pattern) is None ==> forall|k: int|
            0 <= k < split(pattern, '/').len() && rest_name(#[trigger] split(pattern, '/')[k])
                is Some ==> k == split(pattern, '/').len() - 1,
{
    let parts = split(pattern, '/');
    lemma_no_fault(parts, 0, pattern);
    assert forall|k: int| 0 <= k < parts.len() && rest_name(#[trigger] parts[k]) is Some implies dotted(
        parts[k],
    ) is Some by {
        let segment = parts[k];
        reveal_strlit("{...");
        assert(segment.take(4)[0] == segment[0] && segment.take(4)[1] == segment[1]);
    }
}

// ---------------------------------------------------------------------------
// Patterns and what they capture
// ---------------------------------------------------------------------------

/// Whether the braces of a segment, where it has any, stand around the whole
/// of it.
pub open spec fn tidy(segment: Seq<char>) -> bool {
    !segment.contains('{') || (capture_name(segment) matches Some(inner) && !inner.contains('}'))
}

/// A list of names with that of a segment, where it names one.
pub open spec fn with_segment(names: Seq<Seq<char>>, segment: Seq<char>) -> Seq<Seq<char>> {
    if segment.contains('{') {
        with_name(names, bare_name(capture_name(segment)->0))
    } else {
        names
    }
}

/// The names of segments, in order, behind those in `names`.
pub open spec fn segment_names(parts: Seq<Seq<char>>, names: Seq<Seq<char>>) -> Seq<Seq<char>>
    decreases parts.len(),
{
    if parts.len() == 0 {
        names
    } else {
        with_segment(segment_names(parts.drop_last(), names), parts.last())
    }
}

/// Whether a text stands at a place.
spec fn text_at(s: Seq<char>, i: int, part: Seq<char>) -> bool {
    0 <= i && i + part.len() <= s.len() && s.subrange(i, i + part.len()) == part
}

proof fn lemma_closing_at(s: Seq<char>, i: int, end: int)
    requires
        0 <= i <= end < s.len(),
        s[end] == '}',
        forall|k: int| i <= k < end ==> #[trigger] s[k] != '}',
    ensures
        closing(s, i) == end,
    decreases end - i,
{
    if i < end {
        assert(s[i] != '}');
        lemma_closing_at(s, i + 1, end);
    }
}

proof fn lemma_names_over_plain(s: Seq<char>, i: int, j: int, names: Seq<Seq<char>>)
    requires
        0 <= i <= j <= s.len(),
        forall|k: int| i <= k < j ==> #[trigger] s[k] != '{',
    ensures
        names_from(s, i, names) == names_from(s, j, names),
    decreases j - i,
{
    if i < j {
        assert(s[i] != '{');
        lemma_names_over_plain(s, i + 1, j, names);
    }
}

proof fn lemma_names_over_segment(s: Seq<char>, i: int, segment: Seq<char>, names: Seq<Seq<char>>)
    requires
        text_at(s, i, segment),
        tidy(segment),
    ensures
        names_from(s, i, names) == names_from(
            s,
            i + segment.len(),
            with_segment(names, segment),
        ),
{
    let j = i + segment.len();
    assert forall|k: int| 0 <= k < segment.len() implies s[i + k] == #[trigger] segment[k] by {
        assert(s.subrange(i, j)[k] == segment[k]);
    }
    if !segment.contains('{') {
        assert forall|k: int| i <= k < j implies #[trigger] s[k] != '{' by {
            assert(s[i + (k - i)] == segment[k - i]);
            assert(segment.contains(segment[k - i]));
        }
        lemma_names_over_plain(s, i, j, names);
    } else {
        let inner = capture_name(segment)->0;
        let end = j - 1;
        assert(s[i + 0] == segment[0]);
        assert(s[i + (segment.len() - 1)] == segment[segment.len() - 1]);
        assert forall|k: int| i + 1 <= k < end implies #[trigger] s[k] != '}' by {
            assert(s[i + (k - i)] == segment[k - i]);
            assert(inner[k - i - 1] == segment[k - i]);
            assert(inner.contains(inner[k - i - 1]));
        }
        lemma_closing_at(s, i + 1, end);
        assert(s.subrange(i + 1, end) =~= inner) by {
            assert forall|k: int| 0 <= k < inner.len() implies s.subrange(i + 1, end)[k]
                == inner[k] by {
                assert(s[i + (k + 1)] == segment[k + 1]);
            }
        }
        assert(names_from(s, end + 1, with_segment(names, segment)) == names_from(
            s,
            i,
            names,
        ));
    }
}

proof fn lemma_names_of_joined(
    parts: Seq<Seq<char>>,
    tail: Seq<char>,
    names: Seq<Seq<char>>,
)
    requires
        parts.len() > 0,
        forall|k: int| 0 <= k < parts.len() ==> tidy(#[trigger] parts[k]),
    ensures
        names_from(join(parts, seq!['/']) + tail, 0, names) == names_from(
            join(parts, seq!['/']) + tail,
            join(parts, seq!['/']).len() as int,
            segment_names(parts, names),
        ),
    decreases parts.len(),
{
    let whole = join(parts, seq!['/']);
    let s = whole + tail;
    let last = parts.last();
    let front = parts.drop_last();
    assert(tidy(parts[parts.len() - 1]));
    assert forall|k: int| 0 <= k < front.len() implies tidy(#[trigger] front[k]) by {
        assert(front[k] == parts[k]);
    }
    if parts.len() == 1 {
        assert(s.subrange(0, last.len() as int) =~= last);
        lemma_names_over_segment(s, 0, last, names);
        assert(segment_names(front, names) == names);
    } else {
        let x = join(front, seq!['/']);
        let rest = seq!['/'] + last + tail;
        assert(s =~= x + rest);
        lemma_names_of_joined(front, rest, names);
        let before = segment_names(front, names);
        let i = x.len() as int;
        assert(s[i] == '/');
        lemma_names_over_plain(s, i, i + 1, before);
        assert(s.subrange(i + 1, i + 1 + last.len()) =~= last);
        lemma_names_over_segment(s, i + 1, last, before);
    }
}

proof fn lemma_names_are_segments(parts: Seq<Seq<char>>, name: Seq<char>)
    requires
        segment_names(parts, Seq::empty()).contains(name),
    ensures
        exists|k: int|
            0 <= k < parts.len() && (#[trigger] parts[k]).contains('{') && bare_name(
                capture_name(parts[k])->0,
            ) == name && name.len() > 0,
    decreases parts.len(),
{
    if parts.len() > 0 {
        let front = parts.drop_last();
        let before = segment_names(front, Seq::empty());
        let all = segment_names(parts, Seq::empty());
        let at = choose|at: int| 0 <= at < all.len() && all[at] == name;
        if at < before.len() {
            assert(before[at] == name);
            lemma_names_are_segments(front, name);
            let k = choose|k: int|
                0 <= k < front.len() && (#[trigger] front[k]).contains('{') && bare_name(
                    capture_name(front[k])->0,
                ) == name && name.len() > 0;
            assert(parts[k] == front[k]);
        } else {
            assert(parts[parts.len() - 1].contains('{'));
        }
    }
}

proof fn lemma_kept_segment(parts: Seq<Seq<char>>, k: int)
    requires
        0 <= k < parts.len(),
        parts[k].len() > 0,
    ensures
        exists|i: int|
            0 <= i < non_empty(parts).len() && #[trigger] non_empty(parts)[i] == parts[k],
        k == parts.len() - 1 ==> non_empty(parts).len() > 0 && non_empty(parts).last() == parts[k],
    decreases parts.len(),
{
    let front = parts.drop_last();
    if k < parts.len() - 1 {
        lemma_kept_segment(front, k);
        let i = choose|i: int|
            0 <= i < non_empty(front).len() && #[trigger] non_empty(front)[i] == front[k];
        assert(non_empty(parts)[i] == parts[k]);
    } else {
        let i = non_empty(parts).len() - 1;
        assert(non_empty(parts)[i] == parts[k]);
    }
}

proof fn lemma_captured_name(patterns: Seq<Seq<char>>, parts: Seq<Seq<char>>, i: int)
    requires
        0 <= i < patterns.len(),
        capture_name(patterns[i]) is Some,
    ensures
        captured(patterns, parts).contains_key(capture_name(patterns[i])->0),
    decreases patterns.len(),
{
    if i < patterns.len() - 1 {
        lemma_captured_name(patterns.drop_last(), parts, i);
    }
}

proof fn lemma_segment_is_named(parts: Seq<Seq<char>>, k: int)
    requires
        0 <= k < parts.len(),
        parts[k].contains('{'),
        bare_name(capture_name(parts[k])->0).len() > 0,
    ensures
        segment_names(parts, Seq::empty()).contains(bare_name(capture_name(parts[k])->0)),
    decreases parts.len(),
{
    let front = parts.drop_last();
    let before = segment_names(front, Seq::empty());
    let all = segment_names(parts, Seq::empty());
    let name = bare_name(capture_name(parts[k])->0);
    if k < parts.len() - 1 {
        assert(front[k] == parts[k]);
        lemma_segment_is_named(front, k);
        let at = choose|at: int| 0 <= at < before.len() && before[at] == name;
        assert(all[at] == name);
    } else {
        assert(all[before.len() as int] == name);
    }
}

proof fn lemma_segment_was_kept(parts: Seq<Seq<char>>, i: int)
    requires
        0 <= i < non_empty(parts).len(),
    ensures
        exists|k: int|
            0 <= k < parts.len() && #[trigger] parts[k] == non_empty(parts)[i] && (i
                < non_empty(parts).len() - 1 ==> k < parts.len() - 1),
    decreases parts.len(),
{
    let front = parts.drop_last();
    if i < non_empty(front).len() {
        lemma_segment_was_kept(front, i);
        let k = choose|k: int|
            0 <= k < front.len() && #[trigger] front[k] == non_empty(front)[i] && (i
                < non_empty(front).len() - 1 ==> k < front.len() - 1);
        assert(parts[k] == non_empty(parts)[i]);
    } else {
        assert(parts[parts.len() - 1] == non_empty(parts)[i]);
    }
}

proof fn lemma_captured_is_named(patterns: Seq<Seq<char>>, parts: Seq<Seq<char>>, name: Seq<char>)
    requires
        captured(patterns, parts).contains_key(name),
    ensures
        exists|i: int|
            0 <= i < patterns.len() && capture_name(#[trigger] patterns[i]) == Some(name),
    decreases patterns.len(),
{
    if patterns.len() > 0 {
        let front = patterns.drop_last();
        if capture_name(patterns.last()) == Some(name) {
            assert(capture_name(patterns[patterns.len() - 1]) == Some(name));
        } else {
            lemma_captured_is_named(front, parts, name);
            let i = choose|i: int|
                0 <= i < front.len() && capture_name(#[trigger] front[i]) == Some(name);
            assert(patterns[i] == front[i]);
        }
    }
}

/// The name of a rest parameter is that between its braces, without the dots;
/// one between braces that begins with no dot is the whole of what they hold.
proof fn lemma_bare_names(segment: Seq<char>)
    requires
        capture_name(segment) is Some,
    ensures
        dotted(segment) is None ==> rest_name(segment) is None && bare_name(
            capture_name(segment)->0,
        ) == capture_name(segment)->0,
        rest_name(segment) matches Some(name) ==> dotted(segment) is Some && bare_name(
            capture_name(segment)->0,
        ) == name,
{
    let inner = capture_name(segment)->0;
    reveal_strlit("...");
    reveal_strlit("{...");
    if rest_name(segment) is Some {
        assert(segment.take(4)[1] == segment[1] && segment.take(4)[2] == segment[2]
            && segment.take(4)[3] == segment[3]);
        assert(inner.take(3) =~= "..."@);
        assert(inner.skip(3) =~= rest_name(segment)->0);
    }
    if starts_with(inner, "..."@) {
        assert(inner.take(3)[0] == inner[0]);
    }
}

proof fn lemma_named_is_captured(pattern: Seq<char>, path: Seq<char>, k: int)
    requires
        pattern_fault(pattern) is None,
        matched(pattern, path) is Some,
        0 <= k < split(pattern, '/').len(),
        capture_name(split(pattern, '/')[k]) is Some,
    ensures
        matched(pattern, path)->0.contains_key(bare_name(capture_name(split(pattern, '/')[k])->0)),
{
    let parts = split(pattern, '/');
    let patterns = segments_of(pattern);
    let taken = segments_of(path);
    let segment = parts[k];
    law_rest_parameters_come_last(pattern);
    lemma_kept_segment(parts, k);
    lemma_bare_names(segment);
    if dotted(segment) is None {
        let i = choose|i: int| 0 <= i < patterns.len() && #[trigger] patterns[i] == segment;
        if rest_name(patterns.last()) is Some {
            let fixed = patterns.drop_last();
            let n = fixed.len() as int;
            assert(fixed[i] == segment);
            lemma_captured_name(fixed, taken.take(n), i);
        } else {
            lemma_captured_name(patterns, taken, i);
        }
    }
}

/// A name that is captured stands between the braces of a segment.
proof fn lemma_captured_has_segment(pattern: Seq<char>, path: Seq<char>, name: Seq<char>)
    requires
        pattern_fault(pattern) is None,
        matched(pattern, path) is Some,
        matched(pattern, path)->0.contains_key(name),
    ensures
        exists|k: int|
            0 <= k < split(pattern, '/').len() && capture_name(
                #[trigger] split(pattern, '/')[k],
            ) is Some && bare_name(capture_name(split(pattern, '/')[k])->0) == name,
{
    let parts = split(pattern, '/');
    let patterns = segments_of(pattern);
    let taken = segments_of(path);
    let last = patterns.len() - 1;
    law_rest_parameters_come_last(pattern);
    let rest = patterns.len() > 0 && rest_name(patterns.last()) is Some;
    if rest && rest_name(patterns.last()) == Some(name) {
        lemma_segment_was_kept(parts, last);
        let k = choose|k: int|
            0 <= k < parts.len() && #[trigger] parts[k] == patterns[last] && (last
                < patterns.len() - 1 ==> k < parts.len() - 1);
        reveal_strlit("{...");
        assert(parts[k].take(4)[0] == parts[k][0]);
        lemma_bare_names(parts[k]);
    } else {
        let fixed = if rest {
            patterns.drop_last()
        } else {
            patterns
        };
        assert(taken.take(taken.len() as int) =~= taken);
        lemma_captured_is_named(fixed, taken.take(fixed.len() as int), name);
        let i = choose|i: int| 0 <= i < fixed.len() && capture_name(#[trigger] fixed[i]) == Some(name);
        assert(fixed[i] == patterns[i]);
        lemma_segment_was_kept(parts, i);
        let k = choose|k: int|
            0 <= k < parts.len() && #[trigger] parts[k] == patterns[i] && (i < patterns.len() - 1
                ==> k < parts.len() - 1);
        lemma_bare_names(parts[k]);
        if dotted(parts[k]) is Some {
            assert(rest_name(parts[k]) is Some && k == parts.len() - 1);
            assert(i == last);
        }
    }
}

/// The parameters that a pattern names are those of its segments, in order, and
/// wherever the pattern matches these are captured and nothing else: no argument
/// that is read from the path is ever missing. Empty braces name nothing, and
/// capture under the empty name. The braces of a segment have to stand around
/// the whole of it.
pub proof fn law_named_parameters_are_captured(pattern: Seq<char>, path: Seq<char>)
    requires
        pattern_fault(pattern) is None,
        forall|k: int| 0 <= k < split(pattern, '/').len() ==> tidy(#[trigger] split(pattern, '/')[k]),
    ensures
        path_param_names(pattern) == segment_names(split(pattern, '/'), Seq::empty()),
        matched(pattern, path) matches Some(m) ==> forall|name: Seq<char>| #[trigger]
            m.contains_key(name) <==> path_param_names(pattern).contains(name) || (name.len() == 0
                && split(pattern, '/').contains(seq!['{', '}'])),
{
    let parts = split(pattern, '/');
    lemma_split_non_empty(pattern, '/');
    law_join_of_split(pattern, '/');
    lemma_names_of_joined(parts, Seq::empty(), Seq::empty());
    assert(pattern + Seq::<char>::empty() =~= pattern);
    if matched(pattern, path) is Some {
        let m = matched(pattern, path)->0;
        let names = path_param_names(pattern);
        assert forall|name: Seq<char>| #[trigger] m.contains_key(name) <==> names.contains(name) || (
        name.len() == 0 && parts.contains(seq!['{', '}'])) by {
            if names.contains(name) {
                lemma_names_are_segments(parts, name);
                let k = choose|k: int|
                    0 <= k < parts.len() && (#[trigger] parts[k]).contains('{') && bare_name(
                        capture_name(parts[k])->0,
                    ) == name && name.len() > 0;
                assert(tidy(parts[k]));
                lemma_named_is_captured(pattern, path, k);
            }
            if name.len() == 0 && parts.contains(seq!['{', '}']) {
                let k = parts.index_of(seq!['{', '}']);
                assert(parts[k] == seq!['{', '}']);
                assert(capture_name(parts[k])->0 =~= name);
                lemma_bare_names(parts[k]);
                lemma_named_is_captured(pattern, path, k);
            }
            if m.contains_key(name) {
                lemma_captured_has_segment(pattern, path, name);
                let k = choose|k: int|
                    0 <= k < parts.len() && capture_name(#[trigger] parts[k]) is Some && bare_name(
                        capture_name(parts[k])->0,
                    ) == name;
                assert(parts[k][0] == '{');
                assert(parts[k].contains('{'));
                if name.len() > 0 {
                    lemma_segment_is_named(parts, k);
                } else {
                    law_rest_parameters_come_last(pattern);
                    lemma_bare_names(parts[k]);
                    assert(parts[k] =~= seq!['{', '}']);
                    assert(parts.contains(parts[k]));
                }
            }
        }
    }
}

/// Which patterns are refused, by their segments: one in braces that begins
/// with a dot has to have three dots and a name behind them, and has to be the
/// last. Every other pattern is accepted.
pub proof fn law_which_patterns_are_refused(pattern: Seq<char>)
    ensures
        pattern_fault(pattern) is None <==> forall|k: int|
            0 <= k < split(pattern, '/').len() ==> {
                let s = #[trigger] split(pattern, '/')[k];
                s.len() >= 3 && s[0] == '{' && s[1] == '.' && s[s.len() - 1] == '}' ==> s.len() >= 6
                    && s[2] == '.' && s[3] == '.' && k == split(pattern, '/').len() - 1
            },
{
    let parts = split(pattern, '/');
    law_rest_parameters_come_last(pattern);
    reveal_strlit("{...");
    assert("{..."@ =~= seq!['{', '.', '.', '.']);
    assert forall|k: int| 0 <= k < parts.len() implies {
        let s = #[trigger] parts[k];
        &&& dotted(s) is Some <==> s.len() >= 3 && s[0] == '{' && s[1] == '.' && s[s.len() - 1] == '}'
        &&& dotted(s) is Some ==> (rest_name(s) is Some <==> s.len() >= 6 && s[2] == '.' && s[3]
            == '.')
    } by {
        let s = parts[k];
        if s.len() >= 2 && s[0] == '{' && s[s.len() - 1] == '}' {
            let inner = s.subrange(1, s.len() - 1);
            assert(capture_name(s) == Some(inner));
            assert(inner.len() > 0 ==> inner[0] == s[1]);
        }
        if s.len() > 5 {
            let front = s.take(4);
            assert(front[0] == s[0] && front[1] == s[1] && front[2] == s[2] && front[3] == s[3]);
            if s[0] == '{' && s[1] == '.' && s[2] == '.' && s[3] == '.' {
                assert(front =~= "{..."@);
            }
        }
    }
}

/// What is said of a refused pattern tells the pattern, and what stands between
/// the braces of the first segment that is at fault.
pub proof fn law_refusals_tell_the_pattern(pattern: Seq<char>)
    ensures
        pattern_fault(pattern) matches Some(text) ==> exists|k: int, a: Seq<char>, b: Seq<char>, c: Seq<
            char,
        >|
            0 <= k < split(pattern, '/').len() && text == #[trigger] (a + split(pattern, '/')[k].subrange(
                1,
                split(pattern, '/')[k].len() - 1,
            ) + b + pattern + c),
{
    if pattern_fault(pattern) is Some {
        lemma_fault_tells(split(pattern, '/'), 0, pattern);
    }
}

proof fn lemma_fault_tells(parts: Seq<Seq<char>>, i: int, pattern: Seq<char>)
    requires
        0 <= i,
        fault_from(parts, i, pattern) is Some,
    ensures
        exists|k: int, a: Seq<char>, b: Seq<char>, c: Seq<char>|
            0 <= k < parts.len() && fault_from(parts, i, pattern)->0 == #[trigger] (a
                + parts[k].subrange(1, parts[k].len() - 1) + b + pattern + c),
    decreases parts.len() - i,
{
    if i < parts.len() {
        match segment_fault(parts[i], i == parts.len() - 1, pattern) {
            Some(text) => {
                let inner = parts[i].subrange(1, parts[i].len() - 1);
                let x = "malformed rest parameter `{"@ + inner + "}` in route pattern `"@ + pattern
                    + "`; write it as `{...name}` (three dots, then a non-empty name)"@;
                let y = "rest parameter `{"@ + inner
                    + "}` must be the last segment of route pattern `"@ + pattern
                    + "` (it captures the entire remaining path)"@;
                assert(text == x || text == y);
            },
            None => {
                lemma_fault_tells(parts, i + 1, pattern);
            },
        }
    }
}

} // verus!
