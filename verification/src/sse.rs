//! Server-sent events and the frames that carry them.

use crate::cors::bytes_of;
use crate::durations::duration_nanos;
use crate::error::text_option;
use crate::finalizer::utf8;
use crate::numbers::decimal;
use crate::numbers::u64_to_string;
use crate::text::chars_of;
use crate::text::join;
use crate::text::law_join_of_split;
use crate::text::lemma_split_concat;
use crate::text::lemma_split_pieces;
use crate::text::lemma_split_without;
use crate::text::push_text;
use crate::text::split;
use crate::text::split_str;
use crate::text::starts_with;
use crate::text::views;
use std::time::Duration;
use vstd::prelude::*;

verus! {

// ---------------------------------------------------------------------------
// Model
// ---------------------------------------------------------------------------

/// What an event holds.
pub struct SseView {
    pub event: Option<Seq<char>>,
    pub id: Option<Seq<char>>,
    pub retry: Option<Duration>,
    pub data: Option<Seq<char>>,
    pub comment: Option<Seq<char>>,
}

/// An event that holds nothing.
pub open spec fn no_event() -> SseView {
    SseView { event: None, id: None, retry: None, data: None, comment: None }
}

/// A text with a space in place of every line break.
pub open spec fn single_lined(s: Seq<char>) -> Seq<char> {
    Seq::new(
        s.len(),
        |i: int|
            if s[i] == '\n' || s[i] == '\r' {
                ' '
            } else {
                s[i]
            },
    )
}

/// A span of time in whole milliseconds, held to what 64 bits can say.
pub open spec fn retry_millis(d: Duration) -> nat {
    let ms = duration_nanos(d) / 1_000_000;
    if ms > u64::MAX {
        u64::MAX as nat
    } else {
        ms
    }
}

/// A line of a comment.
pub open spec fn comment_line(text: Seq<char>) -> Seq<char> {
    if text.len() == 0 {
        ":"@
    } else {
        ": "@ + text
    }
}

/// The line of a field that may be absent.
pub open spec fn field_line(prefix: Seq<char>, value: Option<Seq<char>>) -> Seq<Seq<char>> {
    match value {
        Some(text) => seq![prefix + text],
        None => Seq::empty(),
    }
}

/// The lines of a comment that may be absent: one for each line of its text.
pub open spec fn comment_lines(comment: Option<Seq<char>>) -> Seq<Seq<char>> {
    match comment {
        Some(text) => split(text, '\n').map_values(|line: Seq<char>| comment_line(line)),
        None => Seq::empty(),
    }
}

/// The lines of data that may be absent: one for each line of its text.
pub open spec fn data_lines(data: Option<Seq<char>>) -> Seq<Seq<char>> {
    match data {
        Some(text) => split(text, '\n').map_values(|line: Seq<char>| "data: "@ + line),
        None => Seq::empty(),
    }
}

/// A text that may be absent, on one line.
pub open spec fn one_line(value: Option<Seq<char>>) -> Option<Seq<char>> {
    match value {
        Some(text) => Some(single_lined(text)),
        None => None,
    }
}

/// The time before a reconnection, written in milliseconds.
pub open spec fn retry_text(retry: Option<Duration>) -> Option<Seq<char>> {
    match retry {
        Some(d) => Some(decimal(retry_millis(d))),
        None => None,
    }
}

/// The lines of an event, without the blank one that ends it.
pub open spec fn frame_lines(v: SseView) -> Seq<Seq<char>> {
    field_line("event: "@, one_line(v.event)) + field_line("id: "@, one_line(v.id)) + field_line(
        "retry: "@,
        retry_text(v.retry),
    ) + comment_lines(v.comment) + data_lines(v.data)
}

/// Lines, each with a line feed behind it.
pub open spec fn terminated(lines: Seq<Seq<char>>) -> Seq<char>
    decreases lines.len(),
{
    if lines.len() == 0 {
        Seq::empty()
    } else {
        (terminated(lines.drop_last()) + lines.last()).push('\n')
    }
}

/// The text of an event: its lines and a blank one.
pub open spec fn frame(v: SseView) -> Seq<char> {
    terminated(frame_lines(v)).push('\n')
}

/// What a reader takes as the data of a frame: the values of the `data` lines
/// among `lines`.
pub open spec fn data_values(lines: Seq<Seq<char>>) -> Seq<Seq<char>>
    decreases lines.len(),
{
    if lines.len() == 0 {
        Seq::empty()
    } else if starts_with(lines.last(), "data: "@) {
        data_values(lines.drop_last()).push(lines.last().skip(6))
    } else {
        data_values(lines.drop_last())
    }
}

// ---------------------------------------------------------------------------
// Events
// ---------------------------------------------------------------------------

/// One event of a stream. It carries data or a comment, and a name, an id and
/// a time to wait before a reconnection where they are set.
#[derive(Clone, Debug)]
pub struct SseEvent {
    event: Option<String>,
    id: Option<String>,
    retry: Option<Duration>,
    data: Option<String>,
    comment: Option<String>,
}

impl View for SseEvent {
    type V = SseView;

    closed spec fn view(&self) -> SseView {
        SseView {
            event: text_option(self.event),
            id: text_option(self.id),
            retry: self.retry,
            data: text_option(self.data),
            comment: text_option(self.comment),
        }
    }
}

impl Default for SseEvent {
    fn default() -> (r: Self)
        ensures
            r@ == no_event(),
    {
        SseEvent { event: None, id: None, retry: None, data: None, comment: None }
    }
}

impl SseEvent {
    /// An event that carries `data`.
    pub fn data(data: &str) -> (r: Self)
        ensures
            r@ == (SseView { data: Some(data@), ..no_event() }),
    {
        SseEvent {
            event: None,
            id: None,
            retry: None,
            data: Some(data.to_owned()),
            comment: None,
        }
    }

    /// An event that is only a comment, which readers pass over. It keeps an
    /// idle connection open.
    pub fn comment(text: &str) -> (r: Self)
        ensures
            r@ == (SseView { comment: Some(text@), ..no_event() }),
    {
        SseEvent {
            event: None,
            id: None,
            retry: None,
            data: None,
            comment: Some(text.to_owned()),
        }
    }

    /// Sets the name of the event.
    pub fn event(self, name: &str) -> (r: Self)
        ensures
            r@ == (SseView { event: Some(name@), ..self@ }),
    {
        let mut out = self;
        out.event = Some(name.to_owned());
        out
    }

    /// Sets the id of the event.
    pub fn id(self, id: &str) -> (r: Self)
        ensures
            r@ == (SseView { id: Some(id@), ..self@ }),
    {
        let mut out = self;
        out.id = Some(id.to_owned());
        out
    }

    /// Sets how long a reader waits before it connects again.
    pub fn retry(self, d: Duration) -> (r: Self)
        ensures
            r@ == (SseView { retry: Some(d), ..self@ }),
    {
        let mut out = self;
        out.retry = Some(d);
        out
    }

    /// The bytes of the event, with the blank line that ends it.
    pub fn to_bytes(&self) -> (r: Vec<u8>)
        ensures
            r@ == utf8(frame(self@)),
    {
        let mut lines: Vec<String> = Vec::new();
        assert(views(lines@) =~= Seq::<Seq<char>>::empty());
        if let Some(name) = &self.event {
            push_line(&mut lines, "event: ", &single_line(name));
        }
        assert(views(lines@) =~= field_line("event: "@, one_line(self@.event)));
        if let Some(id) = &self.id {
            push_line(&mut lines, "id: ", &single_line(id));
        }
        assert(views(lines@) =~= field_line("event: "@, one_line(self@.event)) + field_line(
            "id: "@,
            one_line(self@.id),
        ));
        if let Some(d) = &self.retry {
            push_line(&mut lines, "retry: ", &u64_to_string(millis_of(d)));
        }
        let ghost fields = views(lines@);
        assert(fields =~= field_line("event: "@, one_line(self@.event)) + field_line(
            "id: "@,
            one_line(self@.id),
        ) + field_line("retry: "@, retry_text(self@.retry)));
        if let Some(comment) = &self.comment {
            push_comment(&mut lines, comment);
        }
        assert(views(lines@) =~= fields + comment_lines(self@.comment));
        if let Some(data) = &self.data {
            push_data(&mut lines, data);
        }
        assert(views(lines@) =~= frame_lines(self@));
        let mut out = terminate(&lines);
        out.push('\n');
        bytes_of(&out)
    }
}

/// Replaces line breaks with spaces.
pub fn single_line(s: &str) -> (r: String)
    ensures
        r@ == single_lined(s@),
{
    let chars = chars_of(s);
    let mut out = String::new();
    let mut i: usize = 0;
    while i < chars.len()
        invariant
            chars@ == s@,
            i <= chars@.len(),
            out@ == single_lined(s@).take(i as int),
        decreases chars.len() - i,
    {
        let c = chars[i];
        if c == '\n' || c == '\r' {
            out.push(' ');
        } else {
            out.push(c);
        }
        i = i + 1;
    }
    assert(single_lined(s@).take(s@.len() as int) =~= single_lined(s@));
    out
}

fn millis_of(d: &Duration) -> (r: u64)
    ensures
        r == retry_millis(*d),
{
    let ms: u128 = d.as_millis();
    if ms > 0xffff_ffff_ffff_ffffu128 {
        u64::MAX
    } else {
        ms as u64
    }
}

fn push_line(lines: &mut Vec<String>, prefix: &str, text: &str)
    ensures
        views(final(lines)@) == views(old(lines)@).push(prefix@ + text@),
{
    let mut line = prefix.to_owned();
    push_text(&mut line, text);
    lines.push(line);
    assert(views(lines@) =~= views(old(lines)@).push(prefix@ + text@));
}

fn push_comment(lines: &mut Vec<String>, comment: &str)
    ensures
        views(final(lines)@) == views(old(lines)@) + comment_lines(Some(comment@)),
{
    let pieces = split_str(comment, '\n');
    let ghost all = comment_lines(Some(comment@));
    let ghost before = views(lines@);
    let mut i: usize = 0;
    assert(before + all.take(0) =~= before);
    while i < pieces.len()
        invariant
            views(pieces@) == split(comment@, '\n'),
            all == comment_lines(Some(comment@)),
            i <= pieces@.len(),
            views(lines@) == before + all.take(i as int),
        decreases pieces.len() - i,
    {
        let ghost so_far = views(lines@);
        let piece = pieces[i].as_str();
        assert(piece@ == views(pieces@)[i as int]);
        let n: usize = piece.unicode_len();
        if n == 0 {
            push_line(lines, ":", "");
            assert(":"@ + ""@ =~= ":"@) by {
                reveal_strlit("");
            }
        } else {
            push_line(lines, ": ", piece);
        }
        assert(views(lines@) == so_far.push(comment_line(piece@)));
        assert(all[i as int] == comment_line(piece@));
        assert((before + all.take(i as int)).push(all[i as int]) =~= before + all.take(i + 1));
        i = i + 1;
    }
    assert(all.take(all.len() as int) =~= all);
}

fn push_data(lines: &mut Vec<String>, data: &str)
    ensures
        views(final(lines)@) == views(old(lines)@) + data_lines(Some(data@)),
{
    let pieces = split_str(data, '\n');
    let ghost all = data_lines(Some(data@));
    let ghost before = views(lines@);
    let mut i: usize = 0;
    assert(before + all.take(0) =~= before);
    while i < pieces.len()
        invariant
            views(pieces@) == split(data@, '\n'),
            all == data_lines(Some(data@)),
            i <= pieces@.len(),
            views(lines@) == before + all.take(i as int),
        decreases pieces.len() - i,
    {
        let piece = pieces[i].as_str();
        assert(piece@ == views(pieces@)[i as int]);
        push_line(lines, "data: ", piece);
        assert(all[i as int] == "data: "@ + piece@);
        assert((before + all.take(i as int)).push(all[i as int]) =~= before + all.take(i + 1));
        i = i + 1;
    }
    assert(all.take(all.len() as int) =~= all);
}

fn terminate(lines: &[String]) -> (r: String)
    ensures
        r@ == terminated(views(lines@)),
{
    let mut out = String::new();
    let ghost all = views(lines@);
    let mut i: usize = 0;
    assert(out@ =~= terminated(all.take(0)));
    while i < lines.len()
        invariant
            all == views(lines@),
            i <= lines@.len(),
            out@ == terminated(all.take(i as int)),
        decreases lines.len() - i,
    {
        push_text(&mut out, &lines[i]);
        out.push('\n');
        assert(all.take(i + 1).drop_last() =~= all.take(i as int));
        i = i + 1;
    }
    assert(all.take(all.len() as int) =~= all);
    out
}

// ---------------------------------------------------------------------------
// Laws
// ---------------------------------------------------------------------------

proof fn lemma_terminated_split(lines: Seq<Seq<char>>)
    requires
        forall|i: int| 0 <= i < lines.len() ==> !(#[trigger] lines[i]).contains('\n'),
    ensures
        split(terminated(lines), '\n') == lines.push(Seq::<char>::empty()),
    decreases lines.len(),
{
    let none = Seq::<char>::empty();
    if lines.len() == 0 {
        lemma_split_without(none, '\n');
        assert(seq![none] =~= lines.push(none));
    } else {
        let rest = lines.drop_last();
        let last = lines.last();
        assert forall|i: int| 0 <= i < rest.len() implies !(#[trigger] rest[i]).contains('\n') by {
            assert(rest[i] == lines[i]);
        }
        lemma_terminated_split(rest);
        lemma_split_without(last, '\n');
        lemma_split_without(none, '\n');
        let x = terminated(rest) + last;
        assert(split(x, '\n') =~= lines) by {
            if rest.len() == 0 {
                assert(x =~= last);
                assert(seq![last] =~= lines);
            } else {
                let y = terminated(rest.drop_last()) + rest.last();
                lemma_split_concat(y, last, '\n');
                lemma_split_concat(y, none, '\n');
                assert(y.push('\n') + none =~= y.push('\n'));
                assert((split(y, '\n') + seq![none]).drop_last() =~= split(y, '\n'));
                assert(rest.push(none).drop_last() =~= rest);
                assert(rest + seq![last] =~= lines);
            }
        }
        lemma_split_concat(x, none, '\n');
        assert(x.push('\n') + none =~= x.push('\n'));
        assert(lines + seq![none] =~= lines.push(none));
    }
}

proof fn lemma_prefixed(prefix: Seq<char>, text: Seq<char>)
    requires
        !prefix.contains('\n'),
        !text.contains('\n'),
    ensures
        !(prefix + text).contains('\n'),
{
    let whole = prefix + text;
    if whole.contains('\n') {
        let i = choose|i: int| 0 <= i < whole.len() && whole[i] == '\n';
        if i < prefix.len() {
            assert(prefix[i] == '\n');
        } else {
            assert(text[i - prefix.len()] == '\n');
        }
    }
}

proof fn lemma_decimal_digits(n: nat)
    ensures
        !decimal(n).contains('\n'),
{
    crate::numbers::law_decimal_reads_back(n);
    let s = decimal(n);
    if s.contains('\n') {
        let i = choose|i: int| 0 <= i < s.len() && s[i] == '\n';
        assert(crate::numbers::is_digit(s[i]));
    }
}

proof fn lemma_literals()
    ensures
        "event: "@ == seq!['e', 'v', 'e', 'n', 't', ':', ' '],
        "id: "@ == seq!['i', 'd', ':', ' '],
        "retry: "@ == seq!['r', 'e', 't', 'r', 'y', ':', ' '],
        "data: "@ == seq!['d', 'a', 't', 'a', ':', ' '],
        ":"@ == seq![':'],
        ": "@ == seq![':', ' '],
{
    reveal_strlit("event: ");
    reveal_strlit("id: ");
    reveal_strlit("retry: ");
    reveal_strlit("data: ");
    reveal_strlit(":");
    reveal_strlit(": ");
    assert("event: "@ =~= seq!['e', 'v', 'e', 'n', 't', ':', ' ']);
    assert("id: "@ =~= seq!['i', 'd', ':', ' ']);
    assert("retry: "@ =~= seq!['r', 'e', 't', 'r', 'y', ':', ' ']);
    assert("data: "@ =~= seq!['d', 'a', 't', 'a', ':', ' ']);
    assert(":"@ =~= seq![':']);
    assert(": "@ =~= seq![':', ' ']);
}

/// Whether lines are whole, not blank, and no `data` lines.
spec fn other_lines(lines: Seq<Seq<char>>) -> bool {
    forall|i: int|
        0 <= i < lines.len() ==> !(#[trigger] lines[i]).contains('\n') && lines[i].len() > 0
            && lines[i][0] != 'd'
}

proof fn lemma_other_lines(v: SseView)
    ensures
        other_lines(
            field_line("event: "@, one_line(v.event)) + field_line("id: "@, one_line(v.id))
                + field_line("retry: "@, retry_text(v.retry)) + comment_lines(v.comment),
        ),
{
    lemma_literals();
    let events = field_line("event: "@, one_line(v.event));
    let ids = field_line("id: "@, one_line(v.id));
    let retries = field_line("retry: "@, retry_text(v.retry));
    let comments = comment_lines(v.comment);
    assert(other_lines(events)) by {
        if let Some(t) = v.event {
            lemma_prefixed("event: "@, single_lined(t));
        }
    }
    assert(other_lines(ids)) by {
        if let Some(t) = v.id {
            lemma_prefixed("id: "@, single_lined(t));
        }
    }
    assert(other_lines(retries)) by {
        if let Some(d) = v.retry {
            lemma_decimal_digits(retry_millis(d));
            lemma_prefixed("retry: "@, decimal(retry_millis(d)));
        }
    }
    assert(other_lines(comments)) by {
        if let Some(t) = v.comment {
            lemma_split_pieces(t, '\n');
            assert forall|i: int| 0 <= i < comments.len() implies !(
            #[trigger] comments[i]).contains('\n') && comments[i].len() > 0 && comments[i][0]
                != 'd' by {
                let piece = split(t, '\n')[i];
                assert(comments[i] == comment_line(piece));
                lemma_prefixed(": "@, piece);
            }
        }
    }
    let all = events + ids + retries + comments;
    assert forall|i: int| 0 <= i < all.len() implies !(#[trigger] all[i]).contains('\n')
        && all[i].len() > 0 && all[i][0] != 'd' by {
        if i < events.len() {
            assert(all[i] == events[i]);
        } else if i < events.len() + ids.len() {
            assert(all[i] == ids[i - events.len()]);
        } else if i < events.len() + ids.len() + retries.len() {
            assert(all[i] == retries[i - events.len() - ids.len()]);
        } else {
            assert(all[i] == comments[i - events.len() - ids.len() - retries.len()]);
        }
    }
}

/// A frame is one event: read line by line it is the event's lines, none of
/// them blank, and the blank line that ends it. No text of an event can end it
/// early or begin another one.
pub proof fn law_one_event_per_frame(v: SseView)
    ensures
        split(frame(v), '\n') == frame_lines(v) + seq![Seq::<char>::empty(), Seq::<char>::empty()],
        forall|i: int| 0 <= i < frame_lines(v).len() ==> (#[trigger] frame_lines(v)[i]).len() > 0,
{
    lemma_literals();
    lemma_other_lines(v);
    let lines = frame_lines(v);
    let others = field_line("event: "@, one_line(v.event)) + field_line("id: "@, one_line(v.id))
        + field_line("retry: "@, retry_text(v.retry)) + comment_lines(v.comment);
    let none = Seq::<char>::empty();
    assert forall|i: int| 0 <= i < lines.len() implies !(#[trigger] lines[i]).contains('\n')
        && lines[i].len() > 0 by {
        if i < others.len() {
            assert(lines[i] == others[i]);
        } else {
            let text = v.data->0;
            let k = i - others.len();
            lemma_split_pieces(text, '\n');
            assert(lines[i] == data_lines(v.data)[k]);
            lemma_prefixed("data: "@, split(text, '\n')[k]);
        }
    }
    lemma_terminated_split(lines);
    let t = terminated(lines);
    lemma_split_concat(t, none, '\n');
    lemma_split_without(none, '\n');
    assert(t.push('\n') + none =~= t.push('\n'));
    assert(lines.push(none) + seq![none] =~= lines + seq![none, none]);
}

proof fn lemma_data_values_of_others(lines: Seq<Seq<char>>, tail: Seq<Seq<char>>)
    requires
        other_lines(lines),
    ensures
        data_values(lines + tail) == data_values(tail),
    decreases tail.len(),
{
    lemma_literals();
    if tail.len() > 0 {
        lemma_data_values_of_others(lines, tail.drop_last());
        assert((lines + tail).drop_last() =~= lines + tail.drop_last());
    } else {
        assert(lines + tail =~= lines);
        lemma_no_data_values(lines);
    }
}

proof fn lemma_no_data_values(lines: Seq<Seq<char>>)
    requires
        other_lines(lines),
    ensures
        data_values(lines) == Seq::<Seq<char>>::empty(),
    decreases lines.len(),
{
    lemma_literals();
    if lines.len() > 0 {
        let rest = lines.drop_last();
        assert(other_lines(rest)) by {
            assert forall|i: int| 0 <= i < rest.len() implies !(#[trigger] rest[i]).contains('\n')
                && rest[i].len() > 0 && rest[i][0] != 'd' by {
                assert(rest[i] == lines[i]);
            }
        }
        lemma_no_data_values(rest);
        let last = lines[lines.len() - 1];
        if starts_with(last, "data: "@) {
            assert(last.take(6)[0] == 'd');
        }
    }
}

proof fn lemma_data_values(pieces: Seq<Seq<char>>)
    ensures
        data_values(pieces.map_values(|line: Seq<char>| "data: "@ + line)) == pieces,
    decreases pieces.len(),
{
    let lines = pieces.map_values(|line: Seq<char>| "data: "@ + line);
    if pieces.len() == 0 {
        assert(data_values(lines) =~= pieces);
    } else {
        lemma_literals();
        let rest = pieces.drop_last();
        lemma_data_values(rest);
        assert(lines.drop_last() =~= rest.map_values(|line: Seq<char>| "data: "@ + line));
        let last = lines.last();
        assert(last == "data: "@ + pieces.last());
        assert(last.take(6) =~= "data: "@);
        assert(last.skip(6) =~= pieces.last());
        assert(rest.push(pieces.last()) =~= pieces);
    }
}

/// A reader gets the data back: the values of the frame's `data` lines, joined
/// with line feeds, are the data that was sent, and an event without data has
/// no such line.
pub proof fn law_data_reads_back(v: SseView)
    ensures
        v.data matches Some(data) ==> join(data_values(split(frame(v), '\n')), seq!['\n']) == data,
        v.data is None ==> data_values(split(frame(v), '\n')).len() == 0,
{
    law_one_event_per_frame(v);
    lemma_other_lines(v);
    lemma_literals();
    let none = Seq::<char>::empty();
    let others = field_line("event: "@, one_line(v.event)) + field_line("id: "@, one_line(v.id))
        + field_line("retry: "@, retry_text(v.retry)) + comment_lines(v.comment);
    let blank = seq![none, none];
    let whole = frame_lines(v) + blank;
    assert(data_values(whole) == data_values(frame_lines(v))) by {
        assert(whole.drop_last() =~= frame_lines(v).push(none));
        assert(whole.drop_last().drop_last() =~= frame_lines(v));
        assert(!starts_with(none, "data: "@));
        reveal_with_fuel(data_values, 3);
    }
    lemma_data_values_of_others(others, data_lines(v.data));
    if let Some(data) = v.data {
        lemma_data_values(split(data, '\n'));
        law_join_of_split(data, '\n');
    }
}

/// A text is put on one line character by character: every line feed and every
/// carriage return becomes a blank, and nothing else changes.
pub proof fn law_line_breaks_become_blanks(s: Seq<char>)
    ensures
        single_lined(s).len() == s.len(),
        forall|i: int|
            0 <= i < s.len() ==> (#[trigger] single_lined(s)[i] == if s[i] == '\n' || s[i] == '\r' {
                ' '
            } else {
                s[i]
            }),
        !s.contains('\n') && !s.contains('\r') ==> single_lined(s) == s,
{
    if !s.contains('\n') && !s.contains('\r') {
        assert forall|i: int| 0 <= i < s.len() implies single_lined(s)[i] == s[i] by {
            assert(s.contains(s[i]));
        }
        assert(single_lined(s) =~= s);
    }
}

/// The fields of an event stand in its frame, each on a line of its own and in
/// this order: its name, its id, the milliseconds before a reconnection, the
/// lines of its comment behind colons, and the lines of its data.
pub proof fn law_fields_stand_in_the_frame(v: SseView)
    ensures
        ({
            let lines = split(frame(v), '\n');
            let a: int = if v.event is Some {
                1
            } else {
                0
            };
            let b: int = if v.id is Some {
                a + 1
            } else {
                a
            };
            let c: int = if v.retry is Some {
                b + 1
            } else {
                b
            };
            let d: int = match v.comment {
                Some(text) => c + split(text, '\n').len(),
                None => c,
            };
            let e: int = match v.data {
                Some(text) => d + split(text, '\n').len(),
                None => d,
            };
            &&& lines.len() == e + 2
            &&& v.event matches Some(name) ==> lines[0] == seq!['e', 'v', 'e', 'n', 't', ':', ' ']
                + single_lined(name)
            &&& v.id matches Some(id) ==> lines[a] == seq!['i', 'd', ':', ' '] + single_lined(id)
            &&& v.retry matches Some(time) ==> lines[b] == seq!['r', 'e', 't', 'r', 'y', ':', ' ']
                + decimal(
                if duration_nanos(time) / 1_000_000 > u64::MAX {
                    u64::MAX as nat
                } else {
                    duration_nanos(time) / 1_000_000
                },
            )
            &&& v.comment matches Some(text) ==> forall|i: int|
                c <= i < d ==> {
                    let piece = split(text, '\n')[i - c];
                    #[trigger] lines[i] == if piece.len() == 0 {
                        seq![':']
                    } else {
                        seq![':', ' '] + piece
                    }
                }
            &&& v.data matches Some(text) ==> forall|i: int|
                d <= i < e ==> #[trigger] lines[i] == seq!['d', 'a', 't', 'a', ':', ' '] + split(
                    text,
                    '\n',
                )[i - d]
        }),
{
    law_one_event_per_frame(v);
    reveal_strlit("event: ");
    reveal_strlit("id: ");
    reveal_strlit("retry: ");
    reveal_strlit(":");
    reveal_strlit(": ");
    reveal_strlit("data: ");
    assert("event: "@ =~= seq!['e', 'v', 'e', 'n', 't', ':', ' ']);
    assert("id: "@ =~= seq!['i', 'd', ':', ' ']);
    assert("retry: "@ =~= seq!['r', 'e', 't', 'r', 'y', ':', ' ']);
    assert(":"@ =~= seq![':']);
    assert(": "@ =~= seq![':', ' ']);
    assert("data: "@ =~= seq!['d', 'a', 't', 'a', ':', ' ']);
}

/// An event with nothing set is a blank line.
pub proof fn law_an_event_with_nothing_set()
    ensures
        frame(no_event()) == seq!['\n'],
{
    assert(frame_lines(no_event()) =~= Seq::<Seq<char>>::empty());
    assert(frame(no_event()) =~= seq!['\n']);
}

} // verus!
