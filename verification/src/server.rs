//! Streaming text shaping for the chat endpoint: sentence buffering of
//! token-level deltas, and conversion of model events into UI events.
use vstd::prelude::*;
use crate::text::{chars_of, copy_range, push_chars, string_from_chars, str_eq, starts_with, starts_with_chars};
use crate::event::{Part, PartView, ModelEvent, parts_view};
use crate::audit::{truncate, truncated};

verus! {

broadcast use vstd::string::group_string_axioms;

/// A chunk with no sentence terminator is forced out once it holds this many characters.
pub const FLUSH_MAX_CHARS: usize = 80;

/// Chinese ideographs and the common Chinese punctuation ranges.
pub open spec fn cjk(c: char) -> bool {
    let u = c as u32;
    (0x4E00 <= u <= 0x9FFF) || (0x3400 <= u <= 0x4DBF) || (0x3000 <= u <= 0x303F) || (0xFF00
        <= u <= 0xFFEF)
}

/// Sentence terminators (newline included).
pub open spec fn terminator(c: char) -> bool {
    c == '。' || c == '！' || c == '？' || c == '；' || c == '\n' || c == '.' || c == '!' || c
        == '?' || c == ';'
}

pub open spec fn ascii_digit(c: char) -> bool {
    '0' <= c <= '9'
}

/// Whether the buffer may be cut right after position `i`: a terminator,
/// except a '.' standing between two ASCII digits (versions, addresses, decimals).
pub open spec fn cut_at(s: Seq<char>, i: int) -> bool {
    &&& terminator(s[i])
    &&& !(s[i] == '.' && i > 0 && ascii_digit(s[i - 1]) && i + 1 < s.len() && ascii_digit(
        s[i + 1],
    ))
}

/// The first cut position at or after `i`.
pub open spec fn first_cut(s: Seq<char>, i: int) -> Option<int>
    decreases s.len() - i,
{
    if i < 0 || i >= s.len() {
        None
    } else if cut_at(s, i) {
        Some(i)
    } else {
        first_cut(s, i + 1)
    }
}

pub proof fn lemma_first_cut(s: Seq<char>, i: int)
    requires
        0 <= i,
    ensures
        match first_cut(s, i) {
            Some(k) => i <= k < s.len() && cut_at(s, k) && forall|j: int| i <= j < k ==> !cut_at(s, j),
            None => forall|j: int| i <= j < s.len() ==> !cut_at(s, j),
        },
    decreases s.len() - i,
{
    if i < s.len() && !cut_at(s, i) {
        lemma_first_cut(s, i + 1);
    }
}

/// How a buffer is split: the chunks sent out, in order, and what stays pending.
/// A chunk ends at the first cut; a buffer with no cut is sent whole once it
/// reaches `FLUSH_MAX_CHARS` characters, and otherwise stays pending.
pub open spec fn flush_split(s: Seq<char>) -> (Seq<Seq<char>>, Seq<char>)
    decreases s.len(),
{
    if s.len() == 0 {
        (Seq::empty(), Seq::empty())
    } else {
        match first_cut(s, 0) {
            Some(p) => {
                proof {
                    lemma_first_cut(s, 0);
                }
                let r = flush_split(s.skip(p + 1));
                (seq![s.take(p + 1)] + r.0, r.1)
            },
            None => if s.len() >= FLUSH_MAX_CHARS {
                (seq![s], Seq::empty())
            } else {
                (Seq::empty(), s)
            },
        }
    }
}


/// Facts about one split of a buffer, proved by induction on its length.
pub proof fn lemma_flush_split(s: Seq<char>)
    ensures
        flush_split(s).0.flatten() + flush_split(s).1 == s,
        flush_split(s).1.len() < FLUSH_MAX_CHARS,
        forall|j: int| 0 <= j < flush_split(s).1.len() ==> !cut_at(flush_split(s).1, j),
        forall|i: int|
            0 <= i < flush_split(s).0.len() ==> {
                let c = #[trigger] flush_split(s).0[i];
                c.len() > 0 && (terminator(c.last()) || c.len() >= FLUSH_MAX_CHARS)
            },
    decreases s.len(),
{
    if s.len() == 0 {
        assert(flush_split(s).0.flatten() =~= Seq::<char>::empty());
        assert(s =~= Seq::<char>::empty());
    } else {
        lemma_first_cut(s, 0);
        match first_cut(s, 0) {
            Some(p) => {
                let rest = s.skip(p + 1);
                lemma_flush_split(rest);
                let r = flush_split(rest);
                let head = s.take(p + 1);
                assert((seq![head] + r.0).drop_first() =~= r.0);
                assert((seq![head] + r.0).first() == head);
                assert(head + (r.0.flatten() + r.1) =~= s);
                assert forall|i: int| 0 <= i < flush_split(s).0.len() implies {
                    let c = #[trigger] flush_split(s).0[i];
                    c.len() > 0 && (terminator(c.last()) || c.len() >= FLUSH_MAX_CHARS)
                } by {
                    if i > 0 {
                        assert(flush_split(s).0[i] == r.0[i - 1]);
                    } else {
                        assert(head.last() == s[p]);
                    }
                }
            },
            None => {
                if s.len() >= FLUSH_MAX_CHARS {
                    assert(seq![s].drop_first() =~= Seq::<Seq<char>>::empty());
                    assert(seq![s].drop_first().flatten() =~= Seq::<char>::empty());
                    assert(seq![s].first() == s);
                    assert(seq![s].flatten() == s + Seq::<char>::empty());
                    assert(s + Seq::<char>::empty() =~= s);
                } else {
                    assert(Seq::<Seq<char>>::empty().flatten() =~= Seq::<char>::empty());
                }
            },
        }
    }
}

/// Law of the sentence buffer: whatever a push sends out, followed by what it
/// leaves pending, is exactly the old pending text followed by the delta (less
/// only the spaces dropped between Chinese characters, which are all leading
/// ASCII spaces of the delta). What stays pending holds no sentence end and is
/// shorter than the forced-flush length; every chunk sent is non-empty and ends
/// a sentence or reached that length.
pub proof fn law_flush_keeps_text(pending: Seq<char>, delta: Seq<char>)
    ensures
        ({
            let eff = effective_delta(pending, delta);
            let split = flush_split(pending + eff);
            &&& split.0.flatten() + split.1 == pending + eff
            &&& split.1.len() < FLUSH_MAX_CHARS
            &&& forall|j: int| 0 <= j < split.1.len() ==> !cut_at(split.1, j)
            &&& forall|i: int|
                0 <= i < split.0.len() ==> {
                    let c = #[trigger] split.0[i];
                    c.len() > 0 && (terminator(c.last()) || c.len() >= FLUSH_MAX_CHARS)
                }
            &&& eff.len() <= delta.len()
            &&& eff == delta.skip(delta.len() - eff.len())
            &&& forall|j: int| 0 <= j < delta.len() - eff.len() ==> delta[j] == ' '
        }),
{
    lemma_flush_split(pending + effective_delta(pending, delta));
    lemma_leading_spaces(delta);
    if effective_delta(pending, delta) != delta {
        assert(delta.skip(0) =~= delta);
    } else {
        assert(delta.skip(0) =~= delta);
    }
}

pub proof fn lemma_leading_spaces(s: Seq<char>)
    ensures
        leading_spaces(s) <= s.len(),
        forall|j: int| 0 <= j < leading_spaces(s) ==> s[j] == ' ',
    decreases s.len(),
{
    if s.len() > 0 && s[0] == ' ' {
        lemma_leading_spaces(s.drop_first());
        assert forall|j: int| 0 <= j < leading_spaces(s) implies s[j] == ' ' by {
            if j > 0 {
                assert(s[j] == s.drop_first()[j - 1]);
            }
        }
    }
}

/// Number of leading ASCII spaces.
pub open spec fn leading_spaces(s: Seq<char>) -> nat
    decreases s.len(),
{
    if s.len() > 0 && s[0] == ' ' {
        1 + leading_spaces(s.drop_first())
    } else {
        0
    }
}

/// The delta as it is appended: leading spaces are dropped when they stand
/// between a Chinese character ending the buffer and one starting the delta's text.
pub open spec fn effective_delta(pending: Seq<char>, delta: Seq<char>) -> Seq<char> {
    if delta.len() > 0 && delta[0] == ' ' && pending.len() > 0 && cjk(pending.last()) {
        let rest = delta.skip(leading_spaces(delta) as int);
        if rest.len() > 0 && cjk(rest[0]) {
            rest
        } else {
            delta
        }
    } else {
        delta
    }
}

/// Whether `c` is a Chinese ideograph or Chinese punctuation.
pub fn is_cjk(c: char) -> (r: bool)
    ensures
        r == cjk(c),
{
    let u = c as u32;
    (0x4E00 <= u && u <= 0x9FFF) || (0x3400 <= u && u <= 0x4DBF) || (0x3000 <= u && u <= 0x303F)
        || (0xFF00 <= u && u <= 0xFFEF)
}

/// Whether `c` ends a sentence.
pub fn is_terminator(c: char) -> (r: bool)
    ensures
        r == terminator(c),
{
    c == '。' || c == '！' || c == '？' || c == '；' || c == '\n' || c == '.' || c == '!' || c
        == '?' || c == ';'
}

fn is_ascii_digit(c: char) -> (r: bool)
    ensures
        r == ascii_digit(c),
{
    '0' <= c && c <= '9'
}

fn cut_at_exec(s: &Vec<char>, i: usize) -> (r: bool)
    requires
        i < s.len(),
    ensures
        r == cut_at(s@, i as int),
{
    let c = s[i];
    if !is_terminator(c) {
        return false;
    }
    if c == '.' && i > 0 && is_ascii_digit(s[i - 1]) && i + 1 < s.len() && is_ascii_digit(
        s[i + 1],
    ) {
        return false;
    }
    true
}

fn find_cut(s: &Vec<char>) -> (r: Option<usize>)
    ensures
        match r {
            Some(k) => first_cut(s@, 0) == Some(k as int),
            None => first_cut(s@, 0) is None,
        },
{
    let mut i: usize = 0;
    while i < s.len()
        invariant
            i <= s.len(),
            first_cut(s@, 0) == first_cut(s@, i as int),
        decreases s.len() - i,
    {
        if cut_at_exec(s, i) {
            return Some(i);
        }
        i = i + 1;
    }
    None
}

fn count_leading_spaces(v: &Vec<char>) -> (n: usize)
    ensures
        n == leading_spaces(v@),
        n <= v.len(),
{
    let mut i: usize = 0;
    assert(v@.skip(0) =~= v@);
    while i < v.len() && v[i] == ' '
        invariant
            i <= v.len(),
            leading_spaces(v@) == i + leading_spaces(v@.skip(i as int)),
        decreases v.len() - i,
    {
        assert(v@.skip(i as int).drop_first() =~= v@.skip(i + 1));
        i = i + 1;
    }
    i
}

/// Buffers token-level text deltas and hands them out as whole sentences.
pub struct SentenceFlusher {
    pending: Vec<char>,
}

impl View for SentenceFlusher {
    type V = Seq<char>;

    /// The text received but not yet handed out.
    closed spec fn view(&self) -> Seq<char> {
        self.pending@
    }
}

impl Default for SentenceFlusher {
    fn default() -> (r: Self)
        ensures
            r@ == Seq::<char>::empty(),
    {
        SentenceFlusher { pending: Vec::new() }
    }
}

impl SentenceFlusher {
    /// An empty buffer.
    pub fn new() -> (r: Self)
        ensures
            r@ == Seq::<char>::empty(),
    {
        SentenceFlusher { pending: Vec::new() }
    }

    /// Appends a delta and returns the whole sentences (or over-long runs) that can go out now.
    pub fn push(&mut self, delta: &str) -> (out: Vec<String>)
        ensures
            ({
                let split = flush_split(old(self)@ + effective_delta(old(self)@, delta@));
                &&& out.len() == split.0.len()
                &&& forall|i: int| 0 <= i < out.len() ==> #[trigger] out[i]@ == split.0[i]
                &&& final(self)@ == split.1
            }),
    {
        let d = chars_of(delta);
        let mut eff = d;
        let plen = self.pending.len();
        if eff.len() > 0 && eff[0] == ' ' && plen > 0 && is_cjk(self.pending[plen - 1]) {
            let n = count_leading_spaces(&eff);
            let rest = copy_range(&eff, n, eff.len());
            if rest.len() > 0 && is_cjk(rest[0]) {
                eff = rest;
            }
        }
        assert(eff@ == effective_delta(old(self)@, delta@));
        let mut cur: Vec<char> = Vec::new();
        push_chars(&mut cur, &self.pending);
        push_chars(&mut cur, &eff);
        let ghost total = cur@;
        let mut out: Vec<String> = Vec::new();
        loop
            invariant
                out@.map_values(|s: String| s@) + flush_split(cur@).0 == flush_split(total).0,
                flush_split(cur@).1 == flush_split(total).1,
            ensures
                flush_split(cur@).0 =~= Seq::<Seq<char>>::empty(),
            decreases cur.len(),
        {
            if cur.len() == 0 {
                assert(flush_split(cur@).0 =~= Seq::<Seq<char>>::empty());
                break;
            }
            match find_cut(&cur) {
                Some(pos) => {
                    proof {
                        lemma_first_cut(cur@, 0);
                    }
                    let chunk = copy_range(&cur, 0, pos + 1);
                    let rest = copy_range(&cur, pos + 1, cur.len());
                    assert(chunk@ =~= cur@.take(pos + 1));
                    assert(rest@ =~= cur@.skip(pos + 1));
                    let ghost before = out@.map_values(|s: String| s@);
                    out.push(string_from_chars(chunk.as_slice()));
                    assert(out@.map_values(|s: String| s@) =~= before.push(chunk@));
                    assert(before.push(chunk@) + flush_split(rest@).0 =~= before + (seq![chunk@]
                        + flush_split(rest@).0));
                    cur = rest;
                },
                None => {
                    if cur.len() >= FLUSH_MAX_CHARS {
                        let ghost before = out@.map_values(|s: String| s@);
                        out.push(string_from_chars(cur.as_slice()));
                        assert(out@.map_values(|s: String| s@) =~= before.push(cur@));
                        assert(before + seq![cur@] =~= before.push(cur@));
                        cur = Vec::new();
                    }
                    assert(flush_split(cur@).0 =~= Seq::<Seq<char>>::empty());
                    break;
                },
            }
        }
        assert(out@.map_values(|s: String| s@) =~= flush_split(total).0);
        self.pending = cur;
        proof {
            assert forall|i: int| 0 <= i < out.len() implies #[trigger] out[i]@ == flush_split(
                total,
            ).0[i] by {
                assert(out@.map_values(|s: String| s@)[i] == out@[i]@);
            }
        }
        out
    }

    /// Takes all pending text (at the end of a stream, or before a non-text event).
    pub fn take_pending(&mut self) -> (r: Option<String>)
        ensures
            old(self)@.len() == 0 ==> r is None && final(self)@ == old(self)@,
            old(self)@.len() > 0 ==> r is Some && r->0@ == old(self)@ && final(self)@.len() == 0,
    {
        if self.pending.len() == 0 {
            None
        } else {
            let s = string_from_chars(self.pending.as_slice());
            self.pending = Vec::new();
            Some(s)
        }
    }
}


/// An event sent to the browser.
pub enum UiEvent {
    Error { message: String },
    Text { text: String, partial: bool },
    Thinking { text: String },
    /// A tool call; `args` is the arguments' JSON text.
    ToolCall { name: String, args: String },
    ToolResult { name: String, ok: bool, summary: String },
}

pub enum UiEventView {
    Error(Seq<char>),
    Text(Seq<char>, bool),
    Thinking(Seq<char>),
    ToolCall(Seq<char>, Seq<char>),
    ToolResult(Seq<char>, bool, Seq<char>),
}

impl View for UiEvent {
    type V = UiEventView;

    open spec fn view(&self) -> UiEventView {
        match self {
            UiEvent::Error { message } => UiEventView::Error(message@),
            UiEvent::Text { text, partial } => UiEventView::Text(text@, *partial),
            UiEvent::Thinking { text } => UiEventView::Thinking(text@),
            UiEvent::ToolCall { name, args } => UiEventView::ToolCall(name@, args@),
            UiEvent::ToolResult { name, ok, summary } => UiEventView::ToolResult(
                name@,
                *ok,
                summary@,
            ),
        }
    }
}

/// A tool reply's summary is cut to this many characters.
pub const TOOL_SUMMARY_CHARS: usize = 600;

/// What one part turns into: the UI events, then the new accumulated text and
/// the new turn buffer. `model` tells whether the message's role is "model".
///
/// Streamed (partial) model text is sent as it comes and remembered in the turn
/// buffer; a whole (non-partial) text that repeats the buffer is dropped, one
/// that extends it sends only the extension, and any other is sent whole.
pub open spec fn part_step(p: PartView, model: bool, partial: bool, fin: Seq<char>, buf: Seq<char>) -> (
    Seq<UiEventView>,
    Seq<char>,
    Seq<char>,
) {
    match p {
        PartView::Text(t) => if !model {
            (Seq::empty(), fin, buf)
        } else if partial {
            (seq![UiEventView::Text(t, true)], fin + t, buf + t)
        } else if t == buf {
            (Seq::empty(), fin, Seq::empty())
        } else if starts_with(t, buf) {
            let rest = t.skip(buf.len() as int);
            if rest.len() > 0 {
                (seq![UiEventView::Text(rest, false)], fin + rest, Seq::empty())
            } else {
                (Seq::empty(), fin, Seq::empty())
            }
        } else {
            (seq![UiEventView::Text(t, false)], fin + t, Seq::empty())
        },
        PartView::Thinking(t) => (seq![UiEventView::Thinking(t)], fin, buf),
        PartView::FunctionCall(name, args) => (
            seq![UiEventView::ToolCall(name, args)],
            fin,
            Seq::empty(),
        ),
        PartView::FunctionResponse(name, resp, has_error, has_denied) => (
            seq![
                UiEventView::ToolResult(
                    name,
                    !has_error && !has_denied,
                    truncated(resp, TOOL_SUMMARY_CHARS as nat),
                ),
            ],
            fin,
            Seq::empty(),
        ),
        PartView::Other => (Seq::empty(), fin, buf),
    }
}

/// The parts processed in order.
pub open spec fn parts_steps(
    parts: Seq<PartView>,
    model: bool,
    partial: bool,
    fin: Seq<char>,
    buf: Seq<char>,
) -> (Seq<UiEventView>, Seq<char>, Seq<char>)
    decreases parts.len(),
{
    if parts.len() == 0 {
        (Seq::empty(), fin, buf)
    } else {
        let a = part_step(parts[0], model, partial, fin, buf);
        let b = parts_steps(parts.drop_first(), model, partial, a.1, a.2);
        (a.0 + b.0, b.1, b.2)
    }
}

/// What an event turns into: a model error becomes one error event; content is
/// processed part by part; an event without content yields nothing.
pub open spec fn convert_spec(ev: ModelEvent, fin: Seq<char>, buf: Seq<char>) -> (
    Seq<UiEventView>,
    Seq<char>,
    Seq<char>,
) {
    match ev.error_message {
        Some(m) => (seq![UiEventView::Error(m@)], fin, buf),
        None => match ev.content {
            None => (Seq::empty(), fin, buf),
            Some(c) => parts_steps(parts_view(c.parts@), c.role@ == "model"@, ev.partial, fin, buf),
        },
    }
}

/// The text carried by the text events of `evs`, in order.
pub open spec fn ui_text(evs: Seq<UiEventView>) -> Seq<char>
    decreases evs.len(),
{
    if evs.len() == 0 {
        Seq::empty()
    } else {
        ev_text(evs[0]) + ui_text(evs.drop_first())
    }
}

/// The text an event carries: its text for a text event, nothing otherwise.
pub open spec fn ev_text(e: UiEventView) -> Seq<char> {
    match e {
        UiEventView::Text(t, _) => t,
        _ => Seq::empty(),
    }
}

pub proof fn lemma_ui_text_one(e: UiEventView)
    ensures
        ui_text(seq![e]) == ev_text(e),
{
    assert(seq![e].drop_first() =~= Seq::<UiEventView>::empty());
    assert(ui_text(seq![e]) == ev_text(e) + ui_text(Seq::<UiEventView>::empty()));
    assert(ev_text(e) + Seq::<char>::empty() =~= ev_text(e));
}

pub proof fn lemma_ui_text_add(a: Seq<UiEventView>, b: Seq<UiEventView>)
    ensures
        ui_text(a + b) == ui_text(a) + ui_text(b),
    decreases a.len(),
{
    if a.len() == 0 {
        assert(a + b =~= b);
        assert(ui_text(a) + ui_text(b) =~= ui_text(b));
    } else {
        assert((a + b).drop_first() =~= a.drop_first() + b);
        assert((a + b)[0] == a[0]);
        lemma_ui_text_add(a.drop_first(), b);
        let head = ev_text(a[0]);
        assert(head + (ui_text(a.drop_first()) + ui_text(b)) =~= (head + ui_text(a.drop_first()))
            + ui_text(b));
    }
}

proof fn lemma_parts_steps_text(
    parts: Seq<PartView>,
    model: bool,
    partial: bool,
    fin: Seq<char>,
    buf: Seq<char>,
)
    ensures
        parts_steps(parts, model, partial, fin, buf).1 == fin + ui_text(
            parts_steps(parts, model, partial, fin, buf).0,
        ),
    decreases parts.len(),
{
    if parts.len() == 0 {
        assert(fin + ui_text(Seq::<UiEventView>::empty()) =~= fin);
    } else {
        let a = part_step(parts[0], model, partial, fin, buf);
        lemma_parts_steps_text(parts.drop_first(), model, partial, a.1, a.2);
        let b = parts_steps(parts.drop_first(), model, partial, a.1, a.2);
        lemma_ui_text_add(a.0, b.0);
        if a.0.len() == 0 {
            assert(ui_text(a.0) =~= Seq::<char>::empty());
            assert(a.1 =~= fin + ui_text(a.0));
        } else {
            lemma_ui_text_one(a.0[0]);
            assert(a.0 =~= seq![a.0[0]]);
            assert(a.1 =~= fin + ui_text(a.0));
        }
        assert(fin + (ui_text(a.0) + ui_text(b.0)) =~= (fin + ui_text(a.0)) + ui_text(b.0));
    }
}

/// Law of the reply accounting: the accumulated reply text grows by exactly the
/// text that the event's UI events carry, no more and no less.
pub proof fn law_reply_text_is_what_was_sent(ev: ModelEvent, fin: Seq<char>, buf: Seq<char>)
    ensures
        convert_spec(ev, fin, buf).1 == fin + ui_text(convert_spec(ev, fin, buf).0),
{
    match ev.error_message {
        Some(m) => {
            lemma_ui_text_one(UiEventView::Error(m@));
            assert(fin + ui_text(seq![UiEventView::Error(m@)]) =~= fin);
        },
        None => match ev.content {
            None => {
                assert(fin + ui_text(Seq::<UiEventView>::empty()) =~= fin);
            },
            Some(c) => {
                lemma_parts_steps_text(parts_view(c.parts@), c.role@ == "model"@, ev.partial, fin, buf);
            },
        },
    }
}

/// Law of de-duplication: when a whole (non-partial) model text `t` closes a turn
/// whose streamed text `buf` is a prefix of it, only the part not yet streamed is
/// sent, so the turn's streamed and sent text together is `t` exactly once, and
/// the turn buffer is cleared. A streamed model text is sent as is and joins the buffer.
pub proof fn law_turn_sent_once(t: Seq<char>, fin: Seq<char>, buf: Seq<char>)
    ensures
        starts_with(t, buf) ==> {
            let r = part_step(PartView::Text(t), true, false, fin, buf);
            &&& buf + ui_text(r.0) == t
            &&& r.2.len() == 0
        },
        ({
            let r = part_step(PartView::Text(t), true, true, fin, buf);
            &&& ui_text(r.0) == t
            &&& r.2 == buf + t
        }),
{
    let r = part_step(PartView::Text(t), true, false, fin, buf);
    if starts_with(t, buf) {
        if t == buf {
            assert(ui_text(r.0) =~= Seq::<char>::empty());
            assert(buf + ui_text(r.0) =~= t);
        } else {
            let rest = t.skip(buf.len() as int);
            if rest.len() > 0 {
                lemma_ui_text_one(UiEventView::Text(rest, false));
            } else {
                assert(ui_text(r.0) =~= Seq::<char>::empty());
            }
            assert(buf + ui_text(r.0) =~= t);
        }
    }
    let r2 = part_step(PartView::Text(t), true, true, fin, buf);
    lemma_ui_text_one(UiEventView::Text(t, true));
}

fn convert_part(
    part: &Part,
    model: bool,
    partial: bool,
    final_text: &mut String,
    turn_buf: &mut String,
    out: &mut Vec<UiEvent>,
)
    ensures
        ({
            let r = part_step(part@, model, partial, old(final_text)@, old(turn_buf)@);
            &&& final(out)@.map_values(|e: UiEvent| e@) == old(out)@.map_values(|e: UiEvent| e@) + r.0
            &&& final(final_text)@ == r.1
            &&& final(turn_buf)@ == r.2
        }),
{
    let ghost before = out@.map_values(|e: UiEvent| e@);
    match part {
        Part::Text { text } => {
            if !model {
                assert(out@.map_values(|e: UiEvent| e@) =~= before + Seq::<UiEventView>::empty());
                return;
            }
            if partial {
                turn_buf.append(text.as_str());
                final_text.append(text.as_str());
                out.push(UiEvent::Text { text: text.clone(), partial: true });
            } else {
                let t = chars_of(text.as_str());
                let b = chars_of(turn_buf.as_str());
                if str_eq(text.as_str(), turn_buf.as_str()) {
                    *turn_buf = String::new();
                    assert(out@.map_values(|e: UiEvent| e@) =~= before + Seq::<UiEventView>::empty());
                } else if starts_with_chars(&t, &b) {
                    let rest = copy_range(&t, b.len(), t.len());
                    assert(rest@ =~= t@.skip(b@.len() as int));
                    if rest.len() > 0 {
                        let rs = string_from_chars(rest.as_slice());
                        final_text.append(rs.as_str());
                        out.push(UiEvent::Text { text: rs, partial: false });
                    } else {
                        assert(out@.map_values(|e: UiEvent| e@) =~= before + Seq::<UiEventView>::empty());
                    }
                    *turn_buf = String::new();
                } else {
                    final_text.append(text.as_str());
                    out.push(UiEvent::Text { text: text.clone(), partial: false });
                    *turn_buf = String::new();
                }
            }
        },
        Part::Thinking { thinking } => {
            out.push(UiEvent::Thinking { text: thinking.clone() });
        },
        Part::FunctionCall { name, args } => {
            *turn_buf = String::new();
            out.push(UiEvent::ToolCall { name: name.clone(), args: args.clone() });
        },
        Part::FunctionResponse { name, response, has_error, has_denied } => {
            *turn_buf = String::new();
            let summary = truncate(response.as_str(), TOOL_SUMMARY_CHARS);
            out.push(
                UiEvent::ToolResult { name: name.clone(), ok: !*has_error && !*has_denied, summary },
            );
        },
        Part::Other => {
            assert(out@.map_values(|e: UiEvent| e@) =~= before + Seq::<UiEventView>::empty());
        },
    }
    assert(out@.map_values(|e: UiEvent| e@) =~= before + part_step(
        part@,
        model,
        partial,
        old(final_text)@,
        old(turn_buf)@,
    ).0);
}

/// Turns an agent event into UI events, keeping the accumulated reply text and
/// the current turn's streamed text up to date.
pub fn convert_event(event: &ModelEvent, final_text: &mut String, turn_buf: &mut String) -> (out: Vec<
    UiEvent,
>)
    ensures
        ({
            let r = convert_spec(*event, old(final_text)@, old(turn_buf)@);
            &&& out@.map_values(|e: UiEvent| e@) == r.0
            &&& final(final_text)@ == r.1
            &&& final(turn_buf)@ == r.2
        }),
{
    let mut out: Vec<UiEvent> = Vec::new();
    if let Some(msg) = &event.error_message {
        out.push(UiEvent::Error { message: msg.clone() });
        assert(out@.map_values(|e: UiEvent| e@) =~= seq![UiEventView::Error(msg@)]);
        return out;
    }
    match &event.content {
        None => {
            assert(out@.map_values(|e: UiEvent| e@) =~= Seq::<UiEventView>::empty());
            out
        },
        Some(content) => {
            let model = str_eq(content.role.as_str(), "model");
            let ghost ps = parts_view(content.parts@);
            let ghost fin0 = final_text@;
            let ghost buf0 = turn_buf@;
            let mut i: usize = 0;
            assert(ps.skip(0) =~= ps);
            while i < content.parts.len()
                invariant
                    i <= content.parts.len(),
                    ps == parts_view(content.parts@),
                    ({
                        let whole = parts_steps(ps, model, event.partial, fin0, buf0);
                        let rest = parts_steps(ps.skip(i as int), model, event.partial, final_text@, turn_buf@);
                        &&& out@.map_values(|e: UiEvent| e@) + rest.0 == whole.0
                        &&& rest.1 == whole.1
                        &&& rest.2 == whole.2
                    }),
                decreases content.parts.len() - i,
            {
                let ghost f1 = final_text@;
                let ghost b1 = turn_buf@;
                let ghost o1 = out@.map_values(|e: UiEvent| e@);
                convert_part(&content.parts[i], model, event.partial, final_text, turn_buf, &mut out);
                proof {
                    assert(ps.skip(i as int)[0] == content.parts@[i as int]@);
                    assert(ps.skip(i as int).drop_first() =~= ps.skip(i + 1));
                    let a = part_step(ps.skip(i as int)[0], model, event.partial, f1, b1);
                    let b = parts_steps(ps.skip(i + 1), model, event.partial, a.1, a.2);
                    assert(o1 + (a.0 + b.0) =~= (o1 + a.0) + b.0);
                }
                i = i + 1;
            }
            assert(ps.skip(i as int) =~= Seq::<PartView>::empty());
            assert(out@.map_values(|e: UiEvent| e@) + Seq::<UiEventView>::empty() =~= out@.map_values(|e: UiEvent| e@));
            out
        },
    }
}


/// What the chat stream sends for one UI event, given the text held back so far,
/// and the text held back afterwards. Text goes through the sentence buffer and
/// leaves as whole sentences, all marked partial; any other event first sends
/// whatever text is held back, so that the page shows things in order.
pub open spec fn routed(pending: Seq<char>, ev: UiEventView) -> (Seq<UiEventView>, Seq<char>) {
    match ev {
        UiEventView::Text(t, _) => {
            let s = flush_split(pending + effective_delta(pending, t));
            (s.0.map_values(|c: Seq<char>| UiEventView::Text(c, true)), s.1)
        },
        _ => (
            (if pending.len() > 0 {
                seq![UiEventView::Text(pending, true)]
            } else {
                Seq::empty()
            }).push(ev),
            Seq::empty(),
        ),
    }
}

/// Passes one UI event through the sentence buffer of a chat stream.
pub fn route_ui_event(flusher: &mut SentenceFlusher, ev: UiEvent) -> (out: Vec<UiEvent>)
    ensures
        out@.map_values(|e: UiEvent| e@) == routed(old(flusher)@, ev@).0,
        final(flusher)@ == routed(old(flusher)@, ev@).1,
{
    let ghost ev_view = ev@;
    match ev {
        UiEvent::Text { text, partial: _ } => {
            let chunks = flusher.push(text.as_str());
            let ghost target = routed(old(flusher)@, ev_view).0;
            let mut out: Vec<UiEvent> = Vec::new();
            let mut i: usize = 0;
            while i < chunks.len()
                invariant
                    i <= chunks.len(),
                    target.len() == chunks.len(),
                    forall|j: int| 0 <= j < chunks.len() ==> #[trigger] target[j] == UiEventView::Text(
                        chunks[j]@,
                        true,
                    ),
                    out@.map_values(|e: UiEvent| e@) == target.take(i as int),
                decreases chunks.len() - i,
            {
                let ghost before = out@.map_values(|e: UiEvent| e@);
                let c = chunks[i].clone();
                assert(target[i as int] == UiEventView::Text(chunks[i as int]@, true));
                out.push(UiEvent::Text { text: c, partial: true });
                assert(out@.map_values(|e: UiEvent| e@) =~= before.push(target[i as int]));
                assert(out@.map_values(|e: UiEvent| e@) =~= target.take(i + 1));
                i = i + 1;
            }
            assert(target.take(i as int) =~= target);
            out
        },
        other => {
            let ghost before = flusher@;
            let mut out: Vec<UiEvent> = Vec::new();
            match flusher.take_pending() {
                Some(rest) => {
                    out.push(UiEvent::Text { text: rest, partial: true });
                },
                None => {},
            }
            out.push(other);
            assert(out@.map_values(|e: UiEvent| e@) =~= routed(before, ev_view).0);
            out
        },
    }
}


proof fn lemma_ui_text_of_chunks(cs: Seq<Seq<char>>)
    ensures
        ui_text(cs.map_values(|c: Seq<char>| UiEventView::Text(c, true))) == cs.flatten(),
    decreases cs.len(),
{
    let m = cs.map_values(|c: Seq<char>| UiEventView::Text(c, true));
    if cs.len() > 0 {
        assert(m.drop_first() =~= cs.drop_first().map_values(|c: Seq<char>| UiEventView::Text(c, true)));
        lemma_ui_text_of_chunks(cs.drop_first());
    } else {
        assert(ui_text(m) =~= Seq::<char>::empty());
    }
}

/// Law of the chat stream: routing an event through the sentence buffer loses no
/// text and reorders none — the text sent, followed by what stays held back, is
/// the text held back before followed by the event's text (less the spaces dropped
/// between Chinese characters); and any other event goes out after the held-back
/// text, as the last thing sent, with nothing left held back.
pub proof fn law_stream_keeps_order_and_text(pending: Seq<char>, ev: UiEventView)
    ensures
        ({
            let r = routed(pending, ev);
            &&& ui_text(r.0) + r.1 == pending + match ev {
                UiEventView::Text(t, _) => effective_delta(pending, t),
                _ => Seq::empty(),
            }
            &&& ev !is Text ==> r.0.len() > 0 && r.0.last() == ev && r.1.len() == 0
        }),
{
    let r = routed(pending, ev);
    match ev {
        UiEventView::Text(t, _) => {
            let split = flush_split(pending + effective_delta(pending, t));
            law_flush_keeps_text(pending, t);
            lemma_ui_text_of_chunks(split.0);
        },
        _ => {
            let head = if pending.len() > 0 {
                seq![UiEventView::Text(pending, true)]
            } else {
                Seq::<UiEventView>::empty()
            };
            lemma_ui_text_add(head, seq![ev]);
            lemma_ui_text_one(ev);
            assert(head.push(ev) =~= head + seq![ev]);
            if pending.len() > 0 {
                lemma_ui_text_one(UiEventView::Text(pending, true));
            } else {
                assert(ui_text(head) =~= Seq::<char>::empty());
            }
            assert(ui_text(r.0) + r.1 =~= pending + Seq::<char>::empty());
        },
    }
}


/// What the chat stream sends once the model's events end.
pub enum StreamEnd {
    /// The user stopped the run.
    Stopped,
    /// The text still held back, marked partial.
    Text(String),
    /// The stream is complete.
    Done,
}

pub enum StreamEndView {
    Stopped,
    Text(Seq<char>),
    Done,
}

impl View for StreamEnd {
    type V = StreamEndView;

    open spec fn view(&self) -> StreamEndView {
        match self {
            StreamEnd::Stopped => StreamEndView::Stopped,
            StreamEnd::Text(t) => StreamEndView::Text(t@),
            StreamEnd::Done => StreamEndView::Done,
        }
    }
}

/// The closing messages of a chat stream: "stopped" when the user stopped it;
/// then, unless the page went away, the text still held back (if any) and "done".
pub open spec fn closing(pending: Seq<char>, stopped: bool, disconnected: bool) -> Seq<StreamEndView> {
    (if stopped { seq![StreamEndView::Stopped] } else { Seq::empty() }) + if disconnected {
        Seq::empty()
    } else {
        (if pending.len() > 0 { seq![StreamEndView::Text(pending)] } else { Seq::empty() }).push(
            StreamEndView::Done,
        )
    }
}

/// Ends a chat stream: the closing messages, and the buffer emptied unless the page went away.
pub fn closing_events(flusher: &mut SentenceFlusher, stopped: bool, disconnected: bool) -> (r: Vec<StreamEnd>)
    ensures
        r@.map_values(|e: StreamEnd| e@) == closing(old(flusher)@, stopped, disconnected),
        !disconnected ==> final(flusher)@.len() == 0,
        disconnected ==> final(flusher)@ == old(flusher)@,
{
    let ghost pending = flusher@;
    let mut r: Vec<StreamEnd> = Vec::new();
    if stopped {
        r.push(StreamEnd::Stopped);
    }
    if !disconnected {
        match flusher.take_pending() {
            Some(rest) => r.push(StreamEnd::Text(rest)),
            None => {},
        }
        r.push(StreamEnd::Done);
    }
    assert(r@.map_values(|e: StreamEnd| e@) =~= closing(pending, stopped, disconnected));
    r
}

} // verus!
