//! Styled text: what is printed, as pieces with a style each, and its rendering
//! with terminal escape sequences.
use vstd::prelude::*;
use vstd::string::*;

use colored::Colorize;

verus! {

/// How a piece of text is emphasised.
#[derive(Clone, Copy, Debug, PartialEq, Eq, Structural)]
pub enum Style {
    Plain,
    Green,
    Red,
    Yellow,
    Cyan,
    Dimmed,
    Bold,
    BoldRed,
    BoldYellow,
    BoldGreen,
}

/// A piece of text in one style.
#[derive(Clone, Debug)]
pub struct Span {
    pub style: Style,
    pub text: String,
}

/// What a span holds: its style and its characters.
pub struct SpanView {
    pub style: Style,
    pub text: Seq<char>,
}

impl View for Span {
    type V = SpanView;

    open spec fn view(&self) -> SpanView {
        SpanView { style: self.style, text: self.text@ }
    }
}

/// The contents of each span of a list.
pub open spec fn span_views(v: Seq<Span>) -> Seq<SpanView> {
    v.map_values(|s: Span| s@)
}

/// A piece in no style.
pub open spec fn plain(text: Seq<char>) -> SpanView {
    SpanView { style: Style::Plain, text }
}

/// A piece in a given style.
pub open spec fn styled(style: Style, text: Seq<char>) -> SpanView {
    SpanView { style, text }
}

/// All text of a list of spans, without any style.
pub open spec fn plain_text(spans: Seq<SpanView>) -> Seq<char>
    decreases spans.len(),
{
    if spans.len() == 0 {
        Seq::empty()
    } else {
        plain_text(spans.drop_last()) + spans.last().text
    }
}

/// The parameters of the escape sequence that turns a style on.
pub open spec fn style_codes(style: Style) -> Seq<char> {
    match style {
        Style::Plain => ""@,
        Style::Green => "32"@,
        Style::Red => "31"@,
        Style::Yellow => "33"@,
        Style::Cyan => "36"@,
        Style::Dimmed => "2"@,
        Style::Bold => "1"@,
        Style::BoldRed => "1;31"@,
        Style::BoldYellow => "1;33"@,
        Style::BoldGreen => "1;32"@,
    }
}

/// The escape sequence that turns the given parameters on.
pub open spec fn sequence(codes: Seq<char>) -> Seq<char> {
    "\x1b["@ + codes + "m"@
}

/// The escape sequence that ends every style.
pub open spec fn reset() -> Seq<char> {
    sequence("0"@)
}

/// The text with `start` inserted behind every reset sequence in it.
pub open spec fn reapplied(text: Seq<char>, start: Seq<char>) -> Seq<char>
    decreases text.len(),
{
    if text.len() == 0 {
        text
    } else if reset().len() > 0 && reset().is_prefix_of(text) {
        reset() + start + reapplied(text.skip(reset().len() as int), start)
    } else {
        seq![text[0]] + reapplied(text.skip(1), start)
    }
}

/// A text as it looks when styles are on: the start sequence, the text with the
/// start sequence again behind each reset in it, and a reset.
pub open spec fn painted(codes: Seq<char>, text: Seq<char>) -> Seq<char> {
    sequence(codes) + reapplied(text, sequence(codes)) + reset()
}

/// One span as it is printed, with styles on or off.
pub open spec fn painted_span(span: SpanView, on: bool) -> Seq<char> {
    if on && span.style != Style::Plain {
        painted(style_codes(span.style), span.text)
    } else {
        span.text
    }
}

/// The spans as they are printed, where `on` says of each whether styles were on.
pub open spec fn painted_all(spans: Seq<SpanView>, on: Seq<bool>) -> Seq<char>
    decreases spans.len(),
{
    if spans.len() == 0 {
        Seq::empty()
    } else {
        painted_all(spans.drop_last(), on.drop_last()) + painted_span(spans.last(), on.last())
    }
}

/// Whether `out` is a printed form of the spans. Whether styles are on depends on
/// the terminal and on settings of the process; each span is printed either way.
pub open spec fn rendering(spans: Seq<SpanView>, out: Seq<char>) -> bool {
    exists|on: Seq<bool>| on.len() == spans.len() && out == #[trigger] painted_all(spans, on)
}

// ── Styles of the terminal ───────────────────────────────────────────────────

/// Calls `colored::Colorize::green`, and prints its result: the text unchanged
/// where colouring is off, else the text between the sequence for green and a
/// reset. Nothing is said of which; it assumes that the setting does not change
/// during the call. The same holds of the other functions of this section.
#[verifier::external_body]
fn green(text: &str) -> (r: String)
    ensures
        r@ == text@ || r@ == painted("32"@, text@),
{
    text.green().to_string()
}

/// Calls `colored::Colorize::red`.
#[verifier::external_body]
fn red(text: &str) -> (r: String)
    ensures
        r@ == text@ || r@ == painted("31"@, text@),
{
    text.red().to_string()
}

/// Calls `colored::Colorize::yellow`.
#[verifier::external_body]
fn yellow(text: &str) -> (r: String)
    ensures
        r@ == text@ || r@ == painted("33"@, text@),
{
    text.yellow().to_string()
}

/// Calls `colored::Colorize::cyan`.
#[verifier::external_body]
fn cyan(text: &str) -> (r: String)
    ensures
        r@ == text@ || r@ == painted("36"@, text@),
{
    text.cyan().to_string()
}

/// Calls `colored::Colorize::dimmed`.
#[verifier::external_body]
fn dimmed(text: &str) -> (r: String)
    ensures
        r@ == text@ || r@ == painted("2"@, text@),
{
    text.dimmed().to_string()
}

/// Calls `colored::Colorize::bold`.
#[verifier::external_body]
fn bold(text: &str) -> (r: String)
    ensures
        r@ == text@ || r@ == painted("1"@, text@),
{
    text.bold().to_string()
}

/// Calls `colored::Colorize::red`, then `bold` on the coloured text.
#[verifier::external_body]
fn bold_red(text: &str) -> (r: String)
    ensures
        r@ == text@ || r@ == painted("1;31"@, text@),
{
    text.red().bold().to_string()
}

/// Calls `colored::Colorize::yellow`, then `bold` on the coloured text.
#[verifier::external_body]
fn bold_yellow(text: &str) -> (r: String)
    ensures
        r@ == text@ || r@ == painted("1;33"@, text@),
{
    text.yellow().bold().to_string()
}

/// Calls `colored::Colorize::green`, then `bold` on the coloured text.
#[verifier::external_body]
fn bold_green(text: &str) -> (r: String)
    ensures
        r@ == text@ || r@ == painted("1;32"@, text@),
{
    text.green().bold().to_string()
}

/// Calls `colored::control::set_override`, which turns styles on or off for the
/// whole process from here on. Nothing is claimed of it: the setting is process
/// state that no contract of this library reads.
#[verifier::external_body]
pub(crate) fn set_override(on: bool) {
    colored::control::set_override(on);
}

// ── Rendering ────────────────────────────────────────────────────────────────

/// One span in printed form.
fn paint(span: &Span) -> (r: String)
    ensures
        r@ == painted_span(span@, true) || r@ == painted_span(span@, false),
{
    let text = span.text.as_str();
    match span.style {
        Style::Plain => span.text.clone(),
        Style::Green => green(text),
        Style::Red => red(text),
        Style::Yellow => yellow(text),
        Style::Cyan => cyan(text),
        Style::Dimmed => dimmed(text),
        Style::Bold => bold(text),
        Style::BoldRed => bold_red(text),
        Style::BoldYellow => bold_yellow(text),
        Style::BoldGreen => bold_green(text),
    }
}

/// The spans in printed form, one after another.
pub fn render(spans: &Vec<Span>) -> (r: String)
    ensures
        rendering(span_views(spans@), r@),
{
    let mut out = String::new();
    let ghost mut on: Seq<bool> = Seq::empty();
    let n: usize = spans.len();
    let mut i: usize = 0;
    while i < n
        invariant
            i <= n,
            n == spans@.len(),
            on.len() == i,
            out@ == painted_all(span_views(spans@).take(i as int), on),
        decreases n - i,
    {
        let piece = paint(&spans[i]);
        let ghost shown = piece@ == painted_span(spans@[i as int]@, true);
        out.append(piece.as_str());
        proof {
            let longer = span_views(spans@).take(i + 1);
            assert(longer.drop_last() == span_views(spans@).take(i as int));
            assert(longer.last() == spans@[i as int]@);
            assert(on.push(shown).drop_last() == on);
            on = on.push(shown);
        }
        i = i + 1;
    }
    assert(span_views(spans@).take(n as int) == span_views(spans@));
    out
}

// ── Building ─────────────────────────────────────────────────────────────────

/// A list of spans without any.
pub fn no_spans() -> (r: Vec<Span>)
    ensures
        span_views(r@) == Seq::<SpanView>::empty(),
{
    let out: Vec<Span> = Vec::new();
    assert(span_views(out@) == Seq::<SpanView>::empty());
    out
}

/// Appends a piece of text in a style.
pub fn push_styled(out: &mut Vec<Span>, style: Style, text: String)
    ensures
        span_views(final(out)@) == span_views(old(out)@).push(styled(style, text@)),
{
    out.push(Span { style, text });
    assert(span_views(out@) == span_views(old(out)@).push(styled(style, text@)));
}

/// Appends a piece of text in no style.
pub fn push_plain(out: &mut Vec<Span>, text: String)
    ensures
        span_views(final(out)@) == span_views(old(out)@).push(plain(text@)),
{
    push_styled(out, Style::Plain, text);
}

/// Appends spans behind those already there.
pub fn push_all(out: &mut Vec<Span>, more: Vec<Span>)
    ensures
        span_views(final(out)@) == span_views(old(out)@) + span_views(more@),
{
    let mut rest = more;
    out.append(&mut rest);
    assert(span_views(out@) == span_views(old(out)@) + span_views(more@));
}

// ── Laws ─────────────────────────────────────────────────────────────────────

/// What a terminal shows of a text: all of it but what stands from an escape
/// character to the next letter m. The text may begin inside such a sequence.
pub open spec fn shown(s: Seq<char>, inside: bool) -> Seq<char>
    decreases s.len(),
{
    if s.len() == 0 {
        s
    } else if inside {
        shown(s.skip(1), s[0] != 'm')
    } else if s[0] == '\x1b' {
        shown(s.skip(1), true)
    } else {
        seq![s[0]] + shown(s.skip(1), false)
    }
}

/// Whether a text ends inside an escape sequence.
pub open spec fn ends_inside(s: Seq<char>, inside: bool) -> bool
    decreases s.len(),
{
    if s.len() == 0 {
        inside
    } else if inside {
        ends_inside(s.skip(1), s[0] != 'm')
    } else {
        ends_inside(s.skip(1), s[0] == '\x1b')
    }
}

/// What is shown of two texts one after the other.
proof fn lemma_shown_parts(a: Seq<char>, b: Seq<char>, inside: bool)
    ensures
        shown(a + b, inside) == shown(a, inside) + shown(b, ends_inside(a, inside)),
        ends_inside(a + b, inside) == ends_inside(b, ends_inside(a, inside)),
    decreases a.len(),
{
    if a.len() == 0 {
        assert(a + b == b);
    } else {
        assert((a + b).skip(1) == a.skip(1) + b);
        let next = if inside {
            a[0] != 'm'
        } else {
            a[0] == '\x1b'
        };
        lemma_shown_parts(a.skip(1), b, next);
        if !inside && a[0] != '\x1b' {
            assert(seq![a[0]] + (shown(a.skip(1), false) + shown(
                b,
                ends_inside(a.skip(1), false),
            )) == seq![a[0]] + shown(a.skip(1), false) + shown(
                b,
                ends_inside(a.skip(1), false),
            ));
        }
    }
}

/// A text without escape characters is shown as it is, and stays as it is when
/// the start sequence is inserted behind resets.
proof fn lemma_no_escape(text: Seq<char>, start: Seq<char>)
    requires
        !text.contains('\x1b'),
    ensures
        shown(text, false) == text,
        !ends_inside(text, false),
        reapplied(text, start) == text,
    decreases text.len(),
{
    if text.len() > 0 {
        assert(text.contains(text[0]));
        assert forall|c: char| text.skip(1).contains(c) implies text.contains(c) by {
            let i = text.skip(1).index_of(c);
            assert(text[i + 1] == c);
        }
        lemma_no_escape(text.skip(1), start);
        reveal_strlit("\x1b[");
        assert(reset()[0] == '\x1b');
        assert(seq![text[0]] + text.skip(1) == text);
    }
}

/// Nothing is shown of an escape sequence.
proof fn lemma_sequence_hidden(style: Style)
    ensures
        shown(sequence(style_codes(style)), false) == Seq::<char>::empty(),
        !ends_inside(sequence(style_codes(style)), false),
        shown(reset(), false) == Seq::<char>::empty(),
        !ends_inside(reset(), false),
{
    reveal_strlit("\x1b[");
    reveal_strlit("m");
    reveal_strlit("");
    reveal_strlit("0");
    reveal_strlit("1");
    reveal_strlit("2");
    reveal_strlit("31");
    reveal_strlit("32");
    reveal_strlit("33");
    reveal_strlit("36");
    reveal_strlit("1;31");
    reveal_strlit("1;32");
    reveal_strlit("1;33");
    lemma_codes_hidden(style_codes(style));
    lemma_codes_hidden("0"@);
}

/// Nothing is shown of an escape sequence whose parameters hold no letter m.
proof fn lemma_codes_hidden(codes: Seq<char>)
    requires
        !codes.contains('m'),
    ensures
        shown(sequence(codes), false) == Seq::<char>::empty(),
        !ends_inside(sequence(codes), false),
{
    reveal_strlit("\x1b[");
    reveal_strlit("m");
    let tail = codes + "m"@;
    assert(sequence(codes) == "\x1b["@ + tail);
    assert("\x1b["@.skip(1).skip(1) == Seq::<char>::empty());
    lemma_shown_parts("\x1b["@, tail, false);
    reveal_with_fuel(shown, 3);
    reveal_with_fuel(ends_inside, 3);
    lemma_inside(codes);
    lemma_shown_parts(codes, "m"@, true);
    assert("m"@.skip(1) == Seq::<char>::empty());
}

/// Nothing is shown of what stands inside an escape sequence.
proof fn lemma_inside(codes: Seq<char>)
    requires
        !codes.contains('m'),
    ensures
        shown(codes, true) == Seq::<char>::empty(),
        ends_inside(codes, true),
    decreases codes.len(),
{
    if codes.len() > 0 {
        assert(codes.contains(codes[0]));
        assert forall|c: char| codes.skip(1).contains(c) implies codes.contains(c) by {
            let i = codes.skip(1).index_of(c);
            assert(codes[i + 1] == c);
        }
        lemma_inside(codes.skip(1));
    }
}

/// Whether no text of the spans holds an escape character.
pub open spec fn free_of_escapes(spans: Seq<SpanView>) -> bool {
    forall|i: int| 0 <= i < spans.len() ==> !(#[trigger] spans[i]).text.contains('\x1b')
}

/// What is shown of spans, whatever styles were on.
proof fn lemma_shown_all(spans: Seq<SpanView>, on: Seq<bool>)
    requires
        free_of_escapes(spans),
        on.len() == spans.len(),
    ensures
        shown(painted_all(spans, on), false) == plain_text(spans),
        !ends_inside(painted_all(spans, on), false),
    decreases spans.len(),
{
    if spans.len() > 0 {
        let last = spans.last();
        let before = painted_all(spans.drop_last(), on.drop_last());
        assert forall|i: int| 0 <= i < spans.drop_last().len() implies !(
        #[trigger] spans.drop_last()[i]).text.contains('\x1b') by {
            assert(spans.drop_last()[i] == spans[i]);
        }
        lemma_shown_all(spans.drop_last(), on.drop_last());
        lemma_shown_parts(before, painted_span(last, on.last()), false);
        let start = sequence(style_codes(last.style));
        lemma_no_escape(last.text, start);
        if on.last() && last.style != Style::Plain {
            lemma_sequence_hidden(last.style);
            lemma_shown_parts(start + last.text, reset(), false);
            lemma_shown_parts(start, last.text, false);
            assert(shown(start, false) + last.text + Seq::<char>::empty() == last.text);
        }
    }
}

/// Spans one after another, without any style.
pub proof fn lemma_plain_text_parts(a: Seq<SpanView>, b: Seq<SpanView>)
    ensures
        plain_text(a + b) == plain_text(a) + plain_text(b),
    decreases b.len(),
{
    if b.len() == 0 {
        assert(a + b == a);
    } else {
        assert((a + b).drop_last() == a + b.drop_last());
        lemma_plain_text_parts(a, b.drop_last());
        assert(plain_text(a) + plain_text(b.drop_last()) + b.last().text == plain_text(a) + (
        plain_text(b.drop_last()) + b.last().text));
    }
}

/// Colour changes nothing of what is said: whatever styles are on when spans are
/// printed, a terminal shows their plain text.
pub proof fn colour_keeps_text(spans: Seq<SpanView>, out: Seq<char>)
    requires
        free_of_escapes(spans),
        rendering(spans, out),
    ensures
        shown(out, false) == plain_text(spans),
{
    let on = choose|on: Seq<bool>|
        on.len() == spans.len() && out == #[trigger] painted_all(spans, on);
    lemma_shown_all(spans, on);
}

/// With all styles off, spans are printed as their plain text.
pub proof fn plain_without_colour(spans: Seq<SpanView>)
    ensures
        rendering(spans, plain_text(spans)),
{
    let on = Seq::new(spans.len(), |i: int| false);
    lemma_plain(spans, on);
}

/// With all styles off, each span is printed as its text.
proof fn lemma_plain(spans: Seq<SpanView>, on: Seq<bool>)
    requires
        on.len() == spans.len(),
        forall|i: int| 0 <= i < on.len() ==> !(#[trigger] on[i]),
    ensures
        painted_all(spans, on) == plain_text(spans),
    decreases spans.len(),
{
    if spans.len() > 0 {
        lemma_plain(spans.drop_last(), on.drop_last());
    }
}

/// What spans hold is the style and the text of each, in their order.
pub proof fn spans_are_kept(v: Seq<Span>, i: int)
    requires
        0 <= i < v.len(),
    ensures
        span_views(v).len() == v.len(),
        span_views(v)[i].style == v[i].style,
        span_views(v)[i].text == v[i].text@,
{
}

} // verus!
