//! Terminal colors: the truecolor escapes that `owo-colors` writes, and the
//! tokyo-night colors of `facet-pretty` that diff text uses.

use vstd::prelude::*;

use owo_colors::OwoColorize;

use crate::text::decimal;

verus! {

/// An RGB color.
pub type Rgb8 = (u8, u8, u8);

/// The colors of diff text.
#[derive(Debug, Clone, Copy, PartialEq, Eq, Structural)]
pub enum Tone {
    /// Deleted values (tokyo-night red)
    Deletion,
    /// Inserted values (tokyo-night green)
    Insertion,
    /// Unchanged indicators (tokyo-night comment color)
    Muted,
    /// Field names (tokyo-night green)
    FieldName,
    /// Punctuation (tokyo-night comment color)
    Comment,
}

/// The RGB values of the tokyo-night colors, as `facet-pretty` defines them.
pub open spec fn tone_rgb(t: Tone) -> Rgb8 {
    match t {
        Tone::Deletion => (247, 118, 142),
        Tone::Insertion => (115, 218, 202),
        Tone::Muted => (86, 95, 137),
        Tone::FieldName => (115, 218, 202),
        Tone::Comment => (86, 95, 137),
    }
}

/// Reads the constant of `facet_pretty::tokyo_night` for a tone: `DELETION`
/// (`RED`, 247/118/142), `INSERTION` and `FIELD_NAME` (`GREEN`, 115/218/202),
/// `MUTED` and `COMMENT` (86/95/137), as the crate's source defines them.
#[verifier::external_body]
pub(crate) fn tokyo_night_rgb(t: Tone) -> (r: Rgb8)
    ensures
        r == tone_rgb(t),
{
    let c = match t {
        Tone::Deletion => facet_pretty::tokyo_night::DELETION,
        Tone::Insertion => facet_pretty::tokyo_night::INSERTION,
        Tone::Muted => facet_pretty::tokyo_night::MUTED,
        Tone::FieldName => facet_pretty::tokyo_night::FIELD_NAME,
        Tone::Comment => facet_pretty::tokyo_night::COMMENT,
    };
    (c.0, c.1, c.2)
}

/// `r;g;b` with each component in decimal.
pub open spec fn rgb_params(c: Rgb8) -> Seq<char> {
    decimal(c.0 as nat) + seq![';'] + decimal(c.1 as nat) + seq![';'] + decimal(c.2 as nat)
}

/// The escape that sets a truecolor foreground.
pub open spec fn fg_escape(c: Rgb8) -> Seq<char> {
    seq!['\x1b', '[', '3', '8', ';', '2', ';'] + rgb_params(c) + seq!['m']
}

/// The escape that restores the default foreground.
pub open spec fn fg_reset() -> Seq<char> {
    seq!['\x1b', '[', '3', '9', 'm']
}

/// Text in a truecolor foreground, as `owo-colors` writes it.
pub open spec fn fg_text(text: Seq<char>, c: Rgb8) -> Seq<char> {
    fg_escape(c) + text + fg_reset()
}

/// Text in a truecolor foreground on a truecolor background, as `owo-colors`
/// writes it: one combined escape, then a full reset.
pub open spec fn fg_bg_text(text: Seq<char>, fg: Rgb8, bg: Rgb8) -> Seq<char> {
    seq!['\x1b', '[', '3', '8', ';', '2', ';'] + rgb_params(fg) + seq![';', '4', '8', ';', '2', ';'] + rgb_params(bg)
        + seq!['m'] + text + seq!['\x1b', '[', '0', 'm']
}

/// Calls `OwoColorize::color` with an `owo_colors::Rgb` and formats the
/// result: the source writes `ESC[38;2;{r};{g};{b}m`, the text, and `ESC[39m`.
#[verifier::external_body]
pub(crate) fn paint_fg(text: &str, c: Rgb8) -> (r: String)
    ensures
        r@ == fg_text(text@, c),
{
    format!("{}", text.color(owo_colors::Rgb(c.0, c.1, c.2)))
}

/// Calls `OwoColorize::color` and then `on_color` with `owo_colors::Rgb`
/// colors and formats the result: the source writes one escape
/// `ESC[38;2;{r};{g};{b};48;2;{r};{g};{b}m`, the text, and `ESC[0m`.
#[verifier::external_body]
pub(crate) fn paint_fg_bg(text: &str, fg: Rgb8, bg: Rgb8) -> (r: String)
    ensures
        r@ == fg_bg_text(text@, fg, bg),
{
    format!("{}", text.color(owo_colors::Rgb(fg.0, fg.1, fg.2)).on_color(owo_colors::Rgb(bg.0, bg.1, bg.2)))
}

/// Bold text, as `owo-colors` writes it: `ESC[1m`, the text, `ESC[0m`.
pub open spec fn bold_text(text: Seq<char>) -> Seq<char> {
    seq!['\x1b', '[', '1', 'm'] + text + seq!['\x1b', '[', '0', 'm']
}

/// Calls `OwoColorize::bold` and formats the result: the source writes
/// `ESC[1m`, the text, and `ESC[0m`.
#[verifier::external_body]
pub(crate) fn paint_bold(text: &str) -> (r: String)
    ensures
        r@ == bold_text(text@),
{
    format!("{}", text.bold())
}

/// Text in one of the diff tones.
pub open spec fn toned(text: Seq<char>, t: Tone) -> Seq<char> {
    fg_text(text, tone_rgb(t))
}

/// Paint text in one of the diff tones.
pub fn paint(text: &str, t: Tone) -> (r: String)
    ensures
        r@ == toned(text@, t),
{
    paint_fg(text, tokyo_night_rgb(t))
}

/// Whether text holds no escape character.
pub open spec fn escape_free(s: Seq<char>) -> bool {
    forall|i: int| 0 <= i < s.len() ==> s[i] != '\x1b'
}

/// What follows the end (`m`) of the escape sequence that `s` continues.
pub open spec fn after_escape(s: Seq<char>) -> Seq<char>
    decreases s.len(),
{
    if s.len() == 0 {
        s
    } else if s[0] == 'm' {
        s.drop_first()
    } else {
        after_escape(s.drop_first())
    }
}

/// What follows an escape sequence is no longer than what it is in.
pub proof fn lemma_after_escape_shorter(s: Seq<char>)
    ensures
        after_escape(s).len() <= s.len(),
    decreases s.len(),
{
    if s.len() > 0 && s[0] != 'm' {
        lemma_after_escape_shorter(s.drop_first());
    }
}

/// Text with its color escapes (from an escape character through the
/// following `m`) taken out: what a terminal shows of it.
pub open spec fn without_escapes(s: Seq<char>) -> Seq<char>
    decreases s.len(),
{
    if s.len() == 0 {
        s
    } else if s[0] == '\x1b' {
        proof {
            lemma_after_escape_shorter(s.drop_first());
        }
        without_escapes(after_escape(s.drop_first()))
    } else {
        seq![s[0]] + without_escapes(s.drop_first())
    }
}

/// Text without escape characters shows as it is, before whatever follows.
pub proof fn lemma_free_shows_as_is(t: Seq<char>, rest: Seq<char>)
    requires
        escape_free(t),
    ensures
        without_escapes(t + rest) == t + without_escapes(rest),
    decreases t.len(),
{
    if t.len() == 0 {
        assert(t + rest =~= rest);
    } else {
        let s = t + rest;
        assert(s[0] == t[0]);
        assert(s.drop_first() =~= t.drop_first() + rest);
        lemma_free_shows_as_is(t.drop_first(), rest);
        assert(seq![t[0]] + (t.drop_first() + without_escapes(rest)) =~= t + without_escapes(rest));
    }
}

/// An escape body without `m`, closed by `m`, is skipped whole.
proof fn lemma_escape_skipped(body: Seq<char>, rest: Seq<char>)
    requires
        forall|i: int| 0 <= i < body.len() ==> body[i] != 'm',
    ensures
        after_escape(body + seq!['m'] + rest) == rest,
    decreases body.len(),
{
    let s = body + seq!['m'] + rest;
    if body.len() == 0 {
        assert(s.drop_first() =~= rest);
    } else {
        assert(s[0] == body[0]);
        assert(s.drop_first() =~= body.drop_first() + seq!['m'] + rest);
        lemma_escape_skipped(body.drop_first(), rest);
    }
}

/// Decimal digits are neither `m` nor an escape character.
proof fn lemma_decimal_plain(n: nat)
    ensures
        forall|i: int| 0 <= i < decimal(n).len() ==> decimal(n)[i] != 'm' && decimal(n)[i] != '\x1b',
    decreases n,
{
    if n >= 10 {
        lemma_decimal_plain(n / 10);
        let d = decimal(n);
        let head = decimal(n / 10);
        assert forall|i: int| 0 <= i < d.len() implies d[i] != 'm' && d[i] != '\x1b' by {
            if i < head.len() {
                assert(d[i] == head[i]);
            } else {
                assert(d[i] == crate::text::digit_char(n % 10));
            }
        }
    } else {
        assert(decimal(n)[0] == crate::text::digit_char(n));
    }
}

/// Text painted in a tone shows as the text itself: the color escapes
/// around it are not shown.
pub proof fn lemma_toned_shows_text(text: Seq<char>, t: Tone, rest: Seq<char>)
    requires
        escape_free(text),
    ensures
        without_escapes(toned(text, t) + rest) == text + without_escapes(rest),
{
    let c = tone_rgb(t);
    lemma_decimal_plain(c.0 as nat);
    lemma_decimal_plain(c.1 as nat);
    lemma_decimal_plain(c.2 as nat);
    let body = seq!['[', '3', '8', ';', '2', ';'] + rgb_params(c);
    assert forall|i: int| 0 <= i < body.len() implies body[i] != 'm' by {
        if i >= 6 {
            let p = rgb_params(c);
            let j = i - 6;
            assert(body[i] == p[j]);
            let d0 = decimal(c.0 as nat);
            let d1 = decimal(c.1 as nat);
            if j < d0.len() {
                assert(p[j] == d0[j]);
            } else if j == d0.len() {
            } else if j < d0.len() + 1 + d1.len() {
                assert(p[j] == d1[j - d0.len() - 1]);
            } else if j == d0.len() + 1 + d1.len() {
            } else {
                assert(p[j] == decimal(c.2 as nat)[j - d0.len() - 2 - d1.len()]);
            }
        }
    }
    let reset_body = seq!['[', '3', '9'];
    let after = fg_reset() + rest;
    let s = toned(text, t) + rest;
    assert(s =~= seq!['\x1b'] + (body + seq!['m'] + (text + after)));
    assert(s.drop_first() =~= body + seq!['m'] + (text + after));
    lemma_escape_skipped(body, text + after);
    lemma_free_shows_as_is(text, after);
    assert(after =~= seq!['\x1b'] + (reset_body + seq!['m'] + rest));
    assert(after.drop_first() =~= reset_body + seq!['m'] + rest);
    lemma_escape_skipped(reset_body, rest);
}

/// Parts of text without escape characters hold none either.
pub proof fn lemma_escape_free_parts(a: Seq<char>, b: Seq<char>)
    requires
        escape_free(a + b),
    ensures
        escape_free(a),
        escape_free(b),
{
    assert forall|i: int| 0 <= i < a.len() implies a[i] != '\x1b' by {
        assert((a + b)[i] == a[i]);
    }
    assert forall|i: int| 0 <= i < b.len() implies b[i] != '\x1b' by {
        assert((a + b)[a.len() + i] == b[i]);
    }
}

} // verus!
