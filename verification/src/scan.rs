//! The specification of the tokenizer: a parser state, one spec function
//! per production, and `spec_next`, the functional contract that
//! [`crate::parser::Parser::next`] is verified against.

use vstd::prelude::*;

use crate::mark::{
    heading_of, indent_of, style_image_default, style_text_default, AlignHorizontal, Listing,
    SeparatorDir, StyleImageView, StyleTextView, Token,
};
use crate::text::{
    all_digits, digits_end, digits_val, fence_end, find_at, is_number_text, line_end, run_end,
    special_end,
};

verus! {

/// The state of the tokenizer: the unconsumed remainder of the source and
/// the per-line and per-document memory.
#[verifier::ext_equal]
pub struct ParserView {
    /// The unconsumed remainder of the document.
    pub s: Seq<char>,
    /// Whether the leading empty page mark has been emitted.
    pub page_emitted: bool,
    /// The next reveal order to assign to an unnumbered transition; zero
    /// means no transition has been opened on the current page yet.
    pub counter: usize,
    /// The inline style accumulator, toggled by style markers.
    pub style: StyleTextView,
    /// Whether the cursor stands at the start of a line.
    pub line_start: bool,
    /// Whether an ordered list is active (no blank line since an item).
    pub is_ordered: bool,
    /// Whether an unordered list is active.
    pub is_unordered: bool,
    /// The last ordinal assigned at each indent level, zero if none.
    pub ord0: u8,
    pub ord1: u8,
    pub ord2: u8,
    pub ord3: u8,
    pub ord4: u8,
    pub ord5: u8,
    /// The indent level of the last emitted ordered item.
    pub cur_indent: u8,
}

/// The last ordinal stored for indent level `lvl`.
pub open spec fn ord_at(v: ParserView, lvl: int) -> u8 {
    if lvl == 0 {
        v.ord0
    } else if lvl == 1 {
        v.ord1
    } else if lvl == 2 {
        v.ord2
    } else if lvl == 3 {
        v.ord3
    } else if lvl == 4 {
        v.ord4
    } else {
        v.ord5
    }
}

/// The state with the ordinal for level `lvl` set to `n`.
pub open spec fn with_ord(v: ParserView, lvl: int, n: u8) -> ParserView {
    if lvl == 0 {
        ParserView { ord0: n, ..v }
    } else if lvl == 1 {
        ParserView { ord1: n, ..v }
    } else if lvl == 2 {
        ParserView { ord2: n, ..v }
    } else if lvl == 3 {
        ParserView { ord3: n, ..v }
    } else if lvl == 4 {
        ParserView { ord4: n, ..v }
    } else {
        ParserView { ord5: n, ..v }
    }
}

/// The state after a blank line: the list flags cleared, every stored
/// ordinal back to zero, and the current-indent tracker reset.
pub open spec fn reset_lists(v: ParserView) -> ParserView {
    ParserView {
        is_ordered: false,
        is_unordered: false,
        cur_indent: 0,
        ord0: 0,
        ord1: 0,
        ord2: 0,
        ord3: 0,
        ord4: 0,
        ord5: 0,
        ..v
    }
}

/// The state with the first `n` characters consumed; `n` is clamped to the
/// remainder so the result is always meaningful.
pub open spec fn advance(v: ParserView, n: int) -> ParserView {
    let m = if n < 0 {
        0
    } else if n > v.s.len() {
        v.s.len() as int
    } else {
        n
    };
    ParserView { s: v.s.subrange(m, v.s.len() as int), ..v }
}

/// An ordinal bumped by one, held at the top of its range instead of
/// wrapping.
pub open spec fn ord_inc(n: u8) -> u8 {
    if n == 255 {
        255
    } else {
        (n + 1) as u8
    }
}

/// A reveal counter bumped by one, held at the top of its range instead of
/// wrapping.
pub open spec fn counter_inc(n: usize) -> usize {
    if n == usize::MAX {
        usize::MAX
    } else {
        (n + 1) as usize
    }
}

/// The page production: a line that is exactly `---`. Emits an empty page
/// and reopens transition numbering.
pub open spec fn spec_page(v: ParserView) -> Option<(Token, ParserView)> {
    if v.s.len() >= 4 && v.s[0] == '-' && v.s[1] == '-' && v.s[2] == '-' && v.s[3] == '\n' {
        Option::Some((Token::Page, ParserView { counter: 0, ..advance(v, 4) }))
    } else {
        Option::None
    }
}

/// The transition production: `---t`, optionally followed by an explicit
/// reveal order. The order is the written number when the rest of the line
/// is all digits and fits in `usize`; otherwise the running counter. The
/// counter continues from just past the emitted order.
pub open spec fn spec_transition(v: ParserView) -> Option<(Token, ParserView)> {
    if v.s.len() >= 4 && v.s[0] == '-' && v.s[1] == '-' && v.s[2] == '-' && v.s[3] == 't' {
        let le = line_end(v.s, 0);
        let digits = v.s.subrange(4, le);
        let explicit = le > 4 && all_digits(digits) && digits_val(digits) <= usize::MAX;
        let order = if explicit {
            digits_val(digits) as usize
        } else {
            v.counter
        };
        Option::Some(
            (Token::Transition(order), ParserView { counter: counter_inc(order), ..advance(v, le) }),
        )
    } else {
        Option::None
    }
}

/// The transition-end production: a line that is exactly `t---`.
pub open spec fn spec_transition_end(v: ParserView) -> Option<(Token, ParserView)> {
    if v.s.len() >= 5 && v.s[0] == 't' && v.s[1] == '-' && v.s[2] == '-' && v.s[3] == '-' && v.s[4]
        == '\n' {
        Option::Some((Token::TransitionEnd, advance(v, 5)))
    } else {
        Option::None
    }
}

/// The code-block production: an opening line starting with three
/// backticks whose remainder is the optional language tag, a body, and a
/// closing line that is exactly three backticks. Without a closing fence
/// the production does not match and the backticks degrade to text.
pub open spec fn spec_code_block(v: ParserView) -> Option<(Token, ParserView)> {
    if v.s.len() >= 3 && v.s[0] == '`' && v.s[1] == '`' && v.s[2] == '`' {
        let fe = fence_end(v.s, 0);
        if fe < v.s.len() {
            let le = line_end(v.s, 0);
            let language = if le > 3 {
                Option::Some(v.s.subrange(3, le))
            } else {
                Option::None
            };
            let body_start = if le + 1 <= fe {
                le + 1
            } else {
                fe
            };
            let code = v.s.subrange(body_start, fe);
            Option::Some((Token::CodeBlock(code, language), advance(v, fe + 4)))
        } else {
            Option::None
        }
    } else {
        Option::None
    }
}

/// The heading production: leading `#` marks followed by a space. The
/// heading level is the number of marks, saturated at the deepest level.
pub open spec fn spec_heading(v: ParserView) -> Option<(Token, ParserView)> {
    if v.s.len() >= 1 && v.s[0] == '#' {
        let le = line_end(v.s, 0);
        if le > 2 {
            let hashes = run_end(v.s, 0, '#');
            let idx = if hashes < le - 1 {
                hashes
            } else {
                le - 1
            };
            if v.s[idx] == ' ' {
                let text = v.s.subrange(idx + 1, le);
                let style = StyleTextView { heading: heading_of(idx), ..style_text_default() };
                Option::Some(
                    (Token::Text(text, style), ParserView { line_start: false, ..advance(v, le) }),
                )
            } else {
                Option::None
            }
        } else {
            Option::None
        }
    } else {
        Option::None
    }
}

/// Whether `o` spells one of the alignment keywords.
pub open spec fn kw_auto(o: Seq<char>) -> bool {
    o.len() == 4 && o[0] == 'a' && o[1] == 'u' && o[2] == 't' && o[3] == 'o'
}

pub open spec fn kw_left(o: Seq<char>) -> bool {
    o.len() == 4 && o[0] == 'l' && o[1] == 'e' && o[2] == 'f' && o[3] == 't'
}

pub open spec fn kw_right(o: Seq<char>) -> bool {
    o.len() == 5 && o[0] == 'r' && o[1] == 'i' && o[2] == 'g' && o[3] == 'h' && o[4] == 't'
}

pub open spec fn kw_center(o: Seq<char>) -> bool {
    o.len() == 6 && o[0] == 'c' && o[1] == 'e' && o[2] == 'n' && o[3] == 't' && o[4] == 'e' && o[5]
        == 'r'
}

/// One image option applied to a style: an alignment keyword sets the
/// alignment; `w` or `h` followed by a decimal number sets the width or
/// height to that digit text; anything else becomes the hyperlink.
pub open spec fn apply_opt(st: StyleImageView, o: Seq<char>) -> StyleImageView {
    if kw_auto(o) {
        StyleImageView { align_h: AlignHorizontal::Auto, ..st }
    } else if kw_left(o) {
        StyleImageView { align_h: AlignHorizontal::Left, ..st }
    } else if kw_right(o) {
        StyleImageView { align_h: AlignHorizontal::Right, ..st }
    } else if kw_center(o) {
        StyleImageView { align_h: AlignHorizontal::Center, ..st }
    } else if o.len() >= 1 && o[0] == 'w' && is_number_text(o.subrange(1, o.len() as int)) {
        StyleImageView { width: Option::Some(o.subrange(1, o.len() as int)), ..st }
    } else if o.len() >= 1 && o[0] == 'h' && is_number_text(o.subrange(1, o.len() as int)) {
        StyleImageView { height: Option::Some(o.subrange(1, o.len() as int)), ..st }
    } else {
        StyleImageView { hyperlink: o, ..st }
    }
}

/// The image options between the angle brackets, split on `|` and applied
/// left to right.
pub open spec fn opts_fold(st: StyleImageView, opts: Seq<char>) -> StyleImageView
    decreases opts.len(),
{
    let cut0 = find_at(opts, 0, '|');
    let cut = if cut0 < 0 {
        0
    } else if cut0 > opts.len() {
        opts.len() as int
    } else {
        cut0
    };
    if cut == opts.len() {
        apply_opt(st, opts)
    } else {
        opts_fold(apply_opt(st, opts.subrange(0, cut)), opts.subrange(cut + 1, opts.len() as int))
    }
}

/// The image production: `![title](url)`, optionally followed directly by
/// `<options>`. A missing `]`, `(` or `)` on the line means no match; a
/// missing `>` leaves the options unparsed on the line.
pub open spec fn spec_image(v: ParserView) -> Option<(Token, ParserView)> {
    if v.s.len() >= 2 && v.s[0] == '!' && v.s[1] == '[' {
        let le = line_end(v.s, 0);
        let be = find_at(v.s, 0, ']');
        if be < le && be + 1 < le && v.s[be + 1] == '(' {
            let pe = find_at(v.s, be + 2, ')');
            if pe < le {
                let title = v.s.subrange(2, be);
                let url = v.s.subrange(be + 2, pe);
                if pe + 1 < le && v.s[pe + 1] == '<' {
                    let ae = find_at(v.s, pe + 2, '>');
                    if ae < le {
                        let style = opts_fold(style_image_default(), v.s.subrange(pe + 2, ae));
                        Option::Some(
                            (
                                Token::Image(url, title, style),
                                ParserView { line_start: false, ..advance(v, ae + 1) },
                            ),
                        )
                    } else {
                        Option::Some(
                            (
                                Token::Image(url, title, style_image_default()),
                                ParserView { line_start: false, ..advance(v, pe + 1) },
                            ),
                        )
                    }
                } else {
                    Option::Some(
                        (
                            Token::Image(url, title, style_image_default()),
                            ParserView { line_start: false, ..advance(v, pe + 1) },
                        ),
                    )
                }
            } else {
                Option::None
            }
        } else {
            Option::None
        }
    } else {
        Option::None
    }
}

/// The indent level of the line that starts the remainder: leading spaces
/// (all but the line's last character count) divided by two, saturated at
/// the deepest level.
pub open spec fn line_indent(s: Seq<char>) -> int {
    let le = line_end(s, 0);
    let sp = run_end(s, 0, ' ');
    let n = if sp < le - 1 {
        sp
    } else {
        le - 1
    };
    let lvl = n / 2;
    if lvl > 5 {
        5
    } else if lvl < 0 {
        0
    } else {
        lvl
    }
}

/// The ordinal an ordered item at indent `lvl` receives: one past the
/// stored ordinal when a list is active and the previous item's indent is
/// at least as deep, else one. The bump saturates instead of wrapping.
pub open spec fn next_ordinal(v: ParserView, lvl: int) -> u8 {
    if v.is_ordered && v.cur_indent as int >= lvl {
        ord_inc(ord_at(v, lvl))
    } else {
        1
    }
}

/// The ordered-list production: after the indent, a run of digits followed
/// by `. `. The written number is ignored; the assigned ordinal comes from
/// the per-indent memory.
pub open spec fn spec_ordered(v: ParserView) -> Option<(Token, ParserView)> {
    let le = line_end(v.s, 0);
    let lvl = line_indent(v.s);
    let ind = 2 * lvl;
    let de0 = digits_end(v.s, ind);
    let de = if de0 < le - 1 {
        de0
    } else {
        le - 1
    };
    if 0 <= de && de + 2 <= le && v.s[de] == '.' && v.s[de + 1] == ' ' {
        let ordinal = next_ordinal(v, lvl);
        let text = v.s.subrange(de + 2, le);
        let style = StyleTextView {
            listing: Listing::Ordered(ordinal, indent_of(lvl)),
            ..style_text_default()
        };
        let v2 = ParserView {
            line_start: false,
            is_ordered: true,
            cur_indent: lvl as u8,
            ..with_ord(advance(v, le), lvl, ordinal)
        };
        Option::Some((Token::Text(text, style), v2))
    } else {
        Option::None
    }
}

/// The quote production: a line starting with `> `.
pub open spec fn spec_quote(v: ParserView) -> Option<(Token, ParserView)> {
    if v.s.len() >= 2 && v.s[0] == '>' && v.s[1] == ' ' {
        let le = line_end(v.s, 0);
        let style = StyleTextView { quote: true, ..style_text_default() };
        Option::Some(
            (
                Token::Text(v.s.subrange(2, le), style),
                ParserView { line_start: false, ..advance(v, le) },
            ),
        )
    } else {
        Option::None
    }
}

/// The separator production: a line that is exactly `----` (horizontal) or
/// `----v` (vertical).
pub open spec fn spec_separator(v: ParserView) -> Option<(Token, ParserView)> {
    if v.s.len() >= 5 && v.s[0] == '-' && v.s[1] == '-' && v.s[2] == '-' && v.s[3] == '-' && v.s[4]
        == '\n' {
        Option::Some((Token::Separator(SeparatorDir::Horizontal), advance(v, 5)))
    } else if v.s.len() >= 6 && v.s[0] == '-' && v.s[1] == '-' && v.s[2] == '-' && v.s[3] == '-'
        && v.s[4] == 'v' && v.s[5] == '\n' {
        Option::Some((Token::Separator(SeparatorDir::Vertical), advance(v, 6)))
    } else {
        Option::None
    }
}

/// The unordered-list production: after the indent, `- `. The text is the
/// rest of the line after the two-character marker.
pub open spec fn spec_unordered(v: ParserView) -> Option<(Token, ParserView)> {
    let le = line_end(v.s, 0);
    let lvl = line_indent(v.s);
    let ind = 2 * lvl;
    if 0 <= ind && ind + 2 <= v.s.len() && v.s[ind] == '-' && v.s[ind + 1] == ' ' {
        let style = StyleTextView {
            listing: Listing::Unordered(indent_of(lvl)),
            ..style_text_default()
        };
        let v2 = ParserView { line_start: false, is_unordered: true, ..advance(v, le) };
        Option::Some((Token::Text(v.s.subrange(ind + 2, le), style), v2))
    } else {
        Option::None
    }
}

/// The inline-code production: a backtick with a closing backtick on the
/// same line, consumed through the closing backtick and no further. The
/// span's style is code alone, not merged with the accumulator.
pub open spec fn spec_code_inline(v: ParserView) -> Option<(Token, ParserView)> {
    if v.s.len() >= 1 && v.s[0] == '`' {
        let le = line_end(v.s, 0);
        let ce = find_at(v.s, 1, '`');
        if ce < le {
            let style = StyleTextView { code: true, ..style_text_default() };
            Option::Some((Token::Text(v.s.subrange(1, ce), style), advance(v, ce + 1)))
        } else {
            Option::None
        }
    } else {
        Option::None
    }
}

/// The hyperlink productions: `<url>` (the url is also the text) and
/// `[title](url)`. A missing closing mark on the line means no match.
pub open spec fn spec_hyperlink(v: ParserView) -> Option<(Token, ParserView)> {
    let le = line_end(v.s, 0);
    if v.s.len() >= 1 && v.s[0] == '<' && find_at(v.s, 0, '>') < le {
        let ae = find_at(v.s, 0, '>');
        let url = v.s.subrange(1, ae);
        let style = StyleTextView { hyperlink: url, ..style_text_default() };
        Option::Some(
            (Token::Text(url, style), ParserView { line_start: false, ..advance(v, ae + 1) }),
        )
    } else if v.s.len() >= 1 && v.s[0] == '[' {
        let be = find_at(v.s, 0, ']');
        if be < le && be + 1 < le && v.s[be + 1] == '(' {
            let pe = find_at(v.s, be + 2, ')');
            if pe < le {
                let title = v.s.subrange(1, be);
                let url = v.s.subrange(be + 2, pe);
                let style = StyleTextView { hyperlink: url, ..style_text_default() };
                Option::Some(
                    (
                        Token::Text(title, style),
                        ParserView { line_start: false, ..advance(v, pe + 1) },
                    ),
                )
            } else {
                Option::None
            }
        } else {
            Option::None
        }
    } else {
        Option::None
    }
}

/// The escape production: a backslash followed by any character emits that
/// character as plain text.
pub open spec fn spec_escape(v: ParserView) -> Option<(Token, ParserView)> {
    if v.s.len() >= 2 && v.s[0] == '\\' {
        Option::Some(
            (
                Token::Text(v.s.subrange(1, 2), style_text_default()),
                ParserView { line_start: false, ..advance(v, 2) },
            ),
        )
    } else {
        Option::None
    }
}

/// The fallback production: the run up to the next special character, at
/// least one character long so that an unmatched special is absorbed as
/// literal text, styled with the accumulator.
pub open spec fn spec_fallback(v: ParserView) -> (Token, ParserView) {
    let sp = special_end(v.s, 0);
    let end = if sp >= v.s.len() {
        v.s.len() as int
    } else if sp < 1 {
        1
    } else {
        sp
    };
    (
        Token::Text(v.s.subrange(0, end), v.style),
        ParserView { line_start: false, ..advance(v, end) },
    )
}

/// The block productions tried at a line start, in priority order.
pub open spec fn spec_block(v: ParserView) -> Option<(Token, ParserView)> {
    if spec_page(v) is Some {
        spec_page(v)
    } else if spec_transition(v) is Some {
        spec_transition(v)
    } else if spec_transition_end(v) is Some {
        spec_transition_end(v)
    } else if spec_code_block(v) is Some {
        spec_code_block(v)
    } else if spec_heading(v) is Some {
        spec_heading(v)
    } else if spec_image(v) is Some {
        spec_image(v)
    } else if spec_ordered(v) is Some {
        spec_ordered(v)
    } else if spec_quote(v) is Some {
        spec_quote(v)
    } else if spec_separator(v) is Some {
        spec_separator(v)
    } else if spec_unordered(v) is Some {
        spec_unordered(v)
    } else {
        Option::None
    }
}

/// The style accumulator with the toggle for `c` flipped.
pub open spec fn toggled(st: StyleTextView, c: char) -> StyleTextView {
    if c == '*' {
        StyleTextView { bold: !st.bold, ..st }
    } else if c == '/' {
        StyleTextView { italics: !st.italics, ..st }
    } else if c == '$' {
        StyleTextView { small: !st.small, ..st }
    } else if c == '~' {
        StyleTextView { strikethrough: !st.strikethrough, ..st }
    } else {
        StyleTextView { underline: !st.underline, ..st }
    }
}

/// Whether `c` flips a style toggle.
pub open spec fn is_toggle(c: char) -> bool {
    c == '*' || c == '/' || c == '$' || c == '~' || c == '_'
}

/// One scanning step of the tokenizer, after the bootstrap marks: consume
/// newlines and toggles until a mark is produced or the text ends.
///
/// A single newline is a soft break: it clears the style accumulator and
/// restores the line start without emitting. A blank line (two newlines,
/// or a newline ending the text) emits a paragraph break and clears the
/// list memory. At a line start the block productions are tried first;
/// inline, toggles flip the accumulator, and the remaining productions
/// fall through to the literal-text fallback.
pub open spec fn spec_scan(v: ParserView) -> (Option<Token>, ParserView)
    decreases v.s.len(),
{
    if v.s.len() == 0 {
        (Option::None, v)
    } else if v.s[0] == '\n' {
        let v1 = ParserView { line_start: true, style: style_text_default(), ..advance(v, 1) };
        if v1.s.len() == 0 {
            (Option::Some(Token::NewLine), reset_lists(v1))
        } else if v1.s[0] == '\n' {
            (Option::Some(Token::NewLine), reset_lists(advance(v1, 1)))
        } else {
            spec_scan(v1)
        }
    } else {
        let blk = if v.line_start {
            spec_block(v)
        } else {
            Option::None
        };
        match blk {
            Option::Some((t, v2)) => (Option::Some(t), v2),
            Option::None => {
                if is_toggle(v.s[0]) {
                    spec_scan(
                        ParserView {
                            line_start: false,
                            style: toggled(v.style, v.s[0]),
                            ..advance(v, 1)
                        },
                    )
                } else {
                    match spec_code_inline(v) {
                        Option::Some((t, v2)) => (Option::Some(t), v2),
                        Option::None => match spec_hyperlink(v) {
                            Option::Some((t, v2)) => (Option::Some(t), v2),
                            Option::None => match spec_escape(v) {
                                Option::Some((t, v2)) => (Option::Some(t), v2),
                                Option::None => {
                                    let (t, v2) = spec_fallback(v);
                                    (Option::Some(t), v2)
                                },
                            },
                        },
                    }
                }
            },
        }
    }
}

/// One pull of the tokenizer: the bootstrap page, then the bootstrap
/// transition, then a scanning step.
pub open spec fn spec_next(v: ParserView) -> (Option<Token>, ParserView) {
    if !v.page_emitted {
        (Option::Some(Token::Page), ParserView { page_emitted: true, ..v })
    } else if v.counter == 0 {
        (Option::Some(Token::Transition(0)), ParserView { counter: 1, ..v })
    } else {
        spec_scan(v)
    }
}

/// A bound that shrinks with every pull: each emitted mark either consumes
/// input or clears one of the two bootstrap obligations.
pub open spec fn fuel_of(v: ParserView) -> nat {
    (2 * v.s.len() + (if !v.page_emitted {
        1nat
    } else {
        0nat
    }) + (if v.counter == 0 {
        1nat
    } else {
        0nat
    })) as nat
}

/// A scanning step that emits consumes at least one character and never
/// revives a bootstrap obligation, so the fuel strictly drops.
pub proof fn lemma_scan_fuel(v: ParserView)
    ensures
        (spec_scan(v).0 is Some ==> fuel_of(spec_scan(v).1) < fuel_of(v)),
        spec_scan(v).1.page_emitted == v.page_emitted,
    decreases v.s.len(),
{
    crate::text::lemma_find_at(v.s, 0, '\n');
    if v.s.len() == 0 {
    } else if v.s[0] == '\n' {
        let v1 = ParserView { line_start: true, style: style_text_default(), ..advance(v, 1) };
        if v1.s.len() == 0 {
        } else if v1.s[0] == '\n' {
        } else {
            lemma_scan_fuel(v1);
        }
    } else {
        let le = line_end(v.s, 0);
        assert(le >= 1);
        let blk = if v.line_start {
            spec_block(v)
        } else {
            Option::None
        };
        if blk is Some {
            lemma_block_consumes(v);
        } else if is_toggle(v.s[0]) {
            lemma_scan_fuel(
                ParserView { line_start: false, style: toggled(v.style, v.s[0]), ..advance(v, 1) },
            );
        } else if spec_code_inline(v) is Some {
            crate::text::lemma_find_at(v.s, 1, '`');
        } else if spec_hyperlink(v) is Some {
            crate::text::lemma_find_at(v.s, 0, '>');
            let be = find_at(v.s, 0, ']');
            crate::text::lemma_find_at(v.s, 0, ']');
            if v.s[0] == '[' && be + 1 < le {
                crate::text::lemma_find_at(v.s, be + 2, ')');
            }
        } else if spec_escape(v) is Some {
        } else {
            crate::text::lemma_special_end(v.s, 0);
        }
    }
}

/// Every block production that matches consumes at least one character and
/// leaves the transition counter nonzero, except the page production,
/// which consumes four.
proof fn lemma_block_consumes(v: ParserView)
    requires
        v.s.len() > 0,
        v.s[0] != '\n',
        spec_block(v) is Some,
    ensures
        (spec_block(v) matches Option::Some((t, v2)) && {
            &&& v2.s.len() < v.s.len()
            &&& v2.page_emitted == v.page_emitted
        }),
{
    let le = line_end(v.s, 0);
    crate::text::lemma_find_at(v.s, 0, '\n');
    assert(le >= 1);
    if spec_page(v) is Some {
    } else if spec_transition(v) is Some {
    } else if spec_transition_end(v) is Some {
    } else if spec_code_block(v) is Some {
        crate::text::lemma_fence_end(v.s, 0);
    } else if spec_heading(v) is Some {
    } else if spec_image(v) is Some {
        let be = find_at(v.s, 0, ']');
        crate::text::lemma_find_at(v.s, 0, ']');
        if be + 1 < le {
            let pe = find_at(v.s, be + 2, ')');
            crate::text::lemma_find_at(v.s, be + 2, ')');
            if pe + 1 < le {
                crate::text::lemma_find_at(v.s, pe + 2, '>');
            }
        }
    } else if spec_ordered(v) is Some {
    } else if spec_quote(v) is Some {
    } else if spec_separator(v) is Some {
    } else {
    }
}

/// A pull that emits strictly drops the fuel.
pub proof fn lemma_next_fuel(v: ParserView)
    ensures
        spec_next(v).0 is Some ==> fuel_of(spec_next(v).1) < fuel_of(v),
{
    if v.page_emitted && v.counter != 0 {
        lemma_scan_fuel(v);
    }
}

/// The whole mark stream of a tokenizer run from state `v`.
pub open spec fn run_toks(v: ParserView) -> Seq<Token>
    decreases fuel_of(v),
    via run_toks_decreases
{
    match spec_next(v) {
        (Option::None, _) => Seq::empty(),
        (Option::Some(t), v2) => seq![t] + run_toks(v2),
    }
}

#[via_fn]
proof fn run_toks_decreases(v: ParserView) {
    lemma_next_fuel(v);
}

/// The initial state of the tokenizer on a document.
pub open spec fn initial(s: Seq<char>) -> ParserView {
    ParserView {
        s,
        page_emitted: false,
        counter: 0,
        style: style_text_default(),
        line_start: true,
        is_ordered: false,
        is_unordered: false,
        ord0: 0,
        ord1: 0,
        ord2: 0,
        ord3: 0,
        ord4: 0,
        ord5: 0,
        cur_indent: 0,
    }
}

} // verus!
