//! The laws of the tokenizer, proved over its specification: the bootstrap
//! marks, the toggle involution, the ordered-list ordinal discipline, the
//! blank-line reset, and the transition-order rebasing.

use vstd::prelude::*;

use crate::mark::{indent_of, style_text_default, Listing, StyleTextView, Token};
use crate::scan::{
    advance, initial, line_indent, next_ordinal, ord_at, ord_inc, counter_inc, run_toks,
    spec_next, spec_ordered, spec_scan, spec_transition, toggled, ParserView,
};
use crate::text::{all_digits, digits_val, line_end};

verus! {

/// For any document whatever, the first two emitted marks are the empty
/// page and the zero-order transition: the bootstrap marks come before any
/// text is read.
pub proof fn lemma_first_two_marks(s: Seq<char>)
    ensures
        run_toks(initial(s)).len() >= 2,
        run_toks(initial(s))[0] == Token::Page,
        run_toks(initial(s))[1] == Token::Transition(0usize),
{
    let v0 = initial(s);
    let v1 = spec_next(v0).1;
    let v2 = spec_next(v1).1;
    assert(run_toks(v0) == seq![Token::Page] + run_toks(v1));
    assert(run_toks(v1) == seq![Token::Transition(0usize)] + run_toks(v2));
    assert(run_toks(v0)[0] == Token::Page);
    assert(run_toks(v0)[1] == (seq![Token::Transition(0usize)] + run_toks(v2))[0]);
}

/// A style toggle flipped twice is no toggle at all: toggle characters
/// come in idempotent pairs.
pub proof fn lemma_toggle_involution(st: StyleTextView, c: char)
    ensures
        toggled(toggled(st, c), c) == st,
{
    assert(toggled(toggled(st, c), c) =~= st);
}

/// The ordinal an ordered item receives never reads the digits written in
/// the source: it is a function of the list memory and the indent alone.
/// Two states with the same memory whose lines sit at the same indent
/// receive the same ordinal, whatever numbers their lines spell.
pub proof fn lemma_ordinal_ignores_digits(v: ParserView, w: ParserView)
    requires
        spec_ordered(v) is Some,
        spec_ordered(w) is Some,
        v.is_ordered == w.is_ordered,
        v.cur_indent == w.cur_indent,
        forall|l: int| ord_at(v, l) == ord_at(w, l),
        line_indent(v.s) == line_indent(w.s),
    ensures
        (spec_ordered(v).unwrap().0 matches Token::Text(_, stv) && spec_ordered(
            w,
        ).unwrap().0 matches Token::Text(_, stw) && stv.listing == stw.listing),
{
    let lvl = line_indent(v.s);
    assert(ord_at(v, lvl) == ord_at(w, lvl));
}

/// Consecutive ordered items at the same indent, with no blank line
/// between them, take consecutive ordinals: the second item's state keeps
/// the first item's memory, and the stored ordinal is bumped by one.
pub proof fn lemma_consecutive_ordinals(v: ParserView, w: ParserView)
    requires
        spec_ordered(v) is Some,
        spec_ordered(w) is Some,
        w.is_ordered == spec_ordered(v).unwrap().1.is_ordered,
        w.cur_indent == spec_ordered(v).unwrap().1.cur_indent,
        forall|l: int| ord_at(w, l) == ord_at(spec_ordered(v).unwrap().1, l),
        line_indent(w.s) == line_indent(v.s),
    ensures
        next_ordinal(w, line_indent(w.s)) == ord_inc(next_ordinal(v, line_indent(v.s))),
        (spec_ordered(w).unwrap().0 matches Token::Text(_, st) && st.listing == Listing::Ordered(
            ord_inc(next_ordinal(v, line_indent(v.s))),
            indent_of(line_indent(v.s)),
        )),
{
    let lvl = line_indent(v.s);
    let v2 = spec_ordered(v).unwrap().1;
    assert(v2.is_ordered);
    assert(v2.cur_indent == lvl as u8);
    assert(ord_at(v2, lvl) == next_ordinal(v, lvl));
    assert(ord_at(w, lvl) == next_ordinal(v, lvl));
}

/// An ordered item indented deeper than the previous item restarts its
/// ordinal at one.
pub proof fn lemma_deeper_indent_restarts(w: ParserView)
    requires
        spec_ordered(w) is Some,
        (w.cur_indent as int) < line_indent(w.s),
    ensures
        next_ordinal(w, line_indent(w.s)) == 1,
        (spec_ordered(w).unwrap().0 matches Token::Text(_, st) && st.listing == Listing::Ordered(
            1,
            indent_of(line_indent(w.s)),
        )),
{
}

/// Returning to a shallower indent of an active list resumes one past the
/// ordinal stored for that indent.
pub proof fn lemma_shallower_indent_resumes(w: ParserView)
    requires
        spec_ordered(w) is Some,
        w.is_ordered,
        line_indent(w.s) <= w.cur_indent as int,
    ensures
        next_ordinal(w, line_indent(w.s)) == ord_inc(ord_at(w, line_indent(w.s))),
        (spec_ordered(w).unwrap().0 matches Token::Text(_, st) && st.listing == Listing::Ordered(
            ord_inc(ord_at(w, line_indent(w.s))),
            indent_of(line_indent(w.s)),
        )),
{
}

/// A blank line — two newlines in a row, or a newline that ends the text —
/// emits exactly one paragraph break and clears the whole list memory: the
/// flags, every stored ordinal, and the current-indent tracker.
pub proof fn lemma_blank_line_resets(v: ParserView)
    requires
        v.s.len() >= 1,
        v.s[0] == '\n',
        v.s.len() == 1 || v.s[1] == '\n',
    ensures
        spec_scan(v).0 == Option::Some(Token::NewLine),
        !spec_scan(v).1.is_ordered,
        !spec_scan(v).1.is_unordered,
        spec_scan(v).1.cur_indent == 0,
        forall|l: int| ord_at(spec_scan(v).1, l) == 0,
        spec_scan(v).1.line_start,
        spec_scan(v).1.style == style_text_default(),
{
}

/// A single newline is a soft break: it emits nothing, resets the style
/// accumulator and the line-start flag, and scanning continues on the next
/// line with the list memory intact.
pub proof fn lemma_single_newline_soft(v: ParserView)
    requires
        v.s.len() >= 2,
        v.s[0] == '\n',
        v.s[1] != '\n',
    ensures
        spec_scan(v) == spec_scan(
            ParserView { line_start: true, style: style_text_default(), ..advance(v, 1) },
        ),
{
}

/// An exhausted tokenizer stays exhausted: once the text is consumed and
/// both bootstrap marks are out, every further pull yields nothing and
/// leaves the state as it is.
pub proof fn lemma_exhausted_stays_exhausted(v: ParserView)
    requires
        v.page_emitted,
        v.counter != 0,
        v.s.len() == 0,
    ensures
        spec_next(v) == (Option::<Token>::None, v),
        run_toks(v) == Seq::<Token>::empty(),
{
    assert(run_toks(v) =~= Seq::<Token>::empty());
}

/// How a transition line gets its reveal order: the written number when
/// the rest of the line is all digits that fit, the running counter
/// otherwise; either way the counter continues one past the emitted order,
/// so an explicit number rebases the numbering that follows.
pub proof fn lemma_transition_order(v: ParserView)
    requires
        spec_transition(v) is Some,
    ensures
        (spec_transition(v).unwrap().0 matches Token::Transition(o) && {
            let le = line_end(v.s, 0);
            let digits = v.s.subrange(4, le);
            &&& spec_transition(v).unwrap().1.counter == counter_inc(o)
            &&& (le > 4 && all_digits(digits) && digits_val(digits) <= usize::MAX ==> o
                == digits_val(digits))
            &&& (!(le > 4 && all_digits(digits) && digits_val(digits) <= usize::MAX) ==> o
                == v.counter)
        }),
{
    let le = line_end(v.s, 0);
    let digits = v.s.subrange(4, le);
    if le > 4 && all_digits(digits) && digits_val(digits) <= usize::MAX {
        crate::text::lemma_digits_val_nonneg(digits);
    }
}

} // verus!
