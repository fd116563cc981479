//! The tokenizer: a cursor over the document text with per-line and
//! per-document state, pulled one mark at a time. Each pull is verified
//! against [`crate::scan::spec_next`].

use vstd::prelude::*;

use crate::mark::{flat, token_of, Heading, IndentLevel, Listing, Mark, SeparatorDir, StyleImage,
    StyleText, Token};
use crate::scan::{
    advance, initial, spec_block, spec_code_block, spec_code_inline, spec_escape, spec_fallback,
    spec_heading, spec_hyperlink, spec_image, spec_next, spec_ordered, spec_page, spec_quote,
    spec_scan, spec_separator, spec_transition, spec_transition_end, spec_unordered, apply_opt,
    opts_fold, ord_at, with_ord, reset_lists, toggled, ParserView,
};
use crate::text::{
    all_digits, digits_end_at, fence_end_at, find_at, find_char_at, is_number, lemma_digits_end,
    lemma_fence_end, lemma_find_at, lemma_run_end, lemma_special_end, parse_usize, run_end_at,
    special_end_at, substr,
};

verus! {

/// How a production left the tokenizer: either it did not match and the
/// state is untouched, or it matched, consumed input, and handed out a
/// flat mark whose token and the new state are the spec production's.
pub open spec fn production_post(
    step: Option<(Token, ParserView)>,
    pre: ParserView,
    post: ParserView,
    r: Option<Mark>,
) -> bool {
    match step {
        Option::Some((t, v2)) => {
            &&& post == v2
            &&& (r matches Option::Some(m) && token_of(m) == t && flat(m))
        },
        Option::None => {
            &&& post == pre
            &&& r is None
        },
    }
}

/// The tokenizer for an opmark document. Pulling marks consumes the text;
/// an exhausted parser yields nothing further.
#[derive(Debug)]
pub struct Parser {
    /// The unconsumed remainder of the document.
    s: String,
    /// Whether the leading empty page mark has been emitted.
    first_page_return: bool,
    /// The next reveal order for an unnumbered transition; zero means no
    /// transition is open on the current page.
    transition_order: usize,
    /// The inline style accumulator.
    style_text: StyleText,
    /// Whether the cursor stands at the start of a line.
    is_line_start: bool,
    /// Whether an ordered list is active.
    is_ordered: bool,
    /// Whether an unordered list is active.
    is_unordered: bool,
    /// The last ordinal assigned at each indent level.
    ord0: u8,
    ord1: u8,
    ord2: u8,
    ord3: u8,
    ord4: u8,
    ord5: u8,
    /// The indent level of the last emitted ordered item.
    ordered_list_current_indent_level: u8,
}

impl View for Parser {
    type V = ParserView;

    closed spec fn view(&self) -> ParserView {
        ParserView {
            s: self.s@,
            page_emitted: self.first_page_return,
            counter: self.transition_order,
            style: self.style_text@,
            line_start: self.is_line_start,
            is_ordered: self.is_ordered,
            is_unordered: self.is_unordered,
            ord0: self.ord0,
            ord1: self.ord1,
            ord2: self.ord2,
            ord3: self.ord3,
            ord4: self.ord4,
            ord5: self.ord5,
            cur_indent: self.ordered_list_current_indent_level,
        }
    }
}

impl Parser {
    /// A new tokenizer over the text of an opmark document.
    pub fn new(s: String) -> (r: Parser)
        ensures
            r@ == initial(s@),
    {
        let r = Parser {
            s,
            first_page_return: false,
            transition_order: 0,
            style_text: StyleText::new(),
            is_line_start: true,
            is_ordered: false,
            is_unordered: false,
            ord0: 0,
            ord1: 0,
            ord2: 0,
            ord3: 0,
            ord4: 0,
            ord5: 0,
            ordered_list_current_indent_level: 0,
        };
        proof {
            assert(r@ =~= initial(r.s@));
        }
        r
    }

    /// Drop the first `k` characters of the remainder.
    fn consume(&mut self, k: usize)
        requires
            k <= old(self)@.s.len(),
        ensures
            final(self)@ == advance(old(self)@, k as int),
    {
        let n = self.s.as_str().unicode_len();
        let rest = substr(self.s.as_str(), k, n);
        self.s = rest;
        proof {
            assert(self@ =~= advance(old(self)@, k as int));
        }
    }

    /// The stored ordinal for an indent level.
    fn get_ord(&self, lvl: usize) -> (r: u8)
        ensures
            r == ord_at(self@, lvl as int),
    {
        if lvl == 0 {
            self.ord0
        } else if lvl == 1 {
            self.ord1
        } else if lvl == 2 {
            self.ord2
        } else if lvl == 3 {
            self.ord3
        } else if lvl == 4 {
            self.ord4
        } else {
            self.ord5
        }
    }

    /// Store the ordinal for an indent level.
    fn set_ord(&mut self, lvl: usize, n: u8)
        ensures
            final(self)@ == with_ord(old(self)@, lvl as int, n),
    {
        if lvl == 0 {
            self.ord0 = n;
        } else if lvl == 1 {
            self.ord1 = n;
        } else if lvl == 2 {
            self.ord2 = n;
        } else if lvl == 3 {
            self.ord3 = n;
        } else if lvl == 4 {
            self.ord4 = n;
        } else {
            self.ord5 = n;
        }
    }

    /// Clear the list memory, as a blank line does.
    fn clear_lists(&mut self)
        ensures
            final(self)@ == reset_lists(old(self)@),
    {
        self.is_ordered = false;
        self.is_unordered = false;
        self.ordered_list_current_indent_level = 0;
        self.ord0 = 0;
        self.ord1 = 0;
        self.ord2 = 0;
        self.ord3 = 0;
        self.ord4 = 0;
        self.ord5 = 0;
    }

    /// The page production: a line that is exactly `---`.
    fn page(&mut self) -> (r: Option<Mark>)
        ensures
            production_post(spec_page(old(self)@), old(self)@, final(self)@, r),
    {
        let n = self.s.as_str().unicode_len();
        if n >= 4 && self.s.as_str().get_char(0) == '-' && self.s.as_str().get_char(1) == '-'
            && self.s.as_str().get_char(2) == '-' && self.s.as_str().get_char(3) == '\n' {
            self.consume(4);
            self.transition_order = 0;
            Option::Some(Mark::Page(Vec::new()))
        } else {
            Option::None
        }
    }

    /// The transition production: `---t` with an optional explicit order.
    fn transition(&mut self) -> (r: Option<Mark>)
        ensures
            production_post(spec_transition(old(self)@), old(self)@, final(self)@, r),
    {
        let n = self.s.as_str().unicode_len();
        if n >= 4 && self.s.as_str().get_char(0) == '-' && self.s.as_str().get_char(1) == '-'
            && self.s.as_str().get_char(2) == '-' && self.s.as_str().get_char(3) == 't' {
            let le = find_char_at(self.s.as_str(), 0, '\n');
            proof {
                lemma_find_at(self@.s, 0, '\n');
            }
            let de = digits_end_at(self.s.as_str(), 4);
            proof {
                lemma_digits_end(self@.s, 4);
            }
            let ghost digits = self@.s.subrange(4, le as int);
            let order = if le > 4 && de >= le {
                proof {
                    assert forall|i: int| 0 <= i < digits.len() implies crate::text::is_digit(
                        digits[i],
                    ) by {
                        assert(digits[i] == self@.s[4 + i]);
                    }
                }
                match parse_usize(self.s.as_str(), 4, le) {
                    Option::Some(x) => x,
                    Option::None => self.transition_order,
                }
            } else {
                proof {
                    if le > 4 && all_digits(digits) {
                        assert(digits[de - 4] == self@.s[de as int]);
                        assert(false);
                    }
                }
                self.transition_order
            };
            let newc = if order == usize::MAX {
                usize::MAX
            } else {
                order + 1
            };
            self.consume(le);
            self.transition_order = newc;
            Option::Some(Mark::Transition(order, Vec::new()))
        } else {
            Option::None
        }
    }

    /// The transition-end production: a line that is exactly `t---`.
    fn transition_end(&mut self) -> (r: Option<Mark>)
        ensures
            production_post(spec_transition_end(old(self)@), old(self)@, final(self)@, r),
    {
        let n = self.s.as_str().unicode_len();
        if n >= 5 && self.s.as_str().get_char(0) == 't' && self.s.as_str().get_char(1) == '-'
            && self.s.as_str().get_char(2) == '-' && self.s.as_str().get_char(3) == '-'
            && self.s.as_str().get_char(4) == '\n' {
            self.consume(5);
            Option::Some(Mark::TransitionEnd)
        } else {
            Option::None
        }
    }

    /// The code-block production: an opening backtick fence, a language
    /// tag, a body, and a closing line of exactly three backticks.
    fn code_block(&mut self) -> (r: Option<Mark>)
        ensures
            production_post(spec_code_block(old(self)@), old(self)@, final(self)@, r),
    {
        let n = self.s.as_str().unicode_len();
        if n >= 3 && self.s.as_str().get_char(0) == '`' && self.s.as_str().get_char(1) == '`'
            && self.s.as_str().get_char(2) == '`' {
            let fe = fence_end_at(self.s.as_str(), 0);
            proof {
                lemma_fence_end(self@.s, 0);
            }
            if fe < n {
                let le = find_char_at(self.s.as_str(), 0, '\n');
                proof {
                    lemma_find_at(self@.s, 0, '\n');
                    if le > fe {
                        assert(self@.s[fe as int] == '\n');
                    }
                }
                let language = if le > 3 {
                    Option::Some(substr(self.s.as_str(), 3, le))
                } else {
                    Option::None
                };
                let body_start = if le + 1 <= fe {
                    le + 1
                } else {
                    fe
                };
                let code = substr(self.s.as_str(), body_start, fe);
                self.consume(fe + 4);
                Option::Some(Mark::CodeBlock(code, language))
            } else {
                Option::None
            }
        } else {
            Option::None
        }
    }

    /// The heading production: leading `#` marks followed by a space.
    fn heading(&mut self) -> (r: Option<Mark>)
        ensures
            production_post(spec_heading(old(self)@), old(self)@, final(self)@, r),
    {
        let n = self.s.as_str().unicode_len();
        if n >= 1 && self.s.as_str().get_char(0) == '#' {
            let le = find_char_at(self.s.as_str(), 0, '\n');
            proof {
                lemma_find_at(self@.s, 0, '\n');
            }
            if le > 2 {
                let hashes = run_end_at(self.s.as_str(), 0, '#');
                proof {
                    lemma_run_end(self@.s, 0, '#');
                }
                let idx = if hashes < le - 1 {
                    hashes
                } else {
                    le - 1
                };
                if self.s.as_str().get_char(idx) == ' ' {
                    let level = if idx > 5 {
                        5u8
                    } else {
                        idx as u8
                    };
                    let heading = Heading::from_int(level);
                    proof {
                        assert(heading == crate::mark::heading_of(idx as int));
                    }
                    let text = substr(self.s.as_str(), idx + 1, le);
                    let style = StyleText::new().with_heading(heading);
                    self.consume(le);
                    self.is_line_start = false;
                    Option::Some(Mark::Text(text, style))
                } else {
                    Option::None
                }
            } else {
                Option::None
            }
        } else {
            Option::None
        }
    }

    /// One image option applied to a style.
    fn apply_option(st: StyleImage, o: &str, from: usize, to: usize) -> (r: StyleImage)
        requires
            from <= to <= o@.len(),
        ensures
            r@ == apply_opt(st@, o@.subrange(from as int, to as int)),
    {
        let ghost piece = o@.subrange(from as int, to as int);
        let len = to - from;
        if len == 4 && o.get_char(from) == 'a' && o.get_char(from + 1) == 'u' && o.get_char(
            from + 2,
        ) == 't' && o.get_char(from + 3) == 'o' {
            st.with_align_h(crate::mark::AlignHorizontal::Auto)
        } else if len == 4 && o.get_char(from) == 'l' && o.get_char(from + 1) == 'e' && o.get_char(
            from + 2,
        ) == 'f' && o.get_char(from + 3) == 't' {
            st.with_align_h(crate::mark::AlignHorizontal::Left)
        } else if len == 5 && o.get_char(from) == 'r' && o.get_char(from + 1) == 'i' && o.get_char(
            from + 2,
        ) == 'g' && o.get_char(from + 3) == 'h' && o.get_char(from + 4) == 't' {
            st.with_align_h(crate::mark::AlignHorizontal::Right)
        } else if len == 6 && o.get_char(from) == 'c' && o.get_char(from + 1) == 'e' && o.get_char(
            from + 2,
        ) == 'n' && o.get_char(from + 3) == 't' && o.get_char(from + 4) == 'e' && o.get_char(
            from + 5,
        ) == 'r' {
            st.with_align_h(crate::mark::AlignHorizontal::Center)
        } else if len >= 1 && o.get_char(from) == 'w' && is_number(o, from + 1, to) {
            proof {
                assert(piece.subrange(1, piece.len() as int) =~= o@.subrange(
                    from + 1,
                    to as int,
                ));
            }
            st.with_width(substr(o, from + 1, to))
        } else if len >= 1 && o.get_char(from) == 'h' && is_number(o, from + 1, to) {
            proof {
                assert(piece.subrange(1, piece.len() as int) =~= o@.subrange(
                    from + 1,
                    to as int,
                ));
            }
            st.with_height(substr(o, from + 1, to))
        } else {
            proof {
                if len >= 1 && (piece[0] == 'w' || piece[0] == 'h') {
                    assert(piece.subrange(1, piece.len() as int) =~= o@.subrange(
                        from + 1,
                        to as int,
                    ));
                }
            }
            st.with_hyperlink(substr(o, from, to))
        }
    }

    /// The image options, split on `|` and applied left to right.
    fn parse_options(o: &str) -> (r: StyleImage)
        ensures
            r@ == opts_fold(crate::mark::style_image_default(), o@),
    {
        let n = o.unicode_len();
        proof {
            assert(o@.subrange(0, n as int) =~= o@);
        }
        let mut st = StyleImage::new();
        let mut pos: usize = 0;
        loop
            invariant
                pos <= n,
                n == o@.len(),
                opts_fold(st@, o@.subrange(pos as int, n as int)) == opts_fold(
                    crate::mark::style_image_default(),
                    o@,
                ),
            decreases n - pos,
        {
            let ghost rest = o@.subrange(pos as int, n as int);
            let cut = find_char_at(o, pos, '|');
            proof {
                lemma_find_at(o@, pos as int, '|');
                crate::text::lemma_find_at_shift(o@, pos as int, '|');
            }
            let seg = Self::apply_option(st, o, pos, cut);
            proof {
                assert(o@.subrange(pos as int, cut as int) =~= rest.subrange(
                    0,
                    find_at(rest, 0, '|'),
                ));
            }
            if cut == n {
                proof {
                    assert(o@.subrange(pos as int, cut as int) =~= rest);
                    assert(find_at(rest, 0, '|') == rest.len());
                }
                return seg;
            }
            proof {
                assert(o@.subrange(cut + 1, n as int) =~= rest.subrange(
                    find_at(rest, 0, '|') + 1,
                    rest.len() as int,
                ));
            }
            st = seg;
            pos = cut + 1;
        }
    }

    /// The image production: `![title](url)` with optional `<options>`.
    fn image(&mut self) -> (r: Option<Mark>)
        ensures
            production_post(spec_image(old(self)@), old(self)@, final(self)@, r),
    {
        let n = self.s.as_str().unicode_len();
        if n >= 2 && self.s.as_str().get_char(0) == '!' && self.s.as_str().get_char(1) == '[' {
            let le = find_char_at(self.s.as_str(), 0, '\n');
            let be = find_char_at(self.s.as_str(), 0, ']');
            proof {
                lemma_find_at(self@.s, 0, '\n');
                lemma_find_at(self@.s, 0, ']');
            }
            if be < le && be + 1 < le && self.s.as_str().get_char(be + 1) == '(' {
                let pe = find_char_at(self.s.as_str(), be + 2, ')');
                proof {
                    lemma_find_at(self@.s, be + 2, ')');
                }
                if pe < le {
                    let title = substr(self.s.as_str(), 2, be);
                    let url = substr(self.s.as_str(), be + 2, pe);
                    if pe + 1 < le && self.s.as_str().get_char(pe + 1) == '<' {
                        let ae = find_char_at(self.s.as_str(), pe + 2, '>');
                        proof {
                            lemma_find_at(self@.s, pe + 2, '>');
                        }
                        if ae < le {
                            let opts = substr(self.s.as_str(), pe + 2, ae);
                            let style = Self::parse_options(opts.as_str());
                            self.consume(ae + 1);
                            self.is_line_start = false;
                            Option::Some(Mark::Image(url, title, style))
                        } else {
                            self.consume(pe + 1);
                            self.is_line_start = false;
                            Option::Some(Mark::Image(url, title, StyleImage::new()))
                        }
                    } else {
                        self.consume(pe + 1);
                        self.is_line_start = false;
                        Option::Some(Mark::Image(url, title, StyleImage::new()))
                    }
                } else {
                    Option::None
                }
            } else {
                Option::None
            }
        } else {
            Option::None
        }
    }

    /// The indent level of the line that starts the remainder.
    fn line_indent_level(&self) -> (r: usize)
        requires
            self@.s.len() > 0,
            self@.s[0] != '\n',
        ensures
            r == crate::scan::line_indent(self@.s),
            r <= 5,
            2 * r < crate::text::line_end(self@.s, 0),
    {
        let le = find_char_at(self.s.as_str(), 0, '\n');
        proof {
            lemma_find_at(self@.s, 0, '\n');
            assert(le >= 1);
        }
        let sp = run_end_at(self.s.as_str(), 0, ' ');
        proof {
            lemma_run_end(self@.s, 0, ' ');
        }
        let capped = if sp < le - 1 {
            sp
        } else {
            le - 1
        };
        let lvl = capped / 2;
        if lvl > 5 {
            5
        } else {
            lvl
        }
    }

    /// The ordered-list production: indent, digits, `. `.
    fn ordered_list(&mut self) -> (r: Option<Mark>)
        requires
            old(self)@.s.len() > 0,
            old(self)@.s[0] != '\n',
        ensures
            production_post(spec_ordered(old(self)@), old(self)@, final(self)@, r),
    {
        let n = self.s.as_str().unicode_len();
        let le = find_char_at(self.s.as_str(), 0, '\n');
        proof {
            lemma_find_at(self@.s, 0, '\n');
        }
        let lvl = self.line_indent_level();
        let ind = 2 * lvl;
        let de0 = digits_end_at(self.s.as_str(), ind);
        proof {
            lemma_digits_end(self@.s, ind as int);
        }
        let de = if de0 < le - 1 {
            de0
        } else {
            le - 1
        };
        if le - de >= 2 && self.s.as_str().get_char(de) == '.' && self.s.as_str().get_char(de + 1)
            == ' ' {
            let stored = self.get_ord(lvl);
            let ordinal = if self.is_ordered && self.ordered_list_current_indent_level as usize
                >= lvl {
                if stored == 255 {
                    255
                } else {
                    stored + 1
                }
            } else {
                1
            };
            let text = substr(self.s.as_str(), de + 2, le);
            let style = StyleText::new().with_listing(
                Listing::Ordered(ordinal, IndentLevel::from_int(lvl as u8)),
            );
            self.consume(le);
            self.set_ord(lvl, ordinal);
            self.is_line_start = false;
            self.is_ordered = true;
            self.ordered_list_current_indent_level = lvl as u8;
            Option::Some(Mark::Text(text, style))
        } else {
            Option::None
        }
    }

    /// The quote production: a line starting with `> `.
    fn quote(&mut self) -> (r: Option<Mark>)
        ensures
            production_post(spec_quote(old(self)@), old(self)@, final(self)@, r),
    {
        let n = self.s.as_str().unicode_len();
        if n >= 2 && self.s.as_str().get_char(0) == '>' && self.s.as_str().get_char(1) == ' ' {
            let le = find_char_at(self.s.as_str(), 0, '\n');
            proof {
                lemma_find_at(self@.s, 0, '\n');
            }
            let text = substr(self.s.as_str(), 2, le);
            self.consume(le);
            self.is_line_start = false;
            Option::Some(Mark::Text(text, StyleText::new().with_quote()))
        } else {
            Option::None
        }
    }

    /// The separator production: a line that is exactly `----` or `----v`.
    fn separator(&mut self) -> (r: Option<Mark>)
        ensures
            production_post(spec_separator(old(self)@), old(self)@, final(self)@, r),
    {
        let n = self.s.as_str().unicode_len();
        if n >= 5 && self.s.as_str().get_char(0) == '-' && self.s.as_str().get_char(1) == '-'
            && self.s.as_str().get_char(2) == '-' && self.s.as_str().get_char(3) == '-'
            && self.s.as_str().get_char(4) == '\n' {
            self.consume(5);
            Option::Some(Mark::Separator(SeparatorDir::Horizontal))
        } else if n >= 6 && self.s.as_str().get_char(0) == '-' && self.s.as_str().get_char(1)
            == '-' && self.s.as_str().get_char(2) == '-' && self.s.as_str().get_char(3) == '-'
            && self.s.as_str().get_char(4) == 'v' && self.s.as_str().get_char(5) == '\n' {
            self.consume(6);
            Option::Some(Mark::Separator(SeparatorDir::Vertical))
        } else {
            Option::None
        }
    }

    /// The unordered-list production: indent, then `- `.
    fn unordered_list(&mut self) -> (r: Option<Mark>)
        requires
            old(self)@.s.len() > 0,
            old(self)@.s[0] != '\n',
        ensures
            production_post(spec_unordered(old(self)@), old(self)@, final(self)@, r),
    {
        let n = self.s.as_str().unicode_len();
        let le = find_char_at(self.s.as_str(), 0, '\n');
        proof {
            lemma_find_at(self@.s, 0, '\n');
        }
        let lvl = self.line_indent_level();
        let ind = 2 * lvl;
        if n - ind >= 2 && self.s.as_str().get_char(ind) == '-' && self.s.as_str().get_char(
            ind + 1,
        ) == ' ' {
            proof {
                assert(le > ind + 1);
            }
            let text = substr(self.s.as_str(), ind + 2, le);
            let style = StyleText::new().with_listing(
                Listing::Unordered(IndentLevel::from_int(lvl as u8)),
            );
            self.consume(le);
            self.is_line_start = false;
            self.is_unordered = true;
            Option::Some(Mark::Text(text, style))
        } else {
            Option::None
        }
    }

    /// The inline-code production: a backtick span closed on the same line.
    fn code(&mut self) -> (r: Option<Mark>)
        ensures
            production_post(spec_code_inline(old(self)@), old(self)@, final(self)@, r),
    {
        let n = self.s.as_str().unicode_len();
        if n >= 1 && self.s.as_str().get_char(0) == '`' {
            let le = find_char_at(self.s.as_str(), 0, '\n');
            let ce = find_char_at(self.s.as_str(), 1, '`');
            proof {
                lemma_find_at(self@.s, 0, '\n');
                lemma_find_at(self@.s, 1, '`');
            }
            if ce < le {
                let text = substr(self.s.as_str(), 1, ce);
                self.consume(ce + 1);
                Option::Some(Mark::Text(text, StyleText::new().with_code()))
            } else {
                Option::None
            }
        } else {
            Option::None
        }
    }

    /// The hyperlink productions: `<url>` and `[title](url)`.
    fn hyperlink(&mut self) -> (r: Option<Mark>)
        ensures
            production_post(spec_hyperlink(old(self)@), old(self)@, final(self)@, r),
    {
        let n = self.s.as_str().unicode_len();
        let le = find_char_at(self.s.as_str(), 0, '\n');
        proof {
            lemma_find_at(self@.s, 0, '\n');
        }
        if n >= 1 && self.s.as_str().get_char(0) == '<' {
            let ae = find_char_at(self.s.as_str(), 0, '>');
            proof {
                lemma_find_at(self@.s, 0, '>');
            }
            if ae < le {
                let url = substr(self.s.as_str(), 1, ae);
                let url2 = url.clone();
                self.consume(ae + 1);
                self.is_line_start = false;
                return Option::Some(Mark::Text(url2, StyleText::new().with_hyperlink(url)));
            }
        }
        if n >= 1 && self.s.as_str().get_char(0) == '[' {
            let be = find_char_at(self.s.as_str(), 0, ']');
            proof {
                lemma_find_at(self@.s, 0, ']');
            }
            if be < le && be + 1 < le && self.s.as_str().get_char(be + 1) == '(' {
                let pe = find_char_at(self.s.as_str(), be + 2, ')');
                proof {
                    lemma_find_at(self@.s, be + 2, ')');
                }
                if pe < le {
                    let title = substr(self.s.as_str(), 1, be);
                    let url = substr(self.s.as_str(), be + 2, pe);
                    self.consume(pe + 1);
                    self.is_line_start = false;
                    return Option::Some(Mark::Text(title, StyleText::new().with_hyperlink(url)));
                }
            }
        }
        Option::None
    }

    /// The fallback production: literal text up to the next special
    /// character, at least one character long.
    fn fallback(&mut self) -> (r: Mark)
        requires
            old(self)@.s.len() > 0,
        ensures
            (spec_fallback(old(self)@) matches (t, v2) && final(self)@ == v2 && token_of(r) == t
                && flat(r)),
    {
        let n = self.s.as_str().unicode_len();
        let sp = special_end_at(self.s.as_str(), 0);
        proof {
            lemma_special_end(self@.s, 0);
        }
        let end = if sp >= n {
            n
        } else if sp < 1 {
            1
        } else {
            sp
        };
        let text = substr(self.s.as_str(), 0, end);
        let style = self.style_text.clone();
        self.consume(end);
        self.is_line_start = false;
        Mark::Text(text, style)
    }

    /// One pull of the tokenizer: the next mark of the document, or
    /// nothing once the text is exhausted. The result and the state
    /// change are exactly those of [`spec_next`].
    #[verifier::rlimit(60)]
    pub fn next(&mut self) -> (r: Option<Mark>)
        ensures
            ({
                let (t, v2) = spec_next(old(self)@);
                &&& final(self)@ == v2
                &&& (match r {
                    Option::None => t is None,
                    Option::Some(m) => t == Option::Some(token_of(m)) && flat(m),
                })
            }),
    {
        if !self.first_page_return {
            self.first_page_return = true;
            return Option::Some(Mark::Page(Vec::new()));
        }
        if self.transition_order == 0 {
            self.transition_order = 1;
            return Option::Some(Mark::Transition(0, Vec::new()));
        }
        loop
            invariant
                spec_scan(self@) == spec_next(old(self)@),
            decreases self@.s.len(),
        {
            let ghost v = self@;
            let n = self.s.as_str().unicode_len();
            if n == 0 {
                return Option::None;
            }
            if self.s.as_str().get_char(0) == '\n' {
                self.consume(1);
                self.is_line_start = true;
                self.style_text = StyleText::new();
                let n1 = self.s.as_str().unicode_len();
                if n1 == 0 {
                    self.clear_lists();
                    return Option::Some(Mark::NewLine);
                }
                if self.s.as_str().get_char(0) == '\n' {
                    self.consume(1);
                    self.clear_lists();
                    return Option::Some(Mark::NewLine);
                }
                continue;
            }
            if self.is_line_start {
                let r = self.page();
                if r.is_some() {
                    return r;
                }
                let r = self.transition();
                if r.is_some() {
                    return r;
                }
                let r = self.transition_end();
                if r.is_some() {
                    return r;
                }
                let r = self.code_block();
                if r.is_some() {
                    return r;
                }
                let r = self.heading();
                if r.is_some() {
                    return r;
                }
                let r = self.image();
                if r.is_some() {
                    return r;
                }
                let r = self.ordered_list();
                if r.is_some() {
                    return r;
                }
                let r = self.quote();
                if r.is_some() {
                    return r;
                }
                let r = self.separator();
                if r.is_some() {
                    return r;
                }
                let r = self.unordered_list();
                if r.is_some() {
                    return r;
                }
                proof {
                    assert(spec_block(v) is None);
                }
            }
            let c = self.s.as_str().get_char(0);
            if c == '*' || c == '/' || c == '$' || c == '~' || c == '_' {
                self.consume(1);
                self.is_line_start = false;
                if c == '*' {
                    self.style_text.bold = !self.style_text.bold;
                } else if c == '/' {
                    self.style_text.italics = !self.style_text.italics;
                } else if c == '$' {
                    self.style_text.small = !self.style_text.small;
                } else if c == '~' {
                    self.style_text.strikethrough = !self.style_text.strikethrough;
                } else {
                    self.style_text.underline = !self.style_text.underline;
                }
                proof {
                    assert(self@ =~= (ParserView {
                        line_start: false,
                        style: toggled(v.style, c),
                        ..advance(v, 1)
                    }));
                }
                continue;
            }
            let r = self.code();
            if r.is_some() {
                return r;
            }
            let r = self.hyperlink();
            if r.is_some() {
                return r;
            }
            if c == '\\' && n >= 2 {
                let text = substr(self.s.as_str(), 1, 2);
                self.consume(2);
                self.is_line_start = false;
                proof {
                    assert(spec_escape(v) is Some);
                }
                return Option::Some(Mark::Text(text, StyleText::new()));
            }
            proof {
                assert(spec_escape(v) is None);
            }
            let m = self.fallback();
            return Option::Some(m);
        }
    }
}

} // verus!
