//! The grouping pass: folding the flat mark stream into pages that carry
//! their transitions, and the conservation law that no content mark is
//! dropped or duplicated on the way.

use vstd::prelude::*;

use crate::mark::{is_content, token_of, Mark, Token};

verus! {

/// The value of one transition in a grouped page: its reveal order and the
/// content tokens attached to it.
#[verifier::ext_equal]
pub struct TransView {
    pub order: usize,
    pub children: Seq<Token>,
}

/// The value of one grouped page: its transitions, the greatest reveal
/// order seen among them, and the reserved index field, which the grouping
/// pass initializes and never updates.
#[verifier::ext_equal]
pub struct PageView {
    pub transitions: Seq<TransView>,
    pub max_order: usize,
    pub reserved: usize,
}

/// An empty page record.
pub open spec fn empty_page() -> PageView {
    PageView { transitions: Seq::empty(), max_order: 0, reserved: 0 }
}

/// An empty transition with the given order.
pub open spec fn empty_trans(order: usize) -> TransView {
    TransView { order, children: Seq::empty() }
}

/// One grouping step. A page token starts a new record; a transition token
/// opens a new transition under the current page and raises its greatest
/// order; a transition-end token closes the open transition by appending a
/// fresh empty boundary transition; content is attached to the most recent
/// transition, an empty one being synthesized first if none is open. A
/// page record is synthesized if content arrives before any page token.
pub open spec fn group_step(pages: Seq<PageView>, t: Token) -> Seq<PageView> {
    match t {
        Token::Page => pages.push(empty_page()),
        _ => {
            let base = if pages.len() == 0 {
                seq![empty_page()]
            } else {
                pages
            };
            let p = base.last();
            match t {
                Token::Transition(order) => {
                    let p2 = PageView {
                        transitions: p.transitions.push(empty_trans(order)),
                        max_order: if order > p.max_order {
                            order
                        } else {
                            p.max_order
                        },
                        ..p
                    };
                    base.update(base.len() - 1, p2)
                },
                Token::TransitionEnd => {
                    let p2 = PageView { transitions: p.transitions.push(empty_trans(0)), ..p };
                    base.update(base.len() - 1, p2)
                },
                _ => {
                    let withtrans = if p.transitions.len() == 0 {
                        PageView { transitions: p.transitions.push(empty_trans(0)), ..p }
                    } else {
                        p
                    };
                    let k = withtrans.transitions.len() - 1;
                    let tr = withtrans.transitions.last();
                    let tr2 = TransView { children: tr.children.push(t), ..tr };
                    let p2 = PageView {
                        transitions: withtrans.transitions.update(k, tr2),
                        ..withtrans
                    };
                    base.update(base.len() - 1, p2)
                },
            }
        },
    }
}

/// The grouping of a whole token sequence, folded left to right.
pub open spec fn group_toks(toks: Seq<Token>) -> Seq<PageView>
    decreases toks.len(),
{
    if toks.len() == 0 {
        Seq::empty()
    } else {
        group_step(group_toks(toks.drop_last()), toks.last())
    }
}

/// The tokens of the children of a transition mark, or an empty transition
/// value for any other mark.
pub open spec fn trans_of(m: Mark) -> TransView {
    match m {
        Mark::Transition(order, children) => TransView {
            order,
            children: Seq::new(children@.len(), |i: int| token_of(children@[i])),
        },
        _ => empty_trans(0),
    }
}

/// The value of one grouped page record.
pub open spec fn page_of(rec: (Mark, usize, usize)) -> PageView {
    match rec.0 {
        Mark::Page(children) => PageView {
            transitions: Seq::new(children@.len(), |i: int| trans_of(children@[i])),
            max_order: rec.1,
            reserved: rec.2,
        },
        _ => PageView { transitions: Seq::empty(), max_order: rec.1, reserved: rec.2 },
    }
}

/// The value of a grouped result.
pub open spec fn pages_of(recs: Seq<(Mark, usize, usize)>) -> Seq<PageView> {
    Seq::new(recs.len(), |i: int| page_of(recs[i]))
}

/// Whether every record of a grouped result is shaped as the grouping pass
/// leaves it: a page mark whose children are all transition marks, each of
/// whose children is a flat content mark.
pub open spec fn pages_wf(recs: Seq<(Mark, usize, usize)>) -> bool {
    forall|i: int|
        0 <= i < recs.len() ==> (#[trigger] recs[i].0 matches Mark::Page(children) && (forall|
            j: int,
        |
            0 <= j < children@.len() ==> (#[trigger] children@[j] matches Mark::Transition(
                _,
                grand,
            ) && (forall|k: int|
                0 <= k < grand@.len() ==> crate::mark::flat(#[trigger] grand@[k]) && is_content(
                    token_of(grand@[k]),
                )))))
}

/// The number of content tokens in a token sequence.
pub open spec fn content_count(toks: Seq<Token>) -> int
    decreases toks.len(),
{
    if toks.len() == 0 {
        0
    } else {
        content_count(toks.drop_last()) + if is_content(toks.last()) {
            1int
        } else {
            0int
        }
    }
}

/// The number of tokens attached across a run of transitions.
pub open spec fn trans_attached(ts: Seq<TransView>) -> int
    decreases ts.len(),
{
    if ts.len() == 0 {
        0
    } else {
        trans_attached(ts.drop_last()) + ts.last().children.len()
    }
}

/// The number of content tokens attached across all pages.
pub open spec fn attached_count(pages: Seq<PageView>) -> int
    decreases pages.len(),
{
    if pages.len() == 0 {
        0
    } else {
        attached_count(pages.drop_last()) + trans_attached(pages.last().transitions)
    }
}

/// Appending a transition adds its children's count.
proof fn lemma_trans_attached_push(ts: Seq<TransView>, tr: TransView)
    ensures
        trans_attached(ts.push(tr)) == trans_attached(ts) + tr.children.len(),
{
    assert(ts.push(tr).drop_last() =~= ts);
}

/// Replacing the last transition adjusts the count by the difference.
proof fn lemma_trans_attached_update_last(ts: Seq<TransView>, tr: TransView)
    requires
        ts.len() > 0,
    ensures
        trans_attached(ts.update(ts.len() - 1, tr)) == trans_attached(ts) - ts.last().children.len()
            + tr.children.len(),
{
    assert(ts.update(ts.len() - 1, tr).drop_last() =~= ts.drop_last());
    assert(ts.update(ts.len() - 1, tr).last() == tr);
}

/// Appending a page adds its attached count.
proof fn lemma_attached_push(pages: Seq<PageView>, p: PageView)
    ensures
        attached_count(pages.push(p)) == attached_count(pages) + trans_attached(p.transitions),
{
    assert(pages.push(p).drop_last() =~= pages);
}

/// Replacing the last page adjusts the count by the difference.
proof fn lemma_attached_update_last(pages: Seq<PageView>, p: PageView)
    requires
        pages.len() > 0,
    ensures
        attached_count(pages.update(pages.len() - 1, p)) == attached_count(pages)
            - trans_attached(pages.last().transitions) + trans_attached(p.transitions),
{
    assert(pages.update(pages.len() - 1, p).drop_last() =~= pages.drop_last());
    assert(pages.update(pages.len() - 1, p).last() == p);
}

/// One grouping step attaches exactly the content tokens: a content token
/// lands in exactly one transition, and every other token attaches
/// nothing.
proof fn lemma_step_attached(pages: Seq<PageView>, t: Token)
    ensures
        attached_count(group_step(pages, t)) == attached_count(pages) + if is_content(t) {
            1int
        } else {
            0int
        },
{
    match t {
        Token::Page => {
            lemma_attached_push(pages, empty_page());
        },
        _ => {
            let base = if pages.len() == 0 {
                seq![empty_page()]
            } else {
                pages
            };
            if pages.len() == 0 {
                assert(base.drop_last() =~= Seq::<PageView>::empty());
                assert(attached_count(Seq::<PageView>::empty()) == 0);
                assert(base.last() == empty_page());
                assert(trans_attached(empty_page().transitions) == 0);
                assert(attached_count(base) == 0);
            }
            let p = base.last();
            match t {
                Token::Transition(order) => {
                    let p2 = PageView {
                        transitions: p.transitions.push(empty_trans(order)),
                        max_order: if order > p.max_order {
                            order
                        } else {
                            p.max_order
                        },
                        ..p
                    };
                    lemma_trans_attached_push(p.transitions, empty_trans(order));
                    lemma_attached_update_last(base, p2);
                },
                Token::TransitionEnd => {
                    let p2 = PageView { transitions: p.transitions.push(empty_trans(0)), ..p };
                    lemma_trans_attached_push(p.transitions, empty_trans(0));
                    lemma_attached_update_last(base, p2);
                },
                _ => {
                    let withtrans = if p.transitions.len() == 0 {
                        PageView { transitions: p.transitions.push(empty_trans(0)), ..p }
                    } else {
                        p
                    };
                    if p.transitions.len() == 0 {
                        lemma_trans_attached_push(p.transitions, empty_trans(0));
                    }
                    let k = withtrans.transitions.len() - 1;
                    let tr = withtrans.transitions.last();
                    let tr2 = TransView { children: tr.children.push(t), ..tr };
                    let p2 = PageView {
                        transitions: withtrans.transitions.update(k, tr2),
                        ..withtrans
                    };
                    lemma_trans_attached_update_last(withtrans.transitions, tr2);
                    lemma_attached_update_last(base, p2);
                },
            }
        },
    }
}

/// One exec grouping step: fold the next mark into the page records,
/// exactly as [`group_step`] folds its token.
fn group_push(pages: &mut Vec<(Mark, usize, usize)>, m: Mark)
    requires
        crate::mark::flat(m),
        pages_wf(old(pages)@),
    ensures
        pages_of(final(pages)@) == group_step(pages_of(old(pages)@), token_of(m)),
        pages_wf(final(pages)@),
{
    let ghost t = token_of(m);
    let ghost pv = pages_of(old(pages)@);
    let is_page = match &m {
        Mark::Page(_) => true,
        _ => false,
    };
    if is_page {
        pages.push((m, 0, 0));
        proof {
            assert(page_of((m, 0, 0)).transitions =~= empty_page().transitions);
            assert(page_of((m, 0, 0)) =~= empty_page());
            assert(pages_of(pages@) =~= pv.push(empty_page()));
        }
        return;
    }
    if pages.len() == 0 {
        pages.push((Mark::Page(Vec::new()), 0, 0));
        proof {
            assert(page_of(pages@[0]).transitions =~= empty_page().transitions);
            assert(page_of(pages@[0]) =~= empty_page());
            assert(pages_of(pages@) =~= seq![empty_page()]);
        }
    }
    let ghost base = pages_of(pages@);
    let ghost p = base.last();
    let rec = match pages.pop() {
        Option::Some(r) => r,
        Option::None => {
            proof {
                assert(false);
            }
            (Mark::Page(Vec::new()), 0, 0)
        },
    };
    let (pm, mx, rz) = rec;
    let mut children = match pm {
        Mark::Page(c) => c,
        _ => {
            proof {
                assert(false);
            }
            Vec::new()
        },
    };
    proof {
        assert(p.transitions == Seq::new(children@.len(), |i: int| trans_of(children@[i])));
        assert(p.max_order == mx && p.reserved == rz);
    }
    let is_end = match &m {
        Mark::TransitionEnd => true,
        _ => false,
    };
    let order_opt = match &m {
        Mark::Transition(o, _) => Option::Some(*o),
        _ => Option::None,
    };
    match order_opt {
        Option::Some(order) => {
            children.push(m);
            let newmx = if order > mx {
                order
            } else {
                mx
            };
            pages.push((Mark::Page(children), newmx, rz));
            proof {
                let p2 = page_of((Mark::Page(children), newmx, rz));
                assert(trans_of(m).children =~= Seq::<Token>::empty());
                assert(trans_of(m) =~= empty_trans(order));
                assert(p2.transitions =~= p.transitions.push(empty_trans(order)));
                assert(pages_of(pages@) =~= base.update(base.len() - 1, p2));
                let sbase = if pv.len() == 0 {
                    seq![empty_page()]
                } else {
                    pv
                };
                assert(base == sbase);
                assert(p == sbase.last());
                let sp2 = PageView {
                    transitions: p.transitions.push(empty_trans(order)),
                    max_order: if order > p.max_order {
                        order
                    } else {
                        p.max_order
                    },
                    ..p
                };
                assert(p2 =~= sp2);
                assert(t == Token::Transition(order));
                assert(group_step(pv, t) == sbase.update(sbase.len() - 1, sp2));
                assert(pages_of(pages@) =~= group_step(pv, t));
            }
            return;
        },
        Option::None => {},
    }
    if children.len() == 0 || is_end {
        children.push(Mark::Transition(0, Vec::new()));
        proof {
            assert(trans_of(children@[children@.len() - 1]).children =~= Seq::<Token>::empty());
            assert(trans_of(children@[children@.len() - 1]) =~= empty_trans(0));
        }
    }
    if is_end {
        pages.push((Mark::Page(children), mx, rz));
        proof {
            let p2 = page_of((Mark::Page(children), mx, rz));
            assert(p2.transitions =~= p.transitions.push(empty_trans(0)));
            assert(pages_of(pages@) =~= base.update(base.len() - 1, p2));
            let sbase = if pv.len() == 0 {
                seq![empty_page()]
            } else {
                pv
            };
            assert(base == sbase);
            assert(p == sbase.last());
            let sp2 = PageView { transitions: p.transitions.push(empty_trans(0)), ..p };
            assert(p2 =~= sp2);
            assert(t is TransitionEnd);
            assert(group_step(pv, t) == sbase.update(sbase.len() - 1, sp2));
            assert(pages_of(pages@) =~= group_step(pv, t));
        }
        return;
    }
    let ghost mid = Seq::new(children@.len(), |i: int| trans_of(children@[i]));
    let ghost withtrans = PageView { transitions: mid, max_order: mx, reserved: rz };
    let last = match children.pop() {
        Option::Some(c) => c,
        Option::None => {
            proof {
                assert(false);
            }
            Mark::Transition(0, Vec::new())
        },
    };
    let (order, mut kids) = match last {
        Mark::Transition(o, k) => (o, k),
        _ => {
            proof {
                assert(mid.last() == trans_of(last));
                assert(false);
            }
            (0, Vec::new())
        },
    };
    kids.push(m);
    children.push(Mark::Transition(order, kids));
    pages.push((Mark::Page(children), mx, rz));
    proof {
        let tr = mid.last();
        let tr2 = TransView { children: tr.children.push(t), ..tr };
        assert(trans_of(Mark::Transition(order, kids)).children =~= tr.children.push(t));
        assert(trans_of(Mark::Transition(order, kids)) =~= tr2);
        let p2 = page_of((Mark::Page(children), mx, rz));
        assert(p2.transitions =~= mid.update(mid.len() - 1, tr2));
        assert(pages_of(pages@) =~= base.update(base.len() - 1, p2));
        let sbase = if pv.len() == 0 {
            seq![empty_page()]
        } else {
            pv
        };
        assert(base == sbase);
        assert(p == sbase.last());
        let swt = if p.transitions.len() == 0 {
            PageView { transitions: p.transitions.push(empty_trans(0)), ..p }
        } else {
            p
        };
        assert(mid =~= swt.transitions);
        let str2 = TransView {
            children: swt.transitions.last().children.push(t),
            ..swt.transitions.last()
        };
        assert(tr2 =~= str2);
        let sp2 = PageView {
            transitions: swt.transitions.update(swt.transitions.len() - 1, str2),
            ..swt
        };
        assert(p2 =~= sp2);
        assert(!(t is Page) && !(t is Transition) && !(t is TransitionEnd));
        assert(group_step(pv, t) == sbase.update(sbase.len() - 1, sp2));
        assert(pages_of(pages@) =~= group_step(pv, t));
    }
}

/// The conservation law of the grouping pass: over any token sequence, the
/// total number of content tokens attached across all transitions of all
/// pages equals the number of content tokens in the flat sequence — no
/// mark is dropped or duplicated.
pub proof fn lemma_grouping_conserves_content(toks: Seq<Token>)
    ensures
        attached_count(group_toks(toks)) == content_count(toks),
    decreases toks.len(),
{
    if toks.len() > 0 {
        lemma_grouping_conserves_content(toks.drop_last());
        lemma_step_attached(group_toks(toks.drop_last()), toks.last());
    }
}

impl crate::parser::Parser {
    /// Pull the whole mark stream out of a tokenizer and fold it into
    /// page records: each holds the page mark with its transitions as
    /// children, the greatest reveal order seen on the page, and a
    /// reserved index field that is initialized to zero and never
    /// updated.
    pub fn into_pages(iter: Self) -> (pages: Vec<(Mark, usize, usize)>)
        ensures
            pages_of(pages@) == group_toks(crate::scan::run_toks(iter@)),
            pages_wf(pages@),
            attached_count(pages_of(pages@)) == content_count(crate::scan::run_toks(iter@)),
    {
        let ghost v0 = iter@;
        let mut it = iter;
        let mut pages: Vec<(Mark, usize, usize)> = Vec::new();
        let ghost mut done: Seq<Token> = Seq::empty();
        proof {
            assert(done + crate::scan::run_toks(it@) =~= crate::scan::run_toks(v0));
            assert(pages_of(pages@) =~= group_toks(done));
        }
        loop
            invariant
                iter@ == v0,
                crate::scan::run_toks(v0) == done + crate::scan::run_toks(it@),
                pages_of(pages@) == group_toks(done),
                pages_wf(pages@),
            decreases crate::scan::fuel_of(it@),
        {
            let ghost pre = it@;
            let m = it.next();
            proof {
                crate::scan::lemma_next_fuel(pre);
            }
            match m {
                Option::None => {
                    proof {
                        assert(crate::scan::run_toks(pre) =~= Seq::<Token>::empty());
                        assert(done =~= crate::scan::run_toks(v0));
                        assert(pages_of(pages@) == group_toks(crate::scan::run_toks(v0)));
                        lemma_grouping_conserves_content(crate::scan::run_toks(v0));
                    }
                    return pages;
                },
                Option::Some(mark) => {
                    let ghost t = token_of(mark);
                    proof {
                        assert(crate::scan::run_toks(pre) == seq![t] + crate::scan::run_toks(
                            it@,
                        ));
                    }
                    group_push(&mut pages, mark);
                    proof {
                        let done0 = done;
                        done = done + seq![t];
                        assert(done.drop_last() =~= done0);
                        assert(done.last() == t);
                        assert(group_toks(done) == group_step(group_toks(done0), t));
                        assert(done + crate::scan::run_toks(it@) =~= crate::scan::run_toks(v0));
                    }
                },
            }
        }
    }
}

} // verus!
