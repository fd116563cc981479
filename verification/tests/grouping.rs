use opmark::mark::{Mark, StyleText};
use opmark::Parser;

fn pages_of(src: &str) -> Vec<(Mark, usize, usize)> {
    Parser::into_pages(Parser::new(src.to_string()))
}

fn text(s: &str) -> Mark {
    Mark::Text(s.to_string(), StyleText::new())
}

#[test]
fn single_page_single_transition() {
    let pages = pages_of("hello");
    assert_eq!(
        pages,
        vec![(
            Mark::Page(vec![Mark::Transition(0, vec![text("hello")])]),
            0,
            0
        )]
    );
}

#[test]
fn page_marker_splits_pages() {
    let pages = pages_of("a\n---\nb");
    assert_eq!(
        pages,
        vec![
            (Mark::Page(vec![Mark::Transition(0, vec![text("a")])]), 0, 0),
            (Mark::Page(vec![Mark::Transition(0, vec![text("b")])]), 0, 0),
        ]
    );
}

#[test]
fn explicit_transition_sets_max_order() {
    let pages = pages_of("x\n---t3\ny");
    assert_eq!(
        pages,
        vec![(
            Mark::Page(vec![
                Mark::Transition(0, vec![text("x")]),
                Mark::Transition(3, vec![text("y")]),
            ]),
            3,
            0
        )]
    );
}

#[test]
fn transition_end_closes_group() {
    let pages = pages_of("a\nt---\nb");
    assert_eq!(
        pages,
        vec![(
            Mark::Page(vec![
                Mark::Transition(0, vec![text("a")]),
                Mark::Transition(0, vec![text("b")]),
            ]),
            0,
            0
        )]
    );
}

#[test]
fn paragraph_break_is_attached() {
    let pages = pages_of("a\n\nb");
    assert_eq!(
        pages,
        vec![(
            Mark::Page(vec![Mark::Transition(
                0,
                vec![text("a"), Mark::NewLine, text("b")]
            )]),
            0,
            0
        )]
    );
}

fn is_content(m: &Mark) -> bool {
    !matches!(
        m,
        Mark::Page(_) | Mark::Transition(_, _) | Mark::TransitionEnd
    )
}

#[test]
fn grouping_conserves_content_marks() {
    let src = "## t\na *b* c\n---t2\n> q\n\n1. x\nt---\n`code`\n---\n<link>\n----\n";
    let mut p = Parser::new(src.to_string());
    let mut flat: usize = 0;
    while let Some(m) = p.next() {
        if is_content(&m) {
            flat += 1;
        }
    }
    let pages = pages_of(src);
    let mut attached: usize = 0;
    for (pm, _, _) in &pages {
        if let Mark::Page(transitions) = pm {
            for tr in transitions {
                if let Mark::Transition(_, children) = tr {
                    attached += children.len();
                    for c in children {
                        assert!(is_content(c));
                    }
                }
            }
        }
    }
    assert!(flat > 0);
    assert_eq!(attached, flat);
}

#[test]
fn reserved_index_field_stays_zero() {
    let pages = pages_of("a\n---t7\nb\n---\nc");
    for (_, _, reserved) in &pages {
        assert_eq!(*reserved, 0);
    }
}
