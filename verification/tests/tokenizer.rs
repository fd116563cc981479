use opmark::mark::{Heading, IndentLevel, Listing, Mark, SeparatorDir, StyleImage, StyleText};
use opmark::Parser;

fn marks_of(src: &str) -> Vec<Mark> {
    let mut p = Parser::new(src.to_string());
    let mut v = Vec::new();
    while let Some(m) = p.next() {
        v.push(m);
    }
    v
}

#[test]
fn empty_input_bootstrap() {
    assert_eq!(
        marks_of(""),
        vec![Mark::Page(vec![]), Mark::Transition(0, vec![])]
    );
}

#[test]
fn bootstrap_precedes_any_input() {
    let ms = marks_of("hello");
    assert_eq!(ms[0], Mark::Page(vec![]));
    assert_eq!(ms[1], Mark::Transition(0, vec![]));
}

#[test]
fn bootstrap_before_leading_page_marker() {
    assert_eq!(
        marks_of("---\n"),
        vec![
            Mark::Page(vec![]),
            Mark::Transition(0, vec![]),
            Mark::Page(vec![]),
            Mark::Transition(0, vec![]),
        ]
    );
}

#[test]
fn bold_toggle_single_run() {
    let ms = marks_of("*bold*");
    assert_eq!(ms.len(), 3);
    assert_eq!(
        ms[2],
        Mark::Text("bold".to_string(), StyleText::new().with_bold())
    );
}

#[test]
fn double_toggle_cancels() {
    let ms = marks_of("**x**");
    assert_eq!(ms.len(), 3);
    assert_eq!(ms[2], Mark::Text("x".to_string(), StyleText::new()));
}

#[test]
fn ordinals_ignore_written_numbers() {
    let ms = marks_of("1. a\n7. b\n9. c");
    let expect = |txt: &str, n: u8| {
        Mark::Text(
            txt.to_string(),
            StyleText::new().with_listing(Listing::Ordered(n, IndentLevel::I0)),
        )
    };
    assert_eq!(ms[2], expect("a", 1));
    assert_eq!(ms[3], expect("b", 2));
    assert_eq!(ms[4], expect("c", 3));
}

#[test]
fn deeper_indent_restarts_then_resumes() {
    let ms = marks_of("1. a\n  3. b\n5. c");
    assert_eq!(
        ms[2],
        Mark::Text(
            "a".to_string(),
            StyleText::new().with_listing(Listing::Ordered(1, IndentLevel::I0))
        )
    );
    assert_eq!(
        ms[3],
        Mark::Text(
            "b".to_string(),
            StyleText::new().with_listing(Listing::Ordered(1, IndentLevel::I1))
        )
    );
    assert_eq!(
        ms[4],
        Mark::Text(
            "c".to_string(),
            StyleText::new().with_listing(Listing::Ordered(2, IndentLevel::I0))
        )
    );
}

#[test]
fn blank_line_resets_ordinals() {
    let ms = marks_of("1. a\n\n5. b");
    assert_eq!(
        ms[2],
        Mark::Text(
            "a".to_string(),
            StyleText::new().with_listing(Listing::Ordered(1, IndentLevel::I0))
        )
    );
    assert_eq!(ms[3], Mark::NewLine);
    assert_eq!(
        ms[4],
        Mark::Text(
            "b".to_string(),
            StyleText::new().with_listing(Listing::Ordered(1, IndentLevel::I0))
        )
    );
}

#[test]
fn single_newline_emits_nothing() {
    let ms = marks_of("a\nb");
    assert_eq!(ms.len(), 4);
    assert_eq!(ms[2], Mark::Text("a".to_string(), StyleText::new()));
    assert_eq!(ms[3], Mark::Text("b".to_string(), StyleText::new()));
}

#[test]
fn trailing_newline_is_paragraph_break() {
    let ms = marks_of("a\n");
    assert_eq!(ms.len(), 4);
    assert_eq!(ms[3], Mark::NewLine);
}

#[test]
fn image_width_option() {
    let ms = marks_of("![t](u)<w50>");
    assert_eq!(
        ms[2],
        Mark::Image(
            "u".to_string(),
            "t".to_string(),
            StyleImage::new().with_width("50".to_string())
        )
    );
}

#[test]
fn image_bogus_option_is_hyperlink() {
    let ms = marks_of("![t](u)<bogus>");
    assert_eq!(
        ms[2],
        Mark::Image(
            "u".to_string(),
            "t".to_string(),
            StyleImage::new().with_hyperlink("bogus".to_string())
        )
    );
}

#[test]
fn image_options_combine() {
    let ms = marks_of("![t](u)<center|h2.5>");
    assert_eq!(
        ms[2],
        Mark::Image(
            "u".to_string(),
            "t".to_string(),
            StyleImage::new()
                .with_align_h(opmark::mark::AlignHorizontal::Center)
                .with_height("2.5".to_string())
        )
    );
}

#[test]
fn image_exponent_and_word_widths() {
    let ms = marks_of("![t](u)<w1e5>");
    assert_eq!(
        ms[2],
        Mark::Image(
            "u".to_string(),
            "t".to_string(),
            StyleImage::new().with_width("1e5".to_string())
        )
    );
    let inf = marks_of("![t](u)<winf|h-2.5>");
    assert_eq!(
        inf[2],
        Mark::Image(
            "u".to_string(),
            "t".to_string(),
            StyleImage::new()
                .with_width("inf".to_string())
                .with_height("-2.5".to_string())
        )
    );
    let nan = marks_of("![t](u)<wNaN>");
    assert_eq!(
        nan[2],
        Mark::Image(
            "u".to_string(),
            "t".to_string(),
            StyleImage::new().with_width("NaN".to_string())
        )
    );
}

#[test]
fn image_dotted_and_signed_widths() {
    let ms = marks_of("![t](u)<w+5|h.5>");
    assert_eq!(
        ms[2],
        Mark::Image(
            "u".to_string(),
            "t".to_string(),
            StyleImage::new()
                .with_width("+5".to_string())
                .with_height(".5".to_string())
        )
    );
}

#[test]
fn image_bare_exponent_is_hyperlink() {
    let ms = marks_of("![t](u)<w1e>");
    assert_eq!(
        ms[2],
        Mark::Image(
            "u".to_string(),
            "t".to_string(),
            StyleImage::new().with_hyperlink("w1e".to_string())
        )
    );
}

#[test]
fn image_width_suffix_not_number_is_hyperlink() {
    let ms = marks_of("![t](u)<w5x>");
    assert_eq!(
        ms[2],
        Mark::Image(
            "u".to_string(),
            "t".to_string(),
            StyleImage::new().with_hyperlink("w5x".to_string())
        )
    );
}

#[test]
fn unterminated_code_degrades() {
    let ms = marks_of("`unterminated");
    assert_eq!(ms[2], Mark::Text("`".to_string(), StyleText::new()));
    assert_eq!(
        ms[3],
        Mark::Text("unterminated".to_string(), StyleText::new())
    );
}

#[test]
fn explicit_transition_number_rebases() {
    let ms = marks_of("---t\n---t\n---t5\n---t");
    let orders: Vec<usize> = ms
        .iter()
        .filter_map(|m| match m {
            Mark::Transition(o, _) => Some(*o),
            _ => None,
        })
        .collect();
    assert_eq!(orders, vec![0, 1, 2, 5, 6]);
}

#[test]
fn transition_with_non_digit_suffix_uses_counter() {
    let ms = marks_of("---tx\n---t");
    let orders: Vec<usize> = ms
        .iter()
        .filter_map(|m| match m {
            Mark::Transition(o, _) => Some(*o),
            _ => None,
        })
        .collect();
    assert_eq!(orders, vec![0, 1, 2]);
}

#[test]
fn heading_levels() {
    let ms = marks_of("## Title");
    assert_eq!(
        ms[2],
        Mark::Text("Title".to_string(), StyleText::new().with_heading(Heading::H2))
    );
    let deep = marks_of("###### x");
    assert_eq!(
        deep[2],
        Mark::Text("x".to_string(), StyleText::new().with_heading(Heading::H5))
    );
}

#[test]
fn heading_without_space_is_text() {
    let ms = marks_of("#foo");
    assert_eq!(ms[2], Mark::Text("#foo".to_string(), StyleText::new()));
}

#[test]
fn quote_line() {
    let ms = marks_of("> wise words");
    assert_eq!(
        ms[2],
        Mark::Text("wise words".to_string(), StyleText::new().with_quote())
    );
}

#[test]
fn separators() {
    assert_eq!(
        marks_of("----\n")[2],
        Mark::Separator(SeparatorDir::Horizontal)
    );
    assert_eq!(
        marks_of("----v\n")[2],
        Mark::Separator(SeparatorDir::Vertical)
    );
    assert_eq!(
        marks_of("----")[2],
        Mark::Text("----".to_string(), StyleText::new())
    );
}

#[test]
fn code_block_with_language() {
    let ms = marks_of("```rust\nlet x;\n```");
    assert_eq!(
        ms[2],
        Mark::CodeBlock("let x;".to_string(), Some("rust".to_string()))
    );
}

#[test]
fn code_block_without_language() {
    let ms = marks_of("```\nbody\n```");
    assert_eq!(ms[2], Mark::CodeBlock("body".to_string(), None));
}

#[test]
fn code_block_without_fence_degrades() {
    let ms = marks_of("```abc");
    assert_eq!(ms[2], Mark::Text("".to_string(), StyleText::new().with_code()));
    assert_eq!(ms[3], Mark::Text("`".to_string(), StyleText::new()));
    assert_eq!(ms[4], Mark::Text("abc".to_string(), StyleText::new()));
}

#[test]
fn hyperlink_angle_form() {
    let ms = marks_of("<url>");
    assert_eq!(
        ms[2],
        Mark::Text(
            "url".to_string(),
            StyleText::new().with_hyperlink("url".to_string())
        )
    );
}

#[test]
fn hyperlink_bracket_form() {
    let ms = marks_of("[title](url)");
    assert_eq!(
        ms[2],
        Mark::Text(
            "title".to_string(),
            StyleText::new().with_hyperlink("url".to_string())
        )
    );
}

#[test]
fn backslash_escapes_one_character() {
    let ms = marks_of("\\*x");
    assert_eq!(ms[2], Mark::Text("*".to_string(), StyleText::new()));
    assert_eq!(ms[3], Mark::Text("x".to_string(), StyleText::new()));
}

#[test]
fn caret_consumed_as_literal() {
    let ms = marks_of("a^b");
    assert_eq!(ms[2], Mark::Text("a".to_string(), StyleText::new()));
    assert_eq!(ms[3], Mark::Text("^".to_string(), StyleText::new()));
    assert_eq!(ms[4], Mark::Text("b".to_string(), StyleText::new()));
}

#[test]
fn unordered_item_text_after_marker() {
    let ms = marks_of("- x");
    assert_eq!(
        ms[2],
        Mark::Text(
            "x".to_string(),
            StyleText::new().with_listing(Listing::Unordered(IndentLevel::I0))
        )
    );
    let indented = marks_of("  - y");
    assert_eq!(
        indented[2],
        Mark::Text(
            "y".to_string(),
            StyleText::new().with_listing(Listing::Unordered(IndentLevel::I1))
        )
    );
}

#[test]
fn toggles_combine_and_cancel() {
    let ms = marks_of("/a*b*/");
    assert_eq!(
        ms[2],
        Mark::Text("a".to_string(), StyleText::new().with_italics())
    );
    assert_eq!(
        ms[3],
        Mark::Text("b".to_string(), StyleText::new().with_italics().with_bold())
    );
}

#[test]
fn inline_code_span() {
    let ms = marks_of("`c` x");
    assert_eq!(ms[2], Mark::Text("c".to_string(), StyleText::new().with_code()));
    assert_eq!(ms[3], Mark::Text(" x".to_string(), StyleText::new()));
}

#[test]
fn heading_and_indent_ints() {
    assert_eq!(Heading::H3.to_int(), 3);
    assert_eq!(Heading::from_int(9).to_int(), 5);
    assert_eq!(IndentLevel::I4.to_int(), 4);
    assert_eq!(IndentLevel::from_int(0).to_int(), 0);
}

#[test]
fn style_builders_set_flags() {
    let st = StyleText::new()
        .with_small()
        .with_strikethrough()
        .with_underline();
    assert!(st.small && st.strikethrough && st.underline);
    assert!(!st.bold && !st.code && !st.italics && !st.quote);
    let st2 = st.clone().with_hyperlink("u".to_string());
    assert_eq!(st2.hyperlink, "u");
}

#[test]
fn inline_code_keeps_line_start() {
    // The inline-code production does not clear the line-start flag, so
    // block productions are still tried after the span.
    let ms = marks_of("`c`# h");
    assert_eq!(ms[2], Mark::Text("c".to_string(), StyleText::new().with_code()));
    assert_eq!(
        ms[3],
        Mark::Text("h".to_string(), StyleText::new().with_heading(Heading::H1))
    );
}

#[test]
fn empty_code_block() {
    let ms = marks_of("```\n```");
    assert_eq!(ms[2], Mark::CodeBlock("".to_string(), None));
}

#[test]
fn image_without_options() {
    let ms = marks_of("![a](b)");
    assert_eq!(
        ms[2],
        Mark::Image("b".to_string(), "a".to_string(), StyleImage::new())
    );
}

#[test]
fn image_with_unclosed_options() {
    let ms = marks_of("![a](b)<x");
    assert_eq!(
        ms[2],
        Mark::Image("b".to_string(), "a".to_string(), StyleImage::new())
    );
    assert_eq!(ms[3], Mark::Text("<".to_string(), StyleText::new()));
    assert_eq!(ms[4], Mark::Text("x".to_string(), StyleText::new()));
}
