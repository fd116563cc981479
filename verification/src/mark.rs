//! The marks (tokens and structural nodes) of an opmark document, together
//! with the style records they carry and the spec-level views of each.

use vstd::prelude::*;

verus! {

/// How an element aligns horizontally. Currently used by images only.
#[derive(Clone, Copy, Debug, PartialEq, Eq, Structural)]
pub enum AlignHorizontal {
    Auto,
    Left,
    Right,
    Center,
}

/// The heading level of a text run.
#[derive(Clone, Copy, Debug, PartialEq, Eq, Structural)]
pub enum Heading {
    Plain,
    H1,
    H2,
    H3,
    H4,
    H5,
}

/// The integer carried by each heading level.
pub open spec fn heading_int(h: Heading) -> u8 {
    match h {
        Heading::Plain => 0,
        Heading::H1 => 1,
        Heading::H2 => 2,
        Heading::H3 => 3,
        Heading::H4 => 4,
        Heading::H5 => 5,
    }
}

/// The heading level denoted by `n`; values past the deepest level saturate.
pub open spec fn heading_of(n: int) -> Heading {
    if n == 0 {
        Heading::Plain
    } else if n == 1 {
        Heading::H1
    } else if n == 2 {
        Heading::H2
    } else if n == 3 {
        Heading::H3
    } else if n == 4 {
        Heading::H4
    } else {
        Heading::H5
    }
}

impl Heading {
    pub fn to_int(&self) -> (r: u8)
        ensures
            r == heading_int(*self),
    {
        match *self {
            Heading::Plain => 0,
            Heading::H1 => 1,
            Heading::H2 => 2,
            Heading::H3 => 3,
            Heading::H4 => 4,
            Heading::H5 => 5,
        }
    }

    pub fn from_int(n: u8) -> (r: Heading)
        ensures
            r == heading_of(n as int),
    {
        match n {
            0 => Heading::Plain,
            1 => Heading::H1,
            2 => Heading::H2,
            3 => Heading::H3,
            4 => Heading::H4,
            _ => Heading::H5,
        }
    }
}

/// The indent level of a list item, quantized from leading spaces.
#[derive(Clone, Copy, Debug, PartialEq, Eq, Structural)]
pub enum IndentLevel {
    I0,
    I1,
    I2,
    I3,
    I4,
    I5,
}

/// The integer carried by each indent level.
pub open spec fn indent_int(l: IndentLevel) -> u8 {
    match l {
        IndentLevel::I0 => 0,
        IndentLevel::I1 => 1,
        IndentLevel::I2 => 2,
        IndentLevel::I3 => 3,
        IndentLevel::I4 => 4,
        IndentLevel::I5 => 5,
    }
}

/// The indent level denoted by `n`; values past the deepest level saturate.
pub open spec fn indent_of(n: int) -> IndentLevel {
    if n == 0 {
        IndentLevel::I0
    } else if n == 1 {
        IndentLevel::I1
    } else if n == 2 {
        IndentLevel::I2
    } else if n == 3 {
        IndentLevel::I3
    } else if n == 4 {
        IndentLevel::I4
    } else {
        IndentLevel::I5
    }
}

impl IndentLevel {
    pub fn to_int(&self) -> (r: u8)
        ensures
            r == indent_int(*self),
    {
        match *self {
            IndentLevel::I0 => 0,
            IndentLevel::I1 => 1,
            IndentLevel::I2 => 2,
            IndentLevel::I3 => 3,
            IndentLevel::I4 => 4,
            IndentLevel::I5 => 5,
        }
    }

    pub fn from_int(n: u8) -> (r: IndentLevel)
        ensures
            r == indent_of(n as int),
    {
        match n {
            0 => IndentLevel::I0,
            1 => IndentLevel::I1,
            2 => IndentLevel::I2,
            3 => IndentLevel::I3,
            4 => IndentLevel::I4,
            _ => IndentLevel::I5,
        }
    }
}

/// Whether a text run belongs to a list, and how.
#[derive(Clone, Copy, Debug, PartialEq, Eq, Structural)]
pub enum Listing {
    /// The text is not in a list.
    Unlisted,
    /// The text is an ordered list item: its ordinal and its indent.
    Ordered(u8, IndentLevel),
    /// The text is an unordered list item at the given indent.
    Unordered(IndentLevel),
}

/// The direction of a separator element.
#[derive(Clone, Copy, Debug, PartialEq, Eq, Structural)]
pub enum SeparatorDir {
    Horizontal,
    Vertical,
}

/// The configuration of an image element.
///
/// `width` and `height` hold the requested dimension as the numeric text
/// written in the source (for example `"50"`, `"12.5"` or `"1e3"`); `None`
/// means the image's own dimension is used. A renderer turns the text into
/// a number.
#[derive(Clone, Debug, PartialEq, Eq)]
pub struct StyleImage {
    /// How the image is aligned horizontally.
    pub align_h: AlignHorizontal,
    /// The url the image links to; empty means none.
    pub hyperlink: String,
    /// The requested width, as numeric text.
    pub width: Option<String>,
    /// The requested height, as numeric text.
    pub height: Option<String>,
}

/// The mathematical value of a [`StyleImage`].
#[verifier::ext_equal]
pub struct StyleImageView {
    pub align_h: AlignHorizontal,
    pub hyperlink: Seq<char>,
    pub width: Option<Seq<char>>,
    pub height: Option<Seq<char>>,
}

impl View for StyleImage {
    type V = StyleImageView;

    open spec fn view(&self) -> StyleImageView {
        StyleImageView {
            align_h: self.align_h,
            hyperlink: self.hyperlink@,
            width: match self.width {
                Option::Some(ref w) => Option::Some(w@),
                Option::None => Option::None,
            },
            height: match self.height {
                Option::Some(ref h) => Option::Some(h@),
                Option::None => Option::None,
            },
        }
    }
}

/// The default image style: automatic alignment, no link, own size.
pub open spec fn style_image_default() -> StyleImageView {
    StyleImageView {
        align_h: AlignHorizontal::Auto,
        hyperlink: Seq::empty(),
        width: Option::None,
        height: Option::None,
    }
}

impl StyleImage {
    pub fn new() -> (r: StyleImage)
        ensures
            r@ == style_image_default(),
    {
        let r = StyleImage {
            align_h: AlignHorizontal::Auto,
            hyperlink: String::new(),
            width: Option::None,
            height: Option::None,
        };
        proof {
            assert(r@.hyperlink =~= style_image_default().hyperlink);
            assert(r@ =~= style_image_default());
        }
        r
    }

    pub fn with_align_h(self, align_h: AlignHorizontal) -> (r: StyleImage)
        ensures
            r@ == (StyleImageView { align_h, ..self@ }),
    {
        StyleImage { align_h, ..self }
    }

    pub fn with_height(self, height: String) -> (r: StyleImage)
        ensures
            r@ == (StyleImageView { height: Option::Some(height@), ..self@ }),
    {
        StyleImage { height: Option::Some(height), ..self }
    }

    pub fn with_hyperlink(self, hyperlink: String) -> (r: StyleImage)
        ensures
            r@ == (StyleImageView { hyperlink: hyperlink@, ..self@ }),
    {
        StyleImage { hyperlink, ..self }
    }

    pub fn with_width(self, width: String) -> (r: StyleImage)
        ensures
            r@ == (StyleImageView { width: Option::Some(width@), ..self@ }),
    {
        StyleImage { width: Option::Some(width), ..self }
    }
}

/// The configuration of a text run.
#[derive(Debug, PartialEq, Eq)]
pub struct StyleText {
    /// Whether the text is bold.
    pub bold: bool,
    /// Whether the text is a code span.
    pub code: bool,
    /// The heading level of the text.
    pub heading: Heading,
    /// The url the text links to; empty means none.
    pub hyperlink: String,
    /// Whether the text is italic.
    pub italics: bool,
    /// Whether the text is an ordered or unordered list item.
    pub listing: Listing,
    /// Whether the text is a quote.
    pub quote: bool,
    /// Whether the text is small.
    pub small: bool,
    /// Whether the text is struck through.
    pub strikethrough: bool,
    /// Whether the text is underlined.
    pub underline: bool,
}

/// The mathematical value of a [`StyleText`].
#[verifier::ext_equal]
pub struct StyleTextView {
    pub bold: bool,
    pub code: bool,
    pub heading: Heading,
    pub hyperlink: Seq<char>,
    pub italics: bool,
    pub listing: Listing,
    pub quote: bool,
    pub small: bool,
    pub strikethrough: bool,
    pub underline: bool,
}

impl View for StyleText {
    type V = StyleTextView;

    open spec fn view(&self) -> StyleTextView {
        StyleTextView {
            bold: self.bold,
            code: self.code,
            heading: self.heading,
            hyperlink: self.hyperlink@,
            italics: self.italics,
            listing: self.listing,
            quote: self.quote,
            small: self.small,
            strikethrough: self.strikethrough,
            underline: self.underline,
        }
    }
}

/// The default text style: every flag off, no heading, no link, no list.
pub open spec fn style_text_default() -> StyleTextView {
    StyleTextView {
        bold: false,
        code: false,
        heading: Heading::Plain,
        hyperlink: Seq::empty(),
        italics: false,
        listing: Listing::Unlisted,
        quote: false,
        small: false,
        strikethrough: false,
        underline: false,
    }
}

impl Clone for StyleText {
    fn clone(&self) -> (r: StyleText)
        ensures
            r@ == self@,
    {
        StyleText {
            bold: self.bold,
            code: self.code,
            heading: self.heading,
            hyperlink: self.hyperlink.clone(),
            italics: self.italics,
            listing: self.listing,
            quote: self.quote,
            small: self.small,
            strikethrough: self.strikethrough,
            underline: self.underline,
        }
    }
}

impl StyleText {
    pub fn new() -> (r: StyleText)
        ensures
            r@ == style_text_default(),
    {
        let r = StyleText {
            bold: false,
            code: false,
            heading: Heading::Plain,
            hyperlink: String::new(),
            italics: false,
            listing: Listing::Unlisted,
            quote: false,
            small: false,
            strikethrough: false,
            underline: false,
        };
        proof {
            assert(r@.hyperlink =~= style_text_default().hyperlink);
            assert(r@ =~= style_text_default());
        }
        r
    }

    pub fn with_bold(self) -> (r: StyleText)
        ensures
            r@ == (StyleTextView { bold: true, ..self@ }),
    {
        StyleText { bold: true, ..self }
    }

    pub fn with_code(self) -> (r: StyleText)
        ensures
            r@ == (StyleTextView { code: true, ..self@ }),
    {
        StyleText { code: true, ..self }
    }

    pub fn with_heading(self, heading: Heading) -> (r: StyleText)
        ensures
            r@ == (StyleTextView { heading, ..self@ }),
    {
        StyleText { heading, ..self }
    }

    pub fn with_hyperlink(self, hyperlink: String) -> (r: StyleText)
        ensures
            r@ == (StyleTextView { hyperlink: hyperlink@, ..self@ }),
    {
        StyleText { hyperlink, ..self }
    }

    pub fn with_italics(self) -> (r: StyleText)
        ensures
            r@ == (StyleTextView { italics: true, ..self@ }),
    {
        StyleText { italics: true, ..self }
    }

    pub fn with_listing(self, listing: Listing) -> (r: StyleText)
        ensures
            r@ == (StyleTextView { listing, ..self@ }),
    {
        StyleText { listing, ..self }
    }

    pub fn with_quote(self) -> (r: StyleText)
        ensures
            r@ == (StyleTextView { quote: true, ..self@ }),
    {
        StyleText { quote: true, ..self }
    }

    pub fn with_small(self) -> (r: StyleText)
        ensures
            r@ == (StyleTextView { small: true, ..self@ }),
    {
        StyleText { small: true, ..self }
    }

    pub fn with_strikethrough(self) -> (r: StyleText)
        ensures
            r@ == (StyleTextView { strikethrough: true, ..self@ }),
    {
        StyleText { strikethrough: true, ..self }
    }

    pub fn with_underline(self) -> (r: StyleText)
        ensures
            r@ == (StyleTextView { underline: true, ..self@ }),
    {
        StyleText { underline: true, ..self }
    }
}

/// One mark of an opmark document.
///
/// The tokenizer emits marks with empty children; only the grouping pass
/// fills the children of a `Page` or `Transition`.
#[derive(Debug, PartialEq)]
pub enum Mark {
    /// A fenced code block: its body and its optional language tag.
    CodeBlock(String, Option<String>),
    /// An image: its url, its title and its style options.
    Image(String, String, StyleImage),
    /// An explicit paragraph break (a blank line in the source).
    NewLine,
    /// A progressive-reveal group: its reveal order and its children.
    Transition(usize, Vec<Mark>),
    /// The end of the currently open transition group.
    TransitionEnd,
    /// A top-level document section and its children.
    Page(Vec<Mark>),
    /// A horizontal or vertical separator line.
    Separator(SeparatorDir),
    /// A styled text run.
    Text(String, StyleText),
}

/// The token denoted by one mark: its variant and payload, without the
/// children of a `Page` or `Transition` (the tokenizer always emits those
/// empty; [`flat`] states that).
pub enum Token {
    CodeBlock(Seq<char>, Option<Seq<char>>),
    Image(Seq<char>, Seq<char>, StyleImageView),
    NewLine,
    Transition(usize),
    TransitionEnd,
    Page,
    Separator(SeparatorDir),
    Text(Seq<char>, StyleTextView),
}

/// The token a mark denotes.
pub open spec fn token_of(m: Mark) -> Token {
    match m {
        Mark::CodeBlock(code, language) => Token::CodeBlock(
            code@,
            match language {
                Option::Some(l) => Option::Some(l@),
                Option::None => Option::None,
            },
        ),
        Mark::Image(url, title, style) => Token::Image(url@, title@, style@),
        Mark::NewLine => Token::NewLine,
        Mark::Transition(order, _) => Token::Transition(order),
        Mark::TransitionEnd => Token::TransitionEnd,
        Mark::Page(_) => Token::Page,
        Mark::Separator(dir) => Token::Separator(dir),
        Mark::Text(content, style) => Token::Text(content@, style@),
    }
}

/// Whether a mark carries no children (true of everything the tokenizer
/// emits; the grouping pass is the only producer of populated children).
pub open spec fn flat(m: Mark) -> bool {
    match m {
        Mark::Transition(_, children) => children@.len() == 0,
        Mark::Page(children) => children@.len() == 0,
        _ => true,
    }
}

/// Whether a token is plain content: neither a page, a transition, nor a
/// transition end. Content tokens are what the grouping pass attaches to
/// transitions.
pub open spec fn is_content(t: Token) -> bool {
    !(t is Page || t is Transition || t is TransitionEnd)
}

} // verus!
