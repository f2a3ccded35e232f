//! The content of the preview pane: lines of coloured spans.

use crate::text::{blanks, spaces};
use vstd::prelude::*;

verus! {

/// The foreground colour of a span.
#[derive(Clone, Copy, Debug, PartialEq, Eq, Structural)]
pub enum SpanColor {
    /// The terminal's own colour.
    Plain,
    /// The grey of hints and placeholders.
    DarkGray,
    /// A colour given by its red, green and blue parts.
    Rgb(u8, u8, u8),
}

/// A run of text in one colour.
#[derive(Clone, Debug, PartialEq, Eq)]
pub struct StyledSpan {
    pub content: String,
    pub color: SpanColor,
}

/// One line of the preview.
#[derive(Clone, Debug, PartialEq, Eq)]
pub struct StyledLine {
    pub spans: Vec<StyledSpan>,
}

/// A rendered preview.
#[derive(Clone, Debug, PartialEq, Eq)]
pub struct Preview {
    pub lines: Vec<StyledLine>,
}

/// A span as plain values.
pub struct SpanView {
    pub content: Seq<char>,
    pub color: SpanColor,
}

impl View for StyledSpan {
    type V = SpanView;

    open spec fn view(&self) -> SpanView {
        SpanView { content: self.content@, color: self.color }
    }
}

impl View for StyledLine {
    type V = Seq<SpanView>;

    open spec fn view(&self) -> Seq<SpanView> {
        Seq::new(self.spans@.len(), |i: int| self.spans@[i]@)
    }
}

impl View for Preview {
    type V = Seq<Seq<SpanView>>;

    open spec fn view(&self) -> Seq<Seq<SpanView>> {
        Seq::new(self.lines@.len(), |i: int| self.lines@[i]@)
    }
}

/// The most lines of a file that a preview shows.
pub const MAX_PREVIEW_LINES: usize = 50;

/// What the preview pane says where a file cannot be shown.
pub open spec fn no_preview_text() -> Seq<char> {
    "No Preview available"@
}

/// A span of `width` spaces in the terminal's own colour.
pub open spec fn blank_span(width: int) -> SpanView {
    SpanView { content: blanks(width as nat), color: SpanColor::Plain }
}

/// The first line of the placeholder: the notice in grey, filled up with
/// spaces to `width` where it is shorter.
pub open spec fn notice_line(width: int) -> Seq<SpanView> {
    let notice = SpanView { content: no_preview_text(), color: SpanColor::DarkGray };
    if no_preview_text().len() < width {
        seq![notice, blank_span(width - no_preview_text().len())]
    } else {
        seq![notice]
    }
}

/// The placeholder for a pane of the given size: the notice line, then blank
/// lines of the pane's width up to the pane's height.
pub open spec fn placeholder_lines(width: int, height: int) -> Seq<Seq<SpanView>> {
    Seq::new(
        (if height < 1 {
            1
        } else {
            height
        }) as nat,
        |i: int|
            if i == 0 {
                notice_line(width)
            } else {
                seq![blank_span(width)]
            },
    )
}

/// The placeholder that stands for a file that could not be read, laid out for
/// a pane of `width` columns and `height` rows.
pub fn placeholder_preview(width: u16, height: u16) -> (preview: Preview)
    ensures
        preview@ == placeholder_lines(width as int, height as int),
{
    let notice = "No Preview available";
    let notice_len = notice.unicode_len();
    let mut first: Vec<StyledSpan> = Vec::new();
    first.push(StyledSpan { content: notice.to_owned(), color: SpanColor::DarkGray });
    if notice_len < width as usize {
        first.push(
            StyledSpan { content: spaces(width as usize - notice_len), color: SpanColor::Plain },
        );
    }
    let first_line = StyledLine { spans: first };
    assert(first_line@ =~= notice_line(width as int));
    let mut lines: Vec<StyledLine> = Vec::new();
    lines.push(first_line);
    while lines.len() < height as usize
        invariant
            1 <= lines.len(),
            lines.len() <= 1 || lines.len() <= height,
            lines@[0]@ == notice_line(width as int),
            forall|i: int| 1 <= i < lines.len() ==> (#[trigger] lines@[i])@ == seq![blank_span(width as int)],
        decreases height - lines.len(),
    {
        let mut blank: Vec<StyledSpan> = Vec::new();
        blank.push(StyledSpan { content: spaces(width as usize), color: SpanColor::Plain });
        let line = StyledLine { spans: blank };
        assert(line@ =~= seq![blank_span(width as int)]);
        lines.push(line);
    }
    let preview = Preview { lines };
    assert(preview@ =~= placeholder_lines(width as int, height as int));
    preview
}

} // verus!
