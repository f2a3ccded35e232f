//! The lines of a file that a preview shows, ready for a highlighter to
//! colour them one by one.

use crate::preview::MAX_PREVIEW_LINES;
use crate::text::chars_of;
use vstd::prelude::*;

verus! {

/// `line` without a carriage return at its end.
pub open spec fn without_cr(line: Seq<char>) -> Seq<char> {
    if line.len() > 0 && line.last() == '\r' {
        line.drop_last()
    } else {
        line
    }
}

/// Whether `text` ends inside a line: it is not empty and does not end with a
/// line feed.
pub open spec fn ends_in_line(text: Seq<char>) -> bool {
    text.len() > 0 && text.last() != '\n'
}

/// The lines of `text`. A line ends with a line feed, which is left out, as is
/// a carriage return right before it; what follows the last line feed is a
/// line too, unless it is empty.
pub open spec fn lines_of(text: Seq<char>) -> Seq<Seq<char>>
    decreases text.len(),
{
    if text.len() == 0 {
        Seq::empty()
    } else {
        let front = text.drop_last();
        let lines = lines_of(front);
        if ends_in_line(front) && lines.len() > 0 {
            if text.last() == '\n' {
                lines.update(lines.len() - 1, without_cr(lines.last()))
            } else {
                lines.update(lines.len() - 1, lines.last().push(text.last()))
            }
        } else if text.last() == '\n' {
            lines.push(Seq::empty())
        } else {
            lines.push(seq![text.last()])
        }
    }
}

/// The lines of `text` that a preview shows: the first `MAX_PREVIEW_LINES`.
pub open spec fn preview_lines_of(text: Seq<char>) -> Seq<Seq<char>> {
    if lines_of(text).len() > MAX_PREVIEW_LINES {
        lines_of(text).take(MAX_PREVIEW_LINES as int)
    } else {
        lines_of(text)
    }
}

/// The texts of a list as sequences of characters.
pub open spec fn text_views(texts: Seq<String>) -> Seq<Seq<char>> {
    Seq::new(texts.len(), |i: int| texts[i]@)
}

/// A text that ends inside a line has at least that line.
proof fn lemma_open_line_exists(text: Seq<char>)
    ensures
        ends_in_line(text) ==> lines_of(text).len() > 0,
        text.len() > 0 ==> lines_of(text).len() > 0,
    decreases text.len(),
{
    if text.len() > 0 {
        lemma_open_line_exists(text.drop_last());
    }
}

/// The lines that are ended in the first `n` characters of `text` stay as
/// they are whatever follows: they are the first lines of `text`.
proof fn lemma_ended_lines_stay(text: Seq<char>, n: int)
    requires
        0 <= n <= text.len(),
    ensures
        ended_lines(text.take(n)).len() <= ended_lines(text).len(),
        forall|i: int|
            0 <= i < ended_lines(text.take(n)).len() ==> #[trigger] ended_lines(text)[i]
                == ended_lines(text.take(n))[i],
    decreases text.len() - n,
{
    if n < text.len() {
        lemma_ended_lines_stay(text, n + 1);
        let longer = text.take(n + 1);
        assert(longer.drop_last() =~= text.take(n));
        lemma_open_line_exists(text.take(n));
        lemma_open_line_exists(longer);
    } else {
        assert(text.take(n) =~= text);
    }
}

/// The lines of `text` that are ended by a line feed.
pub open spec fn ended_lines(text: Seq<char>) -> Seq<Seq<char>> {
    if ends_in_line(text) && lines_of(text).len() > 0 {
        lines_of(text).drop_last()
    } else {
        lines_of(text)
    }
}

/// The lines of `content` that a preview shows: the first `MAX_PREVIEW_LINES`
/// lines, without their line ends.
pub fn preview_lines(content: &str) -> (lines: Vec<String>)
    ensures
        text_views(lines@) == preview_lines_of(content@),
{
    let text = chars_of(content);
    let mut lines: Vec<String> = Vec::new();
    let mut current = String::new();
    let mut i: usize = 0;
    while i < text.len() && lines.len() < MAX_PREVIEW_LINES
        invariant
            text@ == content@,
            i <= text.len(),
            lines.len() <= MAX_PREVIEW_LINES,
            text_views(lines@) == ended_lines(text@.take(i as int)),
            ends_in_line(text@.take(i as int)) ==> lines_of(text@.take(i as int)).len() > 0
                && current@ == lines_of(text@.take(i as int)).last(),
            !ends_in_line(text@.take(i as int)) ==> current@.len() == 0,
        decreases text.len() - i,
    {
        let ghost front = text@.take(i as int);
        let ghost longer = text@.take(i + 1);
        let ghost done = text_views(lines@);
        proof {
            assert(longer.drop_last() =~= front);
            assert(longer.last() == text@[i as int]);
            lemma_open_line_exists(longer);
        }
        let c = text[i];
        if c == '\n' {
            if current.as_str().unicode_len() > 0 && last_is_cr(&current) {
                current.pop();
            }
            let ghost line = current@;
            lines.push(current);
            current = String::new();
            proof {
                assert(line == if ends_in_line(front) {
                    without_cr(lines_of(front).last())
                } else {
                    Seq::<char>::empty()
                });
                assert(text_views(lines@) =~= done.push(line));
                assert(lines_of(longer) =~= done.push(line));
            }
        } else {
            current.push(c);
            proof {
                assert(text_views(lines@) =~= ended_lines(longer));
            }
        }
        i = i + 1;
    }
    proof {
        lemma_ended_lines_stay(text@, i as int);
        lemma_open_line_exists(text@);
    }
    if lines.len() < MAX_PREVIEW_LINES && current.as_str().unicode_len() > 0 {
        let ghost done = text_views(lines@);
        let ghost line = current@;
        proof {
            assert(text@.take(i as int) =~= text@);
        }
        lines.push(current);
        proof {
            assert(text_views(lines@) =~= done.push(line));
            assert(text_views(lines@) =~= lines_of(text@));
        }
    } else {
        proof {
            if lines.len() < MAX_PREVIEW_LINES {
                assert(text@.take(i as int) =~= text@);
                assert(text_views(lines@) =~= lines_of(text@));
            } else {
                assert(text_views(lines@) =~= lines_of(text@).take(MAX_PREVIEW_LINES as int));
            }
        }
    }
    lines
}

/// Whether a text that is not empty ends with a carriage return.
fn last_is_cr(text: &String) -> (r: bool)
    requires
        text@.len() > 0,
    ensures
        r == (text@.last() == '\r'),
{
    let n = text.as_str().unicode_len();
    text.as_str().get_char(n - 1) == '\r'
}

} // verus!
