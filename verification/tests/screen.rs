use findr::highlight::preview_lines;
use findr::matching::{Candidate, ScoredMatch};
use findr::preview::{placeholder_preview, Preview, SpanColor, StyledLine, StyledSpan};
use findr::text::{has_ascii_capital, spaces};
use findr::ui::appstate::AppState;
use findr::ui::event_handler::{handle_events, Key};
use findr::ui::renderer::{
    is_hidden, preview_title, result_row, search_bar_text, shown_preview, visible_rows, CellStyle,
    RowCell, FRAME_ROWS,
};

fn fruit() -> Vec<Candidate> {
    ["apple.txt", "banana.rs", "app_config.yaml"]
        .iter()
        .map(|n| Candidate { path: format!("./{}", n), name: Some(n.to_string()) })
        .collect()
}

fn blank_line(width: usize) -> StyledLine {
    StyledLine { spans: vec![StyledSpan { content: " ".repeat(width), color: SpanColor::Plain }] }
}

fn notice() -> StyledSpan {
    StyledSpan { content: "No Preview available".to_string(), color: SpanColor::DarkGray }
}

#[test]
fn spaces_builds_a_blank_text() {
    assert_eq!(spaces(0), "");
    assert_eq!(spaces(3), "   ");
    assert_eq!(spaces(300).len(), 300);
}

#[test]
fn placeholder_fills_the_pane() {
    let preview = placeholder_preview(24, 3);
    let first = StyledLine {
        spans: vec![notice(), StyledSpan { content: " ".repeat(4), color: SpanColor::Plain }],
    };
    assert_eq!(preview, Preview { lines: vec![first, blank_line(24), blank_line(24)] });
}

#[test]
fn placeholder_in_a_narrow_pane_is_the_notice_alone() {
    let only = StyledLine { spans: vec![notice()] };
    assert_eq!(placeholder_preview(20, 1), Preview { lines: vec![only.clone()] });
    assert_eq!(placeholder_preview(5, 2), Preview { lines: vec![only.clone(), blank_line(5)] });
    let padded = StyledLine {
        spans: vec![notice(), StyledSpan { content: " ".to_string(), color: SpanColor::Plain }],
    };
    assert_eq!(placeholder_preview(21, 1), Preview { lines: vec![padded] });
}

#[test]
fn placeholder_has_at_least_the_notice_line() {
    let only = StyledLine { spans: vec![notice()] };
    assert_eq!(placeholder_preview(0, 0), Preview { lines: vec![only] });
}

#[test]
fn visible_rows_leaves_out_the_frame() {
    assert_eq!(FRAME_ROWS, 6);
    assert_eq!(visible_rows(30), 24);
    assert_eq!(visible_rows(7), 1);
    assert_eq!(visible_rows(6), 0);
    assert_eq!(visible_rows(3), 0);
    assert_eq!(visible_rows(0), 0);
}

#[test]
fn hidden_names_begin_with_a_dot() {
    assert!(is_hidden(".gitignore"));
    assert!(is_hidden("."));
    assert!(!is_hidden("main.rs"));
    assert!(!is_hidden(""));
    assert!(!is_hidden("a.b"));
}

#[test]
fn search_bar_shows_the_hint_for_the_empty_query() {
    let files = fruit();
    let mut matcher = nucleo::Matcher::default();
    let mut state = AppState::new(&files, &mut matcher);
    let bar = search_bar_text(&state);
    assert_eq!(bar.text, "Type your query here");
    assert!(bar.is_hint);
    handle_events(Key::Char('A'), &files, &mut matcher, &mut state);
    let bar = search_bar_text(&state);
    assert_eq!(bar.text, "A");
    assert!(!bar.is_hint);
}

#[test]
fn result_row_sets_off_the_matched_characters() {
    let entry = ScoredMatch {
        id: 0,
        path: "./abc.rs".to_string(),
        name: "abc.rs".to_string(),
        score: 10,
        positions: vec![4, 0, 9],
    };
    let row = result_row(&entry, false);
    let expected: Vec<RowCell> = "abc.rs"
        .chars()
        .enumerate()
        .map(|(i, ch)| RowCell {
            ch,
            style: if i == 0 || i == 4 { CellStyle::Matched } else { CellStyle::Plain },
        })
        .collect();
    assert_eq!(row, expected);
}

#[test]
fn selected_row_is_painted_as_selected_throughout() {
    let entry = ScoredMatch {
        id: 0,
        path: "./é.rs".to_string(),
        name: "é.rs".to_string(),
        score: 10,
        positions: vec![1],
    };
    let row = result_row(&entry, true);
    assert_eq!(row.len(), 4);
    assert!(row.iter().all(|c| c.style == CellStyle::Selected));
    assert_eq!(row[0].ch, 'é');
    let row = result_row(&entry, false);
    assert_eq!(row[1], RowCell { ch: '.', style: CellStyle::Matched });
    assert_eq!(row[0].style, CellStyle::Plain);
}

#[test]
fn result_row_of_an_empty_name_is_empty() {
    let entry =
        ScoredMatch { id: 0, path: String::new(), name: String::new(), score: 0, positions: vec![0] };
    assert!(result_row(&entry, false).is_empty());
}

#[test]
fn preview_pane_shows_the_kept_preview_of_the_selection() {
    let files = fruit();
    let mut matcher = nucleo::Matcher::default();
    let mut state = AppState::new(&files, &mut matcher);
    assert_eq!(preview_title(&state), "No directory selected");
    assert_eq!(shown_preview(&state), None);
    handle_events(Key::Char('b'), &files, &mut matcher, &mut state);
    assert_eq!(preview_title(&state), "./banana.rs");
    assert_eq!(shown_preview(&state), None);
    let text = Preview { lines: vec![blank_line(2)] };
    state.store_preview(Some(text.clone()));
    assert_eq!(shown_preview(&state), Some(&text));
    handle_events(Key::Char('x'), &files, &mut matcher, &mut state);
    assert_eq!(preview_title(&state), "No directory selected");
    assert_eq!(shown_preview(&state), None);
}

#[test]
fn preview_lines_cuts_at_line_feeds() {
    assert_eq!(preview_lines(""), Vec::<String>::new());
    assert_eq!(preview_lines("one"), vec!["one"]);
    assert_eq!(preview_lines("one\n"), vec!["one"]);
    assert_eq!(preview_lines("one\ntwo"), vec!["one", "two"]);
    assert_eq!(preview_lines("one\n\ntwo\n"), vec!["one", "", "two"]);
    assert_eq!(preview_lines("\n"), vec![""]);
    assert_eq!(preview_lines("\n\n"), vec!["", ""]);
}

#[test]
fn preview_lines_drops_a_carriage_return_before_a_line_feed() {
    assert_eq!(preview_lines("one\r\ntwo\r\n"), vec!["one", "two"]);
    assert_eq!(preview_lines("one\r\r\ntwo"), vec!["one\r", "two"]);
    assert_eq!(preview_lines("one\rtwo\n"), vec!["one\rtwo"]);
    // no line feed follows: the carriage return belongs to the line
    assert_eq!(preview_lines("one\ntwo\r"), vec!["one", "two\r"]);
    assert_eq!(preview_lines("\r\n"), vec![""]);
    assert_eq!(preview_lines("\r"), vec!["\r"]);
}

#[test]
fn preview_lines_agrees_with_std_lines() {
    let texts = [
        "fn main() {\n    println!(\"hi\");\n}\n",
        "a\r\nb\rc\n\r\n\n\rd",
        "é\nü\r\n",
        "\n\n\n",
        "no newline at all",
        "tail\r",
    ];
    for text in texts {
        let expected: Vec<String> = text.lines().map(|l| l.to_string()).collect();
        assert_eq!(preview_lines(text), expected);
    }
}

#[test]
fn preview_lines_stops_at_the_line_limit() {
    let mut text = String::new();
    for i in 0..120 {
        text.push_str(&format!("line {}\n", i));
    }
    let lines = preview_lines(&text);
    assert_eq!(lines.len(), 50);
    assert_eq!(lines[0], "line 0");
    assert_eq!(lines[49], "line 49");
    let mut exact = String::new();
    for i in 0..50 {
        exact.push_str(&format!("line {}\n", i));
    }
    assert_eq!(preview_lines(&exact).len(), 50);
    exact.push_str("last");
    assert_eq!(preview_lines(&exact).len(), 50);
    let mut short = String::new();
    for i in 0..49 {
        short.push_str(&format!("line {}\n", i));
    }
    short.push_str("last");
    assert_eq!(preview_lines(&short).len(), 50);
    assert_eq!(preview_lines(&short)[49], "last");
}

#[test]
fn ascii_capitals_are_found_wherever_they_stand() {
    assert!(!has_ascii_capital(""));
    assert!(!has_ascii_capital("abc_def.txt"));
    assert!(!has_ascii_capital("éü@[`{09"));
    assert!(!has_ascii_capital("É"));
    assert!(has_ascii_capital("A"));
    assert!(has_ascii_capital("Z"));
    assert!(has_ascii_capital("abcZ"));
    assert!(has_ascii_capital("éAü"));
    assert!(has_ascii_capital("Mabc"));
}
