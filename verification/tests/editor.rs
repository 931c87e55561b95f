use vibewrite95::editor::block::{clamp_position, copy_block, delete_block, get_block_text, move_block, normalize_range};
use vibewrite95::editor::buffer::{content, is_empty, lines_for_buffer};
use vibewrite95::editor::cursor::CursorPosition;
use vibewrite95::editor::formatting::{cycle_heading, selection_text, toggle_bold, toggle_italic, toggle_underline, toggle_wrap, WrapEdit};
use vibewrite95::editor::syntax::{apply_syntax_highlighting, highlight_markdown_line, SpanStyle, StyledSpan};

fn span(start: usize, end: usize, style: SpanStyle) -> StyledSpan {
    StyledSpan { start, end, style }
}

fn lines(v: &[&str]) -> Vec<String> {
    v.iter().map(|s| s.to_string()).collect()
}

#[test]
fn heading_marker_is_dimmed_and_text_styled() {
    assert_eq!(
        highlight_markdown_line("## Title"),
        vec![span(0, 3, SpanStyle::Markup), span(3, 8, SpanStyle::Heading)]
    );
    assert_eq!(
        highlight_markdown_line("  ### Sub"),
        vec![span(0, 6, SpanStyle::Markup), span(6, 9, SpanStyle::MinorHeading)]
    );
}

#[test]
fn emphasis_spans_in_order() {
    assert_eq!(
        highlight_markdown_line("a **b** *c* ++d++"),
        vec![
            span(2, 4, SpanStyle::Markup),
            span(4, 5, SpanStyle::Bold),
            span(5, 7, SpanStyle::Markup),
            span(8, 9, SpanStyle::Markup),
            span(9, 10, SpanStyle::Italic),
            span(10, 11, SpanStyle::Markup),
            span(12, 14, SpanStyle::Markup),
            span(14, 15, SpanStyle::Underline),
            span(15, 17, SpanStyle::Markup),
        ]
    );
}

#[test]
fn unclosed_markers_are_not_highlighted() {
    assert!(highlight_markdown_line("**open and *").len() == 3);
    assert!(highlight_markdown_line("plain ++ text").is_empty());
    assert!(highlight_markdown_line("#nospace").is_empty());
}

#[test]
fn multibyte_text_keeps_byte_offsets() {
    assert_eq!(
        highlight_markdown_line("é *ü*"),
        vec![span(3, 4, SpanStyle::Markup), span(4, 6, SpanStyle::Italic), span(6, 7, SpanStyle::Markup)]
    );
}

#[test]
fn segments_cover_the_line() {
    let segs = apply_syntax_highlighting("x **y** z");
    assert_eq!(
        segs,
        vec![
            span(0, 2, SpanStyle::Plain),
            span(2, 4, SpanStyle::Markup),
            span(4, 5, SpanStyle::Bold),
            span(5, 7, SpanStyle::Markup),
            span(7, 9, SpanStyle::Plain),
        ]
    );
    assert_eq!(apply_syntax_highlighting("plain"), vec![span(0, 5, SpanStyle::Plain)]);
    assert_eq!(apply_syntax_highlighting(""), vec![span(0, 0, SpanStyle::Plain)]);
}

#[test]
fn range_is_put_in_document_order() {
    assert_eq!(normalize_range((3, 1), (1, 5)), ((1, 5), (3, 1)));
    assert_eq!(normalize_range((2, 7), (2, 3)), ((2, 3), (2, 7)));
    assert_eq!(normalize_range((0, 0), (0, 0)), ((0, 0), (0, 0)));
}

#[test]
fn block_text_spans_lines() {
    let ls = lines(&["hello world", "second line", "third"]);
    assert_eq!(get_block_text(&ls, (0, 6), (2, 3)), "world\nsecond line\nthi");
    assert_eq!(get_block_text(&ls, (2, 3), (0, 6)), "world\nsecond line\nthi");
    assert_eq!(get_block_text(&ls, (1, 0), (1, 6)), "second");
    assert_eq!(get_block_text(&ls, (1, 2), (1, 100)), "cond line");
}

#[test]
fn heading_cycles_through_levels() {
    assert_eq!(cycle_heading("Title"), "# Title");
    assert_eq!(cycle_heading("# Title"), "## Title");
    assert_eq!(cycle_heading("## Title"), "### Title");
    assert_eq!(cycle_heading("### Title"), "Title");
    assert_eq!(cycle_heading("   indented"), "# indented");
}

#[test]
fn wrapping_and_unwrapping_the_selection() {
    assert_eq!(toggle_bold(Some("word")), WrapEdit::Replace("**word**".to_string()));
    assert_eq!(toggle_bold(Some("**word**")), WrapEdit::Replace("word".to_string()));
    assert_eq!(toggle_italic(Some("*x*")), WrapEdit::Replace("x".to_string()));
    assert_eq!(toggle_underline(Some("u")), WrapEdit::Replace("++u++".to_string()));
    assert_eq!(toggle_italic(None), WrapEdit::InsertPair("*".to_string()));
    assert_eq!(toggle_wrap(Some(""), "~"), WrapEdit::Replace("~~".to_string()));
}

#[test]
fn selection_text_joins_the_selected_parts() {
    let ls = lines(&["abc", "defg", "hi"]);
    assert_eq!(selection_text(&ls, (0, 1), (2, 1)), "bc\ndefg\nh");
    assert_eq!(selection_text(&ls, (1, 1), (1, 3)), "ef");
}

#[test]
fn buffer_lines_and_content() {
    let ls = lines_for_buffer("one\r\ntwo\n");
    assert_eq!(ls, lines(&["one", "two"]));
    assert_eq!(content(&ls), "one\ntwo");
    let empty = lines_for_buffer("");
    assert_eq!(empty, lines(&[""]));
    assert!(is_empty(&empty));
    assert!(!is_empty(&ls));
    assert_eq!(content(&lines_for_buffer("a\nb")), "a\nb");
}

#[test]
fn cursor_position_holds_line_and_column() {
    let c = CursorPosition::new(3, 9);
    assert_eq!((c.line, c.col), (3, 9));
}

#[test]
fn triple_stars_give_bold_italic() {
    assert_eq!(
        highlight_markdown_line("***bold italic***"),
        vec![span(0, 3, SpanStyle::Markup), span(3, 14, SpanStyle::BoldItalic), span(14, 17, SpanStyle::Markup)]
    );
    assert_eq!(
        highlight_markdown_line("a ***b*** **c**"),
        vec![
            span(2, 5, SpanStyle::Markup),
            span(5, 6, SpanStyle::BoldItalic),
            span(6, 9, SpanStyle::Markup),
            span(10, 12, SpanStyle::Markup),
            span(12, 13, SpanStyle::Bold),
            span(13, 15, SpanStyle::Markup),
        ]
    );
}

#[test]
fn delete_block_takes_out_the_marked_text() {
    let ls = lines(&["hello world", "second line", "third"]);
    let (out, cur) = delete_block(&ls, (1, 6), (0, 6));
    assert_eq!(out, lines(&["hello  line", "third"]));
    assert_eq!(cur, (0, 6));
    let (out, cur) = delete_block(&ls, (0, 0), (0, 0));
    assert_eq!(out, ls);
    assert_eq!(cur, (0, 0));
}

#[test]
fn copy_block_inserts_at_the_cursor() {
    let ls = lines(&["abc", "def"]);
    let (out, cur) = copy_block(&ls, (1, 3), (0, 1), (0, 3));
    assert_eq!(out, lines(&["abc", "defbc"]));
    assert_eq!(cur, (1, 5));
    let (out, cur) = copy_block(&ls, (0, 0), (0, 2), (1, 1));
    assert_eq!(out, lines(&["c", "dabc", "def"]));
    assert_eq!(cur, (1, 1));
}

#[test]
fn move_block_moves_to_the_cursor() {
    let ls = lines(&["one two three"]);
    // "two " goes to the end.
    let (out, cur) = move_block(&ls, (0, 13), (0, 4), (0, 8));
    assert_eq!(out, lines(&["one threetwo "]));
    assert_eq!(cur, (0, 13));
    // Moved in front of the text.
    let (out, cur) = move_block(&ls, (0, 0), (0, 8), (0, 13));
    assert_eq!(out, lines(&["threeone two "]));
    assert_eq!(cur, (0, 5));
    // A cursor inside the block leaves the text as it was.
    let (out, _) = move_block(&ls, (0, 5), (0, 4), (0, 8));
    assert_eq!(out, ls);
    // Across lines, in characters.
    let ls = lines(&["\u{e9}t\u{e9}", "x"]);
    let (out, cur) = move_block(&ls, (1, 1), (0, 1), (0, 3));
    assert_eq!(out, lines(&["\u{e9}", "xt\u{e9}"]));
    assert_eq!(cur, (1, 3));
}

#[test]
fn positions_are_clamped_into_the_lines() {
    let ls = lines(&["ab", "c"]);
    assert_eq!(clamp_position(&ls, (5, 9)), (1, 1));
    assert_eq!(clamp_position(&ls, (0, 9)), (0, 2));
    assert_eq!(clamp_position(&ls, (0, 1)), (0, 1));
}

#[test]
fn spans_cut_lines_at_character_boundaries() {
    for line in ["\u{e9} **\u{fc}ber** \u{f1}*\u{e0}*", "# T\u{ed}tulo", "++\u{4e2d}++ ***\u{e9}***"] {
        for s in highlight_markdown_line(line) {
            assert!(line.is_char_boundary(s.start) && line.is_char_boundary(s.end));
            assert!(s.start <= s.end && s.end <= line.len());
        }
    }
}
