use text_editor::buffer::{Action, Buffer, Direction, Position};
use text_editor::document::{grammar_for, Document, FileError};
use text_editor::highlight::{highlight_lines, HighlightCache, tag_ranges, utf8_length, StyledRange, SyntaxTheme};
use text_editor::shortcut::{route_shortcut, Command, Key};
use text_editor::text::{join_text, split_text};

fn chars(s: &str) -> Vec<char> {
    s.chars().collect()
}

fn string(v: &[char]) -> String {
    v.iter().collect()
}

fn lines_of(b: &Buffer) -> Vec<String> {
    b.lines.iter().map(|l| string(l)).collect()
}

#[test]
fn insert_char_into_empty_buffer() {
    let mut b = Buffer::new();
    b.insert_char('a');
    assert_eq!(string(&b.text()), "a");
    assert_eq!(b.cursor_position(), (0, 1));
}

#[test]
fn backspace_at_start_changes_nothing() {
    let mut b = Buffer::from_text(&chars("ab\ncd"));
    b.backspace();
    assert_eq!(lines_of(&b), vec!["ab", "cd"]);
    assert_eq!(b.cursor_position(), (0, 0));
    assert_eq!(b.anchor, None);
}

#[test]
fn newline_at_end_of_line_splits() {
    let mut b = Buffer::from_text(&chars("ab"));
    b.move_cursor(Direction::End);
    assert_eq!(b.cursor_position(), (0, 2));
    b.insert_newline();
    assert_eq!(lines_of(&b), vec!["ab", ""]);
    assert_eq!(b.cursor_position(), (1, 0));
}

#[test]
fn newline_in_middle_splits() {
    let mut b = Buffer::from_text(&chars("abc"));
    b.move_cursor(Direction::Right);
    b.apply(&Action::InsertNewline);
    assert_eq!(lines_of(&b), vec!["a", "bc"]);
    assert_eq!(b.cursor_position(), (1, 0));
}

#[test]
fn backspace_removes_previous_char_and_joins_lines() {
    let mut b = Buffer::from_text(&chars("ab\ncd"));
    b.move_cursor(Direction::Down);
    b.move_cursor(Direction::Right);
    b.backspace();
    assert_eq!(lines_of(&b), vec!["ab", "d"]);
    assert_eq!(b.cursor_position(), (1, 0));
    b.backspace();
    assert_eq!(lines_of(&b), vec!["abd"]);
    assert_eq!(b.cursor_position(), (0, 2));
}

#[test]
fn delete_removes_next_char_joins_and_stops_at_end() {
    let mut b = Buffer::from_text(&chars("ab\ncd"));
    b.delete();
    assert_eq!(lines_of(&b), vec!["b", "cd"]);
    b.move_cursor(Direction::End);
    b.delete();
    assert_eq!(lines_of(&b), vec!["bcd"]);
    assert_eq!(b.cursor_position(), (0, 1));
    b.move_cursor(Direction::End);
    b.delete();
    assert_eq!(lines_of(&b), vec!["bcd"]);
    assert_eq!(b.cursor_position(), (0, 3));
}

#[test]
fn cursor_moves_wrap_and_clamp() {
    let mut b = Buffer::from_text(&chars("abcd\nx\nyz"));
    b.move_cursor(Direction::End);
    b.move_cursor(Direction::Down);
    assert_eq!(b.cursor_position(), (1, 1));
    b.move_cursor(Direction::Right);
    assert_eq!(b.cursor_position(), (2, 0));
    b.move_cursor(Direction::Left);
    assert_eq!(b.cursor_position(), (1, 1));
    b.move_cursor(Direction::Home);
    b.move_cursor(Direction::Left);
    assert_eq!(b.cursor_position(), (0, 4));
    b.move_cursor(Direction::Up);
    assert_eq!(b.cursor_position(), (0, 4));
    b.move_cursor(Direction::Down);
    b.move_cursor(Direction::Down);
    b.move_cursor(Direction::Down);
    assert_eq!(b.cursor_position(), (2, 1));
    b.move_cursor(Direction::End);
    b.move_cursor(Direction::Right);
    assert_eq!(b.cursor_position(), (2, 2));
}

#[test]
fn selection_is_ordered_and_replaced_by_typing() {
    let mut b = Buffer::from_text(&chars("hello\nworld"));
    b.move_cursor(Direction::Down);
    b.move_cursor(Direction::Right);
    b.move_cursor(Direction::Right);
    b.select_to(Position { line: 0, column: 3 });
    assert_eq!(
        b.selection(),
        Some((Position { line: 0, column: 3 }, Position { line: 1, column: 2 }))
    );
    b.insert_char('X');
    assert_eq!(lines_of(&b), vec!["helXrld"]);
    assert_eq!(b.cursor_position(), (0, 4));
    assert_eq!(b.selection(), None);
}

#[test]
fn select_to_clamps_and_backspace_deletes_selection() {
    let mut b = Buffer::from_text(&chars("ab\ncd"));
    b.move_cursor(Direction::Right);
    b.select_to(Position { line: 9, column: 9 });
    assert_eq!(b.cursor_position(), (1, 2));
    b.backspace();
    assert_eq!(lines_of(&b), vec!["a"]);
    assert_eq!(b.cursor_position(), (0, 1));
}

#[test]
fn select_to_own_position_is_no_selection() {
    let mut b = Buffer::from_text(&chars("ab"));
    b.select_to(Position { line: 0, column: 0 });
    assert_eq!(b.selection(), None);
    b.backspace();
    assert_eq!(lines_of(&b), vec!["ab"]);
}

#[test]
fn paste_inserts_characters_and_line_breaks() {
    let mut b = Buffer::from_text(&chars("[]"));
    b.move_cursor(Direction::Right);
    b.apply(&Action::Paste(chars("x\nyz")));
    assert_eq!(lines_of(&b), vec!["[x", "yz]"]);
    assert_eq!(b.cursor_position(), (1, 2));
}

#[test]
fn insert_char_line_break_splits() {
    let mut b = Buffer::from_text(&chars("ab"));
    b.move_cursor(Direction::Right);
    b.insert_char('\n');
    assert_eq!(lines_of(&b), vec!["a", "b"]);
    assert_eq!(b.cursor_position(), (1, 0));
}

#[test]
fn text_splits_and_joins() {
    assert_eq!(split_text(&chars("")).len(), 1);
    let ls = split_text(&chars("a\n\nb\n"));
    assert_eq!(ls.len(), 4);
    assert_eq!(string(&ls[3]), "");
    assert_eq!(string(&join_text(&ls)), "a\n\nb\n");
}

#[test]
fn edits_make_document_dirty() {
    let mut d = Document::new();
    assert!(!d.dirty);
    d.perform(&Action::MoveCursor(Direction::Right));
    assert!(!d.dirty);
    d.perform(&Action::Backspace);
    assert!(d.dirty);
    let mut d = Document::new();
    for a in [Action::InsertChar('q'), Action::InsertNewline, Action::Delete, Action::Paste(chars("zz"))] {
        d.perform(&a);
        assert!(d.dirty);
    }
    assert_eq!(string(&d.text()), "q\nzz");
}

#[test]
fn failed_open_changes_nothing() {
    let mut d = Document::new();
    d.finish_open(Ok(("/tmp/a.txt".to_string(), chars("one\ntwo"))));
    d.perform(&Action::InsertChar('!'));
    for e in [FileError::ReadFailure, FileError::DialogCancelled] {
        d.finish_open(Err(e));
        assert_eq!(d.path.as_deref(), Some("/tmp/a.txt"));
        assert_eq!(string(&d.text()), "!one\ntwo");
        assert_eq!(d.cursor_position(), (0, 1));
        assert!(d.dirty);
    }
}

#[test]
fn successful_open_replaces_document() {
    let mut d = Document::new();
    d.perform(&Action::InsertChar('x'));
    d.finish_open(Ok(("notes.md".to_string(), chars("# t\nbody"))));
    assert_eq!(d.path.as_deref(), Some("notes.md"));
    assert_eq!(string(&d.text()), "# t\nbody");
    assert_eq!(d.cursor_position(), (0, 0));
    assert!(!d.dirty);
}

#[test]
fn save_then_open_round_trip() {
    let mut d = Document::new();
    d.finish_open(Ok(("/tmp/r.txt".to_string(), chars(""))));
    d.perform(&Action::Paste(chars("héllo\n\n\tworld\n")));
    let (p, t) = d.save_request(None).unwrap();
    assert_eq!(p, "/tmp/r.txt");
    d.finish_save(p.clone(), Ok(()));
    assert!(!d.dirty);
    let mut reopened = Document::new();
    reopened.finish_open(Ok((p, t.clone())));
    assert_eq!(string(&reopened.text()).as_bytes(), "héllo\n\n\tworld\n".as_bytes());
    assert_eq!(reopened.buffer.lines, d.buffer.lines);
}

#[test]
fn cancelled_save_dialog_changes_nothing() {
    let mut d = Document::new();
    d.perform(&Action::InsertChar('a'));
    assert!(d.needs_save_path());
    assert!(d.save_request(None).is_none());
    assert_eq!(d.path, None);
    assert!(d.dirty);
}

#[test]
fn save_to_chosen_path_and_failed_write() {
    let mut d = Document::new();
    d.perform(&Action::InsertChar('a'));
    let (p, t) = d.save_request(Some("/tmp/new.rs".to_string())).unwrap();
    assert_eq!(p, "/tmp/new.rs");
    assert_eq!(string(&t), "a");
    d.finish_save(p.clone(), Err(FileError::WriteFailure));
    assert_eq!(d.path, None);
    assert!(d.dirty);
    d.finish_save(p, Ok(()));
    assert_eq!(d.path.as_deref(), Some("/tmp/new.rs"));
    assert!(!d.dirty);
    assert!(!d.needs_save_path());
}

#[test]
fn new_file_resets_document() {
    let mut d = Document::new();
    d.finish_open(Ok(("a.rs".to_string(), chars("fn x"))));
    d.perform(&Action::InsertChar('a'));
    d.new_file();
    assert_eq!(d.path, None);
    assert_eq!(string(&d.text()), "");
    assert!(!d.dirty);
}

#[test]
fn grammar_follows_extension() {
    assert_eq!(grammar_for(&None), "txt");
    assert_eq!(grammar_for(&Some("/home/u/main.rs".to_string())), "rs");
    assert_eq!(grammar_for(&Some("x/archive.tar.gz".to_string())), "gz");
    assert_eq!(grammar_for(&Some("dir.d/README".to_string())), "txt");
    assert_eq!(grammar_for(&Some("/home/u/.bashrc".to_string())), "txt");
    assert_eq!(grammar_for(&Some("notes.".to_string())), "");
}

#[test]
fn shortcuts_need_primary_modifier() {
    let k = |s: &str| Key::Character(s.to_string());
    assert_eq!(route_shortcut(&k("s"), true), Some(Command::Save));
    assert_eq!(route_shortcut(&k("o"), true), Some(Command::Open));
    assert_eq!(route_shortcut(&k("n"), true), Some(Command::New));
    assert_eq!(route_shortcut(&k("s"), false), None);
    assert_eq!(route_shortcut(&k("x"), true), None);
    assert_eq!(route_shortcut(&k("so"), true), None);
    assert_eq!(route_shortcut(&k("S"), true), None);
    assert_eq!(route_shortcut(&Key::Other, true), None);
}

#[test]
fn ranges_are_kept_in_order_within_line() {
    let r = |start, end| StyledRange { start, end, color: None };
    let spans = tag_ranges(3, &vec![r(0, 2), r(1, 3), r(2, 2), r(2, 4), r(4, 9)], 5);
    let got: Vec<(usize, usize, usize)> = spans.iter().map(|s| (s.line, s.start, s.end)).collect();
    assert_eq!(got, vec![(3, 0, 2), (3, 2, 4)]);
    assert_eq!(utf8_length(&chars("aé€😀")), 10);
}

#[test]
fn highlight_is_deterministic_and_covers_line() {
    let mut d = Document::new();
    let text = "fn main() {\n    let x = 1; // one\n}";
    d.finish_open(Ok(("src/main.rs".to_string(), chars(text))));
    let first = d.highlight(SyntaxTheme::Base16Mocha);
    let second = d.highlight(SyntaxTheme::Base16Mocha);
    assert_eq!(first, second);
    assert_eq!(first.len(), 3);
    for (i, line) in text.split('\n').enumerate() {
        let spans = &first[i];
        assert!(!spans.is_empty());
        assert_eq!(spans[0].start, 0);
        assert_eq!(spans[spans.len() - 1].end, line.len());
        for w in spans.windows(2) {
            assert_eq!(w[0].end, w[1].start);
        }
        assert!(spans.iter().all(|s| s.line == i));
    }
    assert!(first[0].len() > 1);
    assert!(first[0].iter().any(|s| s.color.is_some()));
}

#[test]
fn highlight_depends_on_grammar_and_theme() {
    let lines = vec![chars("fn main() {}")];
    let rust = highlight_lines(&lines, &"rs".to_string(), SyntaxTheme::InspiredGitHub);
    let plain = highlight_lines(&lines, &"txt".to_string(), SyntaxTheme::InspiredGitHub);
    let dark = highlight_lines(&lines, &"rs".to_string(), SyntaxTheme::SolarizedDark);
    assert_eq!(plain[0].len(), 1);
    assert_eq!((plain[0][0].start, plain[0][0].end), (0, 12));
    assert!(rust[0].len() > 1);
    assert_ne!(rust, dark);
    assert!(highlight_lines(&vec![Vec::new()], &"rs".to_string(), SyntaxTheme::Base16Ocean)[0].is_empty());
}

#[test]
fn cache_recomputes_only_changed_lines() {
    let rs = "rs".to_string();
    let mut cache = HighlightCache::new(rs.clone(), SyntaxTheme::Base16Ocean);
    let mut lines = vec![chars("let a = 1;"), chars("// note"), chars("fn f() {}")];
    assert_eq!(cache.refresh(&lines, &rs, SyntaxTheme::Base16Ocean), 3);
    assert_eq!(cache.refresh(&lines, &rs, SyntaxTheme::Base16Ocean), 0);
    lines[1] = chars("// changed");
    assert_eq!(cache.refresh(&lines, &rs, SyntaxTheme::Base16Ocean), 1);
    assert_eq!(cache.spans(), &highlight_lines(&lines, &rs, SyntaxTheme::Base16Ocean));
    lines.push(chars("x"));
    assert_eq!(cache.refresh(&lines, &rs, SyntaxTheme::Base16Ocean), 1);
    assert_eq!(cache.refresh(&lines, &rs, SyntaxTheme::InspiredGitHub), 4);
    assert_eq!(cache.spans(), &highlight_lines(&lines, &rs, SyntaxTheme::InspiredGitHub));
    lines.truncate(1);
    assert_eq!(cache.refresh(&lines, &rs, SyntaxTheme::InspiredGitHub), 0);
    assert_eq!(cache.spans().len(), 1);
}
