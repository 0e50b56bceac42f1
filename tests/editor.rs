use red::address::{red_parsed_command, Address};
use red::editor::{red_handle_multi_command, red_init_state, Action, Editor, Mode};
use red::output::Out;
use red::subst::split_directive;

fn editor_with(lines: &[&str], filename: &str) -> Editor {
    red_init_state(lines.iter().map(|s| s.to_string()).collect(), filename.to_string())
}

fn lines_of(e: &Editor) -> Vec<String> {
    e.lines().clone()
}

fn strings(v: &[&str]) -> Vec<String> {
    v.iter().map(|s| s.to_string()).collect()
}

fn line(s: &str) -> Out {
    Out::Line(s.to_string())
}

fn numbered(n: usize, s: &str) -> Out {
    Out::Numbered(n, s.to_string())
}

#[test]
fn goto_moves_cursor_and_prints_line() {
    let mut e = editor_with(&["a", "b", "c"], "");
    let r = e.feed("2");
    assert_eq!(e.cursor(), 1);
    assert_eq!(r.out, vec![line("b")]);
    assert_eq!(r.action, Action::Continue);
    assert_eq!(lines_of(&e), strings(&["a", "b", "c"]));
}

#[test]
fn goto_out_of_range_is_an_error() {
    let mut e = editor_with(&["a", "b"], "");
    assert_eq!(e.feed("0").out, vec![Out::Error]);
    assert_eq!(e.feed("3").out, vec![Out::Error]);
    assert_eq!(e.feed("99999999999999999999999999").out, vec![Out::Error]);
    assert_eq!(e.cursor(), 1);
}

#[test]
fn print_range_shows_raw_lines_in_order() {
    let mut e = editor_with(&["one", "two", "three", "four"], "");
    let r = e.feed("2,3p");
    assert_eq!(r.out, vec![line("two"), line("three")]);
    let r = e.feed("%p");
    assert_eq!(r.out, vec![line("one"), line("two"), line("three"), line("four")]);
    let r = e.feed(",p");
    assert_eq!(r.out.len(), 4);
    assert!(!e.modified());
}

#[test]
fn numbered_print_shows_line_numbers() {
    let mut e = editor_with(&["one", "two", "three"], "");
    let r = e.feed("2,%n");
    assert_eq!(r.out, vec![numbered(2, "two"), numbered(3, "three")]);
    let r = e.feed("n");
    assert_eq!(r.out, vec![numbered(3, "three")]);
}

#[test]
fn delete_then_reinsert_restores_buffer() {
    let mut e = editor_with(&["a", "b", "c", "d"], "");
    let r = e.feed("2,3d");
    assert_eq!(r.out, vec![]);
    assert_eq!(lines_of(&e), strings(&["a", "d"]));
    assert_eq!(e.cursor(), 1);
    // `a` at the cursor inserts before line 2
    e.feed("a");
    e.feed("b");
    e.feed("c");
    e.feed(".");
    assert_eq!(lines_of(&e), strings(&["a", "b", "c", "d"]));
}

#[test]
fn wq_without_filename_errors_and_continues() {
    let mut e = editor_with(&["a"], "");
    let r = e.feed("wq");
    assert_eq!(r.out, vec![Out::Error]);
    assert_eq!(r.action, Action::Continue);
    let mut e = Editor::new();
    let r = e.feed("wq");
    assert_eq!(r.action, Action::Continue);
}

#[test]
fn wq_with_filename_saves_and_quits() {
    let mut e = editor_with(&["a"], "notes.txt");
    let r = e.feed("wq");
    assert_eq!(r.out, vec![]);
    assert_eq!(r.action, Action::SaveAndQuit("notes.txt".to_string()));
}

#[test]
fn whole_substitution_changes_matching_lines() {
    let mut e = editor_with(&["foo", "bar", "boo"], "");
    let r = e.feed("%s/o/0/");
    assert_eq!(lines_of(&e), strings(&["f0o", "bar", "b0o"]));
    assert_eq!(r.out, vec![numbered(1, "f0o"), numbered(3, "b0o")]);
    assert!(e.modified());
}

#[test]
fn whole_substitution_global_flag() {
    let mut e = editor_with(&["foo", "bar"], "");
    let r = e.feed("%s/o/0/g");
    assert_eq!(lines_of(&e), strings(&["f00", "bar"]));
    assert_eq!(r.out, vec![numbered(1, "f00")]);
}

#[test]
fn substitution_without_match_is_an_error() {
    let mut e = editor_with(&["foo", "bar"], "");
    let r = e.feed("%s/zzz/y/");
    assert_eq!(r.out, vec![Out::Error]);
    assert_eq!(lines_of(&e), strings(&["foo", "bar"]));
    assert!(!e.modified());
}

#[test]
fn substitution_with_bad_pattern_is_an_error() {
    let mut e = editor_with(&["foo"], "");
    assert_eq!(e.feed("%s/(/y/").out, vec![Out::Error]);
    assert_eq!(e.feed("%s/o/y/x").out, vec![Out::Error]);
    assert_eq!(e.feed("%sxyz").out, vec![Out::Error]);
    assert_eq!(lines_of(&e), strings(&["foo"]));
}

#[test]
fn current_line_and_numbered_substitution() {
    let mut e = editor_with(&["aa", "aa", "aa"], "");
    e.feed("2");
    let r = e.feed("s/a/b/");
    assert_eq!(r.out, vec![numbered(2, "ba")]);
    let r = e.feed("3s/a/c/g");
    assert_eq!(r.out, vec![numbered(3, "cc")]);
    assert_eq!(lines_of(&e), strings(&["aa", "ba", "cc"]));
}

#[test]
fn substitution_expands_groups() {
    let mut e = editor_with(&["key=value"], "");
    e.feed("%s/(\\w+)=(\\w+)/$2=$1/");
    assert_eq!(lines_of(&e), strings(&["value=key"]));
}

#[test]
fn insert_mode_feeds_lines_until_dot() {
    let mut e = Editor::new();
    e.feed("a");
    assert_eq!(e.mode(), Mode::Insert);
    e.feed("a");
    e.feed("b");
    e.feed(".");
    assert_eq!(lines_of(&e), strings(&["a", "b"]));
    assert_eq!(e.cursor(), 1);
    assert_eq!(e.mode(), Mode::Command);
}

#[test]
fn delete_range_then_print() {
    let mut e = editor_with(&["one", "two", "three"], "");
    assert_eq!(e.cursor(), 2);
    e.feed("1,2d");
    assert_eq!(lines_of(&e), strings(&["three"]));
    assert_eq!(e.cursor(), 0);
    let r = e.feed("p");
    assert_eq!(r.out, vec![line("three")]);
}

#[test]
fn append_on_empty_buffer() {
    let mut e = Editor::new();
    e.feed("a");
    e.feed("hello");
    e.feed(".");
    assert_eq!(lines_of(&e), strings(&["hello"]));
    assert_eq!(e.cursor(), 0);
    assert!(e.modified());
}

#[test]
fn duplicate_current_line_past_end() {
    let mut e = editor_with(&["x", "y"], "");
    assert_eq!(e.cursor(), 1);
    e.feed("2y");
    assert_eq!(lines_of(&e), strings(&["x", "y", "y"]));
    let mut e = editor_with(&["x", "y"], "");
    e.feed("3y");
    assert_eq!(lines_of(&e), strings(&["x", "y", "y"]));
    assert_eq!(e.feed("5y").out, vec![Out::Error]);
}

#[test]
fn duplicate_before_cursor_moves_cursor() {
    let mut e = editor_with(&["x", "y", "z"], "");
    e.feed("2");
    e.feed("1,2y");
    assert_eq!(lines_of(&e), strings(&["y", "y", "x", "y", "z"]));
    assert_eq!(e.cursor(), 1);
    let mut e = editor_with(&["x", "y", "z"], "");
    e.feed("3");
    e.feed("1y");
    assert_eq!(lines_of(&e), strings(&["z", "x", "y", "z"]));
    assert_eq!(e.cursor(), 3);
}

#[test]
fn replace_range_with_current_line() {
    let mut e = editor_with(&["a", "b", "c", "d"], "");
    e.feed("1");
    e.feed("2,3r");
    assert_eq!(lines_of(&e), strings(&["a", "a", "a", "d"]));
    assert!(e.modified());
}

#[test]
fn change_deletes_and_enters_insert_mode() {
    let mut e = editor_with(&["a", "b", "c"], "");
    e.feed("2c");
    assert_eq!(e.mode(), Mode::Insert);
    assert_eq!(lines_of(&e), strings(&["a", "c"]));
    e.feed("B");
    e.feed(".");
    assert_eq!(lines_of(&e), strings(&["a", "B", "c"]));
    assert_eq!(e.cursor(), 1);
}

#[test]
fn insert_offset_depends_on_cursor() {
    let mut e = editor_with(&["a", "b"], "");
    e.feed("1");
    e.feed("1i");
    e.feed("x");
    e.feed(".");
    assert_eq!(lines_of(&e), strings(&["x", "a", "b"]));
    let mut e = editor_with(&["a", "b"], "");
    e.feed("1i");
    e.feed("x");
    e.feed(".");
    assert_eq!(lines_of(&e), strings(&["a", "x", "b"]));
}

#[test]
fn lone_dot_only_ends_insert_mode() {
    let mut e = Editor::new();
    e.feed("a");
    e.feed(".x");
    e.feed("..");
    e.feed(".");
    assert_eq!(lines_of(&e), strings(&[".x", ".."]));
}

#[test]
fn quit_guards_unsaved_changes() {
    let mut e = editor_with(&["a"], "");
    assert_eq!(e.feed("q").action, Action::Quit);
    e.feed("d");
    let r = e.feed("q");
    assert_eq!(r.action, Action::Continue);
    assert_eq!(r.out, vec![Out::Error]);
    assert_eq!(e.feed("Q").action, Action::Quit);
}

#[test]
fn write_needs_filename() {
    let mut e = editor_with(&["a"], "");
    assert_eq!(e.feed("w").out, vec![Out::Error]);
    let mut e = editor_with(&["a"], "f.txt");
    assert_eq!(e.feed("w").action, Action::Save("f.txt".to_string()));
    assert_eq!(e.feed("w other.txt").action, Action::SaveAs("other.txt".to_string()));
    assert_eq!(e.filename(), "f.txt");
    assert_eq!(e.feed("w a b").out, vec![Out::Error]);
}

#[test]
fn save_outcome_updates_flags() {
    let mut e = editor_with(&["a"], "f.txt");
    e.feed("d");
    assert!(e.modified());
    e.save_finished(true);
    assert!(!e.modified());
    e.feed("a");
    e.feed("z");
    e.feed(".");
    e.save_finished(false);
    assert!(e.modified());
    assert_eq!(e.filename(), "");
}

#[test]
fn contents_join_lines_with_newlines() {
    let e = editor_with(&["a", "bc", ""], "");
    assert_eq!(e.contents(), "a\nbc\n");
    assert_eq!(Editor::new().contents(), "");
}

#[test]
fn cursor_moves_up_and_down() {
    let mut e = editor_with(&["a", "b", "c"], "");
    assert_eq!(e.feed("j").out, vec![line("c")]);
    assert_eq!(e.feed("k").out, vec![line("b")]);
    assert_eq!(e.feed("k").out, vec![line("a")]);
    assert_eq!(e.feed("k").out, vec![line("a")]);
    assert_eq!(e.cursor(), 0);
}

#[test]
fn edit_requests_a_new_line() {
    let mut e = editor_with(&["a", "b"], "");
    let r = e.feed("e");
    assert_eq!(r.action, Action::Edit(1));
    e.replace_current("B".to_string());
    assert_eq!(lines_of(&e), strings(&["a", "B"]));
    assert!(e.modified());
}

#[test]
fn prompt_toggles() {
    let mut e = Editor::new();
    e.feed("P");
    assert!(e.prompt());
    e.feed("P");
    assert!(!e.prompt());
}

#[test]
fn search_lists_matching_lines() {
    let mut e = editor_with(&["apple", "berry", "grape"], "");
    let r = e.feed("/ap");
    assert_eq!(r.out, vec![numbered(1, "apple"), numbered(3, "grape")]);
    assert_eq!(e.feed("/zz").out, vec![Out::Error]);
    assert_eq!(e.feed("/(").out, vec![Out::Error]);
}

#[test]
fn empty_buffer_rejects_line_commands() {
    let mut e = Editor::new();
    for c in ["p", "n", "d", "c", "y", "r", "k", "j", "e", "%p", ",p", "1p", "s/a/b/", "%s/a/b/"] {
        assert_eq!(e.feed(c).out, vec![Out::Error], "command {}", c);
    }
    assert_eq!(e.mode(), Mode::Command);
}

#[test]
fn malformed_commands_are_errors() {
    let mut e = editor_with(&["a", "b", "c"], "");
    for c in ["", "   ", "x", "zz", "1,2", "2,1p", "0,2p", "1,4p", "1,2,3p", ",0p", ",5p", "1xp", "%"] {
        assert_eq!(e.feed(c).out, vec![Out::Error], "command {:?}", c);
    }
    assert_eq!(lines_of(&e), strings(&["a", "b", "c"]));
}

#[test]
fn trailing_blanks_are_ignored_in_commands() {
    let mut e = editor_with(&["a", "b"], "");
    assert_eq!(e.feed("1p  \r").out, vec![line("a")]);
}

#[test]
fn comma_range_runs_from_cursor() {
    let mut e = editor_with(&["a", "b", "c", "d"], "");
    e.feed("2");
    assert_eq!(e.feed(",3p").out, vec![line("b"), line("c")]);
    assert_eq!(e.feed(",1p").out, vec![Out::Error]);
}

#[test]
fn parsed_command_forms() {
    assert_eq!(matches!(red_parsed_command("3", 5, 0), Address::Goto(2)), true);
    assert!(matches!(red_parsed_command("p", 5, 4), Address::Cmd(4, 4, 'p')));
    assert!(matches!(red_parsed_command("%d", 5, 0), Address::Cmd(0, 4, 'd')));
    assert!(matches!(red_parsed_command("2,4n", 5, 0), Address::Cmd(1, 3, 'n')));
    assert!(matches!(red_parsed_command("2,%n", 5, 0), Address::Cmd(1, 4, 'n')));
    assert!(matches!(red_parsed_command("6y", 5, 0), Address::Cmd(5, 5, 'y')));
    assert!(matches!(red_parsed_command("6p", 5, 0), Address::Bad));
    assert!(matches!(red_parsed_command("wq", 5, 0), Address::SaveQuit));
    match red_parsed_command("2s/a/b/", 5, 0) {
        Address::Subst(1, 1, d) => assert_eq!(d, "/a/b/"),
        _ => panic!("not a substitution"),
    }
    match red_parsed_command("/x+", 5, 0) {
        Address::Search(p) => assert_eq!(p, "x+"),
        _ => panic!("not a search"),
    }
    match red_parsed_command("w out.txt", 5, 0) {
        Address::SaveAs(f) => assert_eq!(f, "out.txt"),
        _ => panic!("not a save"),
    }
}

#[test]
fn directive_parts() {
    let d = split_directive("/a/b/g").unwrap();
    assert_eq!((d.pattern.as_str(), d.replacement.as_str(), d.global), ("a", "b", true));
    let d = split_directive("/a/b").unwrap();
    assert_eq!((d.pattern.as_str(), d.replacement.as_str(), d.global), ("a", "b", false));
    let d = split_directive("/a//").unwrap();
    assert_eq!((d.pattern.as_str(), d.replacement.as_str(), d.global), ("a", "", false));
    assert!(split_directive("a/b/").is_none());
    assert!(split_directive("/ab").is_none());
    assert!(split_directive("/a/b/q").is_none());
}

#[test]
fn multi_command_runs_a_trimmed_command() {
    let mut e = editor_with(&["a", "b", "c"], "");
    let r = red_handle_multi_command(&mut e, "2,3d");
    assert_eq!(r.out, vec![]);
    assert_eq!(r.action, Action::Continue);
    assert_eq!(lines_of(&e), strings(&["a"]));
    assert_eq!(e.cursor(), 0);
}

#[test]
fn init_state_puts_cursor_on_last_line() {
    let e = red_init_state(strings(&["a", "b", "c"]), "f.txt".to_string());
    assert_eq!(e.cursor(), 2);
    assert_eq!(e.filename(), "f.txt");
    assert!(!e.modified());
    assert_eq!(e.mode(), Mode::Command);
    let e = red_init_state(Vec::new(), "new.txt".to_string());
    assert_eq!(e.cursor(), 0);
}
