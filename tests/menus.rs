use detach_cli::colorize::Colored;
use detach_cli::menus::{
    erase_rows, numbered_choice, render_numbered, render_search, render_select, Key, Outcome,
    SearchMenu, SearchOutcome, SelectMenu, SelectNumberedResp,
};
use detach_cli::ops::{main_op, Op};
use detach_cli::packages::filter_candidates;

fn chars(s: &str) -> Vec<char> {
    s.chars().collect()
}

fn string(v: &[char]) -> String {
    v.iter().collect()
}

#[test]
fn select_down_down_enter_confirms_third() {
    let mut m = SelectMenu::new(3, Some(Key::Char('q')));
    assert_eq!(m.react(Key::Down), Outcome::Pending);
    assert_eq!(m.react(Key::Down), Outcome::Pending);
    assert_eq!(m.react(Key::Char('\n')), Outcome::Confirmed(2));
}

#[test]
fn select_quit_cancels() {
    let mut m = SelectMenu::new(3, Some(Key::Char('q')));
    assert_eq!(m.react(Key::Char('q')), Outcome::Cancelled);
    let mut m = SelectMenu::new(3, None);
    assert_eq!(m.react(Key::Ctrl('c')), Outcome::Cancelled);
    assert_eq!(m.react(Key::Char('q')), Outcome::Pending);
}

#[test]
fn select_highlight_stops_at_ends() {
    let mut m = SelectMenu::new(2, None);
    m.react(Key::Up);
    assert_eq!(m.selected, 0);
    m.react(Key::Down);
    m.react(Key::Down);
    m.react(Key::Down);
    assert_eq!(m.selected, 1);
    m.react(Key::Char('x'));
    assert_eq!(m.selected, 1);
}

#[test]
fn numbered_digit_quit_and_undefined() {
    let q = Some(Key::Char('q'));
    assert_eq!(numbered_choice(Key::Char('3'), 4, q), SelectNumberedResp::Index(2));
    assert_eq!(numbered_choice(Key::Char('1'), 4, q), SelectNumberedResp::Index(0));
    assert_eq!(numbered_choice(Key::Char('x'), 4, q), SelectNumberedResp::UndefinedKey(Key::Char('x')));
    assert_eq!(numbered_choice(Key::Char('5'), 4, q), SelectNumberedResp::UndefinedKey(Key::Char('5')));
    assert_eq!(numbered_choice(Key::Char('0'), 4, q), SelectNumberedResp::UndefinedKey(Key::Char('0')));
    assert_eq!(numbered_choice(Key::Char('q'), 4, q), SelectNumberedResp::Quit);
    assert_eq!(numbered_choice(Key::Ctrl('c'), 4, None), SelectNumberedResp::Quit);
    assert_eq!(numbered_choice(Key::Up, 4, q), SelectNumberedResp::UndefinedKey(Key::Up));
}

#[test]
fn search_narrows_then_enter_returns_match() {
    let apps = vec![b"xyz".to_vec(), b"xya".to_vec(), b"abc".to_vec()];
    let mut m = SearchMenu::new(None);
    let mut shown = filter_candidates(&apps, &m.text);
    for c in ['x', 'y'] {
        assert_eq!(m.step(Key::Char(c), shown.len()), SearchOutcome::Editing);
        shown = filter_candidates(&apps, &m.text);
        m.refresh(shown.len());
    }
    assert_eq!(shown, vec![0, 1]);
    m.step(Key::Down, shown.len());
    assert_eq!(m.sub_index, 1);
    m.step(Key::Char('z'), shown.len());
    shown = filter_candidates(&apps, &m.text);
    m.refresh(shown.len());
    assert_eq!(shown, vec![0]);
    assert_eq!(m.sub_index, 0);
    let end = m.step(Key::Char('\n'), shown.len());
    assert_eq!(end, SearchOutcome::Finished(Some(0)));
    assert_eq!(apps[shown[0]], b"xyz".to_vec());
}

#[test]
fn search_backspace_relists_and_clamps() {
    let apps = vec![b"xyz".to_vec(), b"xya".to_vec(), b"q".to_vec()];
    let mut m = SearchMenu::new(None);
    for c in ['x', 'y', 'a'] {
        m.step(Key::Char(c), 0);
    }
    let mut shown = filter_candidates(&apps, &m.text);
    m.refresh(shown.len());
    assert_eq!(shown, vec![1]);
    m.step(Key::Backspace, shown.len());
    assert_eq!(m.text.inner, vec!['x', 'y']);
    assert_eq!(m.cursor, 2);
    shown = filter_candidates(&apps, &m.text);
    m.refresh(shown.len());
    assert_eq!(shown, vec![0, 1]);
    m.sub_index = 1;
    m.step(Key::Char('z'), shown.len());
    shown = filter_candidates(&apps, &m.text);
    m.refresh(shown.len());
    assert_eq!(m.sub_index, 0);
    m.step(Key::Char('!'), shown.len());
    shown = filter_candidates(&apps, &m.text);
    m.refresh(shown.len());
    assert!(shown.is_empty());
    assert_eq!(m.step(Key::Char('\n'), 0), SearchOutcome::Finished(None));
}

#[test]
fn search_cursor_edits_in_place() {
    let mut m = SearchMenu::new(Some(Key::Esc));
    m.step(Key::Char('a'), 0);
    m.step(Key::Char('c'), 0);
    m.step(Key::Left, 0);
    m.step(Key::Char('b'), 0);
    assert_eq!(m.text.inner, vec!['a', 'b', 'c']);
    assert_eq!(m.cursor, 2);
    m.step(Key::Right, 0);
    m.step(Key::Right, 0);
    assert_eq!(m.cursor, 3);
    m.step(Key::Left, 0);
    m.step(Key::Left, 0);
    m.step(Key::Left, 0);
    m.step(Key::Left, 0);
    assert_eq!(m.cursor, 0);
    m.step(Key::Backspace, 0);
    assert_eq!(m.text.inner.len(), 3);
    assert_eq!(m.step(Key::Esc, 0), SearchOutcome::Finished(None));
    assert_eq!(m.step(Key::Ctrl('c'), 0), SearchOutcome::Finished(None));
}

#[test]
fn select_frame_highlights_one_row() {
    let labels = vec![chars("A"), chars("B")];
    let f = string(&render_select(&labels, 1, &chars(">")));
    assert_eq!(
        f,
        "\x1b[2mA\x1b[0m\r\n> \x1b[48;5;7m\x1b[38;5;0mB\x1b[0m\x1b[0m\r\n"
    );
    assert_eq!(f.matches('\n').count(), 2);
}

#[test]
fn erase_climbs_drawn_rows() {
    assert_eq!(string(&erase_rows(3)), "\r\x1b[3A\x1b[J");
    assert_eq!(string(&erase_rows(12)), "\r\x1b[12A\x1b[J");
    assert_eq!(string(&erase_rows(0)), "\r\x1b[J");
}

#[test]
fn numbered_frame_lists_items() {
    let labels = vec![chars("Detach"), chars("Re-attach")];
    let f = string(&render_numbered(&chars("- Selection:"), &labels));
    assert_eq!(
        f,
        "\r- Selection:\r\n\x1b[38;5;2m1\x1b[0m. Detach\r\n\x1b[38;5;2m2\x1b[0m. Re-attach\r\n"
    );
    assert_eq!(f.matches('\n').count(), 3);
}

#[test]
fn numbered_frame_counts_past_nine() {
    let labels: Vec<Vec<char>> = (0..10).map(|_| chars("x")).collect();
    let f = string(&render_numbered(&chars("t"), &labels));
    assert!(f.ends_with("\x1b[38;5;2m10\x1b[0m. x\r\n"));
}

#[test]
fn search_frame_with_candidates() {
    let mut m = SearchMenu::new(None);
    m.step(Key::Char('x'), 0);
    m.step(Key::Char('y'), 0);
    m.step(Key::Left, 0);
    let labels = vec![chars("xyz"), chars("xya")];
    let f = string(&render_search(&m, &chars("- app: "), &labels, &chars(">")));
    let expected = String::from("\r\x1b[J\x1b[38;5;5m- app: \x1b[0mxy")
        + "\r\n\n↑ and ↓ to navigate\n\rENTER to select\r\n"
        + "> \x1b[48;5;7m\x1b[38;5;0mxyz\x1b[0m\x1b[0m\r\n"
        + "\x1b[2mxya\x1b[0m\r\n"
        + "\x1b[6A\r\x1b[8C";
    assert_eq!(f, expected);
    assert_eq!(f.matches('\n').count(), 6);
}

#[test]
fn search_frame_without_candidates() {
    let m = SearchMenu::new(None);
    let f = string(&render_search(&m, &chars("> "), &[], &chars("*")));
    assert_eq!(f, "\r\x1b[J\x1b[38;5;5m> \x1b[0m\r\x1b[2C");
}

#[test]
fn colored_renders_codes() {
    assert_eq!(string(&Colored::red(chars("x")).render()), "\x1b[38;5;1mx\x1b[0m");
    assert_eq!(string(&Colored::green(chars("ok")).render()), "\x1b[38;5;2mok\x1b[0m");
    assert_eq!(string(&Colored::faint(chars("f")).render()), "\x1b[2mf\x1b[0m");
    assert_eq!(string(&Colored::magenta(chars("m")).render()), "\x1b[38;5;5mm\x1b[0m");
    assert_eq!(string(&Colored::black(chars("b")).render()), "\x1b[38;5;0mb\x1b[0m");
    assert_eq!(string(&Colored::white_bg(chars("w")).render()), "\x1b[48;5;7mw\x1b[0m");
    let c = Colored::red(7u8);
    assert_eq!(*c.inner(), 7u8);
}

#[test]
fn search_quit_key_cancels_even_as_character() {
    let mut m = SearchMenu::new(Some(Key::Char('q')));
    m.step(Key::Char('a'), 0);
    assert_eq!(m.step(Key::Char('q'), 0), SearchOutcome::Finished(None));
    assert_eq!(m.text.inner, vec!['a']);
}

#[test]
fn main_menu_answers_select_operations() {
    assert_eq!(main_op(SelectNumberedResp::Index(0)), Op::DetachSelect);
    assert_eq!(main_op(SelectNumberedResp::Index(3)), Op::CopyToSd);
    assert_eq!(main_op(SelectNumberedResp::Quit), Op::Quit);
    assert_eq!(
        main_op(SelectNumberedResp::UndefinedKey(Key::Char('z'))),
        Op::Report(Key::Char('z'))
    );
    assert_eq!(main_op(SelectNumberedResp::UndefinedKey(Key::Left)), Op::Report(Key::Left));
    assert_eq!(main_op(SelectNumberedResp::UndefinedKey(Key::Esc)), Op::Nop);
}
