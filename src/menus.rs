//! The decisions of three interactive menus, and the text of each frame
//! they draw.
//!
//! Each menu is a state and a step function: the terminal side draws the
//! frame for the current state, reads one key, hands it to the step
//! function, and erases exactly the rows that the frame drew before the
//! next one.
use vstd::prelude::*;
use crate::colorize::{
    bg_seq, black_code, clear_after_cursor, clear_after_seq, csi, cursor_right, cursor_up, decimal,
    digit_char, faint_code, faint_seq, fg_seq, green_code, magenta_code, painted, push_all,
    push_decimal, right_seq, up_seq, white_bg_code,
};
use crate::utf32string::UTF32String;

verus! {

/// A key event, as the menus read it.
#[derive(PartialEq, Eq, Structural, Clone, Copy, Debug)]
pub enum Key {
    Backspace,
    Left,
    Right,
    Up,
    Down,
    Home,
    End,
    PageUp,
    PageDown,
    BackTab,
    Delete,
    Insert,
    /// A function key, by number.
    F(u8),
    /// A plain character; Enter arrives as `Char('\n')`.
    Char(char),
    Alt(char),
    Ctrl(char),
    Null,
    Esc,
    /// Any other key, such as an arrow with a modifier.
    Other,
}

/// Enter.
pub open spec fn is_enter(key: Key) -> bool {
    key == Key::Char('\n')
}

/// The interrupt key, or the menu's own quit key when it has one.
pub open spec fn is_cancel(key: Key, quit: Option<Key>) -> bool {
    key == Key::Ctrl('c') || quit == Some(key)
}

fn cancels(key: Key, quit: Option<Key>) -> (r: bool)
    ensures
        r == is_cancel(key, quit),
{
    if key == Key::Ctrl('c') {
        return true;
    }
    match quit {
        Some(q) => q == key,
        None => false,
    }
}

/// Where a menu stands after a key.
#[derive(PartialEq, Eq, Structural, Clone, Copy, Debug)]
pub enum Outcome {
    /// The menu goes on.
    Pending,
    /// The item at this index was chosen.
    Confirmed(usize),
    /// The menu was left without a choice.
    Cancelled,
}

/// A plain select menu: a highlight that moves over a list of items.
pub struct SelectMenu {
    /// The number of items.
    pub len: usize,
    /// The highlighted item.
    pub selected: usize,
    /// The key that leaves the menu, besides the interrupt.
    pub quit: Option<Key>,
}

impl SelectMenu {
    /// The highlight is on an item, or at 0 when there is none.
    pub open spec fn wf(&self) -> bool {
        self.selected == 0 || self.selected < self.len
    }

    /// A menu over `len` items with the first one highlighted.
    pub fn new(len: usize, quit: Option<Key>) -> (r: SelectMenu)
        ensures
            r.len == len,
            r.selected == 0,
            r.quit == quit,
            r.wf(),
    {
        SelectMenu { len, selected: 0, quit }
    }

    /// Takes one key. Enter confirms the highlighted item (index 0 when the
    /// list is empty); Up and Down move the highlight, stopping at the first
    /// and the last item; the quit key or the interrupt cancels; any other
    /// key changes nothing.
    pub fn react(&mut self, key: Key) -> (r: Outcome)
        requires
            old(self).wf(),
        ensures
            final(self).wf(),
            final(self).len == old(self).len,
            final(self).quit == old(self).quit,
            is_enter(key) ==> r == Outcome::Confirmed(old(self).selected)
                && final(self).selected == old(self).selected,
            key == Key::Up ==> r == Outcome::Pending && final(self).selected == (
            if old(self).selected > 0 {
                old(self).selected - 1
            } else {
                0
            }),
            key == Key::Down ==> r == Outcome::Pending && final(self).selected == (
            if old(self).selected + 1 < old(self).len {
                old(self).selected + 1
            } else {
                old(self).selected as int
            }),
            !is_enter(key) && key != Key::Up && key != Key::Down ==> final(self).selected
                == old(self).selected && r == (if is_cancel(key, old(self).quit) {
                Outcome::Cancelled
            } else {
                Outcome::Pending
            }),
    {
        if key == Key::Char('\n') {
            Outcome::Confirmed(self.selected)
        } else if key == Key::Up {
            if self.selected > 0 {
                self.selected = self.selected - 1;
            }
            Outcome::Pending
        } else if key == Key::Down {
            if self.selected < self.len && self.len - self.selected > 1 {
                self.selected = self.selected + 1;
            }
            Outcome::Pending
        } else if cancels(key, self.quit) {
            Outcome::Cancelled
        } else {
            Outcome::Pending
        }
    }
}

/// What a numbered menu's single key means.
#[derive(PartialEq, Eq, Structural, Clone, Copy, Debug)]
pub enum SelectNumberedResp {
    /// The item at this index, chosen by its 1-based number.
    Index(usize),
    /// A key that means nothing here; the caller shows the menu again.
    UndefinedKey(Key),
    /// The quit key or the interrupt.
    Quit,
}

/// The value of a decimal digit character.
pub open spec fn digit_value(c: char) -> Option<nat> {
    if '0' <= c && c <= '9' {
        Some((c as nat - '0' as nat) as nat)
    } else {
        None
    }
}

/// The index that `key` picks in a numbered menu over `len` items: a digit
/// `d` with `1 <= d <= len` picks `d - 1`.
pub open spec fn picked_index(key: Key, len: usize) -> Option<nat> {
    match key {
        Key::Char(c) => match digit_value(c) {
            Some(d) => if 1 <= d && d <= len {
                Some((d - 1) as nat)
            } else {
                None
            },
            None => None,
        },
        _ => None,
    }
}

/// What `key` means in a numbered menu over `len` items.
pub open spec fn numbered_meaning(key: Key, len: usize, quit: Option<Key>) -> SelectNumberedResp {
    match picked_index(key, len) {
        Some(i) => SelectNumberedResp::Index(i as usize),
        None => if is_cancel(key, quit) {
            SelectNumberedResp::Quit
        } else {
            SelectNumberedResp::UndefinedKey(key)
        },
    }
}

/// Reads the one key of a numbered menu over `len` items: a digit `d` with
/// `1 <= d <= len` picks item `d - 1`; otherwise the quit key or the
/// interrupt quits; any other key is undefined.
pub fn numbered_choice(key: Key, len: usize, quit: Option<Key>) -> (r: SelectNumberedResp)
    ensures
        r == numbered_meaning(key, len, quit),
{
    if let Key::Char(c) = key {
        if '1' <= c && c <= '9' {
            let d = (c as u32 - '0' as u32) as usize;
            if d <= len {
                return SelectNumberedResp::Index(d - 1);
            }
        }
    }
    if cancels(key, quit) {
        SelectNumberedResp::Quit
    } else {
        SelectNumberedResp::UndefinedKey(key)
    }
}

/// Where a search menu stands after a key.
#[derive(PartialEq, Eq, Structural, Clone, Copy, Debug)]
pub enum SearchOutcome {
    /// The menu goes on.
    Editing,
    /// The menu is over: with the index of the chosen candidate, or with
    /// nothing.
    Finished(Option<usize>),
}

/// A search menu: an edit line with a cursor, and a highlight over the
/// candidates that the current text gives.
pub struct SearchMenu {
    /// The text typed so far.
    pub text: UTF32String,
    /// The insertion point, as a character index into `text`.
    pub cursor: usize,
    /// The highlighted candidate.
    pub sub_index: usize,
    /// The key that leaves the menu, besides the interrupt.
    pub quit: Option<Key>,
}

/// The text after `key` at insertion point `cursor`: a character is
/// inserted there, and Backspace removes the character before it.
pub open spec fn edited_text(text: Seq<char>, cursor: int, key: Key) -> Seq<char> {
    match key {
        Key::Backspace => if cursor > 0 {
            text.remove(cursor - 1)
        } else {
            text
        },
        Key::Char(c) => if c != '\n' {
            text.insert(cursor, c)
        } else {
            text
        },
        _ => text,
    }
}

/// The insertion point after `key`: it follows an inserted character, steps
/// back over a removed one, and Left and Right move it within `[0, len]`.
pub open spec fn moved_cursor(text: Seq<char>, cursor: int, key: Key) -> int {
    match key {
        Key::Backspace => if cursor > 0 {
            cursor - 1
        } else {
            cursor
        },
        Key::Char(c) => if c != '\n' {
            cursor + 1
        } else {
            cursor
        },
        Key::Right => if cursor < text.len() {
            cursor + 1
        } else {
            cursor
        },
        Key::Left => if cursor > 0 {
            cursor - 1
        } else {
            cursor
        },
        _ => cursor,
    }
}

/// The highlight after `key` with `n` candidates shown: Up and Down move it
/// within `[0, n - 1]`.
pub open spec fn moved_highlight(sub: int, n: int, key: Key) -> int {
    if key == Key::Up {
        if sub > 0 {
            sub - 1
        } else {
            sub
        }
    } else if key == Key::Down {
        if sub + 1 < n {
            sub + 1
        } else {
            sub
        }
    } else {
        sub
    }
}

/// How `key` ends a search menu, if it does: Enter chooses the highlighted
/// candidate, or nothing when there is none; the interrupt or the quit key
/// leaves with nothing.
pub open spec fn search_end(sub: int, n: int, key: Key, quit: Option<Key>) -> SearchOutcome {
    if is_enter(key) {
        SearchOutcome::Finished(
            if 0 <= sub < n {
                Some(sub as usize)
            } else {
                None
            },
        )
    } else if is_cancel(key, quit) {
        SearchOutcome::Finished(None)
    } else {
        SearchOutcome::Editing
    }
}

/// The highlight once the candidates are `n`: one past the last falls back
/// to the last, or to 0 when there is none.
pub open spec fn clamped(sub: int, n: int) -> int {
    if sub >= n {
        if n > 0 {
            n - 1
        } else {
            0
        }
    } else {
        sub
    }
}

impl SearchMenu {
    /// The cursor stands within the text.
    pub open spec fn wf(&self) -> bool {
        self.cursor <= self.text@.len()
    }

    /// An empty search line.
    pub fn new(quit: Option<Key>) -> (r: SearchMenu)
        ensures
            r.text@ == Seq::<char>::empty(),
            r.cursor == 0,
            r.sub_index == 0,
            r.quit == quit,
            r.wf(),
    {
        SearchMenu { text: UTF32String::new(), cursor: 0, sub_index: 0, quit }
    }

    /// Takes one key while `n` candidates are shown. Enter, the quit key and
    /// the interrupt end the menu and change nothing; the other keys edit the
    /// text, move the cursor or move the highlight.
    pub fn step(&mut self, key: Key, n: usize) -> (r: SearchOutcome)
        requires
            old(self).wf(),
            old(self).text@.len() < usize::MAX,
        ensures
            final(self).wf(),
            final(self).quit == old(self).quit,
            r == search_end(old(self).sub_index as int, n as int, key, old(self).quit),
            r is Finished ==> final(self).text@ == old(self).text@ && final(self).cursor
                == old(self).cursor && final(self).sub_index == old(self).sub_index,
            r is Editing ==> final(self).text@ == edited_text(
                old(self).text@,
                old(self).cursor as int,
                key,
            ) && final(self).cursor == moved_cursor(old(self).text@, old(self).cursor as int, key)
                && final(self).sub_index == moved_highlight(
                old(self).sub_index as int,
                n as int,
                key,
            ),
    {
        if key == Key::Char('\n') {
            return if self.sub_index < n {
                SearchOutcome::Finished(Some(self.sub_index))
            } else {
                SearchOutcome::Finished(None)
            };
        }
        if cancels(key, self.quit) {
            return SearchOutcome::Finished(None);
        }
        match key {
            Key::Up => {
                if self.sub_index > 0 {
                    self.sub_index = self.sub_index - 1;
                }
            },
            Key::Down => {
                if self.sub_index < n && n - self.sub_index > 1 {
                    self.sub_index = self.sub_index + 1;
                }
            },
            Key::Backspace => {
                if self.cursor > 0 {
                    self.cursor = self.cursor - 1;
                    self.text.remove(self.cursor);
                }
            },
            Key::Char(c) => {
                self.text.insert(self.cursor, c);
                self.cursor = self.cursor + 1;
            },
            Key::Right => {
                if self.cursor < self.text.len() {
                    self.cursor = self.cursor + 1;
                }
            },
            Key::Left => {
                if self.cursor > 0 {
                    self.cursor = self.cursor - 1;
                }
            },
            _ => {},
        }
        SearchOutcome::Editing
    }

    /// Brings the highlight back onto the candidates after they were
    /// computed again, `n` of them.
    pub fn refresh(&mut self, n: usize)
        ensures
            final(self).sub_index == clamped(old(self).sub_index as int, n as int),
            final(self).text == old(self).text,
            final(self).cursor == old(self).cursor,
            final(self).quit == old(self).quit,
    {
        if self.sub_index >= n {
            self.sub_index = if n > 0 {
                n - 1
            } else {
                0
            };
        }
    }
}

/// A line break as the raw terminal wants it.
pub open spec fn crlf() -> Seq<char> {
    seq!['\r', '\n']
}

/// The number of line feeds in `s`: the rows that writing `s` moves down.
pub open spec fn newlines(s: Seq<char>) -> nat
    decreases s.len(),
{
    if s.len() == 0 {
        0
    } else {
        newlines(s.drop_last()) + if s.last() == '\n' {
            1nat
        } else {
            0nat
        }
    }
}

/// `s` holds no line feed.
pub open spec fn single_line(s: Seq<char>) -> bool {
    forall|i: int| 0 <= i < s.len() ==> s[i] != '\n'
}

/// Every label holds no line feed.
pub open spec fn all_single_line(labels: Seq<Seq<char>>) -> bool {
    forall|i: int| 0 <= i < labels.len() ==> single_line(#[trigger] labels[i])
}

/// The texts of a slice of labels.
pub open spec fn texts(labels: Seq<Vec<char>>) -> Seq<Seq<char>> {
    labels.map_values(|v: Vec<char>| v@)
}

/// The highlighted item: the marker, a space, then the label in black on white.
pub open spec fn highlighted(marker: Seq<char>, label: Seq<char>) -> Seq<char> {
    marker + seq![' '] + painted(bg_seq('7'), painted(fg_seq('0'), label))
}

/// An item that is not highlighted: its label, faint.
pub open spec fn dimmed(label: Seq<char>) -> Seq<char> {
    painted(faint_seq(), label)
}

/// The row of item `i`, with item `selected` highlighted.
pub open spec fn item_row(labels: Seq<Seq<char>>, selected: int, marker: Seq<char>, i: int) -> Seq<
    char,
> {
    (if i == selected {
        highlighted(marker, labels[i])
    } else {
        dimmed(labels[i])
    }) + crlf()
}

/// The rows of the first `k` items.
pub open spec fn item_rows(labels: Seq<Seq<char>>, selected: int, marker: Seq<char>, k: nat) -> Seq<
    char,
>
    decreases k,
{
    if k == 0 {
        Seq::empty()
    } else {
        item_rows(labels, selected, marker, (k - 1) as nat) + item_row(
            labels,
            selected,
            marker,
            k - 1,
        )
    }
}

/// What erases the `rows` rows above the cursor: back to the line start, up
/// `rows` rows (no move for none), then clear everything below.
pub open spec fn erase_seq(rows: nat) -> Seq<char> {
    seq!['\r'] + (if rows > 0 {
        up_seq(rows)
    } else {
        Seq::empty()
    }) + clear_after_seq()
}

proof fn lemma_newlines_concat(a: Seq<char>, b: Seq<char>)
    ensures
        newlines(a + b) == newlines(a) + newlines(b),
    decreases b.len(),
{
    if b.len() == 0 {
        assert(a + b =~= a);
    } else {
        assert((a + b).drop_last() =~= a + b.drop_last());
        lemma_newlines_concat(a, b.drop_last());
    }
}

proof fn lemma_single_line(s: Seq<char>)
    requires
        single_line(s),
    ensures
        newlines(s) == 0,
    decreases s.len(),
{
    if s.len() > 0 {
        lemma_single_line(s.drop_last());
    }
}

proof fn lemma_painted_single(code: Seq<char>, text: Seq<char>)
    requires
        single_line(code),
        single_line(text),
    ensures
        newlines(painted(code, text)) == 0,
{
    lemma_single_line(code);
    lemma_single_line(text);
    assert(single_line(crate::colorize::reset()));
    lemma_single_line(crate::colorize::reset());
    lemma_newlines_concat(code, text);
    lemma_newlines_concat(code + text, crate::colorize::reset());
}

proof fn lemma_codes_single()
    ensures
        single_line(bg_seq('7')),
        single_line(fg_seq('0')),
        single_line(faint_seq()),
        single_line(crlf().drop_last()),
        newlines(crlf()) == 1,
{
    assert(crlf().drop_last() =~= seq!['\r']);
    lemma_single_line(crlf().drop_last());
}

proof fn lemma_item_rows_count(labels: Seq<Seq<char>>, selected: int, marker: Seq<char>, k: nat)
    requires
        k <= labels.len(),
        all_single_line(labels),
        single_line(marker),
    ensures
        newlines(item_rows(labels, selected, marker, k)) == k,
    decreases k,
{
    if k > 0 {
        let i = k - 1;
        lemma_item_rows_count(labels, selected, marker, (k - 1) as nat);
        lemma_codes_single();
        assert(single_line(labels[i]));
        lemma_painted_single(fg_seq('0'), labels[i]);
        let head = if i == selected {
            highlighted(marker, labels[i])
        } else {
            dimmed(labels[i])
        };
        if i == selected {
            let inner = painted(fg_seq('0'), labels[i]);
            assert(single_line(inner)) by {
                if !single_line(inner) {
                    lemma_has_newline(inner);
                }
            }
            lemma_painted_single(bg_seq('7'), inner);
            lemma_single_line(marker);
            assert(single_line(seq![' ']));
            lemma_single_line(seq![' ']);
            lemma_newlines_concat(marker, seq![' ']);
            lemma_newlines_concat(marker + seq![' '], painted(bg_seq('7'), inner));
        } else {
            lemma_painted_single(faint_seq(), labels[i]);
        }
        lemma_newlines_concat(head, crlf());
        lemma_newlines_concat(item_rows(labels, selected, marker, (k - 1) as nat), item_row(labels, selected, marker, i));
    }
}

proof fn lemma_has_newline(s: Seq<char>)
    requires
        !single_line(s),
    ensures
        newlines(s) > 0,
    decreases s.len(),
{
    if s.last() != '\n' {
        let j = choose|j: int| 0 <= j < s.len() && s[j] == '\n';
        assert(s.drop_last()[j] == '\n');
        lemma_has_newline(s.drop_last());
    }
}

/// Appends the row of one item of a list.
fn push_item_row(out: &mut Vec<char>, labels: &[Vec<char>], selected: usize, marker: &[char], i: usize)
    requires
        i < labels@.len(),
    ensures
        final(out)@ == old(out)@ + item_row(texts(labels@), selected as int, marker@, i as int),
{
    let ghost start = out@;
    if i == selected {
        push_all(out, marker);
        out.push(' ');
        let bg = white_bg_code();
        push_all(out, bg.as_slice());
        let fg = black_code();
        push_all(out, fg.as_slice());
        push_all(out, labels[i].as_slice());
        push_all(out, &['\x1b', '[', '0', 'm']);
        push_all(out, &['\x1b', '[', '0', 'm']);
    } else {
        let dim = faint_code();
        push_all(out, dim.as_slice());
        push_all(out, labels[i].as_slice());
        push_all(out, &['\x1b', '[', '0', 'm']);
    }
    out.push('\r');
    out.push('\n');
    assert(texts(labels@)[i as int] == labels@[i as int]@);
    assert(out@ =~= start + item_row(texts(labels@), selected as int, marker@, i as int));
}

/// Appends the rows of all items of a list, item `selected` highlighted.
fn push_item_rows(out: &mut Vec<char>, labels: &[Vec<char>], selected: usize, marker: &[char])
    ensures
        final(out)@ == old(out)@ + item_rows(texts(labels@), selected as int, marker@, labels@.len()),
{
    let ghost start = out@;
    let mut i: usize = 0;
    while i < labels.len()
        invariant
            i <= labels@.len(),
            out@ =~= start + item_rows(texts(labels@), selected as int, marker@, i as nat),
        decreases labels@.len() - i,
    {
        push_item_row(out, labels, selected, marker, i);
        i = i + 1;
    }
}

/// The frame of a plain select menu: one row per item, item `selected`
/// highlighted with `marker`. With single-line labels and marker it moves
/// down exactly one row per item.
pub fn render_select(labels: &[Vec<char>], selected: usize, marker: &[char]) -> (r: Vec<char>)
    ensures
        r@ == item_rows(texts(labels@), selected as int, marker@, labels@.len()),
        all_single_line(texts(labels@)) && single_line(marker@) ==> newlines(r@) == labels@.len(),
{
    let mut out: Vec<char> = Vec::new();
    push_item_rows(&mut out, labels, selected, marker);
    proof {
        assert(out@ =~= item_rows(texts(labels@), selected as int, marker@, labels@.len()));
        if all_single_line(texts(labels@)) && single_line(marker@) {
            lemma_item_rows_count(texts(labels@), selected as int, marker@, labels@.len());
        }
    }
    out
}

/// What erases a frame that moved down `rows` rows.
pub fn erase_rows(rows: usize) -> (r: Vec<char>)
    requires
        rows <= u16::MAX,
    ensures
        r@ == erase_seq(rows as nat),
{
    let mut out: Vec<char> = Vec::new();
    out.push('\r');
    if rows > 0 {
        let up = cursor_up(rows as u16);
        push_all(&mut out, up.as_slice());
    }
    let clear = clear_after_cursor();
    push_all(&mut out, clear.as_slice());
    assert(out@ =~= erase_seq(rows as nat));
    out
}

/// The row of item `i` of a numbered menu: its number, in green, then a dot
/// and the label.
pub open spec fn numbered_row(labels: Seq<Seq<char>>, i: int) -> Seq<char> {
    painted(fg_seq('2'), decimal((i + 1) as nat)) + seq!['.', ' '] + labels[i] + crlf()
}

/// The rows of the first `k` items of a numbered menu.
pub open spec fn numbered_rows(labels: Seq<Seq<char>>, k: nat) -> Seq<char>
    decreases k,
{
    if k == 0 {
        Seq::empty()
    } else {
        numbered_rows(labels, (k - 1) as nat) + numbered_row(labels, k - 1)
    }
}

/// The frame of a numbered menu: the title row, then one row per item.
pub open spec fn numbered_frame(title: Seq<char>, labels: Seq<Seq<char>>) -> Seq<char> {
    seq!['\r'] + title + crlf() + numbered_rows(labels, labels.len())
}

proof fn lemma_decimal_single(n: nat)
    ensures
        single_line(decimal(n)),
    decreases n,
{
    if n >= 10 {
        lemma_decimal_single(n / 10);
        let d = decimal(n / 10) + seq![digit_char(n % 10)];
        assert forall|i: int| 0 <= i < d.len() implies d[i] != '\n' by {
            if i < decimal(n / 10).len() {
                assert(d[i] == decimal(n / 10)[i]);
            }
        }
    }
}

proof fn lemma_concat_single(a: Seq<char>, b: Seq<char>)
    requires
        single_line(a),
        single_line(b),
    ensures
        single_line(a + b),
{
    assert forall|i: int| 0 <= i < (a + b).len() implies (a + b)[i] != '\n' by {
        if i < a.len() {
            assert((a + b)[i] == a[i]);
        } else {
            assert((a + b)[i] == b[i - a.len()]);
        }
    }
}

proof fn lemma_numbered_rows_count(labels: Seq<Seq<char>>, k: nat)
    requires
        k <= labels.len(),
        all_single_line(labels),
    ensures
        newlines(numbered_rows(labels, k)) == k,
    decreases k,
{
    if k > 0 {
        let i = k - 1;
        lemma_numbered_rows_count(labels, (k - 1) as nat);
        lemma_codes_single();
        assert(single_line(fg_seq('2')));
        lemma_decimal_single((i + 1) as nat);
        lemma_painted_single(fg_seq('2'), decimal((i + 1) as nat));
        let num = painted(fg_seq('2'), decimal((i + 1) as nat));
        assert(single_line(num)) by {
            if !single_line(num) {
                lemma_has_newline(num);
            }
        }
        assert(single_line(seq!['.', ' ']));
        assert(single_line(labels[i]));
        lemma_concat_single(num, seq!['.', ' ']);
        lemma_concat_single(num + seq!['.', ' '], labels[i]);
        let head = num + seq!['.', ' '] + labels[i];
        lemma_single_line(head);
        lemma_newlines_concat(head, crlf());
        lemma_newlines_concat(numbered_rows(labels, (k - 1) as nat), numbered_row(labels, i));
    }
}

/// The frame of a numbered menu: `title` on its own row, then each label
/// after its 1-based number. With a single-line title and labels it moves
/// down one row more than there are items.
pub fn render_numbered(title: &[char], labels: &[Vec<char>]) -> (r: Vec<char>)
    ensures
        r@ == numbered_frame(title@, texts(labels@)),
        single_line(title@) && all_single_line(texts(labels@)) ==> newlines(r@) == labels@.len()
            + 1,
{
    let mut out: Vec<char> = Vec::new();
    out.push('\r');
    push_all(&mut out, title);
    out.push('\r');
    out.push('\n');
    let ghost head = out@;
    let mut i: usize = 0;
    while i < labels.len()
        invariant
            i <= labels@.len(),
            out@ =~= head + numbered_rows(texts(labels@), i as nat),
        decreases labels@.len() - i,
    {
        let ghost before = out@;
        let green = green_code();
        push_all(&mut out, green.as_slice());
        push_decimal(&mut out, i + 1);
        push_all(&mut out, &['\x1b', '[', '0', 'm']);
        out.push('.');
        out.push(' ');
        push_all(&mut out, labels[i].as_slice());
        out.push('\r');
        out.push('\n');
        assert(texts(labels@)[i as int] == labels@[i as int]@);
        assert(out@ =~= before + numbered_row(texts(labels@), i as int));
        i = i + 1;
    }
    proof {
        assert(head =~= seq!['\r'] + title@ + crlf());
        assert(out@ =~= numbered_frame(title@, texts(labels@)));
        if single_line(title@) && all_single_line(texts(labels@)) {
            lemma_numbered_rows_count(texts(labels@), labels@.len());
            assert(single_line(seq!['\r']));
            lemma_concat_single(seq!['\r'], title@);
            lemma_single_line(seq!['\r'] + title@);
            lemma_codes_single();
            lemma_newlines_concat(seq!['\r'] + title@, crlf());
            lemma_newlines_concat(head, numbered_rows(texts(labels@), labels@.len()));
        }
    }
    out
}

/// The first hint row of a search menu.
pub open spec fn nav_hint() -> Seq<char> {
    seq!['↑', ' ', 'a', 'n', 'd', ' ', '↓', ' ', 't', 'o', ' ', 'n', 'a', 'v', 'i', 'g', 'a', 't', 'e']
}

/// The second hint row of a search menu.
pub open spec fn select_hint() -> Seq<char> {
    seq!['E', 'N', 'T', 'E', 'R', ' ', 't', 'o', ' ', 's', 'e', 'l', 'e', 'c', 't']
}

/// The two hint rows below the edit line, after a blank row; four line feeds.
pub open spec fn hints() -> Seq<char> {
    seq!['\r', '\n', '\n'] + nav_hint() + seq!['\n', '\r'] + select_hint() + crlf()
}

/// The rows below the edit line that a search frame with `n` candidates
/// draws, and climbs back before it ends.
pub open spec fn search_rows(n: nat) -> nat {
    if n > 0 {
        n + 4
    } else {
        0
    }
}

/// The screen column of the insertion point: the prompt, then the
/// characters before the cursor, as far as a cursor move can reach.
pub open spec fn edit_column(prompt_len: nat, cursor: nat) -> nat {
    if prompt_len + cursor < u16::MAX {
        prompt_len + cursor
    } else {
        u16::MAX as nat
    }
}

/// The frame of a search menu: the prompt in magenta and the text; with
/// candidates, the hint rows and one row per candidate, then back up to the
/// edit line; last, the cursor put at the insertion point.
pub open spec fn search_frame(
    prompt: Seq<char>,
    text: Seq<char>,
    cursor: nat,
    labels: Seq<Seq<char>>,
    sub: int,
    marker: Seq<char>,
) -> Seq<char> {
    let n = labels.len();
    let col = edit_column(prompt.len(), cursor);
    seq!['\r'] + clear_after_seq() + painted(fg_seq('5'), prompt) + text + (if n > 0 {
        hints()
    } else {
        Seq::empty()
    }) + item_rows(labels, sub, marker, n) + (if n > 0 {
        up_seq(search_rows(n))
    } else {
        Seq::empty()
    }) + seq!['\r'] + (if col > 0 {
        right_seq(col)
    } else {
        Seq::empty()
    })
}

proof fn lemma_hints_count()
    ensures
        newlines(hints()) == 4,
{
    let a = seq!['\r', '\n', '\n'];
    let b = seq!['\n', '\r'];
    lemma_codes_single();
    assert(a.drop_last() =~= crlf());
    assert(newlines(a) == newlines(crlf()) + 1);
    let lf = seq!['\n'];
    assert(lf.drop_last() =~= Seq::<char>::empty());
    assert(newlines(Seq::<char>::empty()) == 0);
    assert(lf.last() == '\n');
    assert(newlines(lf) == 1);
    assert(b.drop_last() =~= lf);
    assert(newlines(b) == 1);
    assert(single_line(nav_hint()));
    assert(single_line(select_hint()));
    lemma_single_line(nav_hint());
    lemma_single_line(select_hint());
    lemma_codes_single();
    lemma_newlines_concat(a, nav_hint());
    lemma_newlines_concat(a + nav_hint(), b);
    lemma_newlines_concat(a + nav_hint() + b, select_hint());
    lemma_newlines_concat(a + nav_hint() + b + select_hint(), crlf());
}

proof fn lemma_move_single(letter: char, n: nat)
    requires
        letter != '\n',
    ensures
        newlines(csi() + decimal(n) + seq![letter]) == 0,
{
    lemma_decimal_single(n);
    assert(single_line(csi()));
    assert(single_line(seq![letter]));
    lemma_concat_single(csi(), decimal(n));
    lemma_concat_single(csi() + decimal(n), seq![letter]);
    lemma_single_line(csi() + decimal(n) + seq![letter]);
}

proof fn lemma_search_frame_rows(
    prompt: Seq<char>,
    text: Seq<char>,
    cursor: nat,
    labels: Seq<Seq<char>>,
    sub: int,
    marker: Seq<char>,
)
    requires
        single_line(prompt),
        single_line(text),
        single_line(marker),
        all_single_line(labels),
    ensures
        newlines(search_frame(prompt, text, cursor, labels, sub, marker)) == search_rows(labels.len()),
{
    let n = labels.len();
    let head = seq!['\r'] + clear_after_seq();
    assert(single_line(head));
    lemma_codes_single();
    assert(single_line(fg_seq('5')));
    lemma_painted_single(fg_seq('5'), prompt);
    let pp = painted(fg_seq('5'), prompt);
    assert(single_line(pp)) by {
        if !single_line(pp) {
            lemma_has_newline(pp);
        }
    }
    lemma_concat_single(head, pp);
    lemma_concat_single(head + pp, text);
    let edit_line = head + pp + text;
    lemma_single_line(edit_line);
    let hint_part = if n > 0 {
        hints()
    } else {
        Seq::empty()
    };
    if n > 0 {
        lemma_hints_count();
    }
    lemma_newlines_concat(edit_line, hint_part);
    lemma_item_rows_count(labels, sub, marker, n);
    let rows = item_rows(labels, sub, marker, n);
    lemma_newlines_concat(edit_line + hint_part, rows);
    let up_part = if n > 0 {
        up_seq(search_rows(n))
    } else {
        Seq::empty()
    };
    lemma_move_single('A', search_rows(n));
    lemma_newlines_concat(edit_line + hint_part + rows, up_part);
    let col_n = edit_column(prompt.len(), cursor);
    let right_part = if col_n > 0 {
        right_seq(col_n)
    } else {
        Seq::empty()
    };
    lemma_move_single('C', col_n);
    assert(single_line(seq!['\r']));
    lemma_single_line(seq!['\r']);
    lemma_newlines_concat(seq!['\r'], right_part);
    let climbed = edit_line + hint_part + rows + up_part;
    lemma_newlines_concat(climbed, seq!['\r'] + right_part);
    assert(search_frame(prompt, text, cursor, labels, sub, marker) =~= climbed + (seq!['\r'] + right_part));
}

/// The frame of a search menu in state `menu`, with `prompt` before the text
/// and `labels` for the candidates. With single-line prompt, text, marker and
/// labels it moves down as many rows as it climbs back.
pub fn render_search(menu: &SearchMenu, prompt: &[char], labels: &[Vec<char>], marker: &[char]) -> (r:
    Vec<char>)
    requires
        labels@.len() + 4 <= u16::MAX,
    ensures
        r@ == search_frame(
            prompt@,
            menu.text@,
            menu.cursor as nat,
            texts(labels@),
            menu.sub_index as int,
            marker@,
        ),
        single_line(prompt@) && single_line(menu.text@) && single_line(marker@) && all_single_line(
            texts(labels@),
        ) ==> newlines(r@) == search_rows(labels@.len()),
{
    let n = labels.len();
    let mut out: Vec<char> = Vec::new();
    out.push('\r');
    let clear = clear_after_cursor();
    push_all(&mut out, clear.as_slice());
    let magenta = magenta_code();
    push_all(&mut out, magenta.as_slice());
    push_all(&mut out, prompt);
    push_all(&mut out, &['\x1b', '[', '0', 'm']);
    push_all(&mut out, menu.text.inner.as_slice());
    let ghost edit_line = out@;
    if n > 0 {
        push_all(&mut out, &['\r', '\n', '\n']);
        push_all(
            &mut out,
            &['↑', ' ', 'a', 'n', 'd', ' ', '↓', ' ', 't', 'o', ' ', 'n', 'a', 'v', 'i', 'g', 'a', 't', 'e'],
        );
        push_all(&mut out, &['\n', '\r']);
        push_all(&mut out, &['E', 'N', 'T', 'E', 'R', ' ', 't', 'o', ' ', 's', 'e', 'l', 'e', 'c', 't']);
        push_all(&mut out, &['\r', '\n']);
    }
    let ghost with_hints = out@;
    push_item_rows(&mut out, labels, menu.sub_index, marker);
    let ghost with_rows = out@;
    if n > 0 {
        let up = cursor_up((n + 4) as u16);
        push_all(&mut out, up.as_slice());
    }
    let ghost climbed = out@;
    out.push('\r');
    let p = prompt.len();
    let col: usize = if p >= 65535 || menu.cursor >= 65535 - p {
        65535
    } else {
        p + menu.cursor
    };
    if col > 0 {
        let right = cursor_right(col as u16);
        push_all(&mut out, right.as_slice());
    }
    proof {
        let hint_part = if n > 0 {
            hints()
        } else {
            Seq::empty()
        };
        let up_part = if n > 0 {
            up_seq(search_rows(n as nat))
        } else {
            Seq::empty()
        };
        let col_n = edit_column(prompt@.len(), menu.cursor as nat);
        let right_part = if col_n > 0 {
            right_seq(col_n)
        } else {
            Seq::empty()
        };
        assert(edit_line =~= seq!['\r'] + clear_after_seq() + painted(fg_seq('5'), prompt@) + menu.text@);
        assert(with_hints =~= edit_line + hint_part);
        assert(climbed =~= with_rows + up_part);
        assert(out@ =~= climbed + seq!['\r'] + right_part);
        if single_line(prompt@) && single_line(menu.text@) && single_line(marker@) && all_single_line(
            texts(labels@),
        ) {
            lemma_search_frame_rows(
                prompt@,
                menu.text@,
                menu.cursor as nat,
                texts(labels@),
                menu.sub_index as int,
                marker@,
            );
        }
    }
    out
}

} // verus!
