//! ANSI escape sequences for colours and cursor movement, and text wrapped
//! in a colour.
//!
//! Terminal text here is a sequence of `char`s; the terminal-facing side of
//! the program turns it into a `String` when it writes it out.
use vstd::prelude::*;

verus! {

/// The control sequence introducer, ESC `[`.
pub open spec fn csi() -> Seq<char> {
    seq!['\x1b', '[']
}

/// The sequence that resets every text attribute.
pub open spec fn reset() -> Seq<char> {
    csi() + seq!['0', 'm']
}

/// A 256-colour foreground sequence for the colour numbered `d`.
pub open spec fn fg_seq(d: char) -> Seq<char> {
    csi() + seq!['3', '8', ';', '5', ';', d, 'm']
}

/// A 256-colour background sequence for the colour numbered `d`.
pub open spec fn bg_seq(d: char) -> Seq<char> {
    csi() + seq!['4', '8', ';', '5', ';', d, 'm']
}

/// The sequence for faint text.
pub open spec fn faint_seq() -> Seq<char> {
    csi() + seq!['2', 'm']
}

/// The sequence that clears the screen from the cursor on.
pub open spec fn clear_after_seq() -> Seq<char> {
    csi() + seq!['J']
}

/// The character of a decimal digit.
pub open spec fn digit_char(d: nat) -> char {
    if d == 0 {
        '0'
    } else if d == 1 {
        '1'
    } else if d == 2 {
        '2'
    } else if d == 3 {
        '3'
    } else if d == 4 {
        '4'
    } else if d == 5 {
        '5'
    } else if d == 6 {
        '6'
    } else if d == 7 {
        '7'
    } else if d == 8 {
        '8'
    } else {
        '9'
    }
}

/// `n` written in decimal, without leading zeros.
pub open spec fn decimal(n: nat) -> Seq<char>
    decreases n,
{
    if n < 10 {
        seq![digit_char(n)]
    } else {
        decimal(n / 10) + seq![digit_char(n % 10)]
    }
}

/// The sequence that moves the cursor `n` rows up.
pub open spec fn up_seq(n: nat) -> Seq<char> {
    csi() + decimal(n) + seq!['A']
}

/// The sequence that moves the cursor `n` columns right.
pub open spec fn right_seq(n: nat) -> Seq<char> {
    csi() + decimal(n) + seq!['C']
}

/// `text` shown with the attribute that `code` sets, then every attribute reset.
pub open spec fn painted(code: Seq<char>, text: Seq<char>) -> Seq<char> {
    code + text + reset()
}

/// Relies on `termion::style::Faint` as `AsRef<str>`: the text `ESC [ 2 m`.
#[verifier::external_body]
pub(crate) fn faint_code() -> (r: Vec<char>)
    ensures
        r@ == faint_seq(),
{
    let s: &str = termion::style::Faint.as_ref();
    s.chars().collect()
}

/// Relies on `termion::color::Red::fg_str`: the text `ESC [ 38;5;1 m`.
#[verifier::external_body]
pub(crate) fn red_code() -> (r: Vec<char>)
    ensures
        r@ == fg_seq('1'),
{
    termion::color::Red.fg_str().chars().collect()
}

/// Relies on `termion::color::Green::fg_str`: the text `ESC [ 38;5;2 m`.
#[verifier::external_body]
pub(crate) fn green_code() -> (r: Vec<char>)
    ensures
        r@ == fg_seq('2'),
{
    termion::color::Green.fg_str().chars().collect()
}

/// Relies on `termion::color::Black::fg_str`: the text `ESC [ 38;5;0 m`.
#[verifier::external_body]
pub(crate) fn black_code() -> (r: Vec<char>)
    ensures
        r@ == fg_seq('0'),
{
    termion::color::Black.fg_str().chars().collect()
}

/// Relies on `termion::color::Magenta::fg_str`: the text `ESC [ 38;5;5 m`.
#[verifier::external_body]
pub(crate) fn magenta_code() -> (r: Vec<char>)
    ensures
        r@ == fg_seq('5'),
{
    termion::color::Magenta.fg_str().chars().collect()
}

/// Relies on `termion::color::White::bg_str`: the text `ESC [ 48;5;7 m`.
#[verifier::external_body]
pub(crate) fn white_bg_code() -> (r: Vec<char>)
    ensures
        r@ == bg_seq('7'),
{
    termion::color::White.bg_str().chars().collect()
}

/// Relies on the `Display` of `termion::cursor::Up`: `ESC [`, the row count
/// in decimal, then `A`.
#[verifier::external_body]
pub(crate) fn cursor_up(n: u16) -> (r: Vec<char>)
    ensures
        r@ == up_seq(n as nat),
{
    format!("{}", termion::cursor::Up(n)).chars().collect()
}

/// Relies on the `Display` of `termion::cursor::Right`: `ESC [`, the column
/// count in decimal, then `C`.
#[verifier::external_body]
pub(crate) fn cursor_right(n: u16) -> (r: Vec<char>)
    ensures
        r@ == right_seq(n as nat),
{
    format!("{}", termion::cursor::Right(n)).chars().collect()
}

/// Relies on `termion::clear::AfterCursor` as `AsRef<str>`: the text `ESC [ J`.
#[verifier::external_body]
pub(crate) fn clear_after_cursor() -> (r: Vec<char>)
    ensures
        r@ == clear_after_seq(),
{
    let s: &str = termion::clear::AfterCursor.as_ref();
    s.chars().collect()
}

/// Appends `s` to `out`.
pub fn push_all(out: &mut Vec<char>, s: &[char])
    ensures
        final(out)@ == old(out)@ + s@,
{
    let ghost start = out@;
    let mut i: usize = 0;
    while i < s.len()
        invariant
            i <= s@.len(),
            out@ =~= start + s@.subrange(0, i as int),
        decreases s@.len() - i,
    {
        out.push(s[i]);
        i = i + 1;
    }
    assert(s@.subrange(0, s@.len() as int) =~= s@);
}

fn digit(d: usize) -> (c: char)
    requires
        d < 10,
    ensures
        c == digit_char(d as nat),
{
    if d == 0 {
        '0'
    } else if d == 1 {
        '1'
    } else if d == 2 {
        '2'
    } else if d == 3 {
        '3'
    } else if d == 4 {
        '4'
    } else if d == 5 {
        '5'
    } else if d == 6 {
        '6'
    } else if d == 7 {
        '7'
    } else if d == 8 {
        '8'
    } else {
        '9'
    }
}

/// Appends `n` written in decimal to `out`.
pub fn push_decimal(out: &mut Vec<char>, n: usize)
    ensures
        final(out)@ == old(out)@ + decimal(n as nat),
    decreases n,
{
    if n >= 10 {
        push_decimal(out, n / 10);
    }
    out.push(digit(n % 10));
    assert(out@ =~= old(out)@ + decimal(n as nat));
}

/// A value together with the escape sequence that colours it.
pub struct Colored<D> {
    /// The value shown.
    pub d: D,
    /// The sequence written before it.
    pub code: Vec<char>,
}

impl<D> Colored<D> {
    /// `d`, faint.
    pub fn faint(d: D) -> (r: Colored<D>)
        ensures
            r.d == d,
            r.code@ == faint_seq(),
    {
        Colored { d, code: faint_code() }
    }

    /// `d`, in red.
    pub fn red(d: D) -> (r: Colored<D>)
        ensures
            r.d == d,
            r.code@ == fg_seq('1'),
    {
        Colored { d, code: red_code() }
    }

    /// `d`, in green.
    pub fn green(d: D) -> (r: Colored<D>)
        ensures
            r.d == d,
            r.code@ == fg_seq('2'),
    {
        Colored { d, code: green_code() }
    }

    /// `d`, in black.
    pub fn black(d: D) -> (r: Colored<D>)
        ensures
            r.d == d,
            r.code@ == fg_seq('0'),
    {
        Colored { d, code: black_code() }
    }

    /// `d`, in magenta.
    pub fn magenta(d: D) -> (r: Colored<D>)
        ensures
            r.d == d,
            r.code@ == fg_seq('5'),
    {
        Colored { d, code: magenta_code() }
    }

    /// `d`, on a white background.
    pub fn white_bg(d: D) -> (r: Colored<D>)
        ensures
            r.d == d,
            r.code@ == bg_seq('7'),
    {
        Colored { d, code: white_bg_code() }
    }

    /// The value shown.
    pub fn inner(&self) -> (r: &D)
        ensures
            *r == self.d,
    {
        &self.d
    }
}

impl Colored<Vec<char>> {
    /// The text: the colour's sequence, the value, then the reset sequence.
    pub fn render(&self) -> (r: Vec<char>)
        ensures
            r@ == painted(self.code@, self.d@),
    {
        let mut out: Vec<char> = Vec::new();
        push_all(&mut out, self.code.as_slice());
        push_all(&mut out, self.d.as_slice());
        push_all(&mut out, &['\x1b', '[', '0', 'm']);
        assert(out@ =~= painted(self.code@, self.d@));
        out
    }
}

} // verus!
