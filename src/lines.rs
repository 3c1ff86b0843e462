//! Splitting bytes into lines, and trimming whitespace off a line of UTF-8 text.
use vstd::prelude::*;

verus! {

/// The lines of `b[start..]`, given that `b[start..i]` holds no line feed:
/// each line feed ends a line, and what follows the last one is the last line.
pub open spec fn lines_from(b: Seq<u8>, start: int, i: int) -> Seq<Seq<u8>>
    decreases b.len() - i,
{
    if i >= b.len() || i < start {
        seq![b.subrange(start, b.len() as int)]
    } else if b[i] == 10 {
        seq![b.subrange(start, i)] + lines_from(b, i + 1, i + 1)
    } else {
        lines_from(b, start, i + 1)
    }
}

/// The lines of `b`, split at each line feed.
pub open spec fn lines(b: Seq<u8>) -> Seq<Seq<u8>> {
    lines_from(b, 0, 0)
}

/// A one-byte whitespace character: tab, line feed, vertical tab, form
/// feed, carriage return or space.
pub open spec fn is_white1(x: u8) -> bool {
    x == 32 || (9 <= x && x <= 13)
}

/// A two-byte UTF-8 whitespace character: U+0085 or U+00A0.
pub open spec fn is_white2(x: u8, y: u8) -> bool {
    x == 0xC2 && (y == 0x85 || y == 0xA0)
}

/// A three-byte UTF-8 whitespace character: U+1680, U+2000 to U+200A,
/// U+2028, U+2029, U+202F, U+205F or U+3000.
pub open spec fn is_white3(x: u8, y: u8, z: u8) -> bool {
    (x == 0xE1 && y == 0x9A && z == 0x80) || (x == 0xE2 && y == 0x80 && ((0x80 <= z && z <= 0x8A)
        || z == 0xA8 || z == 0xA9 || z == 0xAF)) || (x == 0xE2 && y == 0x81 && z == 0x9F) || (x
        == 0xE3 && y == 0x80 && z == 0x80)
}

/// The length in bytes of the whitespace character that starts at `i`, or
/// 0 when none does.
pub open spec fn white_at(s: Seq<u8>, i: int) -> int {
    if 0 <= i && i + 3 <= s.len() && is_white3(s[i], s[i + 1], s[i + 2]) {
        3
    } else if 0 <= i && i + 2 <= s.len() && is_white2(s[i], s[i + 1]) {
        2
    } else if 0 <= i && i < s.len() && is_white1(s[i]) {
        1
    } else {
        0
    }
}

/// The length in bytes of the whitespace character that ends just before
/// `j`, or 0 when none does.
pub open spec fn white_before(s: Seq<u8>, j: int) -> int {
    if 3 <= j && j <= s.len() && is_white3(s[j - 3], s[j - 2], s[j - 1]) {
        3
    } else if 2 <= j && j <= s.len() && is_white2(s[j - 2], s[j - 1]) {
        2
    } else if 1 <= j && j <= s.len() && is_white1(s[j - 1]) {
        1
    } else {
        0
    }
}

/// The first index at or after `i` where no whitespace character starts, or
/// the length.
pub open spec fn skip_blanks(s: Seq<u8>, i: int) -> int
    decreases s.len() - i,
{
    if 0 <= i < s.len() && white_at(s, i) > 0 {
        skip_blanks(s, i + white_at(s, i))
    } else {
        i
    }
}

/// The end of `s[..j]` once the whitespace characters at its end are dropped.
pub open spec fn drop_blanks(s: Seq<u8>, j: int) -> int
    decreases j,
{
    if 0 < j <= s.len() && white_before(s, j) > 0 {
        drop_blanks(s, j - white_before(s, j))
    } else {
        j
    }
}

/// The UTF-8 text `s` without its leading and trailing Unicode whitespace.
pub open spec fn trim_blanks(s: Seq<u8>) -> Seq<u8> {
    let a = skip_blanks(s, 0);
    let b = drop_blanks(s, s.len() as int);
    if a < b {
        s.subrange(a, b)
    } else {
        Seq::empty()
    }
}

fn copy_range(b: &[u8], start: usize, end: usize) -> (r: Vec<u8>)
    requires
        start <= end <= b@.len(),
    ensures
        r@ == b@.subrange(start as int, end as int),
{
    let mut out: Vec<u8> = Vec::with_capacity(end - start);
    let mut i: usize = start;
    while i < end
        invariant
            start <= i <= end <= b@.len(),
            out@ =~= b@.subrange(start as int, i as int),
        decreases end - i,
    {
        out.push(b[i]);
        i = i + 1;
    }
    out
}

/// Splits `b` into its lines at each line feed. A final line feed leaves an
/// empty last line.
pub fn split_lines(b: &[u8]) -> (r: Vec<Vec<u8>>)
    ensures
        r@.map_values(|v: Vec<u8>| v@) == lines(b@),
{
    let n = b.len();
    let mut out: Vec<Vec<u8>> = Vec::new();
    let mut start: usize = 0;
    let mut i: usize = 0;
    while i < n
        invariant
            n == b@.len(),
            start <= i <= n,
            lines(b@) == out@.map_values(|v: Vec<u8>| v@) + lines_from(b@, start as int, i as int),
        decreases n - i,
    {
        if b[i] == 10u8 {
            let line = copy_range(b, start, i);
            let ghost before = out@.map_values(|v: Vec<u8>| v@);
            let ghost rest = lines_from(b@, i + 1, i + 1);
            out.push(line);
            assert(out@.map_values(|v: Vec<u8>| v@) =~= before.push(b@.subrange(start as int, i as int)));
            assert(before + (seq![b@.subrange(start as int, i as int)] + rest) =~= before.push(
                b@.subrange(start as int, i as int),
            ) + rest);
            start = i + 1;
        }
        i = i + 1;
    }
    let last = copy_range(b, start, n);
    let ghost before = out@.map_values(|v: Vec<u8>| v@);
    out.push(last);
    assert(out@.map_values(|v: Vec<u8>| v@) =~= before + seq![b@.subrange(start as int, n as int)]);
    out
}

fn white1(x: u8) -> (r: bool)
    ensures
        r == is_white1(x),
{
    x == 32u8 || (9u8 <= x && x <= 13u8)
}

fn white2(x: u8, y: u8) -> (r: bool)
    ensures
        r == is_white2(x, y),
{
    x == 0xC2u8 && (y == 0x85u8 || y == 0xA0u8)
}

fn white3(x: u8, y: u8, z: u8) -> (r: bool)
    ensures
        r == is_white3(x, y, z),
{
    (x == 0xE1u8 && y == 0x9Au8 && z == 0x80u8) || (x == 0xE2u8 && y == 0x80u8 && ((0x80u8 <= z
        && z <= 0x8Au8) || z == 0xA8u8 || z == 0xA9u8 || z == 0xAFu8)) || (x == 0xE2u8 && y
        == 0x81u8 && z == 0x9Fu8) || (x == 0xE3u8 && y == 0x80u8 && z == 0x80u8)
}

/// The length of the whitespace character that starts at `i`, or 0.
fn white_len_at(s: &[u8], i: usize) -> (r: usize)
    requires
        i <= s@.len(),
    ensures
        r == white_at(s@, i as int),
{
    let n = s.len();
    if n - i >= 3 && white3(s[i], s[i + 1], s[i + 2]) {
        3
    } else if n - i >= 2 && white2(s[i], s[i + 1]) {
        2
    } else if n - i >= 1 && white1(s[i]) {
        1
    } else {
        0
    }
}

/// The length of the whitespace character that ends just before `j`, or 0.
fn white_len_before(s: &[u8], j: usize) -> (r: usize)
    requires
        j <= s@.len(),
    ensures
        r == white_before(s@, j as int),
{
    if j >= 3 && white3(s[j - 3], s[j - 2], s[j - 1]) {
        3
    } else if j >= 2 && white2(s[j - 2], s[j - 1]) {
        2
    } else if j >= 1 && white1(s[j - 1]) {
        1
    } else {
        0
    }
}

/// The UTF-8 text `s` without its leading and trailing Unicode whitespace.
pub fn trim_line(s: &[u8]) -> (r: Vec<u8>)
    ensures
        r@ == trim_blanks(s@),
{
    let n = s.len();
    let mut a: usize = 0;
    while a < n && white_len_at(s, a) > 0
        invariant
            a <= n,
            n == s@.len(),
            skip_blanks(s@, 0) == skip_blanks(s@, a as int),
        decreases n - a,
    {
        a = a + white_len_at(s, a);
    }
    let mut e: usize = n;
    while e > 0 && white_len_before(s, e) > 0
        invariant
            e <= n,
            n == s@.len(),
            drop_blanks(s@, n as int) == drop_blanks(s@, e as int),
        decreases e,
    {
        e = e - white_len_before(s, e);
    }
    if a < e {
        copy_range(s, a, e)
    } else {
        Vec::new()
    }
}

} // verus!
