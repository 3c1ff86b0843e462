//! The installed packages as the package manager lists them, and the search
//! that picks the candidates a search menu shows for the typed text.
use vstd::prelude::*;
use crate::lines::{lines, split_lines, trim_blanks, trim_line};
use crate::utf32string::UTF32String;

verus! {

/// The most candidates a search shows.
pub const MAX_CANDIDATES: usize = 5;

/// The bytes `package:` that start each line of the package manager's list.
pub open spec fn package_prefix() -> Seq<u8> {
    seq![112u8, 97u8, 99u8, 107u8, 97u8, 103u8, 101u8, 58u8]
}

/// The names in a list of lines: an empty line is skipped, any other must
/// start with `package:`, which is dropped; `None` when a line does not.
pub open spec fn package_names(ls: Seq<Seq<u8>>) -> Option<Seq<Seq<u8>>>
    decreases ls.len(),
{
    if ls.len() == 0 {
        Some(Seq::empty())
    } else {
        match package_names(ls.drop_last()) {
            None => None,
            Some(names) => {
                let l = ls.last();
                if l.len() == 0 {
                    Some(names)
                } else if l.len() >= 8 && l.subrange(0, 8) == package_prefix() {
                    Some(names.push(l.subrange(8, l.len() as int)))
                } else {
                    None
                }
            },
        }
    }
}

/// Reads the package manager's list: one `package:<name>` per line.
/// Returns the names in order, or `None` when a non-empty line lacks the
/// prefix.
pub fn parse_package_list(out: &[u8]) -> (r: Option<Vec<Vec<u8>>>)
    ensures
        match r {
            Some(names) => package_names(lines(out@)) == Some(names@.map_values(|v: Vec<u8>| v@)),
            None => package_names(lines(out@)) is None,
        },
{
    let ls = split_lines(out);
    let ghost all = lines(out@);
    let mut names: Vec<Vec<u8>> = Vec::new();
    let mut i: usize = 0;
    while i < ls.len()
        invariant
            i <= ls@.len(),
            all == lines(out@),
            all == ls@.map_values(|v: Vec<u8>| v@),
            package_names(all.take(i as int)) == Some(names@.map_values(|v: Vec<u8>| v@)),
        decreases ls@.len() - i,
    {
        let l = &ls[i];
        assert(all.take(i + 1).drop_last() =~= all.take(i as int));
        assert(all.take(i + 1).last() == l@);
        if l.len() == 0 {
        } else if l.len() >= 8 && l[0] == 112u8 && l[1] == 97u8 && l[2] == 99u8 && l[3] == 107u8
            && l[4] == 97u8 && l[5] == 103u8 && l[6] == 101u8 && l[7] == 58u8 {
            let mut name: Vec<u8> = Vec::new();
            let mut j: usize = 8;
            while j < l.len()
                invariant
                    8 <= j <= l@.len(),
                    name@ =~= l@.subrange(8, j as int),
                decreases l@.len() - j,
            {
                name.push(l[j]);
                j = j + 1;
            }
            assert(l@.subrange(0, 8) =~= package_prefix());
            let ghost before = names@.map_values(|v: Vec<u8>| v@);
            names.push(name);
            assert(names@.map_values(|v: Vec<u8>| v@) =~= before.push(l@.subrange(8, l@.len() as int)));
        } else {
            proof {
                if l@.len() >= 8 {
                    assert(l@.subrange(0, 8) != package_prefix()) by {
                        let p = l@.subrange(0, 8);
                        if p == package_prefix() {
                            assert(p[0] == 112u8 && p[1] == 97u8 && p[2] == 99u8 && p[3] == 107u8);
                            assert(p[4] == 97u8 && p[5] == 103u8 && p[6] == 101u8 && p[7] == 58u8);
                        }
                    }
                }
                assert(package_names(all.take(i as int)) is Some);
                assert(all.take(i + 1).last().len() > 0);
                assert(package_names(all.take(i + 1)) is None);
                lemma_names_fail_extends(all, i as int + 1);
            }
            return None;
        }
        i = i + 1;
    }
    assert(all.take(ls@.len() as int) =~= all);
    Some(names)
}

/// Once the lines up to `k` hold a line without the prefix, so do all of them.
proof fn lemma_names_fail_extends(all: Seq<Seq<u8>>, k: int)
    requires
        0 <= k <= all.len(),
        package_names(all.take(k)) is None,
    ensures
        package_names(all) is None,
    decreases all.len() - k,
{
    if k < all.len() {
        assert(all.take(k + 1).drop_last() =~= all.take(k));
        lemma_names_fail_extends(all, k + 1);
    } else {
        assert(all.take(k) =~= all);
    }
}

/// The ASCII lower-case form of a character code.
pub open spec fn lower(x: u32) -> u32 {
    if 65 <= x && x <= 90 {
        (x + 32) as u32
    } else {
        x
    }
}

/// Two bytes match when they are equal, ignoring ASCII case.
pub open spec fn same_byte(a: u8, b: u8) -> bool {
    lower(a as u32) == lower(b as u32)
}

/// `q` occurs in `name` starting at byte `i`, ignoring ASCII case.
pub open spec fn occurs_at(name: Seq<u8>, q: Seq<u8>, i: int) -> bool {
    0 <= i && i + q.len() <= name.len() && forall|j: int|
        0 <= j < q.len() ==> same_byte(#[trigger] name[i + j], q[j])
}

/// The UTF-8 encoding of one character.
pub open spec fn utf8_char(c: char) -> Seq<u8> {
    let x = c as u32;
    if x < 0x80 {
        seq![x as u8]
    } else if x < 0x800 {
        seq![(0xC0 + x / 64) as u8, (0x80 + x % 64) as u8]
    } else if x < 0x10000 {
        seq![(0xE0 + x / 4096) as u8, (0x80 + (x / 64) % 64) as u8, (0x80 + x % 64) as u8]
    } else {
        seq![
            (0xF0 + x / 262144) as u8,
            (0x80 + (x / 4096) % 64) as u8,
            (0x80 + (x / 64) % 64) as u8,
            (0x80 + x % 64) as u8,
        ]
    }
}

/// The UTF-8 encoding of a text.
pub open spec fn utf8_of(s: Seq<char>) -> Seq<u8>
    decreases s.len(),
{
    if s.len() == 0 {
        Seq::empty()
    } else {
        utf8_of(s.drop_last()) + utf8_char(s.last())
    }
}

/// What a search looks for: the typed text in UTF-8, without its leading and
/// trailing Unicode whitespace.
pub open spec fn query_of(text: Seq<char>) -> Seq<u8> {
    trim_blanks(utf8_of(text))
}

/// `name` is a candidate for the typed `text`: the query is not empty and
/// occurs in the name, ignoring ASCII case.
pub open spec fn is_candidate(name: Seq<u8>, text: Seq<char>) -> bool {
    query_of(text).len() > 0 && exists|i: int| occurs_at(name, query_of(text), i)
}

/// The indices, in order, of the candidates among the first `k` names.
pub open spec fn hits(names: Seq<Seq<u8>>, text: Seq<char>, k: nat) -> Seq<usize>
    decreases k,
{
    if k == 0 {
        Seq::empty()
    } else if is_candidate(names[k - 1], text) {
        hits(names, text, (k - 1) as nat).push((k - 1) as usize)
    } else {
        hits(names, text, (k - 1) as nat)
    }
}

/// At most the first `MAX_CANDIDATES` of `s`.
pub open spec fn first_few(s: Seq<usize>) -> Seq<usize> {
    if s.len() <= MAX_CANDIDATES {
        s
    } else {
        s.take(MAX_CANDIDATES as int)
    }
}

fn bytes_match(a: u8, b: u8) -> (r: bool)
    ensures
        r == same_byte(a, b),
{
    let x = a as u32;
    let y = b as u32;
    let lx = if 65 <= x && x <= 90 {
        x + 32
    } else {
        x
    };
    let ly = if 65 <= y && y <= 90 {
        y + 32
    } else {
        y
    };
    lx == ly
}

/// Appends the UTF-8 encoding of `c`.
fn push_utf8(out: &mut Vec<u8>, c: char)
    ensures
        final(out)@ == old(out)@ + utf8_char(c),
{
    let x = c as u32;
    if x < 0x80 {
        out.push(x as u8);
    } else if x < 0x800 {
        out.push((0xC0 + x / 64) as u8);
        out.push((0x80 + x % 64) as u8);
    } else if x < 0x10000 {
        out.push((0xE0 + x / 4096) as u8);
        out.push((0x80 + (x / 64) % 64) as u8);
        out.push((0x80 + x % 64) as u8);
    } else {
        out.push((0xF0 + x / 262144) as u8);
        out.push((0x80 + (x / 4096) % 64) as u8);
        out.push((0x80 + (x / 64) % 64) as u8);
        out.push((0x80 + x % 64) as u8);
    }
    assert(out@ =~= old(out)@ + utf8_char(c));
}

/// The UTF-8 encoding of a text.
fn encode_utf8(text: &[char]) -> (r: Vec<u8>)
    ensures
        r@ == utf8_of(text@),
{
    let mut out: Vec<u8> = Vec::new();
    let mut i: usize = 0;
    while i < text.len()
        invariant
            i <= text@.len(),
            out@ == utf8_of(text@.take(i as int)),
        decreases text@.len() - i,
    {
        proof {
            assert(text@.take(i + 1).drop_last() =~= text@.take(i as int));
        }
        push_utf8(&mut out, text[i]);
        i = i + 1;
    }
    assert(text@.take(text@.len() as int) =~= text@);
    out
}

/// Whether `q` occurs in `name`, ignoring ASCII case.
fn occurs_in(name: &[u8], q: &[u8]) -> (r: bool)
    ensures
        r == exists|i: int| occurs_at(name@, q@, i),
{
    if q.len() > name.len() {
        return false;
    }
    if q.len() == 0 {
        assert(occurs_at(name@, q@, 0));
        return true;
    }
    let n = name.len();
    let last = n - q.len();
    let mut i: usize = 0;
    while i <= last
        invariant
            1 <= q@.len() <= name@.len(),
            n == name@.len(),
            last == name@.len() - q@.len(),
            i <= last + 1,
            forall|k: int| 0 <= k < i ==> !occurs_at(name@, q@, k),
        decreases last + 1 - i,
    {
        let mut j: usize = 0;
        let mut ok = true;
        while j < q.len()
            invariant
                1 <= q@.len() <= name@.len(),
                n == name@.len(),
                i <= last,
                last == name@.len() - q@.len(),
                j <= q@.len(),
                ok ==> forall|t: int| 0 <= t < j ==> same_byte(#[trigger] name@[i + t], q@[t]),
                !ok ==> !occurs_at(name@, q@, i as int),
            decreases q@.len() - j,
        {
            if ok && !bytes_match(name[i + j], q[j]) {
                ok = false;
            }
            j = j + 1;
        }
        if ok {
            assert(occurs_at(name@, q@, i as int));
            return true;
        }
        i = i + 1;
    }
    proof {
        assert forall|k: int| !occurs_at(name@, q@, k) by {
            if occurs_at(name@, q@, k) {
                assert(0 <= k <= last);
            }
        }
    }
    false
}

/// The candidates for the typed `text`: the indices of the first names, at
/// most `MAX_CANDIDATES` of them, that hold the text in UTF-8 with its
/// leading and trailing Unicode whitespace dropped, ignoring ASCII case.
/// Blank text gives none.
pub fn filter_candidates(names: &[Vec<u8>], text: &UTF32String) -> (r: Vec<usize>)
    ensures
        r@ == first_few(hits(names@.map_values(|v: Vec<u8>| v@), text@, names@.len())),
{
    let encoded = encode_utf8(text.inner.as_slice());
    let q = trim_line(encoded.as_slice());
    let ghost all = names@.map_values(|v: Vec<u8>| v@);
    let mut out: Vec<usize> = Vec::new();
    let mut i: usize = 0;
    while i < names.len()
        invariant
            i <= names@.len(),
            all == names@.map_values(|v: Vec<u8>| v@),
            q@ == query_of(text@),
            out@ == first_few(hits(all, text@, i as nat)),
        decreases names@.len() - i,
    {
        let hit = q.len() > 0 && occurs_in(names[i].as_slice(), q.as_slice());
        assert(all[i as int] == names@[i as int]@);
        let ghost prev = hits(all, text@, i as nat);
        if hit && out.len() < MAX_CANDIDATES {
            out.push(i);
            assert(out@ =~= first_few(hits(all, text@, (i + 1) as nat)));
        } else {
            assert(out@ =~= first_few(hits(all, text@, (i + 1) as nat)));
        }
        i = i + 1;
    }
    out
}

} // verus!
