//! Text held as one `char` per element, so that a cursor position is a
//! character index and inserting or removing at it is a plain vector edit.
use vstd::prelude::*;

verus! {

/// Whether `c` is ASCII whitespace: space, tab, line feed, form feed or
/// carriage return.
pub open spec fn is_space(c: char) -> bool {
    c == ' ' || c == '\t' || c == '\n' || c == '\x0C' || c == '\r'
}

/// The first index at or after `i` that holds no whitespace, or the length.
pub open spec fn skip_spaces(s: Seq<char>, i: int) -> int
    decreases s.len() - i,
{
    if 0 <= i < s.len() && is_space(s[i]) {
        skip_spaces(s, i + 1)
    } else {
        i
    }
}

/// The end of `s[..j]` once the whitespace at its end is dropped.
pub open spec fn drop_trailing(s: Seq<char>, j: int) -> int
    decreases j,
{
    if 0 < j <= s.len() && is_space(s[j - 1]) {
        drop_trailing(s, j - 1)
    } else {
        j
    }
}

/// `s` without its leading and trailing whitespace.
pub open spec fn trim(s: Seq<char>) -> Seq<char> {
    let a = skip_spaces(s, 0);
    let b = drop_trailing(s, s.len() as int);
    if a < b {
        s.subrange(a, b)
    } else {
        Seq::empty()
    }
}

/// Whether `a` and `b` hold the same characters up to the shorter length.
pub open spec fn agree_on_common(a: Seq<char>, b: Seq<char>) -> bool {
    forall|i: int| 0 <= i < a.len() && i < b.len() ==> a[i] == b[i]
}

/// A line of text as a vector of characters.
pub struct UTF32String {
    pub inner: Vec<char>,
}

impl View for UTF32String {
    type V = Seq<char>;

    open spec fn view(&self) -> Seq<char> {
        self.inner@
    }
}

fn char_is_space(c: char) -> (r: bool)
    ensures
        r == is_space(c),
{
    c == ' ' || c == '\t' || c == '\n' || c == '\x0C' || c == '\r'
}

impl UTF32String {
    /// An empty text.
    pub fn new() -> (r: UTF32String)
        ensures
            r@ == Seq::<char>::empty(),
    {
        UTF32String { inner: Vec::new() }
    }

    /// Inserts `element` before the character at `index`.
    pub fn insert(&mut self, index: usize, element: char)
        requires
            index <= old(self)@.len(),
        ensures
            final(self)@ == old(self)@.insert(index as int, element),
    {
        self.inner.insert(index, element)
    }

    /// The number of characters.
    pub fn len(&self) -> (r: usize)
        ensures
            r == self@.len(),
    {
        self.inner.len()
    }

    /// Removes the character at `i`.
    pub fn remove(&mut self, i: usize)
        requires
            i < old(self)@.len(),
        ensures
            final(self)@ == old(self)@.remove(i as int),
    {
        self.inner.remove(i);
    }

    /// The text without its leading and trailing ASCII whitespace.
    pub fn trimmed(&self) -> (r: &[char])
        ensures
            r@ == trim(self@),
    {
        let n = self.inner.len();
        let mut s: usize = 0;
        while s < n && char_is_space(self.inner[s])
            invariant
                s <= n,
                n == self@.len(),
                skip_spaces(self@, 0) == skip_spaces(self@, s as int),
            decreases n - s,
        {
            s = s + 1;
        }
        let mut e: usize = n;
        while e > 0 && char_is_space(self.inner[e - 1])
            invariant
                e <= n,
                n == self@.len(),
                drop_trailing(self@, n as int) == drop_trailing(self@, e as int),
            decreases e,
        {
            e = e - 1;
        }
        if s < e {
            &self.inner.as_slice()[s..e]
        } else {
            &self.inner.as_slice()[0..0]
        }
    }

    /// Whether the text and `s` hold the same characters up to the shorter
    /// of the two lengths.
    pub fn starts_with(&self, s: &str) -> (r: bool)
        ensures
            r == agree_on_common(self@, s@),
    {
        let m = s.unicode_len();
        let n = self.inner.len();
        let mut i: usize = 0;
        while i < n && i < m
            invariant
                i <= n,
                n == self@.len(),
                m == s@.len(),
                forall|k: int| 0 <= k < i ==> self@[k] == s@[k],
            decreases n - i,
        {
            if self.inner[i] != s.get_char(i) {
                return false;
            }
            i = i + 1;
        }
        true
    }
}

} // verus!
