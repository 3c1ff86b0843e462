//! Edit distance between two strings, over their UTF-8 bytes.
use vstd::prelude::*;
use vstd::string::StringSliceAdditionalSpecFns;

verus! {

/// The edit distance between `a[..i]` and `b[..j]`: the fewest single-byte
/// insertions, deletions and substitutions that turn one into the other.
pub open spec fn lev_at(a: Seq<u8>, b: Seq<u8>, i: nat, j: nat) -> nat
    decreases i + j,
{
    if i == 0 {
        j
    } else if j == 0 {
        i
    } else if a[i - 1] == b[j - 1] {
        lev_at(a, b, (i - 1) as nat, (j - 1) as nat)
    } else {
        1 + min_of(
            lev_at(a, b, i, (j - 1) as nat),
            min_of(lev_at(a, b, (i - 1) as nat, j), lev_at(a, b, (i - 1) as nat, (j - 1) as nat)),
        )
    }
}

/// The smaller of two numbers.
pub open spec fn min_of(x: nat, y: nat) -> nat {
    if x <= y {
        x
    } else {
        y
    }
}

/// The edit distance between two byte strings.
pub open spec fn edit_distance(a: Seq<u8>, b: Seq<u8>) -> nat {
    lev_at(a, b, a.len(), b.len())
}

proof fn lemma_lev_bound(a: Seq<u8>, b: Seq<u8>, i: nat, j: nat)
    ensures
        lev_at(a, b, i, j) <= if i >= j {
            i
        } else {
            j
        },
    decreases i + j,
{
    if i > 0 && j > 0 {
        lemma_lev_bound(a, b, (i - 1) as nat, (j - 1) as nat);
    }
}

/// Computes edit distances, keeping its work row between calls.
pub struct Lev {
    dp: Vec<usize>,
}

impl Lev {
    /// A calculator with no work row yet.
    pub fn new() -> (r: Lev) {
        Lev { dp: Vec::new() }
    }

    /// The edit distance between the UTF-8 bytes of `a` and those of `b`.
    pub fn lev(&mut self, a: &str, b: &str) -> (r: usize)
        ensures
            r == edit_distance(a.spec_bytes(), b.spec_bytes()),
    {
        let a = a.as_bytes();
        let b = b.as_bytes();
        let n = a.len();
        let m = b.len();
        self.dp.clear();
        self.dp.push(0);
        let mut j: usize = 0;
        while j < m
            invariant
                j <= m,
                m == b@.len(),
                self.dp@.len() == j + 1,
                forall|k: int| 0 <= k <= j ==> self.dp@[k] == lev_at(a@, b@, 0, k as nat),
            decreases m - j,
        {
            j = j + 1;
            self.dp.push(j);
        }
        let mut i: usize = 0;
        while i < n
            invariant
                i <= n,
                n == a@.len(),
                m == b@.len(),
                self.dp@.len() == m + 1,
                forall|k: int| 0 <= k <= m ==> self.dp@[k] == lev_at(a@, b@, i as nat, k as nat),
            decreases n - i,
        {
            let mut diag = self.dp[0];
            self.dp.set(0, i + 1);
            let mut j: usize = 0;
            while j < m
                invariant
                    i < n,
                    j <= m,
                    n == a@.len(),
                    m == b@.len(),
                    self.dp@.len() == m + 1,
                    diag == lev_at(a@, b@, i as nat, j as nat),
                    forall|k: int| 0 <= k <= j ==> self.dp@[k] == lev_at(a@, b@, (i + 1) as nat, k as nat),
                    forall|k: int| j < k <= m ==> self.dp@[k] == lev_at(a@, b@, i as nat, k as nat),
                decreases m - j,
            {
                let c = j + 1;
                let up = self.dp[c];
                proof {
                    lemma_lev_bound(a@, b@, i as nat, j as nat);
                }
                let v = if a[i] == b[j] {
                    diag
                } else {
                    let left = self.dp[j];
                    let mut best = diag;
                    if up < best {
                        best = up;
                    }
                    if left < best {
                        best = left;
                    }
                    best + 1
                };
                self.dp.set(c, v);
                diag = up;
                j = c;
            }
            i = i + 1;
        }
        self.dp[m]
    }
}

} // verus!
