//! A toy SIS (short integer solution) commitment over integers mod q:
//! the commitment to a short vector `x` is `A·x mod q` for a random
//! matrix `A`. Small parameters, for study only.

use vstd::prelude::*;

verus! {

/// Parameters of the scheme.
pub struct SisParams {
    /// Modulus.
    pub q: u64,
    /// Number of rows.
    pub n: usize,
    /// Number of columns (message length).
    pub m: usize,
    /// The `n × m` matrix with entries in `Z_q`.
    pub matrix_a: Vec<Vec<u64>>,
    /// Message entries must lie in `[0, beta]`.
    pub beta: u64,
}

/// Errors of the scheme.
#[derive(Debug, PartialEq, Eq, Clone, Copy)]
pub enum SisError {
    /// The message does not have `m` entries.
    WrongMessageLength { expected: usize, got: usize },
    /// An entry of the message exceeds the bound.
    MessageNotShort { index: usize, value: u64, beta: u64 },
}

/// `Σ_{j < k} row[j]·x[j]`.
pub open spec fn dot(row: Seq<u64>, x: Seq<u64>, k: int) -> int
    decreases k,
{
    if k <= 0 {
        0
    } else {
        dot(row, x, k - 1) + row[k - 1] * x[k - 1]
    }
}

/// The commitment `A·x mod q` over the first `n` rows, one entry per row.
pub open spec fn spec_commit(a: Seq<Vec<u64>>, x: Seq<u64>, q: u64, n: nat) -> Seq<u64> {
    Seq::new(n, |i: int| (dot(a[i]@, x, x.len() as int) % (q as int)) as u64)
}

/// The first entry of `x` above `beta`, if any.
pub open spec fn first_not_short(x: Seq<u64>, beta: u64) -> Option<int> {
    if exists|i: int| 0 <= i < x.len() && x[i] > beta {
        Some(choose|i: int| 0 <= i < x.len() && x[i] > beta && forall|j: int| 0 <= j < i ==> x[j] <= beta)
    } else {
        None
    }
}

impl SisParams {
    /// The parameters are usable: at least `n` rows, each of at least `m`
    /// entries (only the first `m` entries of the first `n` rows are
    /// used), and `q > 0`.
    pub open spec fn wf(&self) -> bool {
        &&& self.q > 0
        &&& self.matrix_a@.len() >= self.n
        &&& forall|i: int| 0 <= i < self.n ==> (#[trigger] self.matrix_a@[i])@.len() >= self.m
    }

    /// What committing to `x` gives.
    pub open spec fn commit_result(&self, x: Seq<u64>) -> Result<Seq<u64>, SisError> {
        if x.len() != self.m {
            Err(SisError::WrongMessageLength { expected: self.m, got: x.len() as usize })
        } else {
            match first_not_short(x, self.beta) {
                Some(i) => Err(SisError::MessageNotShort { index: i as usize, value: x[i], beta: self.beta }),
                None => Ok(spec_commit(self.matrix_a@, x, self.q, self.n as nat)),
            }
        }
    }

    /// What checking that `c` opens to `x` gives.
    pub open spec fn open_result(&self, c: Seq<u64>, x: Seq<u64>) -> Result<bool, SisError> {
        match self.commit_result(x) {
            Ok(c2) => Ok(c2 == c),
            Err(e) => Err(e),
        }
    }

    /// Random parameters: an `n × m` matrix with entries drawn uniformly
    /// below `q`.
    pub fn generate(n: usize, m: usize, q: u64, beta: u64) -> (p: Self)
        requires
            q > 0,
        ensures
            p.wf(),
            p.n == n && p.m == m && p.q == q && p.beta == beta,
            forall|i: int, j: int| 0 <= i < n && 0 <= j < m ==> #[trigger] p.matrix_a@[i]@[j] < q,
    {
        let mut matrix_a: Vec<Vec<u64>> = Vec::new();
        let mut i: usize = 0;
        while i < n
            invariant
                q > 0,
                0 <= i <= n,
                matrix_a@.len() == i,
                forall|r: int| 0 <= r < i ==> (#[trigger] matrix_a@[r])@.len() == m,
                forall|r: int, c: int| 0 <= r < i && 0 <= c < m ==> #[trigger] matrix_a@[r]@[c] < q,
            decreases n - i,
        {
            let mut row: Vec<u64> = Vec::new();
            let mut j: usize = 0;
            while j < m
                invariant
                    q > 0,
                    0 <= j <= m,
                    row@.len() == j,
                    forall|c: int| 0 <= c < j ==> row@[c] < q,
                decreases m - j,
            {
                row.push(crate::rng::random_below(q));
                j = j + 1;
            }
            matrix_a.push(row);
            i = i + 1;
        }
        SisParams { q, n, m, matrix_a, beta }
    }

    /// Commits to a message: `A·x mod q`. The message must have `m`
    /// entries, each at most `beta`.
    pub fn commit(&self, message: &[u64]) -> (r: Result<Vec<u64>, SisError>)
        requires
            self.wf(),
        ensures
            match r {
                Ok(c) => self.commit_result(message@) == Ok::<Seq<u64>, SisError>(c@),
                Err(e) => self.commit_result(message@) == Err::<Seq<u64>, SisError>(e),
            },
    {
        if message.len() != self.m {
            return Err(SisError::WrongMessageLength { expected: self.m, got: message.len() });
        }
        let mut i: usize = 0;
        while i < message.len()
            invariant
                message@.len() == self.m,
                0 <= i <= message@.len(),
                forall|j: int| 0 <= j < i ==> message@[j] <= self.beta,
            decreases message@.len() - i,
        {
            if message[i] > self.beta {
                proof {
                    let x = message@;
                    let b = self.beta;
                    assert(exists|k: int| 0 <= k < x.len() && x[k] > b);
                    assert(exists|k: int| 0 <= k < x.len() && x[k] > b && forall|j: int| 0 <= j < k ==> x[j] <= b) by {
                        assert(0 <= i < x.len() && x[i as int] > b && forall|j: int| 0 <= j < i ==> x[j] <= b);
                    }
                    let w = choose|k: int| 0 <= k < x.len() && x[k] > b && forall|j: int| 0 <= j < k ==> x[j] <= b;
                    if w < i {
                        assert(x[w] <= b);
                    }
                    if w > i {
                        assert(x[i as int] <= b);
                    }
                    assert(w == i);
                }
                return Err(SisError::MessageNotShort { index: i, value: message[i], beta: self.beta });
            }
            i = i + 1;
        }
        assert(first_not_short(message@, self.beta) == None::<int>);
        let mut c: Vec<u64> = Vec::new();
        let mut r: usize = 0;
        while r < self.n
            invariant
                self.wf(),
                message@.len() == self.m,
                0 <= r <= self.n,
                c@.len() == r,
                forall|k: int| 0 <= k < r ==> c@[k] == spec_commit(self.matrix_a@, message@, self.q, self.n as nat)[k],
            decreases self.n - r,
        {
            let row = &self.matrix_a[r];
            assert(row@.len() >= self.m);
            let mut sum: u128 = 0;
            let mut j: usize = 0;
            while j < self.m
                invariant
                    self.q > 0,
                    row@.len() >= self.m,
                    message@.len() == self.m,
                    0 <= j <= self.m,
                    sum < self.q,
                    sum as int == dot(row@, message@, j as int) % (self.q as int),
                decreases self.m - j,
            {
                let a: u128 = row[j] as u128;
                let x: u128 = message[j] as u128;
                assert(a * x <= 0xffff_ffff_ffff_ffff * 0xffff_ffff_ffff_ffff) by (nonlinear_arith)
                    requires a <= 0xffff_ffff_ffff_ffff, x <= 0xffff_ffff_ffff_ffff;
                let prod: u128 = a * x;
                let next: u128 = sum + prod % (self.q as u128);
                proof {
                    let q = self.q as int;
                    let d = dot(row@, message@, j as int);
                    let p = row@[j as int] * message@[j as int];
                    assert(dot(row@, message@, j + 1) == d + p);
                    assert((d % q + p % q) % q == (d + p) % q) by {
                        vstd::arithmetic::div_mod::lemma_add_mod_noop(d, p, q);
                    }
                }
                sum = next % (self.q as u128);
                j = j + 1;
            }
            c.push(sum as u64);
            r = r + 1;
        }
        assert(c@ =~= spec_commit(self.matrix_a@, message@, self.q, self.n as nat));
        Ok(c)
    }

    /// Whether `commitment` opens to `message`: the message is valid and
    /// commits to exactly `commitment`.
    pub fn verify_opening(&self, commitment: &Vec<u64>, message: &[u64]) -> (r: Result<bool, SisError>)
        requires
            self.wf(),
        ensures
            r == self.open_result(commitment@, message@),
    {
        let recomputed = match self.commit(message) {
            Ok(c) => c,
            Err(e) => return Err(e),
        };
        let mut same = recomputed.len() == commitment.len();
        let mut i: usize = 0;
        while i < recomputed.len() && same
            invariant
                0 <= i <= recomputed@.len(),
                same ==> recomputed@.len() == commitment@.len(),
                same ==> forall|j: int| 0 <= j < i ==> recomputed@[j] == commitment@[j],
                !same ==> recomputed@ != commitment@,
            decreases recomputed@.len() - i,
        {
            if recomputed[i] != commitment[i] {
                same = false;
            }
            i = i + 1;
        }
        if same {
            assert(recomputed@ =~= commitment@);
        }
        Ok(same)
    }
}

/// A commitment opens to the message it was made from, and to no message
/// that commits to something else.
pub proof fn law_commit_then_open(p: SisParams, x: Seq<u64>, y: Seq<u64>, c: Seq<u64>)
    requires
        p.wf(),
        p.commit_result(x) == Ok::<Seq<u64>, SisError>(c),
    ensures
        p.open_result(c, x) == Ok::<bool, SisError>(true),
        p.commit_result(y) is Ok && p.commit_result(y) != p.commit_result(x) ==> p.open_result(c, y) == Ok::<bool, SisError>(false),
{
}

/// The zero message commits to the zero vector.
pub proof fn law_zero_commits_to_zero(p: SisParams, x: Seq<u64>)
    requires
        p.wf(),
        x.len() == p.m,
        forall|i: int| 0 <= i < x.len() ==> x[i] == 0,
    ensures
        p.commit_result(x) == Ok::<Seq<u64>, SisError>(Seq::new(p.n as nat, |i: int| 0u64)),
{
    assert(first_not_short(x, p.beta) == None::<int>);
    assert forall|i: int| 0 <= i < p.n implies dot(p.matrix_a@[i]@, x, x.len() as int) == 0 by {
        lemma_dot_zero(p.matrix_a@[i]@, x, x.len() as int);
    }
    assert(spec_commit(p.matrix_a@, x, p.q, p.n as nat) =~= Seq::new(p.n as nat, |i: int| 0u64));
}

proof fn lemma_dot_zero(row: Seq<u64>, x: Seq<u64>, k: int)
    requires
        k <= x.len(),
        forall|i: int| 0 <= i < x.len() ==> x[i] == 0,
    ensures
        dot(row, x, k) == 0,
    decreases k,
{
    if k > 0 {
        lemma_dot_zero(row, x, k - 1);
    }
}

} // verus!
