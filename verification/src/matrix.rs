use vstd::prelude::*;

verus! {

/// The rows of an owned matrix as mathematical sequences.
pub open spec fn rows_view(v: Seq<Vec<u64>>) -> Seq<Seq<u64>> {
    v.map_values(|r: Vec<u64>| r@)
}

/// A square matrix of side `n`.
pub open spec fn is_matrix(a: Seq<Seq<u64>>, n: int) -> bool {
    a.len() == n && forall|i: int| 0 <= i < n ==> (#[trigger] a[i]).len() == n
}

/// Every entry is below the bound.
pub open spec fn entries_below(a: Seq<Seq<u64>>, bound: int) -> bool {
    forall|i: int, j: int|
        0 <= i < a.len() && 0 <= j < a[i].len() ==> (#[trigger] a[i][j]) < bound
}

/// The bound under which products of two entries cannot overflow a word.
pub open spec fn entry_bound() -> int {
    0x1_0000_0000
}

/// The exact inner product of row `r` of `a` and column `c` of `b` over the
/// first `k` terms, as a mathematical integer.
pub open spec fn dot_sum(a: Seq<Seq<u64>>, b: Seq<Seq<u64>>, r: int, c: int, k: int) -> int
    decreases k,
{
    if k <= 0 {
        0
    } else {
        dot_sum(a, b, r, c, k - 1) + a[r][k - 1] as int * b[k - 1][c] as int
    }
}

/// The matrix product of two side-`n` matrices with every entry reduced
/// modulo `m`.
pub open spec fn mat_mul_spec(a: Seq<Seq<u64>>, b: Seq<Seq<u64>>, m: u64, n: int) -> Seq<
    Seq<u64>,
> {
    Seq::new(
        n as nat,
        |r: int| Seq::new(n as nat, |c: int| (dot_sum(a, b, r, c, n) % (m as int)) as u64),
    )
}

/// Multiplies two square matrices, reducing every entry modulo `modulo`.
/// Entry products must fit the machine word, hence the bounds.
pub fn mat_mul_mod(a: &Vec<Vec<u64>>, b: &Vec<Vec<u64>>, modulo: u64) -> (c: Vec<Vec<u64>>)
    requires
        0 < modulo <= entry_bound(),
        is_matrix(rows_view(a@), a@.len() as int),
        is_matrix(rows_view(b@), a@.len() as int),
        entries_below(rows_view(a@), entry_bound()),
        entries_below(rows_view(b@), entry_bound()),
    ensures
        rows_view(c@) == mat_mul_spec(rows_view(a@), rows_view(b@), modulo, a@.len() as int),
        is_matrix(rows_view(c@), a@.len() as int),
        entries_below(rows_view(c@), modulo as int),
{
    let ghost av = rows_view(a@);
    let ghost bv = rows_view(b@);
    let n = a.len();
    let mut c: Vec<Vec<u64>> = Vec::new();
    let mut row: usize = 0;
    while row < n
        invariant
            row <= n,
            n == a@.len(),
            av == rows_view(a@),
            bv == rows_view(b@),
            0 < modulo <= entry_bound(),
            is_matrix(av, n as int),
            is_matrix(bv, n as int),
            entries_below(av, entry_bound()),
            entries_below(bv, entry_bound()),
            c@.len() == row,
            forall|r: int|
                0 <= r < row ==> (#[trigger] c@[r])@ == mat_mul_spec(av, bv, modulo, n as int)[r],
        decreases n - row,
    {
        let mut crow: Vec<u64> = Vec::new();
        let mut col: usize = 0;
        while col < n
            invariant
                col <= n,
                row < n,
                n == a@.len(),
                av == rows_view(a@),
                bv == rows_view(b@),
                0 < modulo <= entry_bound(),
                is_matrix(av, n as int),
                is_matrix(bv, n as int),
                entries_below(av, entry_bound()),
                entries_below(bv, entry_bound()),
                crow@.len() == col,
                forall|c0: int|
                    0 <= c0 < col ==> #[trigger] crow@[c0] as int == dot_sum(
                        av,
                        bv,
                        row as int,
                        c0,
                        n as int,
                    ) % (modulo as int),
            decreases n - col,
        {
            let mut acc: u64 = 0;
            let mut i: usize = 0;
            proof {
                assert(dot_sum(av, bv, row as int, col as int, 0) == 0);
                assert(0int % (modulo as int) == 0);
            }
            while i < n
                invariant
                    i <= n,
                    col < n,
                    row < n,
                    n == a@.len(),
                    av == rows_view(a@),
                    bv == rows_view(b@),
                    0 < modulo <= entry_bound(),
                    is_matrix(av, n as int),
                    is_matrix(bv, n as int),
                    entries_below(av, entry_bound()),
                    entries_below(bv, entry_bound()),
                    acc as int == dot_sum(av, bv, row as int, col as int, i as int) % (
                    modulo as int),
                decreases n - i,
            {
                proof {
                    assert(rows_view(a@)[row as int] == a@[row as int]@);
                    assert(av[row as int].len() == n as int);
                    assert(rows_view(b@)[i as int] == b@[i as int]@);
                    assert(bv[i as int].len() == n as int);
                }
                let x = a[row][i];
                let y = b[i][col];
                proof {
                    assert(x == av[row as int][i as int]);
                    assert(y == bv[i as int][col as int]);
                    lemma_entry_product_fits(x, y);
                }
                let prod = x * y;
                let term = prod % modulo;
                proof {
                    vstd::arithmetic::div_mod::lemma_add_mod_noop(
                        dot_sum(av, bv, row as int, col as int, i as int),
                        prod as int,
                        modulo as int,
                    );
                }
                acc = (acc + term) % modulo;
                i = i + 1;
            }
            crow.push(acc);
            col = col + 1;
        }
        proof {
            assert(crow@ =~= mat_mul_spec(av, bv, modulo, n as int)[row as int]);
        }
        c.push(crow);
        row = row + 1;
    }
    proof {
        assert(rows_view(c@) =~= mat_mul_spec(av, bv, modulo, n as int));
        assert forall|i: int, j: int|
            0 <= i < rows_view(c@).len() && 0 <= j < rows_view(c@)[i].len() implies (
        #[trigger] rows_view(c@)[i][j]) < modulo as int by {
            assert(rows_view(c@)[i][j] == (dot_sum(av, bv, i, j, n as int) % (modulo as int))
                as u64);
        }
    }
    c
}

/// The product of two entries below the entry bound fits a word.
pub proof fn lemma_entry_product_fits(x: u64, y: u64)
    by (nonlinear_arith)
    requires
        x < 0x1_0000_0000,
        y < 0x1_0000_0000,
    ensures
        x as int * y as int <= u64::MAX,
{
}


/// Distribution of multiplication over addition.
proof fn lemma_dist(a: int, b: int, c: int)
    by (nonlinear_arith)
    ensures
        (a + b) * c == a * c + b * c,
        c * (a + b) == c * a + c * b,
{
}

/// Associativity of multiplication.
proof fn lemma_mul_assoc3(a: int, b: int, c: int)
    by (nonlinear_arith)
    ensures
        (a * b) * c == a * (b * c),
{
}

/// The side-`n` identity matrix.
pub open spec fn identity_spec(n: int) -> Seq<Seq<u64>> {
    Seq::new(
        n as nat,
        |r: int| Seq::new(
            n as nat,
            |c: int|
                if r == c {
                    1u64
                } else {
                    0u64
                },
        ),
    )
}

/// Every entry reduced modulo `m`.
pub open spec fn reduce_spec(a: Seq<Seq<u64>>, m: u64, n: int) -> Seq<Seq<u64>> {
    Seq::new(
        n as nat,
        |r: int| Seq::new(n as nat, |c: int| (a[r][c] as int % (m as int)) as u64),
    )
}

/// The `p`-th power of a matrix under entrywise reduction modulo `m`: the
/// identity for the zeroth power, one more product for each further one.
pub open spec fn mat_pow_spec(a: Seq<Seq<u64>>, p: nat, m: u64, n: int) -> Seq<Seq<u64>>
    decreases p,
{
    if p == 0 {
        identity_spec(n)
    } else {
        mat_mul_spec(mat_pow_spec(a, (p - 1) as nat, m, n), a, m, n)
    }
}

/// The product matrix is square with entries below the modulus.
pub proof fn lemma_mul_spec_shape(a: Seq<Seq<u64>>, b: Seq<Seq<u64>>, m: u64, n: int)
    requires
        m > 0,
        n >= 0,
    ensures
        is_matrix(mat_mul_spec(a, b, m, n), n),
        entries_below(mat_mul_spec(a, b, m, n), m as int),
{
    let c = mat_mul_spec(a, b, m, n);
    assert forall|i: int| 0 <= i < n implies (#[trigger] c[i]).len() == n by {}
    assert forall|i: int, j: int| 0 <= i < c.len() && 0 <= j < c[i].len() implies (
    #[trigger] c[i][j]) < m as int by {
        assert(c[i][j] == (dot_sum(a, b, i, j, n) % (m as int)) as u64);
    }
}

/// The identity matrix is square with entries below two.
pub proof fn lemma_identity_shape(n: int)
    requires
        n >= 0,
    ensures
        is_matrix(identity_spec(n), n),
        entries_below(identity_spec(n), 2),
{
    let c = identity_spec(n);
    assert forall|i: int| 0 <= i < n implies (#[trigger] c[i]).len() == n by {}
    assert forall|i: int, j: int| 0 <= i < c.len() && 0 <= j < c[i].len() implies (
    #[trigger] c[i][j]) < 2 by {
        assert(c[i][j] == if i == j {
            1u64
        } else {
            0u64
        });
    }
}

/// A dot product against the identity on the right picks out one entry.
proof fn lemma_dot_identity_right(x: Seq<Seq<u64>>, n: int, r: int, c: int, k: int)
    requires
        0 <= c < n,
        0 <= k <= n,
    ensures
        dot_sum(x, identity_spec(n), r, c, k) == if c < k {
            x[r][c] as int
        } else {
            0
        },
    decreases k,
{
    if k > 0 {
        lemma_dot_identity_right(x, n, r, c, k - 1);
        assert(identity_spec(n)[k - 1][c] == if k - 1 == c {
            1u64
        } else {
            0u64
        });
    }
}

/// A dot product against the identity on the left picks out one entry.
proof fn lemma_dot_identity_left(x: Seq<Seq<u64>>, n: int, r: int, c: int, k: int)
    requires
        0 <= r < n,
        0 <= k <= n,
    ensures
        dot_sum(identity_spec(n), x, r, c, k) == if r < k {
            x[r][c] as int
        } else {
            0
        },
    decreases k,
{
    if k > 0 {
        lemma_dot_identity_left(x, n, r, c, k - 1);
        assert(identity_spec(n)[r][k - 1] == if r == k - 1 {
            1u64
        } else {
            0u64
        });
    }
}

/// Multiplying by the identity on the right reduces each entry and does
/// nothing more.
pub proof fn lemma_mul_identity_right(x: Seq<Seq<u64>>, m: u64, n: int)
    requires
        m > 0,
        n >= 0,
    ensures
        mat_mul_spec(x, identity_spec(n), m, n) == reduce_spec(x, m, n),
{
    let lhs = mat_mul_spec(x, identity_spec(n), m, n);
    let rhs = reduce_spec(x, m, n);
    assert forall|r: int| 0 <= r < n implies lhs[r] == rhs[r] by {
        assert forall|c: int| 0 <= c < n implies lhs[r][c] == rhs[r][c] by {
            lemma_dot_identity_right(x, n, r, c, n);
        }
        assert(lhs[r] =~= rhs[r]);
    }
    assert(lhs =~= rhs);
}

/// Multiplying by the identity on the left reduces each entry and does
/// nothing more.
pub proof fn lemma_mul_identity_left(x: Seq<Seq<u64>>, m: u64, n: int)
    requires
        m > 0,
        n >= 0,
    ensures
        mat_mul_spec(identity_spec(n), x, m, n) == reduce_spec(x, m, n),
{
    let lhs = mat_mul_spec(identity_spec(n), x, m, n);
    let rhs = reduce_spec(x, m, n);
    assert forall|r: int| 0 <= r < n implies lhs[r] == rhs[r] by {
        assert forall|c: int| 0 <= c < n implies lhs[r][c] == rhs[r][c] by {
            lemma_dot_identity_left(x, n, r, c, n);
        }
        assert(lhs[r] =~= rhs[r]);
    }
    assert(lhs =~= rhs);
}

/// Reduction is the identity on a matrix already below the modulus.
pub proof fn lemma_reduce_noop(x: Seq<Seq<u64>>, m: u64, n: int)
    requires
        m > 0,
        is_matrix(x, n),
        entries_below(x, m as int),
    ensures
        reduce_spec(x, m, n) == x,
{
    let rhs = reduce_spec(x, m, n);
    assert forall|r: int| 0 <= r < n implies rhs[r] == x[r] by {
        assert forall|c: int| 0 <= c < n implies rhs[r][c] == x[r][c] by {
            assert(x[r].len() == n);
            assert(x[r][c] < m);
            vstd::arithmetic::div_mod::lemma_small_mod(x[r][c] as nat, m as nat);
        }
        assert(rhs[r] =~= x[r]);
    }
    assert(rhs =~= x);
}

/// The left-nested double sum: over `kk` columns of the inner products of
/// `x` and `y` truncated at `jj`, times entries of `z`.
spec fn dot_left(
    x: Seq<Seq<u64>>,
    y: Seq<Seq<u64>>,
    z: Seq<Seq<u64>>,
    r: int,
    c: int,
    kk: int,
    jj: int,
) -> int
    decreases kk,
{
    if kk <= 0 {
        0
    } else {
        dot_left(x, y, z, r, c, kk - 1, jj) + dot_sum(x, y, r, kk - 1, jj) * z[kk - 1][c] as int
    }
}

/// The right-nested double sum: entries of `x` times the inner products of
/// `y` and `z` truncated at `kk`.
spec fn dot_right(
    x: Seq<Seq<u64>>,
    y: Seq<Seq<u64>>,
    z: Seq<Seq<u64>>,
    r: int,
    c: int,
    kk: int,
    jj: int,
) -> int
    decreases jj,
{
    if jj <= 0 {
        0
    } else {
        dot_right(x, y, z, r, c, kk, jj - 1) + x[r][jj - 1] as int * dot_sum(y, z, jj - 1, c, kk)
    }
}

/// One slice of the cross terms: the fixed middle index `jj`, summed over
/// the first `kk` outer columns.
spec fn cross_terms(
    x: Seq<Seq<u64>>,
    y: Seq<Seq<u64>>,
    z: Seq<Seq<u64>>,
    r: int,
    c: int,
    jj: int,
    kk: int,
) -> int
    decreases kk,
{
    if kk <= 0 {
        0
    } else {
        cross_terms(x, y, z, r, c, jj, kk - 1) + x[r][jj] as int * y[jj][kk - 1] as int * z[kk
            - 1][c] as int
    }
}

/// The left sum over an empty middle range vanishes.
proof fn lemma_dot_left_zero(
    x: Seq<Seq<u64>>,
    y: Seq<Seq<u64>>,
    z: Seq<Seq<u64>>,
    r: int,
    c: int,
    kk: int,
)
    ensures
        dot_left(x, y, z, r, c, kk, 0) == 0,
    decreases kk,
{
    if kk > 0 {
        lemma_dot_left_zero(x, y, z, r, c, kk - 1);
    }
}

/// Widening the middle range of the left sum adds one slice of cross
/// terms.
proof fn lemma_dot_left_step(
    x: Seq<Seq<u64>>,
    y: Seq<Seq<u64>>,
    z: Seq<Seq<u64>>,
    r: int,
    c: int,
    kk: int,
    jj: int,
)
    requires
        jj >= 0,
    ensures
        dot_left(x, y, z, r, c, kk, jj + 1) == dot_left(x, y, z, r, c, kk, jj) + cross_terms(
            x,
            y,
            z,
            r,
            c,
            jj,
            kk,
        ),
    decreases kk,
{
    if kk > 0 {
        lemma_dot_left_step(x, y, z, r, c, kk - 1, jj);
        lemma_dist(
            dot_sum(x, y, r, kk - 1, jj),
            x[r][jj] as int * y[jj][kk - 1] as int,
            z[kk - 1][c] as int,
        );
        lemma_mul_assoc3(x[r][jj] as int, y[jj][kk - 1] as int, z[kk - 1][c] as int);
    }
}

/// A slice of cross terms factors through the fixed entry of `x`.
proof fn lemma_cross_factor(
    x: Seq<Seq<u64>>,
    y: Seq<Seq<u64>>,
    z: Seq<Seq<u64>>,
    r: int,
    c: int,
    jj: int,
    kk: int,
)
    ensures
        cross_terms(x, y, z, r, c, jj, kk) == x[r][jj] as int * dot_sum(y, z, jj, c, kk),
    decreases kk,
{
    if kk <= 0 {
        assert(x[r][jj] as int * 0 == 0) by (nonlinear_arith);
    } else {
        lemma_cross_factor(x, y, z, r, c, jj, kk - 1);
        lemma_dist(
            dot_sum(y, z, jj, c, kk - 1),
            y[jj][kk - 1] as int * z[kk - 1][c] as int,
            x[r][jj] as int,
        );
        assert(x[r][jj] as int * (dot_sum(y, z, jj, c, kk - 1) + y[jj][kk - 1] as int * z[kk
            - 1][c] as int) == (dot_sum(y, z, jj, c, kk - 1) + y[jj][kk - 1] as int * z[kk
            - 1][c] as int) * x[r][jj] as int) by (nonlinear_arith);
        assert(dot_sum(y, z, jj, c, kk - 1) * x[r][jj] as int == x[r][jj] as int * dot_sum(
            y,
            z,
            jj,
            c,
            kk - 1,
        )) by (nonlinear_arith);
        assert((y[jj][kk - 1] as int * z[kk - 1][c] as int) * x[r][jj] as int == x[r][jj] as int
            * y[jj][kk - 1] as int * z[kk - 1][c] as int) by (nonlinear_arith);
    }
}

/// The two nestings of the double sum agree.
proof fn lemma_exchange(
    x: Seq<Seq<u64>>,
    y: Seq<Seq<u64>>,
    z: Seq<Seq<u64>>,
    r: int,
    c: int,
    kk: int,
    jj: int,
)
    requires
        jj >= 0,
    ensures
        dot_left(x, y, z, r, c, kk, jj) == dot_right(x, y, z, r, c, kk, jj),
    decreases jj,
{
    if jj == 0 {
        lemma_dot_left_zero(x, y, z, r, c, kk);
    } else {
        lemma_exchange(x, y, z, r, c, kk, jj - 1);
        lemma_dot_left_step(x, y, z, r, c, kk, jj - 1);
        lemma_cross_factor(x, y, z, r, c, jj - 1, kk);
    }
}

/// Reducing the left factor's entries does not change the product modulo
/// `m`: the mod of the inner products is absorbed.
proof fn lemma_absorb_left(
    x: Seq<Seq<u64>>,
    y: Seq<Seq<u64>>,
    z: Seq<Seq<u64>>,
    m: u64,
    n: int,
    r: int,
    c: int,
    kk: int,
)
    requires
        m > 0,
        n >= 0,
        0 <= kk <= n,
        0 <= r < n,
    ensures
        dot_sum(mat_mul_spec(x, y, m, n), z, r, c, kk) % (m as int) == dot_left(
            x,
            y,
            z,
            r,
            c,
            kk,
            n,
        ) % (m as int),
    decreases kk,
{
    let mi = m as int;
    if kk > 0 {
        lemma_absorb_left(x, y, z, m, n, r, c, kk - 1);
        let s = dot_sum(x, y, r, kk - 1, n);
        let zz = z[kk - 1][c] as int;
        let a1 = dot_sum(mat_mul_spec(x, y, m, n), z, r, c, kk - 1);
        let b1 = dot_left(x, y, z, r, c, kk - 1, n);
        assert(mat_mul_spec(x, y, m, n)[r][kk - 1] == (s % mi) as u64);
        assert(mat_mul_spec(x, y, m, n)[r][kk - 1] as int == s % mi);
        vstd::arithmetic::div_mod::lemma_add_mod_noop(a1, (s % mi) * zz, mi);
        vstd::arithmetic::div_mod::lemma_mul_mod_noop_left(s, zz, mi);
        vstd::arithmetic::div_mod::lemma_add_mod_noop(b1, s * zz, mi);
        assert((a1 + (s % mi) * zz) % mi == (b1 + s * zz) % mi) by {
            assert((a1 + (s % mi) * zz) % mi == (a1 % mi + ((s % mi) * zz) % mi) % mi);
            assert(((s % mi) * zz) % mi == (s * zz) % mi);
            assert((b1 + s * zz) % mi == (b1 % mi + (s * zz) % mi) % mi);
        }
    }
}


/// Reducing the right factor's entries does not change the product modulo
/// `m` either.
proof fn lemma_absorb_right(
    x: Seq<Seq<u64>>,
    y: Seq<Seq<u64>>,
    z: Seq<Seq<u64>>,
    m: u64,
    n: int,
    r: int,
    c: int,
    jj: int,
)
    requires
        m > 0,
        n >= 0,
        0 <= jj <= n,
        0 <= c < n,
    ensures
        dot_sum(x, mat_mul_spec(y, z, m, n), r, c, jj) % (m as int) == dot_right(
            x,
            y,
            z,
            r,
            c,
            n,
            jj,
        ) % (m as int),
    decreases jj,
{
    let mi = m as int;
    if jj > 0 {
        lemma_absorb_right(x, y, z, m, n, r, c, jj - 1);
        let s = dot_sum(y, z, jj - 1, c, n);
        let xx = x[r][jj - 1] as int;
        let a1 = dot_sum(x, mat_mul_spec(y, z, m, n), r, c, jj - 1);
        let b1 = dot_right(x, y, z, r, c, n, jj - 1);
        assert(mat_mul_spec(y, z, m, n)[jj - 1][c] == (s % mi) as u64);
        assert(mat_mul_spec(y, z, m, n)[jj - 1][c] as int == s % mi);
        vstd::arithmetic::div_mod::lemma_add_mod_noop(a1, xx * (s % mi), mi);
        vstd::arithmetic::div_mod::lemma_mul_mod_noop_right(xx, s, mi);
        vstd::arithmetic::div_mod::lemma_add_mod_noop(b1, xx * s, mi);
        assert((a1 + xx * (s % mi)) % mi == (b1 + xx * s) % mi) by {
            assert((a1 + xx * (s % mi)) % mi == (a1 % mi + (xx * (s % mi)) % mi) % mi);
            assert((xx * (s % mi)) % mi == (xx * s) % mi);
            assert((b1 + xx * s) % mi == (b1 % mi + (xx * s) % mi) % mi);
        }
    }
}

/// Associativity: grouping the modular matrix product either way gives the
/// same matrix.
pub proof fn lemma_mat_mul_assoc(
    x: Seq<Seq<u64>>,
    y: Seq<Seq<u64>>,
    z: Seq<Seq<u64>>,
    m: u64,
    n: int,
)
    requires
        m > 0,
        n >= 0,
    ensures
        mat_mul_spec(mat_mul_spec(x, y, m, n), z, m, n) == mat_mul_spec(
            x,
            mat_mul_spec(y, z, m, n),
            m,
            n,
        ),
{
    let lhs = mat_mul_spec(mat_mul_spec(x, y, m, n), z, m, n);
    let rhs = mat_mul_spec(x, mat_mul_spec(y, z, m, n), m, n);
    assert forall|r: int| 0 <= r < n implies lhs[r] == rhs[r] by {
        assert forall|c: int| 0 <= c < n implies lhs[r][c] == rhs[r][c] by {
            lemma_absorb_left(x, y, z, m, n, r, c, n);
            lemma_exchange(x, y, z, r, c, n, n);
            lemma_absorb_right(x, y, z, m, n, r, c, n);
        }
        assert(lhs[r] =~= rhs[r]);
    }
    assert(lhs =~= rhs);
}

/// Reducing the left factor of a product changes nothing.
proof fn lemma_dot_reduce_left(
    x: Seq<Seq<u64>>,
    w: Seq<Seq<u64>>,
    m: u64,
    n: int,
    r: int,
    c: int,
    k: int,
)
    requires
        m > 0,
        n >= 0,
        0 <= k <= n,
        0 <= r < n,
    ensures
        dot_sum(reduce_spec(x, m, n), w, r, c, k) % (m as int) == dot_sum(x, w, r, c, k) % (
        m as int),
    decreases k,
{
    let mi = m as int;
    if k > 0 {
        lemma_dot_reduce_left(x, w, m, n, r, c, k - 1);
        let xe = x[r][k - 1] as int;
        let ww = w[k - 1][c] as int;
        let a1 = dot_sum(reduce_spec(x, m, n), w, r, c, k - 1);
        let b1 = dot_sum(x, w, r, c, k - 1);
        assert(reduce_spec(x, m, n)[r][k - 1] as int == xe % mi);
        vstd::arithmetic::div_mod::lemma_add_mod_noop(a1, (xe % mi) * ww, mi);
        vstd::arithmetic::div_mod::lemma_mul_mod_noop_left(xe, ww, mi);
        vstd::arithmetic::div_mod::lemma_add_mod_noop(b1, xe * ww, mi);
        assert((a1 + (xe % mi) * ww) % mi == (b1 + xe * ww) % mi) by {
            assert((a1 + (xe % mi) * ww) % mi == (a1 % mi + ((xe % mi) * ww) % mi) % mi);
            assert(((xe % mi) * ww) % mi == (xe * ww) % mi);
            assert((b1 + xe * ww) % mi == (b1 % mi + (xe * ww) % mi) % mi);
        }
    }
}

/// Multiplying a reduced matrix equals multiplying the matrix itself.
pub proof fn lemma_mul_reduce_left(x: Seq<Seq<u64>>, w: Seq<Seq<u64>>, m: u64, n: int)
    requires
        m > 0,
        n >= 0,
    ensures
        mat_mul_spec(reduce_spec(x, m, n), w, m, n) == mat_mul_spec(x, w, m, n),
{
    let lhs = mat_mul_spec(reduce_spec(x, m, n), w, m, n);
    let rhs = mat_mul_spec(x, w, m, n);
    assert forall|r: int| 0 <= r < n implies lhs[r] == rhs[r] by {
        assert forall|c: int| 0 <= c < n implies lhs[r][c] == rhs[r][c] by {
            lemma_dot_reduce_left(x, w, m, n, r, c, n);
        }
        assert(lhs[r] =~= rhs[r]);
    }
    assert(lhs =~= rhs);
}

/// A doubled power is the power of the square.
pub proof fn lemma_pow_double(a: Seq<Seq<u64>>, q: nat, m: u64, n: int)
    requires
        m > 0,
        n >= 0,
    ensures
        mat_pow_spec(a, 2 * q, m, n) == mat_pow_spec(mat_mul_spec(a, a, m, n), q, m, n),
    decreases q,
{
    if q > 0 {
        lemma_pow_double(a, (q - 1) as nat, m, n);
        let sq = mat_mul_spec(a, a, m, n);
        assert(mat_pow_spec(a, 2 * q, m, n) == mat_mul_spec(
            mat_pow_spec(a, (2 * q - 1) as nat, m, n),
            a,
            m,
            n,
        ));
        assert(mat_pow_spec(a, (2 * q - 1) as nat, m, n) == mat_mul_spec(
            mat_pow_spec(a, (2 * q - 2) as nat, m, n),
            a,
            m,
            n,
        ));
        lemma_mat_mul_assoc(mat_pow_spec(a, (2 * q - 2) as nat, m, n), a, a, m, n);
    }
}

/// A matrix commutes with every power of its own square.
pub proof fn lemma_pow_comm(x: Seq<Seq<u64>>, q: nat, m: u64, n: int)
    requires
        m > 0,
        n >= 0,
    ensures
        mat_mul_spec(x, mat_pow_spec(mat_mul_spec(x, x, m, n), q, m, n), m, n) == mat_mul_spec(
            mat_pow_spec(mat_mul_spec(x, x, m, n), q, m, n),
            x,
            m,
            n,
        ),
    decreases q,
{
    let sq = mat_mul_spec(x, x, m, n);
    if q == 0 {
        lemma_mul_identity_right(x, m, n);
        lemma_mul_identity_left(x, m, n);
    } else {
        lemma_pow_comm(x, (q - 1) as nat, m, n);
        let w = mat_pow_spec(sq, (q - 1) as nat, m, n);
        assert(mat_pow_spec(sq, q, m, n) == mat_mul_spec(w, sq, m, n));
        lemma_mat_mul_assoc(x, w, sq, m, n);
        lemma_mat_mul_assoc(w, x, sq, m, n);
        lemma_mat_mul_assoc(x, x, x, m, n);
        lemma_mat_mul_assoc(w, sq, x, m, n);
        assert(mat_mul_spec(x, mat_pow_spec(sq, q, m, n), m, n) == mat_mul_spec(
            mat_mul_spec(x, w, m, n),
            sq,
            m,
            n,
        ));
        assert(mat_mul_spec(mat_mul_spec(x, w, m, n), sq, m, n) == mat_mul_spec(
            mat_mul_spec(w, x, m, n),
            sq,
            m,
            n,
        ));
        assert(mat_mul_spec(mat_mul_spec(w, x, m, n), sq, m, n) == mat_mul_spec(
            w,
            mat_mul_spec(x, sq, m, n),
            m,
            n,
        ));
        assert(mat_mul_spec(x, sq, m, n) == mat_mul_spec(sq, x, m, n));
        assert(mat_mul_spec(w, mat_mul_spec(sq, x, m, n), m, n) == mat_mul_spec(
            mat_mul_spec(w, sq, m, n),
            x,
            m,
            n,
        ));
    }
}

/// The identity matrix as a value.
fn identity_matrix(n: usize) -> (r: Vec<Vec<u64>>)
    ensures
        rows_view(r@) == identity_spec(n as int),
{
    let mut rows: Vec<Vec<u64>> = Vec::new();
    let mut i: usize = 0;
    while i < n
        invariant
            i <= n,
            rows@.len() == i,
            forall|r0: int| 0 <= r0 < i ==> (#[trigger] rows@[r0])@ == identity_spec(n as int)[r0],
        decreases n - i,
    {
        let mut row: Vec<u64> = Vec::new();
        let mut j: usize = 0;
        while j < n
            invariant
                j <= n,
                i < n,
                row@.len() == j,
                forall|c0: int|
                    0 <= c0 < j ==> #[trigger] row@[c0] == if i as int == c0 {
                        1u64
                    } else {
                        0u64
                    },
            decreases n - j,
        {
            if i == j {
                row.push(1);
            } else {
                row.push(0);
            }
            j = j + 1;
        }
        proof {
            assert(row@ =~= identity_spec(n as int)[i as int]);
        }
        rows.push(row);
        i = i + 1;
    }
    proof {
        assert(rows_view(rows@) =~= identity_spec(n as int));
    }
    rows
}

/// Raises a square matrix to a power, every product reduced modulo
/// `modulo`, by binary exponentiation: square the base once per exponent
/// bit, multiplying the set bits into the accumulator.
pub fn matrix_power_mod(a: Vec<Vec<u64>>, p: u32, modulo: u64) -> (r: Vec<Vec<u64>>)
    requires
        0 < modulo <= entry_bound(),
        is_matrix(rows_view(a@), a@.len() as int),
        entries_below(rows_view(a@), entry_bound()),
    ensures
        rows_view(r@) == mat_pow_spec(rows_view(a@), p as nat, modulo, a@.len() as int),
{
    let ghost av = rows_view(a@);
    let ghost n = a@.len() as int;
    let ghost pp = p as nat;
    let n_exec = a.len();
    let mut b = identity_matrix(n_exec);
    let mut base = a;
    let mut e = p;
    let ghost mut multiplied: bool = false;
    proof {
        lemma_identity_shape(n);
    }
    while e > 0
        invariant
            0 < modulo <= entry_bound(),
            n == av.len(),
            n >= 0,
            b@.len() == n,
            base@.len() == n,
            is_matrix(rows_view(base@), n),
            entries_below(rows_view(base@), entry_bound()),
            is_matrix(rows_view(b@), n),
            entries_below(rows_view(b@), entry_bound()),
            !multiplied ==> rows_view(b@) == identity_spec(n) && mat_pow_spec(av, pp, modulo, n)
                == mat_pow_spec(rows_view(base@), e as nat, modulo, n),
            multiplied ==> entries_below(rows_view(b@), modulo as int) && mat_pow_spec(
                av,
                pp,
                modulo,
                n,
            ) == mat_mul_spec(
                rows_view(b@),
                mat_pow_spec(rows_view(base@), e as nat, modulo, n),
                modulo,
                n,
            ),
        decreases e,
    {
        let ghost old_b = rows_view(b@);
        let ghost old_base = rows_view(base@);
        let ghost old_e = e as nat;
        let ghost sq = mat_mul_spec(old_base, old_base, modulo, n);
        let ghost q = (e / 2) as nat;
        let odd = e % 2 == 1;
        if odd {
            b = mat_mul_mod(&b, &base, modulo);
        }
        e = e / 2;
        base = mat_mul_mod(&base, &base, modulo);
        proof {
            lemma_mul_spec_shape(old_base, old_base, modulo, n);
            if odd {
                lemma_mul_spec_shape(old_b, old_base, modulo, n);
                assert(old_e == 2 * q + 1);
                lemma_pow_double(old_base, q, modulo, n);
                assert(mat_pow_spec(old_base, old_e, modulo, n) == mat_mul_spec(
                    mat_pow_spec(old_base, 2 * q, modulo, n),
                    old_base,
                    modulo,
                    n,
                ));
                let w = mat_pow_spec(sq, q, modulo, n);
                lemma_pow_comm(old_base, q, modulo, n);
                if !multiplied {
                    lemma_mul_identity_left(old_base, modulo, n);
                    lemma_mul_reduce_left(old_base, w, modulo, n);
                    assert(rows_view(b@) == reduce_spec(old_base, modulo, n));
                    assert(mat_mul_spec(rows_view(b@), w, modulo, n) == mat_mul_spec(
                        old_base,
                        w,
                        modulo,
                        n,
                    ));
                    assert(mat_mul_spec(old_base, w, modulo, n) == mat_mul_spec(
                        w,
                        old_base,
                        modulo,
                        n,
                    ));
                    assert(mat_pow_spec(av, pp, modulo, n) == mat_mul_spec(
                        rows_view(b@),
                        mat_pow_spec(rows_view(base@), e as nat, modulo, n),
                        modulo,
                        n,
                    ));
                } else {
                    lemma_mat_mul_assoc(old_b, old_base, w, modulo, n);
                    lemma_mat_mul_assoc(old_b, w, old_base, modulo, n);
                    assert(rows_view(b@) == mat_mul_spec(old_b, old_base, modulo, n));
                    assert(mat_mul_spec(rows_view(b@), w, modulo, n) == mat_mul_spec(
                        old_b,
                        mat_mul_spec(old_base, w, modulo, n),
                        modulo,
                        n,
                    ));
                    assert(mat_mul_spec(old_base, w, modulo, n) == mat_mul_spec(
                        w,
                        old_base,
                        modulo,
                        n,
                    ));
                    assert(mat_pow_spec(av, pp, modulo, n) == mat_mul_spec(
                        old_b,
                        mat_pow_spec(old_base, old_e, modulo, n),
                        modulo,
                        n,
                    ));
                    assert(mat_pow_spec(old_base, old_e, modulo, n) == mat_mul_spec(
                        w,
                        old_base,
                        modulo,
                        n,
                    ));
                    assert(mat_pow_spec(av, pp, modulo, n) == mat_mul_spec(
                        rows_view(b@),
                        mat_pow_spec(rows_view(base@), e as nat, modulo, n),
                        modulo,
                        n,
                    ));
                }
                multiplied = true;
            } else {
                assert(old_e == 2 * q);
                lemma_pow_double(old_base, q, modulo, n);
                assert(mat_pow_spec(old_base, old_e, modulo, n) == mat_pow_spec(
                    sq,
                    q,
                    modulo,
                    n,
                ));
            }
        }
    }
    proof {
        if multiplied {
            lemma_mul_identity_right(rows_view(b@), modulo, n);
            lemma_reduce_noop(rows_view(b@), modulo, n);
        }
    }
    b
}

} // verus!
