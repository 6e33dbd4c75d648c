//! Column normalization of a comparison matrix and the priority weight of
//! each sample, in fixed point.
use vstd::prelude::*;
use vstd::arithmetic::div_mod::{
    lemma_div_by_multiple, lemma_div_by_self, lemma_div_is_ordered,
    lemma_div_is_ordered_by_denominator, lemma_div_multiples_vanish,
    lemma_div_multiples_vanish_fancy, lemma_fundamental_div_mod,
    lemma_fundamental_div_mod_converse_div, lemma_mod_pos_bound, lemma_multiply_divide_le,
    lemma_multiply_divide_lt,
};
use crate::judgment::Ratio;
use crate::matrix::{unit, ComparisonMatrix};

verus! {

/// The fixed-point unit: weights are counted in billionths, so a weight of
/// `SCALE` stands for one.
pub const SCALE: u64 = 1_000_000_000;

/// A bound on `fixed` of any valid ratio: 2^62.
pub const FIXED_MAX: u64 = 0x4000_0000_0000_0000;

/// `r` in billionths, rounded up, so that a positive ratio stays positive.
pub open spec fn fixed(r: Ratio) -> int {
    (SCALE as int * r.num as int + r.den as int - 1) / (r.den as int)
}

/// Whether the matrix `m` can be normalized: it is square, every entry is a
/// positive fraction, and the diagonal is one.
pub open spec fn normalizable(m: Seq<Seq<Ratio>>) -> bool {
    &&& forall|i: int| 0 <= i < m.len() as int ==> #[trigger] m[i].len() == m.len() as int
    &&& forall|i: int, j: int|
        0 <= i < m.len() as int && 0 <= j < m.len() as int ==> #[trigger] m[i][j].valid()
    &&& forall|i: int| 0 <= i < m.len() as int ==> #[trigger] m[i][i] == unit()
}

/// The sum of the fixed-point entries of column `c` in rows `0..rows`.
pub open spec fn column_sum(m: Seq<Seq<Ratio>>, c: int, rows: int) -> int
    decreases rows,
{
    if rows <= 0 {
        0
    } else {
        column_sum(m, c, rows - 1) + fixed(m[rows - 1][c])
    }
}

/// The entry in row `r` and column `c` of the column-normalized matrix, in
/// billionths, rounded up: the entry divided by its column's sum.
pub open spec fn normalized_entry(m: Seq<Seq<Ratio>>, r: int, c: int) -> int {
    (SCALE as int * fixed(m[r][c]) + column_sum(m, c, m.len() as int) - 1) / column_sum(
        m,
        c,
        m.len() as int,
    )
}

/// The sum of the normalized entries of column `c` in rows `0..rows`.
pub open spec fn normalized_column_sum(m: Seq<Seq<Ratio>>, c: int, rows: int) -> int
    decreases rows,
{
    if rows <= 0 {
        0
    } else {
        normalized_column_sum(m, c, rows - 1) + normalized_entry(m, rows - 1, c)
    }
}

/// The sum of the normalized entries of row `r` in columns `0..cols`.
pub open spec fn normalized_row_sum(m: Seq<Seq<Ratio>>, r: int, cols: int) -> int
    decreases cols,
{
    if cols <= 0 {
        0
    } else {
        normalized_row_sum(m, r, cols - 1) + normalized_entry(m, r, cols - 1)
    }
}

/// The priority weight of sample `r`, in billionths: the mean of row `r` of
/// the normalized matrix, rounded down.
pub open spec fn weight(m: Seq<Seq<Ratio>>, r: int) -> int {
    normalized_row_sum(m, r, m.len() as int) / m.len() as int
}

/// The sum of `nm[r][c]` over the columns `c < cols`.
pub open spec fn row_sum(nm: Seq<Vec<u64>>, r: int, cols: int) -> int
    decreases cols,
{
    if cols <= 0 {
        0
    } else {
        row_sum(nm, r, cols - 1) + nm[r]@[cols - 1] as int
    }
}

/// Whether `nm` is an n×n matrix.
pub open spec fn is_square(nm: Seq<Vec<u64>>, n: int) -> bool {
    &&& nm.len() == n
    &&& forall|i: int| 0 <= i < n ==> #[trigger] nm[i]@.len() == n
}

/// A valid ratio in billionths, rounded up.
pub fn fixed_point(r: &Ratio) -> (f: u64)
    requires
        r.valid(),
    ensures
        f == fixed(*r),
        1 <= f <= FIXED_MAX,
{
    proof {
        lemma_fixed_bounds(*r);
    }
    let scaled: u64 = SCALE * (r.num as u64) + (r.den as u64) - 1;
    scaled / (r.den as u64)
}

proof fn lemma_fixed_bounds(r: Ratio)
    requires
        r.valid(),
    ensures
        1 <= fixed(r) <= FIXED_MAX,
{
    let x = SCALE as int * r.num as int + r.den as int - 1;
    let d = r.den as int;
    lemma_div_is_ordered(d, x, d);
    lemma_div_by_self(d);
    lemma_div_is_ordered_by_denominator(x, 1, d);
    lemma_div_by_multiple(x, 1);
}

proof fn lemma_column_sum_bounds(m: Seq<Seq<Ratio>>, c: int, rows: int)
    requires
        normalizable(m),
        0 <= c < m.len() as int,
        0 <= rows <= m.len() as int,
    ensures
        0 <= column_sum(m, c, rows) <= rows * FIXED_MAX,
        forall|k: int| 0 <= k < rows ==> #[trigger] fixed(m[k][c]) <= column_sum(m, c, rows),
        c < rows ==> column_sum(m, c, rows) >= SCALE,
    decreases rows,
{
    if rows > 0 {
        lemma_column_sum_bounds(m, c, rows - 1);
        lemma_fixed_bounds(m[rows - 1][c]);
        assert((rows - 1) * FIXED_MAX + FIXED_MAX == rows * FIXED_MAX) by (nonlinear_arith);
        if c == rows - 1 {
            assert(m[c][c] == unit());
            lemma_div_by_multiple(SCALE as int, 1);
            assert(fixed(unit()) == SCALE);
        }
    }
}

proof fn lemma_rounded_column(m: Seq<Seq<Ratio>>, c: int, rows: int)
    requires
        normalizable(m),
        0 <= c < m.len() as int,
        0 <= rows <= m.len() as int,
    ensures
        column_sum(m, c, m.len() as int) * normalized_column_sum(m, c, rows) >= SCALE * column_sum(
            m,
            c,
            rows,
        ),
        column_sum(m, c, m.len() as int) * normalized_column_sum(m, c, rows) <= SCALE * column_sum(
            m,
            c,
            rows,
        ) + rows * (column_sum(m, c, m.len() as int) - 1),
    decreases rows,
{
    let t = column_sum(m, c, m.len() as int);
    lemma_column_sum_bounds(m, c, m.len() as int);
    if rows > 0 {
        lemma_rounded_column(m, c, rows - 1);
        let a = fixed(m[rows - 1][c]);
        lemma_fixed_bounds(m[rows - 1][c]);
        let x = SCALE as int * a + t - 1;
        assert(x >= 0) by (nonlinear_arith)
            requires
                a >= 0,
                t >= 1,
                x == SCALE as int * a + t - 1,
                SCALE as int > 0,
        ;
        let q = x / t;
        assert(q == normalized_entry(m, rows - 1, c));
        lemma_fundamental_div_mod(x, t);
        lemma_mod_pos_bound(x, t);
        let n0 = normalized_column_sum(m, c, rows - 1);
        let s0 = column_sum(m, c, rows - 1);
        assert(t * (n0 + q) == t * n0 + t * q) by (nonlinear_arith);
        assert(SCALE * (s0 + a) == SCALE * s0 + SCALE * a) by (nonlinear_arith);
        assert(rows * (t - 1) == (rows - 1) * (t - 1) + t - 1) by (nonlinear_arith);
    }
}

/// After normalization every column sums to one, up to rounding: in
/// billionths, the sum of a column is at least `SCALE` and less than
/// `SCALE + n`, for an n×n matrix.
pub proof fn lemma_columns_sum_to_one(m: Seq<Seq<Ratio>>)
    requires
        normalizable(m),
    ensures
        forall|c: int|
            0 <= c < m.len() as int ==> SCALE <= #[trigger] normalized_column_sum(
                m,
                c,
                m.len() as int,
            ) < SCALE + m.len() as int,
{
    assert forall|c: int| 0 <= c < m.len() as int implies SCALE <= #[trigger]
        normalized_column_sum(m, c, m.len() as int) < SCALE + m.len() as int by {
        let n = m.len() as int;
        lemma_rounded_column(m, c, n);
        lemma_column_sum_bounds(m, c, n);
        let t = column_sum(m, c, n);
        let s = normalized_column_sum(m, c, n);
        assert(s >= SCALE) by (nonlinear_arith)
            requires
                t * s >= SCALE * t,
                t > 0,
        ;
        assert(s < SCALE + n) by (nonlinear_arith)
            requires
                t * s <= SCALE * t + n * (t - 1),
                t > 0,
                n > 0,
        ;
    }
}

proof fn lemma_fixed_of_one(e: Ratio)
    requires
        e.valid(),
        e.num == e.den,
    ensures
        fixed(e) == SCALE,
{
    let d = e.den as int;
    lemma_div_multiples_vanish_fancy(SCALE as int, d - 1, d);
    assert(SCALE as int * e.num as int + d - 1 == d * SCALE as int + (d - 1)) by (nonlinear_arith)
        requires
            e.num as int == d,
    ;
}

proof fn lemma_indifferent_columns(m: Seq<Seq<Ratio>>, c: int, rows: int)
    requires
        normalizable(m),
        0 <= c < m.len() as int,
        0 <= rows <= m.len() as int,
        forall|i: int, j: int|
            0 <= i < m.len() as int && 0 <= j < m.len() as int ==> #[trigger] m[i][j].num
                == m[i][j].den,
    ensures
        column_sum(m, c, rows) == rows * SCALE,
    decreases rows,
{
    if rows > 0 {
        lemma_indifferent_columns(m, c, rows - 1);
        let r = m[rows - 1][c];
        assert(r.num == r.den);
        assert(r.valid());
        lemma_fixed_of_one(r);
        assert((rows - 1) * SCALE + SCALE == rows * SCALE) by (nonlinear_arith);
    }
}

/// `SCALE * SCALE` over `n * SCALE`, rounded up, is `SCALE / n` rounded up.
proof fn lemma_one_nth(n: int)
    requires
        n > 0,
    ensures
        (SCALE as int * SCALE as int + n * SCALE as int - 1) / (n * SCALE as int) == (SCALE as int
            + n - 1) / n,
{
    let s = SCALE as int;
    let e = (s + n - 1) / n;
    let r0 = (s + n - 1) % n;
    lemma_fundamental_div_mod(s + n - 1, n);
    lemma_mod_pos_bound(s + n - 1, n);
    let x = s * s + n * s - 1;
    let rem = s * (r0 + 1) - 1;
    assert(x == e * (n * s) + rem) by (nonlinear_arith)
        requires
            s + n - 1 == n * e + r0,
            x == s * s + n * s - 1,
            rem == s * (r0 + 1) - 1,
    ;
    assert(0 <= rem < n * s) by (nonlinear_arith)
        requires
            0 <= r0 < n,
            s > 0,
            rem == s * (r0 + 1) - 1,
    ;
    lemma_fundamental_div_mod_converse_div(x, n * s, e, rem);
}

proof fn lemma_indifferent_rows(m: Seq<Seq<Ratio>>, r: int, cols: int)
    requires
        normalizable(m),
        0 <= r < m.len() as int,
        0 <= cols <= m.len() as int,
        forall|i: int, j: int|
            0 <= i < m.len() as int && 0 <= j < m.len() as int ==> #[trigger] m[i][j].num
                == m[i][j].den,
    ensures
        normalized_row_sum(m, r, cols) == cols * ((SCALE as int + m.len() as int - 1)
            / m.len() as int),
    decreases cols,
{
    let n = m.len() as int;
    let e = (SCALE as int + n - 1) / n;
    if cols > 0 {
        let c = cols - 1;
        lemma_indifferent_rows(m, r, cols - 1);
        lemma_indifferent_columns(m, c, n);
        let x = m[r][c];
        assert(x.num == x.den);
        assert(x.valid());
        lemma_fixed_of_one(x);
        assert(n * SCALE == n * SCALE as int);
        lemma_one_nth(n);
        assert(normalized_entry(m, r, c) == e);
        assert((cols - 1) * e + e == cols * e) by (nonlinear_arith);
    } else {
        assert(cols * e == 0) by (nonlinear_arith)
            requires
                cols == 0,
        ;
    }
}

/// Total indifference gives a uniform priority vector: when every entry of
/// the matrix is one, every weight is `SCALE / n` rounded up, one n-th in
/// billionths.
pub proof fn lemma_indifference_is_uniform(m: Seq<Seq<Ratio>>)
    requires
        normalizable(m),
        m.len() as int > 0,
        forall|i: int, j: int|
            0 <= i < m.len() as int && 0 <= j < m.len() as int ==> #[trigger] m[i][j].num
                == m[i][j].den,
    ensures
        forall|r: int|
            0 <= r < m.len() as int ==> #[trigger] weight(m, r) == (SCALE as int + m.len() as int
                - 1) / m.len() as int,
{
    assert forall|r: int| 0 <= r < m.len() as int implies #[trigger] weight(m, r) == (SCALE as int
        + m.len() as int - 1) / m.len() as int by {
        let n = m.len() as int;
        lemma_indifferent_rows(m, r, n);
        lemma_div_multiples_vanish((SCALE as int + n - 1) / n, n);
    }
}

/// The column-normalized matrix: each entry divided by the sum of its
/// column, in billionths, rounded up, so that each column sums to one up to
/// rounding and each entry stays positive.
pub fn normalize(m: &ComparisonMatrix) -> (r: Vec<Vec<u64>>)
    requires
        normalizable(m@),
    ensures
        is_square(r@, m@.len() as int),
        forall|i: int, j: int|
            0 <= i < m@.len() && 0 <= j < m@.len() ==> #[trigger] r@[i]@[j] == normalized_entry(m@,
                i,
                j,
            ),
        forall|i: int, j: int|
            0 <= i < m@.len() && 0 <= j < m@.len() ==> 1 <= #[trigger] r@[i]@[j] <= SCALE,
{
    let n = m.cells.len();
    let mut sums: Vec<u128> = Vec::new();
    let mut c: usize = 0;
    while c < n
        invariant
            n == m@.len(),
            normalizable(m@),
            c <= n,
            sums@.len() == c,
            forall|k: int| 0 <= k < c ==> #[trigger] sums@[k] == column_sum(m@, k, n as int),
        decreases n - c,
    {
        let mut sum: u128 = 0;
        let mut k: usize = 0;
        while k < n
            invariant
                n == m@.len(),
                normalizable(m@),
                c < n,
                k <= n,
                sum == column_sum(m@, c as int, k as int),
                sum <= k * FIXED_MAX,
            decreases n - k,
        {
            assert(m@[k as int] == m.cells@[k as int]@);
            assert(m@[k as int][c as int].valid());
            let f = fixed_point(&m.cells[k][c]);
            assert(k * FIXED_MAX + FIXED_MAX == (k + 1) * FIXED_MAX) by (nonlinear_arith);
            assert((k + 1) * FIXED_MAX <= 0x1_0000_0000_0000_0000 * FIXED_MAX) by (nonlinear_arith)
                requires
                    k + 1 <= 0x1_0000_0000_0000_0000,
            ;
            sum = sum + f as u128;
            k += 1;
        }
        sums.push(sum);
        c += 1;
    }
    let mut out: Vec<Vec<u64>> = Vec::new();
    let mut i: usize = 0;
    while i < n
        invariant
            n == m@.len(),
            normalizable(m@),
            i <= n,
            sums@.len() == n,
            forall|k: int| 0 <= k < n ==> #[trigger] sums@[k] == column_sum(m@, k, n as int),
            out@.len() == i,
            forall|a: int| 0 <= a < i ==> #[trigger] out@[a]@.len() == n,
            forall|a: int, b: int|
                0 <= a < i && 0 <= b < n ==> #[trigger] out@[a]@[b] == normalized_entry(m@, a, b),
            forall|a: int, b: int| 0 <= a < i && 0 <= b < n ==> 1 <= #[trigger] out@[a]@[b] <= SCALE,
        decreases n - i,
    {
        let mut line: Vec<u64> = Vec::new();
        let mut j: usize = 0;
        while j < n
            invariant
                n == m@.len(),
                normalizable(m@),
                i < n,
                j <= n,
                sums@.len() == n,
                forall|k: int| 0 <= k < n ==> #[trigger] sums@[k] == column_sum(m@, k, n as int),
                line@.len() == j,
                forall|b: int|
                    0 <= b < j ==> #[trigger] line@[b] == normalized_entry(m@, i as int, b),
                forall|b: int| 0 <= b < j ==> 1 <= #[trigger] line@[b] <= SCALE,
            decreases n - j,
        {
            assert(m@[i as int] == m.cells@[i as int]@);
            assert(m@[i as int][j as int].valid());
            let f = fixed_point(&m.cells[i][j]);
            let total = sums[j];
            proof {
                lemma_column_sum_bounds(m@, j as int, n as int);
                let t = total as int;
                let x = SCALE as int * f + t - 1;
                assert(t <= 0x1_0000_0000_0000_0000 * FIXED_MAX) by (nonlinear_arith)
                    requires
                        t <= n * FIXED_MAX,
                        n <= 0x1_0000_0000_0000_0000,
                ;
                assert(x < t * (SCALE + 1)) by (nonlinear_arith)
                    requires
                        f <= t,
                        x == SCALE as int * f + t - 1,
                ;
                lemma_multiply_divide_lt(x, t, SCALE + 1);
                assert(t <= x) by (nonlinear_arith)
                    requires
                        f >= 1,
                        x == SCALE as int * f + t - 1,
                ;
                lemma_div_is_ordered(t, x, t);
                lemma_div_by_self(t);
            }
            let scaled: u128 = (SCALE as u128) * (f as u128) + total - 1;
            let e = scaled / total;
            line.push(e as u64);
            j += 1;
        }
        out.push(line);
        i += 1;
    }
    out
}

/// The priority vector of a normalized n×n matrix: the mean of each row,
/// rounded down.
pub fn priority_vector(nm: &Vec<Vec<u64>>) -> (w: Vec<u64>)
    requires
        is_square(nm@, nm@.len() as int),
    ensures
        w@.len() == nm@.len(),
        forall|i: int|
            0 <= i < nm@.len() ==> #[trigger] w@[i] == row_sum(nm@, i, nm@.len() as int)
                / nm@.len() as int,
{
    let n = nm.len();
    let mut w: Vec<u64> = Vec::new();
    let mut i: usize = 0;
    while i < n
        invariant
            n == nm@.len(),
            is_square(nm@, n as int),
            i <= n,
            w@.len() == i,
            forall|a: int| 0 <= a < i ==> #[trigger] w@[a] == row_sum(nm@, a, n as int) / n as int,
        decreases n - i,
    {
        let mut sum: u128 = 0;
        let mut k: usize = 0;
        while k < n
            invariant
                n == nm@.len(),
                is_square(nm@, n as int),
                i < n,
                k <= n,
                sum == row_sum(nm@, i as int, k as int),
                sum <= k * 0xffff_ffff_ffff_ffff,
            decreases n - k,
        {
            assert(nm@[i as int]@.len() == n);
            let x = nm[i][k];
            assert(k * 0xffff_ffff_ffff_ffff + 0xffff_ffff_ffff_ffff == (k + 1)
                * 0xffff_ffff_ffff_ffff) by (nonlinear_arith);
            assert((k + 1) * 0xffff_ffff_ffff_ffff <= 0xffff_ffff_ffff_ffff * 0xffff_ffff_ffff_ffff)
                by (nonlinear_arith)
                requires
                    k + 1 <= 0xffff_ffff_ffff_ffff,
            ;
            sum = sum + x as u128;
            k += 1;
        }
        proof {
            lemma_multiply_divide_le(sum as int, n as int, 0xffff_ffff_ffff_ffff);
            assert(n * 0xffff_ffff_ffff_ffff == n as int * 0xffff_ffff_ffff_ffff);
        }
        let mean = sum / (n as u128);
        w.push(mean as u64);
        i += 1;
    }
    w
}

proof fn lemma_rows_agree(nm: Seq<Vec<u64>>, m: Seq<Seq<Ratio>>, r: int, cols: int)
    requires
        0 <= r < nm.len(),
        forall|j: int| 0 <= j < cols ==> #[trigger] nm[r]@[j] == normalized_entry(m, r, j),
    ensures
        row_sum(nm, r, cols) == normalized_row_sum(m, r, cols),
    decreases cols,
{
    if cols > 0 {
        lemma_rows_agree(nm, m, r, cols - 1);
    }
}

/// The priority weight of each sample, in billionths: the matrix is
/// normalized column by column, then each row is averaged.
pub fn priority_weights(m: &ComparisonMatrix) -> (w: Vec<u64>)
    requires
        normalizable(m@),
    ensures
        w@.len() == m@.len(),
        forall|i: int| 0 <= i < m@.len() ==> #[trigger] w@[i] == weight(m@, i),
{
    let nm = normalize(m);
    let w = priority_vector(&nm);
    proof {
        assert forall|i: int| 0 <= i < m@.len() implies #[trigger] w@[i] == weight(m@, i) by {
            lemma_rows_agree(nm@, m@, i, m@.len() as int);
        }
    }
    w
}

} // verus!
