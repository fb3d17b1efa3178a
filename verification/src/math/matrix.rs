use core::ops::{Add, Mul};
use vstd::prelude::*;
use vstd::std_specs::convert::FromSpec;
use vstd::std_specs::ops::{AddSpec, MulSpec};

verus! {

/// Whether the operations of `T` behave as their specifications say.
pub open spec fn obeys_arithmetic<T: Mul<Output = T> + Add<Output = T> + Copy + From<u8>>() -> bool {
    &&& <T as FromSpec<u8>>::obeys_from_spec()
    &&& <T as AddSpec>::obeys_add_spec()
    &&& <T as MulSpec>::obeys_mul_spec()
}

/// Whether `T` allows its product and its sum on all values, as numbers
/// that cannot overflow do.
pub open spec fn always_defined<T: Mul<Output = T> + Add<Output = T> + Copy + From<u8>>() -> bool {
    &&& forall|x: T, y: T| #[trigger] x.mul_req(y)
    &&& forall|x: T, y: T| #[trigger] x.add_req(y)
}

/// The sum of the first `k` products of row `i` of `a` with column `j` of
/// `b`, added up from zero in order of rising index.
pub open spec fn partial_dot<
    T: Mul<Output = T> + Add<Output = T> + Copy + From<u8>,
    const N: usize,
    const P: usize,
>(a: Seq<[T; N]>, b: Seq<[T; P]>, i: int, j: int, k: nat) -> T
    decreases k,
{
    if k == 0 {
        <T as FromSpec<u8>>::from_spec(0u8)
    } else {
        partial_dot(a, b, i, j, (k - 1) as nat).add_spec(a[i][k - 1].mul_spec(b[k - 1][j]))
    }
}

/// Whether every product and every sum that `partial_dot` forms up to `k`
/// terms is allowed for `T`.
pub open spec fn dot_defined<
    T: Mul<Output = T> + Add<Output = T> + Copy + From<u8>,
    const N: usize,
    const P: usize,
>(a: Seq<[T; N]>, b: Seq<[T; P]>, i: int, j: int, k: nat) -> bool
    decreases k,
{
    k > 0 ==> {
        &&& dot_defined(a, b, i, j, (k - 1) as nat)
        &&& a[i][k - 1].mul_req(b[k - 1][j])
        &&& partial_dot(a, b, i, j, (k - 1) as nat).add_req(a[i][k - 1].mul_spec(b[k - 1][j]))
    }
}

/// If the first `n` terms of a dot product are allowed, so are the first `k`
/// for every `k <= n`.
pub proof fn lemma_dot_defined_prefix<
    T: Mul<Output = T> + Add<Output = T> + Copy + From<u8>,
    const N: usize,
    const P: usize,
>(a: Seq<[T; N]>, b: Seq<[T; P]>, i: int, j: int, n: nat, k: nat)
    requires
        k <= n,
        dot_defined(a, b, i, j, n),
    ensures
        dot_defined(a, b, i, j, k),
    decreases n,
{
    if k < n {
        lemma_dot_defined_prefix(a, b, i, j, (n - 1) as nat, k);
    }
}

/// Multiplies a matrix of `M` rows and `N` columns with one of `N` rows and
/// `P` columns. Each entry is summed from zero in order of rising index.
///
/// The operations of `T` must be allowed on everything they are applied to:
/// either on all values, as for numbers that cannot overflow, or on the
/// products and partial sums of every entry.
pub fn matrix_multiply<
    const M: usize,
    const N: usize,
    const P: usize,
    T: Mul<Output = T> + Add<Output = T> + Copy + From<u8>,
>(a: &[[T; N]; M], b: &[[T; P]; N]) -> (result: [[T; P]; M])
    requires
        always_defined::<T>() || (obeys_arithmetic::<T>() && forall|i: int, j: int|
            0 <= i < M && 0 <= j < P ==> #[trigger] dot_defined(a@, b@, i, j, N as nat)),
    ensures
        obeys_arithmetic::<T>() ==> forall|i: int, j: int|
            0 <= i < M && 0 <= j < P ==> result[i][j] == partial_dot(a@, b@, i, j, N as nat),
{
    let zero = T::from(0u8);
    let mut result = [[zero;P];M];
    let mut i: usize = 0;
    while i < M
        invariant
            i <= M,
            always_defined::<T>() || (obeys_arithmetic::<T>() && forall|r: int, c: int|
                0 <= r < M && 0 <= c < P ==> #[trigger] dot_defined(a@, b@, r, c, N as nat)),
            obeys_arithmetic::<T>() ==> zero == <T as FromSpec<u8>>::from_spec(0u8),
            obeys_arithmetic::<T>() ==> forall|r: int, c: int|
                0 <= r < M && 0 <= c < P ==> result[r][c] == (if r < i {
                    partial_dot(a@, b@, r, c, N as nat)
                } else {
                    zero
                }),
        decreases M - i,
    {
        let mut j: usize = 0;
        while j < P
            invariant
                i < M,
                j <= P,
                always_defined::<T>() || (obeys_arithmetic::<T>() && forall|r: int, c: int|
                    0 <= r < M && 0 <= c < P ==> #[trigger] dot_defined(a@, b@, r, c, N as nat)),
                obeys_arithmetic::<T>() ==> zero == <T as FromSpec<u8>>::from_spec(0u8),
                obeys_arithmetic::<T>() ==> forall|r: int, c: int|
                    0 <= r < M && 0 <= c < P ==> result[r][c] == (if r < i || (r == i && c < j) {
                        partial_dot(a@, b@, r, c, N as nat)
                    } else {
                        zero
                    }),
            decreases P - j,
        {
            let mut k: usize = 0;
            while k < N
                invariant
                    i < M,
                    j < P,
                    k <= N,
                    always_defined::<T>() || (obeys_arithmetic::<T>() && dot_defined(
                        a@,
                        b@,
                        i as int,
                        j as int,
                        N as nat,
                    )),
                    obeys_arithmetic::<T>() ==> zero == <T as FromSpec<u8>>::from_spec(0u8),
                    obeys_arithmetic::<T>() ==> forall|r: int, c: int|
                        0 <= r < M && 0 <= c < P && !(r == i && c == j) ==> result[r][c] == (if r
                            < i || (r == i && c < j) {
                            partial_dot(a@, b@, r, c, N as nat)
                        } else {
                            zero
                        }),
                    obeys_arithmetic::<T>() ==> result[i as int][j as int] == partial_dot(
                        a@,
                        b@,
                        i as int,
                        j as int,
                        k as nat,
                    ),
                decreases N - k,
            {
                proof {
                    if !always_defined::<T>() {
                        lemma_dot_defined_prefix(
                            a@,
                            b@,
                            i as int,
                            j as int,
                            N as nat,
                            (k + 1) as nat,
                        );
                    }
                }
                result[i][j] = result[i][j] + a[i][k] * b[k][j];
                k += 1;
            }
            j += 1;
        }
        i += 1;
    }
    result
}

/// Row `i` of `a` times column `j` of `b` for matrices of three rows and
/// columns: the three products, added from the left.
pub open spec fn dot3<T: Mul<Output = T> + Add<Output = T> + Copy + From<u8>>(
    a: Seq<[T; 3]>,
    b: Seq<[T; 3]>,
    i: int,
    j: int,
) -> T {
    a[i][0].mul_spec(b[0][j]).add_spec(a[i][1].mul_spec(b[1][j])).add_spec(
        a[i][2].mul_spec(b[2][j]),
    )
}

/// Whether the three products and the two sums of `dot3` are allowed for
/// `T`.
pub open spec fn dot3_defined<T: Mul<Output = T> + Add<Output = T> + Copy + From<u8>>(
    a: Seq<[T; 3]>,
    b: Seq<[T; 3]>,
    i: int,
    j: int,
) -> bool {
    &&& a[i][0].mul_req(b[0][j])
    &&& a[i][1].mul_req(b[1][j])
    &&& a[i][2].mul_req(b[2][j])
    &&& a[i][0].mul_spec(b[0][j]).add_req(a[i][1].mul_spec(b[1][j]))
    &&& a[i][0].mul_spec(b[0][j]).add_spec(a[i][1].mul_spec(b[1][j])).add_req(
        a[i][2].mul_spec(b[2][j]),
    )
}

/// Multiplies two matrices of three rows and three columns, with every
/// entry written out. The operations of `T` must be allowed on everything
/// they are applied to, as for `matrix_multiply`.
pub fn matrix_multiply_3x3<T: Mul<Output = T> + Add<Output = T> + Copy + From<u8>>(
    a: &[[T; 3]; 3],
    b: &[[T; 3]; 3],
) -> (result: [[T; 3]; 3])
    requires
        always_defined::<T>() || (obeys_arithmetic::<T>() && forall|i: int, j: int|
            0 <= i < 3 && 0 <= j < 3 ==> #[trigger] dot3_defined(a@, b@, i, j)),
    ensures
        obeys_arithmetic::<T>() ==> forall|i: int, j: int|
            0 <= i < 3 && 0 <= j < 3 ==> result[i][j] == dot3(a@, b@, i, j),
{
    proof {
        if !always_defined::<T>() {
        assert(dot3_defined(a@, b@, 0, 0) && dot3_defined(a@, b@, 0, 1) && dot3_defined(
            a@,
            b@,
            0,
            2,
        ));
        assert(dot3_defined(a@, b@, 1, 0) && dot3_defined(a@, b@, 1, 1) && dot3_defined(
            a@,
            b@,
            1,
            2,
        ));
        assert(dot3_defined(a@, b@, 2, 0) && dot3_defined(a@, b@, 2, 1) && dot3_defined(
            a@,
            b@,
            2,
            2,
        ));
        }
    }
    [
        [
            a[0][0] * b[0][0] + a[0][1] * b[1][0] + a[0][2] * b[2][0],
            a[0][0] * b[0][1] + a[0][1] * b[1][1] + a[0][2] * b[2][1],
            a[0][0] * b[0][2] + a[0][1] * b[1][2] + a[0][2] * b[2][2],
        ],
        [
            a[1][0] * b[0][0] + a[1][1] * b[1][0] + a[1][2] * b[2][0],
            a[1][0] * b[0][1] + a[1][1] * b[1][1] + a[1][2] * b[2][1],
            a[1][0] * b[0][2] + a[1][1] * b[1][2] + a[1][2] * b[2][2],
        ],
        [
            a[2][0] * b[0][0] + a[2][1] * b[1][0] + a[2][2] * b[2][0],
            a[2][0] * b[0][1] + a[2][1] * b[1][1] + a[2][2] * b[2][1],
            a[2][0] * b[0][2] + a[2][1] * b[1][2] + a[2][2] * b[2][2],
        ],
    ]
}

/// Transposes a matrix of `M` rows and `N` columns.
pub fn transpose<const M: usize, const N: usize, T: Copy>(a: &[[T; N]; M]) -> (result: [[T; M]; N])
    requires
        M > 0,
        N > 0,
    ensures
        forall|i: int, j: int| 0 <= i < M && 0 <= j < N ==> result[j][i] == a[i][j],
{
    let mut result = [[a[0][0];M];N];
    let mut i: usize = 0;
    while i < M
        invariant
            i <= M,
            forall|r: int, c: int| 0 <= r < i && 0 <= c < N ==> result[c][r] == a[r][c],
        decreases M - i,
    {
        let mut j: usize = 0;
        while j < N
            invariant
                i < M,
                j <= N,
                forall|r: int, c: int| 0 <= r < i && 0 <= c < N ==> result[c][r] == a[r][c],
                forall|c: int| 0 <= c < j ==> result[c][i as int] == a[i as int][c],
            decreases N - j,
        {
            result[j][i] = a[i][j];
            j += 1;
        }
        i += 1;
    }
    result
}

} // verus!
