//! Layout of 4x4 matrices handed to the shaders.
use vstd::prelude::*;

verus! {

/// `b` is the transpose of `a`.
pub open spec fn is_transpose<T>(a: [[T; 4]; 4], b: [[T; 4]; 4]) -> bool {
    forall|i: int, j: int| 0 <= i < 4 && 0 <= j < 4 ==> #[trigger] b@[i]@[j] == a@[j]@[i]
}

/// Swaps rows and columns: row-major matrices become the column-major
/// layout that WGSL expects.
pub fn transpose_4x4<T: Copy>(m: [[T; 4]; 4]) -> (r: [[T; 4]; 4])
    ensures
        is_transpose(m, r),
{
    let r = [
        [m[0][0], m[1][0], m[2][0], m[3][0]],
        [m[0][1], m[1][1], m[2][1], m[3][1]],
        [m[0][2], m[1][2], m[2][2], m[3][2]],
        [m[0][3], m[1][3], m[2][3], m[3][3]],
    ];
    r
}

/// Transposing twice gives back every entry of the matrix.
pub proof fn lemma_transpose_twice<T>(a: [[T; 4]; 4], b: [[T; 4]; 4], c: [[T; 4]; 4])
    requires
        is_transpose(a, b),
        is_transpose(b, c),
    ensures
        forall|i: int, j: int| 0 <= i < 4 && 0 <= j < 4 ==> #[trigger] c@[i]@[j] == a@[i]@[j],
{
    assert forall|i: int, j: int| 0 <= i < 4 && 0 <= j < 4 implies #[trigger] c@[i]@[j] == a@[i]@[j] by {
        assert(c@[i]@[j] == b@[j]@[i]);
    }
}

} // verus!
