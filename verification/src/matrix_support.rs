//! Trusted declarations for the dense bit matrices of the `bit-matrix`
//! crate, which back the prediction matrix and the symbol order relation.
//!
//! Verus refuses to declare `BitMatrix` itself (its block-type parameter is
//! bound by an outside trait), so the matrix lives in an opaque holder.
//! Its contents are named by [`bm_bits`] as the set of set positions, and
//! its shape by [`bm_dims`].

use vstd::prelude::*;

verus! {

/// An opaque holder for one `bit_matrix::BitMatrix`.
#[verifier::external_body]
pub struct SymMatrix {
    matrix: bit_matrix::BitMatrix,
}

/// The set of `(row, column)` positions whose bit is set.
pub uninterp spec fn bm_bits(m: SymMatrix) -> Set<(int, int)>;

/// The matrix's shape: `(rows, columns)`.
pub uninterp spec fn bm_dims(m: SymMatrix) -> (int, int);

/// All set positions lie within the matrix's shape.
pub open spec fn bm_in_range(m: SymMatrix) -> bool {
    forall|p: (int, int)|
        bm_bits(m).contains(p) ==> 0 <= p.0 < bm_dims(m).0 && 0 <= p.1 < bm_dims(m).1
}

/// Relies on `BitMatrix::new`: a fresh matrix of the given shape with no
/// bit set.
#[verifier::external_body]
pub fn bm_new(rows: usize, row_bits: usize) -> (m: SymMatrix)
    ensures
        bm_dims(m) == (rows as int, row_bits as int),
        bm_bits(m) == Set::<(int, int)>::empty(),
{
    SymMatrix { matrix: bit_matrix::BitMatrix::new(rows, row_bits) }
}

/// Relies on `BitMatrix::set`: sets or clears one bit, in bounds.
#[verifier::external_body]
pub fn bm_set(m: &mut SymMatrix, row: usize, col: usize, enabled: bool)
    requires
        0 <= row < bm_dims(*old(m)).0,
        0 <= col < bm_dims(*old(m)).1,
    ensures
        bm_dims(*final(m)) == bm_dims(*old(m)),
        enabled ==> bm_bits(*final(m)) == bm_bits(*old(m)).insert((row as int, col as int)),
        !enabled ==> bm_bits(*final(m)) == bm_bits(*old(m)).remove((row as int, col as int)),
{
    m.matrix.set(row, col, enabled)
}

/// Relies on `BitMatrix`'s pair indexing: reads one bit, in bounds.
#[verifier::external_body]
pub fn bm_get(m: &SymMatrix, row: usize, col: usize) -> (r: bool)
    requires
        0 <= row < bm_dims(*m).0,
        0 <= col < bm_dims(*m).1,
    ensures
        r == bm_bits(*m).contains((row as int, col as int)),
{
    m.matrix[(row, col)]
}

/// Relies on `BitMatrix::transitive_closure` (Warshall's algorithm on a
/// square matrix): keeps every set bit, sets only in-range bits, and the
/// result is transitively closed.
#[verifier::external_body]
pub fn bm_transitive_closure(m: &mut SymMatrix)
    requires
        bm_dims(*old(m)).0 == bm_dims(*old(m)).1,
        bm_in_range(*old(m)),
    ensures
        bm_dims(*final(m)) == bm_dims(*old(m)),
        bm_bits(*old(m)) <= bm_bits(*final(m)),
        bm_in_range(*final(m)),
        forall|a: int, b: int, c: int|
            bm_bits(*final(m)).contains((a, b)) && bm_bits(*final(m)).contains((b, c))
                ==> bm_bits(*final(m)).contains((a, c)),
{
    m.matrix.transitive_closure()
}

/// Relies on `BitMatrix::reflexive_closure`: adds exactly the in-range
/// diagonal bits.
#[verifier::external_body]
pub fn bm_reflexive_closure(m: &mut SymMatrix)
    ensures
        bm_dims(*final(m)) == bm_dims(*old(m)),
        forall|p: (int, int)|
            bm_bits(*final(m)).contains(p) <==> (bm_bits(*old(m)).contains(p) || (p.0 == p.1 && 0
                <= p.0 < bm_dims(*old(m)).0 && p.1 < bm_dims(*old(m)).1)),
{
    m.matrix.reflexive_closure()
}

/// Relies on `BitMatrix::iter_row`: hands out one row as plain booleans.
#[verifier::external_body]
pub fn bm_row(m: &SymMatrix, row: usize) -> (r: Vec<bool>)
    requires
        0 <= row < bm_dims(*m).0,
    ensures
        r@.len() == bm_dims(*m).1,
        forall|c: int| 0 <= c < r@.len() ==> r@[c] == bm_bits(*m).contains((row as int, c)),
{
    m.matrix.iter_row(row).collect()
}

} // verus!
