use vstd::prelude::*;

verus! {

/// Why an all-pairs computation was refused before any pair was evaluated.
#[derive(Debug, Clone, Copy, PartialEq, Eq, Structural)]
pub enum MutualInfoError {
    /// The matrix has `matrix_rows` rows but `gene_count` labels were given.
    DimensionMismatch { matrix_rows: usize, gene_count: usize },
    /// The matrix has no rows or no columns.
    EmptyInput,
}

/// The error, if any, that the shape of the input calls for.
pub open spec fn dimension_error(
    matrix_rows: nat,
    matrix_cols: nat,
    gene_count: nat,
) -> Option<MutualInfoError> {
    if matrix_rows == 0 || matrix_cols == 0 {
        Some(MutualInfoError::EmptyInput)
    } else if matrix_rows != gene_count {
        Some(
            MutualInfoError::DimensionMismatch {
                matrix_rows: matrix_rows as usize,
                gene_count: gene_count as usize,
            },
        )
    } else {
        None
    }
}

/// Checks the shape of the input: an empty matrix is refused whatever the
/// labels, and otherwise there must be exactly one label per row.
pub fn validate_dimensions(matrix_rows: usize, matrix_cols: usize, gene_count: usize) -> (r: Result<
    (),
    MutualInfoError,
>)
    ensures
        r is Ok <==> dimension_error(matrix_rows as nat, matrix_cols as nat, gene_count as nat)
            is None,
        r is Err ==> Some(r->Err_0) == dimension_error(
            matrix_rows as nat,
            matrix_cols as nat,
            gene_count as nat,
        ),
{
    if matrix_rows == 0 || matrix_cols == 0 {
        Err(MutualInfoError::EmptyInput)
    } else if matrix_rows != gene_count {
        Err(MutualInfoError::DimensionMismatch { matrix_rows, gene_count })
    } else {
        Ok(())
    }
}

} // verus!
