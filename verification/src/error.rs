//! The errors that the checked operations report.

use vstd::prelude::*;
use vstd::string::StringExecFns;

verus! {

/// The decimal digit `d`.
pub open spec fn digit(d: nat) -> char {
    seq!['0', '1', '2', '3', '4', '5', '6', '7', '8', '9'][d as int]
}

/// The decimal notation of `n`, without leading zeros.
pub open spec fn decimal(n: nat) -> Seq<char>
    decreases n,
{
    if n < 10 {
        seq![digit(n)]
    } else {
        decimal(n / 10).push(digit(n % 10))
    }
}

/// `ToString::to_string` of `usize`, which writes the number in decimal
/// notation.
#[verifier::external_body]
fn decimal_string(n: usize) -> (s: String)
    ensures
        s@ == decimal(n as nat),
{
    n.to_string()
}

/// The message of an index that lies outside a matrix of the dimensions
/// `(rows, cols)`.
pub open spec fn index_message(row: nat, col: nat, rows: nat, cols: nat) -> Seq<char> {
    "index ("@ + decimal(row) + ","@ + decimal(col) + ") exceeds max dimension of ("@ + decimal(
        rows,
    ) + ","@ + decimal(cols) + ")"@
}

/// The message of two dimensions that should agree and do not.
pub open spec fn dimension_message(dim1: nat, dim2: nat) -> Seq<char> {
    "cannot multiply inequal dimensions: "@ + decimal(dim1) + " != "@ + decimal(dim2)
}

/// The message of an index that lies outside a vector of length `len`.
pub open spec fn vector_index_message(index: nat, len: nat) -> Seq<char> {
    "index ("@ + decimal(index) + ") exceeds length of vector ("@ + decimal(len) + ")"@
}

/// The message of a computation that failed for the reason `err`.
pub open spec fn computational_message(err: Seq<char>) -> Seq<char> {
    "Computational error: "@ + err
}

/// What can be wrong with a request to a matrix.
#[derive(Debug, PartialEq, Eq)]
pub enum MatrixError {
    InvalidIndex(String),
    InvalidDimension(String),
}

/// What can be wrong with a request to a vector.
#[derive(Debug, PartialEq, Eq)]
pub enum VectorError {
    Multiplication(String),
    InvalidIndex(String),
    Computational(String),
}

/// The ways in which a matrix can be unfit for an operation.
#[derive(Debug, Clone, Copy, PartialEq, Eq, Structural)]
pub enum ErrorKind {
    /// The storage does not hold one element for each cell.
    MatrixStructure,
}

/// The error of an operation that checks its matrix before it works on it.
#[derive(Debug, Clone, Copy, PartialEq, Eq, Structural)]
pub struct AlgebraError {
    pub kind: ErrorKind,
}

impl AlgebraError {
    /// The error of the given kind.
    pub fn new(kind: ErrorKind) -> (e: Self)
        ensures
            e.kind == kind,
    {
        AlgebraError { kind }
    }
}

impl MatrixError {
    /// The error as the failure of an operation.
    pub fn as_result<T>(self) -> (r: Result<T, Self>)
        ensures
            r == Result::<T, Self>::Err(self),
    {
        Err(self)
    }

    /// The error of the index `(row, col)` in a matrix of the dimensions
    /// `(rows, cols)`.
    pub fn out_of_range(row: usize, col: usize, rows: usize, cols: usize) -> (e: Self)
        ensures
            e matches MatrixError::InvalidIndex(s) && s@ == index_message(
                row as nat,
                col as nat,
                rows as nat,
                cols as nat,
            ),
    {
        let mut s = String::from_str("index (");
        s.append(decimal_string(row).as_str());
        s.append(",");
        s.append(decimal_string(col).as_str());
        s.append(") exceeds max dimension of (");
        s.append(decimal_string(rows).as_str());
        s.append(",");
        s.append(decimal_string(cols).as_str());
        s.append(")");
        MatrixError::InvalidIndex(s)
    }

    /// The error of the index `(row, col)` in a square matrix of `len` rows.
    pub fn invalid_index(row: usize, col: usize, len: usize) -> (e: Self)
        ensures
            e matches MatrixError::InvalidIndex(s) && s@ == index_message(
                row as nat,
                col as nat,
                len as nat,
                len as nat,
            ),
    {
        MatrixError::out_of_range(row, col, len, len)
    }

    /// The error of two dimensions that should agree and do not.
    pub fn invalid_dimension(dim1: usize, dim2: usize) -> (e: Self)
        ensures
            e matches MatrixError::InvalidDimension(s) && s@ == dimension_message(
                dim1 as nat,
                dim2 as nat,
            ),
    {
        let mut s = String::from_str("cannot multiply inequal dimensions: ");
        s.append(decimal_string(dim1).as_str());
        s.append(" != ");
        s.append(decimal_string(dim2).as_str());
        MatrixError::InvalidDimension(s)
    }
}

impl VectorError {
    /// The error as the failure of an operation.
    pub fn as_result<T>(self) -> (r: Result<T, Self>)
        ensures
            r == Result::<T, Self>::Err(self),
    {
        Err(self)
    }

    /// The error of the index `index` in a vector of length `len`.
    pub fn invalid_index(index: usize, len: usize) -> (e: Self)
        ensures
            e matches VectorError::InvalidIndex(s) && s@ == vector_index_message(
                index as nat,
                len as nat,
            ),
    {
        let mut s = String::from_str("index (");
        s.append(decimal_string(index).as_str());
        s.append(") exceeds length of vector (");
        s.append(decimal_string(len).as_str());
        s.append(")");
        VectorError::InvalidIndex(s)
    }

    /// The error of a computation that failed for the reason `err`.
    pub fn computational(err: &'static str) -> (e: Self)
        ensures
            e matches VectorError::Computational(s) && s@ == computational_message(err@),
    {
        let mut s = String::from_str("Computational error: ");
        s.append(err);
        VectorError::Computational(s)
    }
}

} // verus!
