//! Script values as the library reads them, and the checks that turn them into
//! numbers: single numbers, feature matrices, regression targets, class labels
//! and the options of training.
use crate::algorithm::Algorithm;
use crate::error::{Fault, Location, MlError};
use crate::ieee::{
    bits_are_below_zero, bits_are_finite, double_of_int, int_to_double_bits, is_below_zero,
    is_finite,
};
use vstd::prelude::*;
use vstd::string::StringExecFns;

verus! {

/// A script value where a number is expected.
#[derive(Clone, Copy, Debug, PartialEq, Eq, Structural)]
pub enum Scalar {
    /// An integer.
    Int(i64),
    /// A floating-point number, by the bits of its IEEE 754 double.
    Float(u64),
    /// Any other value: a string, a boolean, an array, a map, unit.
    Other,
}

/// A script value where a row of the feature matrix is expected.
#[derive(Clone, Debug)]
pub enum Row {
    /// An array, with its elements.
    Array(Vec<Scalar>),
    /// Any value that is not an array.
    Other,
}

/// The bits of the double that a number-like value stands for: a float's own
/// bits, an integer converted as `as f64` converts it.
pub open spec fn number_value(value: Scalar) -> u64 {
    match value {
        Scalar::Float(bits) => bits,
        Scalar::Int(i) => double_of_int(i as int),
        Scalar::Other => 0,
    }
}

/// Reading a value at `at` as a number: an integer or a finite float.
pub open spec fn number_result(value: Scalar, at: Location) -> Result<u64, Fault> {
    match value {
        Scalar::Float(bits) => if is_finite(bits) {
            Ok(bits)
        } else {
            Err(Fault::NotFinite { at })
        },
        Scalar::Int(i) => Ok(double_of_int(i as int)),
        Scalar::Other => Err(Fault::NotANumber { at }),
    }
}

/// Reads `value`, found at `at`, as a finite number and returns the bits of its double.
pub fn number(value: Scalar, at: Location) -> (r: Result<u64, MlError>)
    ensures
        match r {
            Ok(bits) => number_result(value, at) == Ok::<u64, Fault>(bits) && is_finite(bits),
            Err(e) => number_result(value, at) == Err::<u64, Fault>(e@),
        },
{
    match value {
        Scalar::Float(bits) => if bits_are_finite(bits) {
            Ok(bits)
        } else {
            Err(MlError::NotFinite { at })
        },
        Scalar::Int(i) => Ok(int_to_double_bits(i)),
        Scalar::Other => Err(MlError::NotANumber { at }),
    }
}

// ----- Feature matrices -----

/// The number of elements of a row that is an array (zero for anything else).
pub open spec fn row_width(row: Row) -> nat {
    match row {
        Row::Array(cells) => cells@.len(),
        Row::Other => 0,
    }
}

/// The first error among the cells of row `row`, from column `from` on.
pub open spec fn cells_fault(cells: Seq<Scalar>, row: nat, from: nat) -> Option<Fault>
    decreases cells.len() - from,
{
    if from >= cells.len() {
        None
    } else {
        match number_result(cells[from as int], Location::Feature(row as usize, from as usize)) {
            Err(f) => Some(f),
            Ok(_) => cells_fault(cells, row, from + 1),
        }
    }
}

/// The error of row `index` of a matrix whose first row has `columns` elements:
/// it is not an array; it is the first row and empty; its length differs from
/// the first row's; or one of its cells is not a finite number.
pub open spec fn row_fault(row: Row, index: nat, columns: nat) -> Option<Fault> {
    match row {
        Row::Other => Some(Fault::RowNotArray { row: index }),
        Row::Array(cells) => if index == 0 && cells@.len() == 0 {
            Some(Fault::NoFeatures)
        } else if cells@.len() != columns {
            Some(Fault::RowWidth { row: index, found: cells@.len(), expected: columns })
        } else {
            cells_fault(cells@, index, 0)
        },
    }
}

/// The first error among the rows of `x`, from row `from` on.
pub open spec fn rows_fault(x: Seq<Row>, from: nat) -> Option<Fault>
    decreases x.len() - from,
{
    if from >= x.len() {
        None
    } else {
        match row_fault(x[from as int], from, row_width(x[0])) {
            Some(f) => Some(f),
            None => rows_fault(x, from + 1),
        }
    }
}

/// The numbers of a row.
pub open spec fn row_values(row: Row) -> Seq<u64> {
    match row {
        Row::Array(cells) => cells@.map_values(|v: Scalar| number_value(v)),
        Row::Other => seq![],
    }
}

/// Reading `x` as a matrix: at least one row, every row an array as long as
/// the first, which is not empty, and every cell a finite number. The result is
/// the matrix of doubles and its number of columns.
pub open spec fn matrix_result(x: Seq<Row>) -> Result<(Seq<Seq<u64>>, nat), Fault> {
    if x.len() == 0 {
        Err(Fault::NoRows)
    } else {
        match rows_fault(x, 0) {
            Some(f) => Err(f),
            None => Ok((x.map_values(|r: Row| row_values(r)), row_width(x[0]))),
        }
    }
}

/// The contents of a matrix of doubles.
pub open spec fn matrix_view(m: Seq<Vec<u64>>) -> Seq<Seq<u64>> {
    m.map_values(|r: Vec<u64>| r@)
}

/// Every entry of a matrix of doubles is finite.
pub open spec fn all_finite(m: Seq<Seq<u64>>) -> bool {
    forall|i: int, j: int| 0 <= i < m.len() && 0 <= j < m[i].len() ==> is_finite(#[trigger] m[i][j])
}

/// Reads the cells of row `row` as finite numbers.
fn row_numbers(cells: &Vec<Scalar>, row: usize) -> (r: Result<Vec<u64>, MlError>)
    ensures
        match r {
            Ok(values) => cells_fault(cells@, row as nat, 0) is None && values@ == cells@.map_values(
                |v: Scalar| number_value(v),
            ) && forall|j: int| 0 <= j < values@.len() ==> is_finite(#[trigger] values@[j]),
            Err(e) => cells_fault(cells@, row as nat, 0) == Some(e@),
        },
{
    let mut values: Vec<u64> = Vec::new();
    let mut j: usize = 0;
    while j < cells.len()
        invariant
            j <= cells@.len(),
            cells_fault(cells@, row as nat, 0) == cells_fault(cells@, row as nat, j as nat),
            values@ == cells@.take(j as int).map_values(|v: Scalar| number_value(v)),
            forall|k: int| 0 <= k < values@.len() ==> is_finite(#[trigger] values@[k]),
        decreases cells@.len() - j,
    {
        match number(cells[j], Location::Feature(row, j)) {
            Ok(bits) => {
                values.push(bits);
                assert(cells@.take(j + 1) == cells@.take(j as int).push(cells@[j as int]));
            },
            Err(e) => {
                return Err(e);
            },
        }
        j = j + 1;
    }
    assert(cells@.take(j as int) == cells@);
    Ok(values)
}

/// Reads `x` as a nonempty rectangular matrix of finite numbers, and returns
/// the matrix of doubles and its number of columns.
pub fn matrix(x: &Vec<Row>) -> (r: Result<(Vec<Vec<u64>>, usize), MlError>)
    ensures
        match r {
            Ok((m, columns)) => matrix_result(x@) == Ok::<(Seq<Seq<u64>>, nat), Fault>(
                (matrix_view(m@), columns as nat),
            ) && all_finite(matrix_view(m@)),
            Err(e) => matrix_result(x@) == Err::<(Seq<Seq<u64>>, nat), Fault>(e@),
        },
{
    if x.len() == 0 {
        return Err(MlError::NoRows);
    }
    let mut rows: Vec<Vec<u64>> = Vec::new();
    let mut columns: usize = 0;
    let mut i: usize = 0;
    while i < x.len()
        invariant
            1 <= x@.len(),
            i <= x@.len(),
            rows_fault(x@, 0) == rows_fault(x@, i as nat),
            i > 0 ==> columns == row_width(x@[0]),
            rows@.len() == i,
            forall|k: int| 0 <= k < i ==> (#[trigger] rows@[k])@ == row_values(x@[k]),
            all_finite(matrix_view(rows@)),
        decreases x@.len() - i,
    {
        match &x[i] {
            Row::Other => {
                return Err(MlError::RowNotArray { row: i });
            },
            Row::Array(cells) => {
                if i == 0 {
                    columns = cells.len();
                    if columns == 0 {
                        return Err(MlError::NoFeatures);
                    }
                }
                if cells.len() != columns {
                    return Err(MlError::RowWidth { row: i, found: cells.len(), expected: columns });
                }
                match row_numbers(cells, i) {
                    Ok(values) => {
                        let ghost before = rows@;
                        rows.push(values);
                        assert forall|k: int| 0 <= k <= i implies (#[trigger] rows@[k])@
                            == row_values(x@[k]) by {
                            if k < i {
                                assert(rows@[k] == before[k]);
                            }
                        }
                        assert forall|a: int, b: int|
                            0 <= a < matrix_view(rows@).len() && 0 <= b < matrix_view(
                                rows@,
                            )[a].len() implies is_finite(
                            #[trigger] matrix_view(rows@)[a][b],
                        ) by {
                            if a < i {
                                assert(rows@[a] == before[a]);
                                assert(matrix_view(before)[a] == before[a]@);
                            }
                        }
                    },
                    Err(e) => {
                        return Err(e);
                    },
                }
            },
        }
        i = i + 1;
    }
    assert(matrix_view(rows@) == x@.map_values(|r: Row| row_values(r)));
    Ok((rows, columns))
}

// ----- Targets -----

/// The first target, from index `from` on, that is not a finite number.
pub open spec fn targets_fault(y: Seq<Scalar>, from: nat) -> Option<Fault>
    decreases y.len() - from,
{
    if from >= y.len() {
        None
    } else {
        match number_result(y[from as int], Location::Target(from as usize)) {
            Err(f) => Some(f),
            Ok(_) => targets_fault(y, from + 1),
        }
    }
}

/// Reading regression targets: every target a finite number.
pub open spec fn targets_result(y: Seq<Scalar>) -> Result<Seq<u64>, Fault> {
    match targets_fault(y, 0) {
        Some(f) => Err(f),
        None => Ok(y.map_values(|v: Scalar| number_value(v))),
    }
}

/// Reads regression targets as finite numbers.
pub fn regression_targets(y: &Vec<Scalar>) -> (r: Result<Vec<u64>, MlError>)
    ensures
        match r {
            Ok(values) => targets_result(y@) == Ok::<Seq<u64>, Fault>(values@) && forall|j: int|
                0 <= j < values@.len() ==> is_finite(#[trigger] values@[j]),
            Err(e) => targets_result(y@) == Err::<Seq<u64>, Fault>(e@),
        },
{
    let mut values: Vec<u64> = Vec::new();
    let mut j: usize = 0;
    while j < y.len()
        invariant
            j <= y@.len(),
            targets_fault(y@, 0) == targets_fault(y@, j as nat),
            values@ == y@.take(j as int).map_values(|v: Scalar| number_value(v)),
            forall|k: int| 0 <= k < values@.len() ==> is_finite(#[trigger] values@[k]),
        decreases y@.len() - j,
    {
        match number(y[j], Location::Target(j)) {
            Ok(bits) => {
                values.push(bits);
                assert(y@.take(j + 1) == y@.take(j as int).push(y@[j as int]));
            },
            Err(e) => {
                return Err(e);
            },
        }
        j = j + 1;
    }
    assert(y@.take(j as int) == y@);
    Ok(values)
}

/// The first target, from index `from` on, that is not an integer.
pub open spec fn labels_fault(y: Seq<Scalar>, from: nat) -> Option<Fault>
    decreases y.len() - from,
{
    if from >= y.len() {
        None
    } else {
        match y[from as int] {
            Scalar::Int(_) => labels_fault(y, from + 1),
            _ => Some(Fault::NotClassLabel { index: from }),
        }
    }
}

/// The integer of a class label.
pub open spec fn label_value(value: Scalar) -> i64 {
    match value {
        Scalar::Int(i) => i,
        _ => 0,
    }
}

/// Reading class labels: every target an integer.
pub open spec fn labels_result(y: Seq<Scalar>) -> Result<Seq<i64>, Fault> {
    match labels_fault(y, 0) {
        Some(f) => Err(f),
        None => Ok(y.map_values(|v: Scalar| label_value(v))),
    }
}

/// Reads logistic regression targets as integer class labels.
pub fn class_labels(y: &Vec<Scalar>) -> (r: Result<Vec<i64>, MlError>)
    ensures
        match r {
            Ok(labels) => labels_result(y@) == Ok::<Seq<i64>, Fault>(labels@),
            Err(e) => labels_result(y@) == Err::<Seq<i64>, Fault>(e@),
        },
{
    let mut labels: Vec<i64> = Vec::new();
    let mut j: usize = 0;
    while j < y.len()
        invariant
            j <= y@.len(),
            labels_fault(y@, 0) == labels_fault(y@, j as nat),
            labels@ == y@.take(j as int).map_values(|v: Scalar| label_value(v)),
        decreases y@.len() - j,
    {
        match y[j] {
            Scalar::Int(label) => {
                labels.push(label);
                assert(y@.take(j + 1) == y@.take(j as int).push(y@[j as int]));
            },
            _ => {
                return Err(MlError::NotClassLabel { index: j });
            },
        }
        j = j + 1;
    }
    assert(y@.take(j as int) == y@);
    Ok(labels)
}

// ----- Training options -----

/// Whether a model type refuses an option: linear regression refuses every
/// option, the others every option but `alpha`.
pub open spec fn refuses_option(algorithm: Algorithm, key: Seq<char>) -> bool {
    algorithm == Algorithm::Linear || key != "alpha"@
}

/// The first key, from entry `from` on, that the model type refuses.
pub open spec fn refused_option(
    algorithm: Algorithm,
    options: Seq<(String, Scalar)>,
    from: nat,
) -> Option<Seq<char>>
    decreases options.len() - from,
{
    if from >= options.len() {
        None
    } else if refuses_option(algorithm, options[from as int].0@) {
        Some(options[from as int].0@)
    } else {
        refused_option(algorithm, options, from + 1)
    }
}

/// The value of the first `alpha` entry, from entry `from` on.
pub open spec fn alpha_entry(options: Seq<(String, Scalar)>, from: nat) -> Option<Scalar>
    decreases options.len() - from,
{
    if from >= options.len() {
        None
    } else if options[from as int].0@ == "alpha"@ {
        Some(options[from as int].1)
    } else {
        alpha_entry(options, from + 1)
    }
}

/// Reading the options of training, entries in the options map's order: the
/// first refused key is an error; then `alpha`, if given, must be a finite
/// number that is not below zero.
pub open spec fn alpha_result(algorithm: Algorithm, options: Seq<(String, Scalar)>) -> Result<
    Option<u64>,
    Fault,
> {
    match refused_option(algorithm, options, 0) {
        Some(key) => Err(
            if algorithm == Algorithm::Linear {
                Fault::LinearOption { key }
            } else {
                Fault::UnknownOption { key, algorithm }
            },
        ),
        None => match alpha_entry(options, 0) {
            None => Ok(None),
            Some(value) => match number_result(value, Location::Alpha) {
                Err(f) => Err(f),
                Ok(bits) => if is_below_zero(bits) {
                    Err(Fault::NegativeAlpha)
                } else {
                    Ok(Some(bits))
                },
            },
        },
    }
}

/// Reads the options of training for a model type and returns the `alpha`
/// that they give, if they give one.
pub fn training_alpha(algorithm: Algorithm, options: &Vec<(String, Scalar)>) -> (r: Result<
    Option<u64>,
    MlError,
>)
    ensures
        match r {
            Ok(alpha) => alpha_result(algorithm, options@) == Ok::<Option<u64>, Fault>(alpha),
            Err(e) => alpha_result(algorithm, options@) == Err::<Option<u64>, Fault>(e@),
        },
{
    let alpha_key = String::from_str("alpha");
    let mut i: usize = 0;
    while i < options.len()
        invariant
            i <= options@.len(),
            alpha_key@ == "alpha"@,
            refused_option(algorithm, options@, 0) == refused_option(algorithm, options@, i as nat),
        decreases options@.len() - i,
    {
        let key = &options[i].0;
        if algorithm == Algorithm::Linear {
            return Err(MlError::LinearOption { key: key.clone() });
        }
        if !(*key == alpha_key) {
            return Err(MlError::UnknownOption { key: key.clone(), algorithm });
        }
        i = i + 1;
    }
    assert(refused_option(algorithm, options@, 0) is None);
    let mut j: usize = 0;
    while j < options.len()
        invariant
            j <= options@.len(),
            alpha_key@ == "alpha"@,
            alpha_entry(options@, 0) == alpha_entry(options@, j as nat),
            refused_option(algorithm, options@, 0) is None,
        decreases options@.len() - j,
    {
        if options[j].0 == alpha_key {
            let bits = match number(options[j].1, Location::Alpha) {
                Ok(bits) => bits,
                Err(e) => {
                    return Err(e);
                },
            };
            if bits_are_below_zero(bits) {
                return Err(MlError::NegativeAlpha);
            }
            return Ok(Some(bits));
        }
        j = j + 1;
    }
    Ok(None)
}

} // verus!
