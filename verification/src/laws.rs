//! Properties of training and prediction that span their checks.
use crate::algorithm::{algorithm_named, lemma_algorithm_name_round_trip, Algorithm};
use crate::error::{Fault, Location};
use crate::ieee::{
    double_of_int, encodes_integer, is_below_zero, is_finite, lemma_double_of_int,
    lemma_integer_encoding_is_unique, lemma_top_bit, lemma_top_bit_bounds, nearest_double,
    round_to_double_precision, top_bit,
};
use crate::input::{
    all_finite, alpha_entry, alpha_result, cells_fault, label_value, labels_fault, labels_result,
    matrix_result, number_result, number_value, refused_option, refuses_option, row_fault,
    row_values, row_width, rows_fault, targets_fault, targets_result, Row, Scalar,
};
use crate::plan::{
    fit_algorithm, prediction_result, predictions_result, trained_model, training_result,
    FitView, ModelView, PlanView,
};
use vstd::arithmetic::power2::{
    lemma2_to64, lemma2_to64_rest, lemma_pow2_strictly_increases, lemma_pow2_unfold, pow2,
};
use vstd::prelude::*;

verus! {

/// No cell of a row, from `from` on, fails: each is a finite number.
proof fn lemma_cells_accepted(cells: Seq<Scalar>, row: nat, from: nat)
    requires
        cells_fault(cells, row, from) is None,
    ensures
        forall|j: int|
            from <= j < cells.len() ==> is_finite(number_value(#[trigger] cells[j]))
                && number_result(cells[j], Location::Feature(row as usize, j as usize)) is Ok,
    decreases cells.len() - from,
{
    if from < cells.len() {
        lemma_cells_accepted(cells, row, from + 1);
        if let Scalar::Int(i) = cells[from as int] {
            lemma_double_of_int(i as int);
        }
    }
}

/// No row of `x`, from `from` on, fails.
proof fn lemma_rows_accepted(x: Seq<Row>, from: nat)
    requires
        rows_fault(x, from) is None,
    ensures
        forall|k: int| from <= k < x.len() ==> row_fault(#[trigger] x[k], k as nat, row_width(x[0])) is None,
    decreases x.len() - from,
{
    if from < x.len() {
        lemma_rows_accepted(x, from + 1);
    }
}

/// No target, from `from` on, fails: each is a finite number.
proof fn lemma_targets_accepted(y: Seq<Scalar>, from: nat)
    requires
        targets_fault(y, from) is None,
    ensures
        forall|j: int|
            from <= j < y.len() ==> is_finite(number_value(#[trigger] y[j])) && number_result(
                y[j],
                Location::Target(j as usize),
            ) is Ok,
    decreases y.len() - from,
{
    if from < y.len() {
        lemma_targets_accepted(y, from + 1);
        if let Scalar::Int(i) = y[from as int] {
            lemma_double_of_int(i as int);
        }
    }
}

/// No target, from `from` on, fails: each is an integer.
proof fn lemma_labels_accepted(y: Seq<Scalar>, from: nat)
    requires
        labels_fault(y, from) is None,
    ensures
        forall|j: int| from <= j < y.len() ==> #[trigger] y[j] is Int,
    decreases y.len() - from,
{
    if from < y.len() {
        lemma_labels_accepted(y, from + 1);
    }
}

/// A matrix that is accepted has at least one row and one column, every row
/// as long as the first, and only finite numbers.
pub proof fn law_accepted_matrices_are_rectangular_and_finite(x: Seq<Row>)
    requires
        matrix_result(x) is Ok,
    ensures
        ({
            let (rows, columns) = matrix_result(x)->Ok_0;
            &&& x.len() >= 1
            &&& rows.len() == x.len()
            &&& columns >= 1
            &&& forall|i: int| 0 <= i < rows.len() ==> (#[trigger] rows[i]).len() == columns
            &&& all_finite(rows)
            &&& forall|i: int|
                0 <= i < x.len() ==> (#[trigger] x[i] matches Row::Array(cells) && forall|j: int|
                    0 <= j < cells@.len() ==> number_result(
                        #[trigger] cells@[j],
                        Location::Feature((i as nat) as usize, j as usize),
                    ) is Ok)
        }),
{
    let (rows, columns) = matrix_result(x)->Ok_0;
    assert forall|i: int| 0 <= i < x.len() implies (#[trigger] x[i] matches Row::Array(cells)
        && forall|j: int|
        0 <= j < cells@.len() ==> number_result(
            #[trigger] cells@[j],
            Location::Feature((i as nat) as usize, j as usize),
        ) is Ok) by {
        lemma_rows_accepted(x, 0);
        assert(row_fault(x[i], i as nat, row_width(x[0])) is None);
        if let Row::Array(cells) = x[i] {
            lemma_cells_accepted(cells@, i as nat, 0);
        }
    }
    lemma_rows_accepted(x, 0);
    assert(row_fault(x[0], 0, row_width(x[0])) is None);
    assert forall|i: int| 0 <= i < rows.len() implies (#[trigger] rows[i]).len() == columns by {
        assert(row_fault(x[i], i as nat, row_width(x[0])) is None);
    }
    assert forall|i: int, j: int|
        0 <= i < rows.len() && 0 <= j < rows[i].len() implies is_finite(#[trigger] rows[i][j]) by {
        assert(row_fault(x[i], i as nat, row_width(x[0])) is None);
        if let Row::Array(cells) = x[i] {
            lemma_cells_accepted(cells@, i as nat, 0);
            assert(rows[i] == row_values(x[i]));
            assert(rows[i][j] == number_value(cells@[j]));
        }
    }
}

/// Every target was a number, and the fit takes its finite double.
pub open spec fn targets_taken(y: Seq<Scalar>, targets: Seq<u64>) -> bool {
    forall|j: int|
        0 <= j < y.len() ==> number_result(#[trigger] y[j], Location::Target(j as usize))
            == Ok::<u64, Fault>(targets[j]) && is_finite(targets[j])
}

/// A training request that is accepted keeps the documented input rules: a
/// nonempty rectangular matrix of finite numbers with at least one feature;
/// one target per row; finite regression targets; more rows than features for
/// linear and lasso regression; and an `alpha`, if given, that is finite and
/// not below zero. The plan fits the model type that was named.
pub proof fn law_accepted_training_requests(
    x: Seq<Row>,
    y: Seq<Scalar>,
    name: Seq<char>,
    options: Seq<(String, Scalar)>,
)
    requires
        training_result(x, y, name, options) is Ok,
    ensures
        ({
            let plan = training_result(x, y, name, options)->Ok_0;
            &&& algorithm_named(name) == Some(fit_algorithm(plan.fit))
            &&& plan.rows.len() == x.len() >= 1
            &&& plan.features >= 1
            &&& forall|i: int| 0 <= i < plan.rows.len() ==> (#[trigger] plan.rows[i]).len() == plan.features
            &&& all_finite(plan.rows)
            &&& match plan.fit {
                FitView::Linear { targets } => targets.len() == x.len() > plan.features
                    && targets_taken(y, targets),
                FitView::Lasso { targets, alpha } => targets.len() == x.len() > plan.features
                    && targets_taken(y, targets) && (alpha matches Some(bits) ==> is_finite(bits)
                    && !is_below_zero(bits)),
                FitView::Logistic { labels, alpha } => labels.len() == x.len() && (forall|j: int|
                    0 <= j < y.len() ==> #[trigger] y[j] == Scalar::Int(labels[j])) && (
                alpha matches Some(bits) ==> is_finite(bits) && !is_below_zero(bits)),
            }
        }),
{
    law_accepted_matrices_are_rectangular_and_finite(x);
    let algorithm = algorithm_named(name)->Some_0;
    let plan = training_result(x, y, name, options)->Ok_0;
    let alpha = alpha_result(algorithm, options)->Ok_0;
    if let Some(bits) = alpha {
        let value = alpha_entry(options, 0)->Some_0;
        if let Scalar::Int(i) = value {
            lemma_double_of_int(i as int);
        }
        assert(is_finite(bits) && !is_below_zero(bits));
    }
    if algorithm != Algorithm::Logistic {
        lemma_targets_accepted(y, 0);
        let targets = targets_result(y)->Ok_0;
        assert(targets == y.map_values(|v: Scalar| number_value(v)));
        assert forall|j: int| 0 <= j < y.len() implies number_result(
            #[trigger] y[j],
            Location::Target(j as usize),
        ) == Ok::<u64, Fault>(targets[j]) && is_finite(targets[j]) by {
            assert(targets[j] == number_value(y[j]));
            if let Scalar::Int(i) = y[j] {
                lemma_double_of_int(i as int);
            }
        }
    } else {
        lemma_labels_accepted(y, 0);
        let labels = labels_result(y)->Ok_0;
        assert forall|j: int| 0 <= j < y.len() implies #[trigger] y[j] == Scalar::Int(labels[j]) by {
            assert(labels[j] == label_value(y[j]));
        }
    }
}

/// Some key, from entry `from` on, is refused: then the first refused key is found.
proof fn lemma_refused_option_found(
    algorithm: Algorithm,
    options: Seq<(String, Scalar)>,
    from: nat,
    k: int,
)
    requires
        from <= k < options.len(),
        refuses_option(algorithm, options[k].0@),
    ensures
        refused_option(algorithm, options, from) is Some,
    decreases k - from,
{
    if !refuses_option(algorithm, options[from as int].0@) {
        lemma_refused_option_found(algorithm, options, from + 1, k);
    }
}

/// An option that the model type does not take is never ignored: training is
/// refused, naming the first such key in the map's order.
pub proof fn law_refused_options_are_never_ignored(
    x: Seq<Row>,
    y: Seq<Scalar>,
    name: Seq<char>,
    options: Seq<(String, Scalar)>,
    k: int,
)
    requires
        algorithm_named(name) is Some,
        0 <= k < options.len(),
        refuses_option(algorithm_named(name)->Some_0, options[k].0@),
    ensures
        ({
            let algorithm = algorithm_named(name)->Some_0;
            let key = refused_option(algorithm, options, 0)->Some_0;
            &&& refused_option(algorithm, options, 0) is Some
            &&& training_result(x, y, name, options) == Err::<PlanView, Fault>(
                if algorithm == Algorithm::Linear {
                    Fault::LinearOption { key }
                } else {
                    Fault::UnknownOption { key, algorithm }
                },
            )
        }),
{
    lemma_refused_option_found(algorithm_named(name)->Some_0, options, 0, k);
}

/// Omitting the options, or passing an empty map, leaves the backend's default
/// penalty in place.
pub proof fn law_empty_options_keep_defaults(x: Seq<Row>, y: Seq<Scalar>, name: Seq<char>)
    ensures
        training_result(x, y, name, Seq::empty()) matches Ok(plan) ==> match plan.fit {
            FitView::Linear { .. } => true,
            FitView::Lasso { alpha, .. } => alpha is None,
            FitView::Logistic { alpha, .. } => alpha is None,
        },
{
    if let Some(algorithm) = algorithm_named(name) {
        assert(refused_option(algorithm, Seq::<(String, Scalar)>::empty(), 0) is None);
        assert(alpha_entry(Seq::<(String, Scalar)>::empty(), 0) is None);
        assert(alpha_result(algorithm, Seq::empty()) == Ok::<Option<u64>, Fault>(None));
    }
}

/// An integer `alpha` gives the same training result as the float that it
/// converts to.
pub proof fn law_integer_and_float_alpha_agree(
    x: Seq<Row>,
    y: Seq<Scalar>,
    name: Seq<char>,
    key: String,
    i: i64,
    bits: u64,
)
    requires
        key@ == "alpha"@,
        encodes_integer(bits, nearest_double(i as int)),
    ensures
        training_result(x, y, name, seq![(key, Scalar::Int(i))]) == training_result(
            x,
            y,
            name,
            seq![(key, Scalar::Float(bits))],
        ),
{
    lemma_double_of_int(i as int);
    lemma_integer_encoding_is_unique(bits, double_of_int(i as int), nearest_double(i as int));
    let with_int = seq![(key, Scalar::Int(i))];
    let with_float = seq![(key, Scalar::Float(bits))];
    if let Some(algorithm) = algorithm_named(name) {
        assert(refused_option(algorithm, with_int, 1) is None);
        assert(refused_option(algorithm, with_float, 1) is None);
        assert(alpha_entry(with_int, 0) == Some(Scalar::Int(i)));
        assert(alpha_entry(with_float, 0) == Some(Scalar::Float(bits)));
        assert(alpha_result(algorithm, with_int) == alpha_result(algorithm, with_float));
    }
}

/// Integers of magnitude up to 2^53 convert to doubles exactly.
pub proof fn law_small_integers_convert_exactly(i: int)
    requires
        -0x20_0000_0000_0000 <= i <= 0x20_0000_0000_0000,
    ensures
        nearest_double(i) == i,
{
    let a: nat = if i < 0 {
        (-i) as nat
    } else {
        i as nat
    };
    if a >= 1 {
        lemma2_to64();
        lemma2_to64_rest();
        lemma_pow2_unfold(53);
        lemma_pow2_unfold(54);
        if a == 0x20_0000_0000_0000 {
            lemma_top_bit(a, 53);
            assert(a / pow2(1) == 0x10_0000_0000_0000);
        } else {
            lemma_top_bit_bounds(a);
            if top_bit(a) > 52 {
                if top_bit(a) > 53 {
                    lemma_pow2_strictly_increases(53, top_bit(a));
                }
            }
            assert(top_bit(a) <= 52);
        }
        assert(round_to_double_precision(a) == a);
    }
}

/// A model that training hands back accepts, for prediction, every matrix with
/// its number of features, and applies its own model type; a matrix with any
/// other number of features is refused with the two counts.
pub proof fn law_trained_models_predict_at_their_width(
    plan: PlanView,
    saved_model: Seq<u8>,
    x: Seq<Row>,
)
    requires
        matrix_result(x) is Ok,
    ensures
        ({
            let (rows, columns) = matrix_result(x)->Ok_0;
            let model = trained_model(plan, saved_model);
            if columns == plan.features {
                prediction_result(x, model) == Ok::<(Algorithm, Seq<Seq<u64>>), Fault>(
                    (fit_algorithm(plan.fit), rows),
                )
            } else {
                prediction_result(x, model) == Err::<(Algorithm, Seq<Seq<u64>>), Fault>(
                    Fault::FeatureCount { found: columns, expected: plan.features },
                )
            }
        }),
{
    lemma_algorithm_name_round_trip(fit_algorithm(plan.fit));
}

/// The double `bits` is what the script value `value` reads as: a float's own
/// bits when they are finite, the nearest double to an integer; nothing else
/// reads as a number.
pub open spec fn reads_as(value: Scalar, bits: u64) -> bool {
    match value {
        Scalar::Float(f) => f == bits && is_finite(bits),
        Scalar::Int(i) => encodes_integer(bits, nearest_double(i as int)),
        Scalar::Other => false,
    }
}

/// A value is a number that a matrix or a regression target takes: an integer
/// or a finite float.
pub open spec fn is_number(value: Scalar) -> bool {
    match value {
        Scalar::Float(f) => is_finite(f),
        Scalar::Int(_) => true,
        Scalar::Other => false,
    }
}

/// `x` is a matrix with `columns` columns: every row an array of that many
/// numbers.
pub open spec fn is_matrix(x: Seq<Row>, columns: nat) -> bool {
    &&& x.len() >= 1
    &&& columns >= 1
    &&& forall|i: int|
        0 <= i < x.len() ==> (#[trigger] x[i] matches Row::Array(cells) && cells@.len() == columns
            && forall|j: int| 0 <= j < cells@.len() ==> is_number(#[trigger] cells@[j]))
}

/// `rows` holds, row by row and column by column, the doubles that the cells of
/// `x` read as.
pub open spec fn holds_cells_in_order(x: Seq<Row>, rows: Seq<Seq<u64>>) -> bool {
    &&& rows.len() == x.len()
    &&& forall|i: int|
        0 <= i < x.len() ==> (#[trigger] x[i] matches Row::Array(cells) && rows[i].len()
            == cells@.len() && forall|j: int|
            0 <= j < cells@.len() ==> reads_as(#[trigger] cells@[j], rows[i][j]))
}

/// A number value reads as the double that the library takes for it.
proof fn lemma_number_reads_as(value: Scalar, at: Location)
    requires
        number_result(value, at) is Ok,
    ensures
        reads_as(value, number_value(value)),
        number_result(value, at) == Ok::<u64, Fault>(number_value(value)),
{
    if let Scalar::Int(i) = value {
        lemma_double_of_int(i as int);
    }
}

/// An accepted matrix holds the doubles of the cells of `x`, in their rows and
/// columns.
pub proof fn law_accepted_matrices_hold_cells_in_order(x: Seq<Row>)
    requires
        matrix_result(x) is Ok,
    ensures
        holds_cells_in_order(x, matrix_result(x)->Ok_0.0),
{
    law_accepted_matrices_are_rectangular_and_finite(x);
    let rows = matrix_result(x)->Ok_0.0;
    assert forall|i: int| 0 <= i < x.len() implies (#[trigger] x[i] matches Row::Array(cells)
        && rows[i].len() == cells@.len() && forall|j: int|
        0 <= j < cells@.len() ==> reads_as(#[trigger] cells@[j], rows[i][j])) by {
        if let Row::Array(cells) = x[i] {
            assert(rows[i] == row_values(x[i]));
            assert forall|j: int| 0 <= j < cells@.len() implies reads_as(
                #[trigger] cells@[j],
                rows[i][j],
            ) by {
                assert(number_result(cells@[j], Location::Feature((i as nat) as usize, j as usize))
                    is Ok);
                lemma_number_reads_as(
                    cells@[j],
                    Location::Feature((i as nat) as usize, j as usize),
                );
            }
        }
    }
}

/// An accepted training request fits the doubles of `x` in their rows and
/// columns, and the doubles of the regression targets, or the integer labels,
/// in the order of `y`.
pub proof fn law_training_takes_inputs_in_order(
    x: Seq<Row>,
    y: Seq<Scalar>,
    name: Seq<char>,
    options: Seq<(String, Scalar)>,
)
    requires
        training_result(x, y, name, options) is Ok,
    ensures
        ({
            let plan = training_result(x, y, name, options)->Ok_0;
            &&& holds_cells_in_order(x, plan.rows)
            &&& plan.features == row_width(x[0])
            &&& match plan.fit {
                FitView::Linear { targets } => targets.len() == y.len() && forall|j: int|
                    0 <= j < y.len() ==> reads_as(#[trigger] y[j], targets[j]),
                FitView::Lasso { targets, .. } => targets.len() == y.len() && forall|j: int|
                    0 <= j < y.len() ==> reads_as(#[trigger] y[j], targets[j]),
                FitView::Logistic { labels, .. } => labels.len() == y.len() && forall|j: int|
                    0 <= j < y.len() ==> #[trigger] y[j] == Scalar::Int(labels[j]),
            }
        }),
{
    law_accepted_matrices_hold_cells_in_order(x);
    law_accepted_training_requests(x, y, name, options);
    let plan = training_result(x, y, name, options)->Ok_0;
    match plan.fit {
        FitView::Linear { targets } => {
            assert forall|j: int| 0 <= j < y.len() implies reads_as(#[trigger] y[j], targets[j]) by {
                assert(targets_taken(y, targets));
                lemma_number_reads_as(y[j], Location::Target(j as usize));
            }
        },
        FitView::Lasso { targets, .. } => {
            assert forall|j: int| 0 <= j < y.len() implies reads_as(#[trigger] y[j], targets[j]) by {
                assert(targets_taken(y, targets));
                lemma_number_reads_as(y[j], Location::Target(j as usize));
            }
        },
        FitView::Logistic { .. } => {},
    }
}

/// An accepted prediction request applies the model to the doubles of `x` in
/// their rows and columns, with as many columns as the model expects.
pub proof fn law_prediction_takes_cells_in_order(x: Seq<Row>, model: ModelView)
    requires
        prediction_result(x, model) is Ok,
    ensures
        holds_cells_in_order(x, prediction_result(x, model)->Ok_0.1),
        row_width(x[0]) == model.features,
        algorithm_named(model.model_type) == Some(prediction_result(x, model)->Ok_0.0),
{
    law_accepted_matrices_hold_cells_in_order(x);
}

/// The first `alpha` entry is found, when the entries before it have other keys.
proof fn lemma_first_alpha_entry(options: Seq<(String, Scalar)>, from: nat, k: int)
    requires
        from <= k < options.len(),
        options[k].0@ == "alpha"@,
        forall|m: int| from <= m < k ==> (#[trigger] options[m]).0@ != "alpha"@,
    ensures
        alpha_entry(options, from) == Some(options[k].1),
    decreases k - from,
{
    if from < k {
        lemma_first_alpha_entry(options, from + 1, k);
    }
}

/// When the options are accepted and give `alpha`, the penalty that reaches
/// the fit is the double that the given value reads as; when they give none,
/// none does.
pub proof fn law_given_alpha_reaches_the_fit(
    algorithm: Algorithm,
    options: Seq<(String, Scalar)>,
    k: int,
)
    requires
        alpha_result(algorithm, options) is Ok,
        0 <= k < options.len(),
        options[k].0@ == "alpha"@,
        forall|m: int| 0 <= m < k ==> (#[trigger] options[m]).0@ != "alpha"@,
    ensures
        alpha_result(algorithm, options) matches Ok(Some(bits)) && reads_as(options[k].1, bits)
            && !is_below_zero(bits),
{
    lemma_first_alpha_entry(options, 0, k);
    let value = options[k].1;
    lemma_number_reads_as(value, Location::Alpha);
}

/// Options with no `alpha` entry that are accepted leave the penalty unset.
pub proof fn law_without_alpha_no_penalty_is_given(
    algorithm: Algorithm,
    options: Seq<(String, Scalar)>,
)
    requires
        alpha_result(algorithm, options) is Ok,
        forall|m: int| 0 <= m < options.len() ==> (#[trigger] options[m]).0@ != "alpha"@,
    ensures
        alpha_result(algorithm, options) == Ok::<Option<u64>, Fault>(None),
{
    lemma_no_alpha_entry(options, 0);
}

proof fn lemma_no_alpha_entry(options: Seq<(String, Scalar)>, from: nat)
    requires
        forall|m: int| 0 <= m < options.len() ==> (#[trigger] options[m]).0@ != "alpha"@,
    ensures
        alpha_entry(options, from) is None,
    decreases options.len() - from,
{
    if from < options.len() {
        lemma_no_alpha_entry(options, from + 1);
    }
}

/// Regression predictions are accepted exactly when every one of them is
/// finite, and are then passed on unchanged.
pub proof fn law_predictions_accept_exactly_the_finite(values: Seq<u64>)
    ensures
        predictions_result(values) is Ok <==> forall|i: int|
            0 <= i < values.len() ==> is_finite(#[trigger] values[i]),
        predictions_result(values) is Ok ==> predictions_result(values)->Ok_0 == values,
        forall|i: int|
            0 <= i < values.len() && !is_finite(#[trigger] values[i]) ==> predictions_result(values)
                == Err::<Seq<u64>, Fault>(Fault::NonFinitePrediction),
{
}

/// The model that training hands back holds exactly the bytes the backend
/// serialized, the number of features of the plan, and a model type name that
/// stands for the model type that was fit.
pub proof fn law_trained_models_hold_their_parts(plan: PlanView, saved_model: Seq<u8>)
    ensures
        trained_model(plan, saved_model).saved_model == saved_model,
        trained_model(plan, saved_model).features == plan.features,
        algorithm_named(trained_model(plan, saved_model).model_type) == Some(
            fit_algorithm(plan.fit),
        ),
{
    lemma_algorithm_name_round_trip(fit_algorithm(plan.fit));
}

/// Cells that are all numbers raise no error.
proof fn lemma_numbers_accepted(cells: Seq<Scalar>, row: nat, from: nat)
    requires
        forall|j: int| 0 <= j < cells.len() ==> is_number(#[trigger] cells[j]),
    ensures
        cells_fault(cells, row, from) is None,
    decreases cells.len() - from,
{
    if from < cells.len() {
        lemma_numbers_accepted(cells, row, from + 1);
    }
}

/// Rows of a matrix raise no error.
proof fn lemma_matrix_rows_accepted(x: Seq<Row>, columns: nat, from: nat)
    requires
        is_matrix(x, columns),
    ensures
        rows_fault(x, from) is None,
    decreases x.len() - from,
{
    if from < x.len() {
        lemma_matrix_rows_accepted(x, columns, from + 1);
        assert(x[0] matches Row::Array(cells) && cells@.len() == columns);
        if let Row::Array(cells) = x[from as int] {
            lemma_numbers_accepted(cells@, from, 0);
        }
    }
}

/// Every matrix is accepted: rows that are arrays of the same nonzero length,
/// holding only integers and finite floats of any sign.
pub proof fn law_matrices_are_accepted(x: Seq<Row>, columns: nat)
    requires
        is_matrix(x, columns),
    ensures
        matrix_result(x) matches Ok((rows, width)) && width == columns && holds_cells_in_order(
            x,
            rows,
        ),
{
    lemma_matrix_rows_accepted(x, columns, 0);
    assert(x[0] matches Row::Array(cells) && cells@.len() == columns);
    law_accepted_matrices_hold_cells_in_order(x);
}

/// Targets that are all numbers raise no error.
proof fn lemma_number_targets_accepted(y: Seq<Scalar>, from: nat)
    requires
        forall|j: int| 0 <= j < y.len() ==> is_number(#[trigger] y[j]),
    ensures
        targets_fault(y, from) is None,
    decreases y.len() - from,
{
    if from < y.len() {
        lemma_number_targets_accepted(y, from + 1);
    }
}

/// Targets that are all integers raise no error.
proof fn lemma_integer_labels_accepted(y: Seq<Scalar>, from: nat)
    requires
        forall|j: int| 0 <= j < y.len() ==> #[trigger] y[j] is Int,
    ensures
        labels_fault(y, from) is None,
    decreases y.len() - from,
{
    if from < y.len() {
        lemma_integer_labels_accepted(y, from + 1);
    }
}

/// A value `alpha` may take: an integer that is not negative, or a finite float
/// that is not below zero.
pub open spec fn is_penalty(value: Scalar) -> bool {
    match value {
        Scalar::Int(i) => i >= 0,
        Scalar::Float(f) => is_finite(f) && !is_below_zero(f),
        Scalar::Other => false,
    }
}

/// Options a model type takes: none for linear regression, only `alpha` with
/// a penalty value for lasso and logistic regression.
pub open spec fn takes_options(algorithm: Algorithm, options: Seq<(String, Scalar)>) -> bool {
    forall|k: int|
        0 <= k < options.len() ==> algorithm != Algorithm::Linear && (#[trigger] options[k]).0@
            == "alpha"@ && is_penalty(options[k].1)
}

/// A nonnegative integer's double is not below zero.
proof fn lemma_nonnegative_integer_double(i: i64)
    requires
        i >= 0,
    ensures
        !is_below_zero(double_of_int(i as int)),
{
    lemma_double_of_int(i as int);
    assert(nearest_double(i as int) >= 0);
}

/// Every training request in the documented form is accepted: a known model
/// type; options it takes; a matrix; one target per row, each a number (or, for
/// logistic regression, an integer); and, for linear and lasso regression, more
/// rows than columns.
pub proof fn law_well_formed_training_requests_are_accepted(
    x: Seq<Row>,
    y: Seq<Scalar>,
    name: Seq<char>,
    options: Seq<(String, Scalar)>,
    columns: nat,
)
    requires
        algorithm_named(name) is Some,
        takes_options(algorithm_named(name)->Some_0, options),
        is_matrix(x, columns),
        y.len() == x.len(),
        algorithm_named(name) != Some(Algorithm::Logistic) ==> x.len() > columns && forall|j: int|
            0 <= j < y.len() ==> is_number(#[trigger] y[j]),
        algorithm_named(name) == Some(Algorithm::Logistic) ==> forall|j: int|
            0 <= j < y.len() ==> #[trigger] y[j] is Int,
    ensures
        training_result(x, y, name, options) is Ok,
{
    let algorithm = algorithm_named(name)->Some_0;
    law_matrices_are_accepted(x, columns);
    lemma_no_refused_option(algorithm, options, 0);
    if options.len() > 0 {
        lemma_first_alpha_entry(options, 0, 0);
        let value = options[0].1;
        assert(is_penalty(value));
        if let Scalar::Int(i) = value {
            lemma_nonnegative_integer_double(i);
        }
    } else {
        lemma_no_alpha_entry(options, 0);
    }
    assert(alpha_result(algorithm, options) is Ok);
    if algorithm == Algorithm::Logistic {
        lemma_integer_labels_accepted(y, 0);
    } else {
        lemma_number_targets_accepted(y, 0);
    }
}

proof fn lemma_no_refused_option(algorithm: Algorithm, options: Seq<(String, Scalar)>, from: nat)
    requires
        takes_options(algorithm, options),
    ensures
        refused_option(algorithm, options, from) is None,
    decreases options.len() - from,
{
    if from < options.len() {
        assert(!refuses_option(algorithm, options[from as int].0@));
        lemma_no_refused_option(algorithm, options, from + 1);
    }
}

/// Every row and cell index of `x` fits in a `usize`, as in any matrix that
/// a program holds.
pub open spec fn indexable(x: Seq<Row>) -> bool {
    &&& x.len() <= usize::MAX
    &&& forall|i: int|
        0 <= i < x.len() ==> (#[trigger] x[i] matches Row::Array(cells) ==> cells@.len()
            <= usize::MAX)
}

/// What a refusal of a matrix says is so of `x`: the row, the lengths or the
/// cell that it names are there and are as it says.
pub open spec fn matrix_refusal_is_true(fault: Fault, x: Seq<Row>) -> bool {
    match fault {
        Fault::NoRows => x.len() == 0,
        Fault::RowNotArray { row } => row < x.len() && x[row as int] is Other,
        Fault::NoFeatures => {
            &&& x.len() > 0
            &&& x[0] matches Row::Array(cells)
            &&& cells@.len() == 0
        },
        Fault::RowWidth { row, found, expected } => {
            &&& 0 < row < x.len()
            &&& x[row as int] matches Row::Array(cells)
            &&& cells@.len() == found
            &&& x[0] matches Row::Array(first)
            &&& first@.len() == expected
            &&& found != expected
        },
        Fault::NotANumber { at } => {
            &&& at matches Location::Feature(i, j)
            &&& i < x.len()
            &&& x[i as int] matches Row::Array(cells)
            &&& j < cells@.len()
            &&& cells@[j as int] is Other
        },
        Fault::NotFinite { at } => {
            &&& at matches Location::Feature(i, j)
            &&& i < x.len()
            &&& x[i as int] matches Row::Array(cells)
            &&& j < cells@.len()
            &&& cells@[j as int] matches Scalar::Float(bits)
            &&& !is_finite(bits)
        },
        _ => false,
    }
}

/// The first failing cell, from `from` on.
proof fn lemma_failing_cell(cells: Seq<Scalar>, row: nat, from: nat) -> (j: int)
    requires
        cells_fault(cells, row, from) is Some,
    ensures
        from <= j < cells.len(),
        number_result(cells[j], Location::Feature(row as usize, j as usize)) == Err::<u64, Fault>(
            cells_fault(cells, row, from)->Some_0,
        ),
    decreases cells.len() - from,
{
    if number_result(cells[from as int], Location::Feature(row as usize, from as usize)) is Err {
        from as int
    } else {
        lemma_failing_cell(cells, row, from + 1)
    }
}

/// The first failing row, from `from` on.
proof fn lemma_failing_row(x: Seq<Row>, from: nat) -> (k: int)
    requires
        rows_fault(x, from) is Some,
    ensures
        from <= k < x.len(),
        row_fault(x[k], k as nat, row_width(x[0])) == rows_fault(x, from),
        forall|m: int| from <= m < k ==> row_fault(#[trigger] x[m], m as nat, row_width(x[0])) is None,
    decreases x.len() - from,
{
    if row_fault(x[from as int], from, row_width(x[0])) is Some {
        from as int
    } else {
        lemma_failing_row(x, from + 1)
    }
}

/// Every refusal of a matrix is true of it.
pub proof fn law_matrix_refusals_are_true(x: Seq<Row>)
    requires
        indexable(x),
    ensures
        matrix_result(x) matches Err(fault) ==> matrix_refusal_is_true(fault, x),
{
    if x.len() > 0 && rows_fault(x, 0) is Some {
        let k = lemma_failing_row(x, 0);
        let fault = rows_fault(x, 0)->Some_0;
        if k > 0 {
            assert(row_fault(x[0], 0, row_width(x[0])) is None);
        }
        if let Row::Array(cells) = x[k] {
            if row_fault(x[k], k as nat, row_width(x[0])) == cells_fault(cells@, k as nat, 0) {
                if cells_fault(cells@, k as nat, 0) is Some {
                    let j = lemma_failing_cell(cells@, k as nat, 0);
                    assert(((k as nat) as usize) as int == k);
                    assert((j as usize) as int == j);
                }
            }
        }
    }
}

/// The first target that is not a finite number, from `from` on.
proof fn lemma_failing_target(y: Seq<Scalar>, from: nat) -> (j: int)
    requires
        targets_fault(y, from) is Some,
    ensures
        from <= j < y.len(),
        number_result(y[j], Location::Target(j as usize)) == Err::<u64, Fault>(
            targets_fault(y, from)->Some_0,
        ),
    decreases y.len() - from,
{
    if number_result(y[from as int], Location::Target(from as usize)) is Err {
        from as int
    } else {
        lemma_failing_target(y, from + 1)
    }
}

/// The first target that is not an integer, from `from` on.
proof fn lemma_failing_label(y: Seq<Scalar>, from: nat) -> (j: int)
    requires
        labels_fault(y, from) is Some,
    ensures
        from <= j < y.len(),
        !(y[j] is Int),
        labels_fault(y, from) == Some(Fault::NotClassLabel { index: j as nat }),
    decreases y.len() - from,
{
    if !(y[from as int] is Int) {
        from as int
    } else {
        lemma_failing_label(y, from + 1)
    }
}

/// The first refused option, from `from` on.
proof fn lemma_refused_option_entry(
    algorithm: Algorithm,
    options: Seq<(String, Scalar)>,
    from: nat,
) -> (k: int)
    requires
        refused_option(algorithm, options, from) is Some,
    ensures
        from <= k < options.len(),
        refused_option(algorithm, options, from) == Some(options[k].0@),
        refuses_option(algorithm, options[k].0@),
    decreases options.len() - from,
{
    if refuses_option(algorithm, options[from as int].0@) {
        from as int
    } else {
        lemma_refused_option_entry(algorithm, options, from + 1)
    }
}

/// The first `alpha` entry, from `from` on.
proof fn lemma_alpha_entry_index(options: Seq<(String, Scalar)>, from: nat) -> (k: int)
    requires
        alpha_entry(options, from) is Some,
    ensures
        from <= k < options.len(),
        options[k].0@ == "alpha"@,
        alpha_entry(options, from) == Some(options[k].1),
    decreases options.len() - from,
{
    if options[from as int].0@ == "alpha"@ {
        from as int
    } else {
        lemma_alpha_entry_index(options, from + 1)
    }
}

/// What a refusal of a training request says is so of the request.
pub open spec fn training_refusal_is_true(
    fault: Fault,
    x: Seq<Row>,
    y: Seq<Scalar>,
    name: Seq<char>,
    options: Seq<(String, Scalar)>,
) -> bool {
    match fault {
        Fault::UnknownAlgorithm { name: given } => given == name && algorithm_named(name) is None,
        Fault::LinearOption { key } => algorithm_named(name) == Some(Algorithm::Linear) && exists|
            k: int,
        | 0 <= k < options.len() && (#[trigger] options[k]).0@ == key,
        Fault::UnknownOption { key, algorithm } => algorithm_named(name) == Some(algorithm)
            && algorithm != Algorithm::Linear && key != "alpha"@ && exists|k: int|
            0 <= k < options.len() && (#[trigger] options[k]).0@ == key,
        Fault::NegativeAlpha => exists|k: int|
            0 <= k < options.len() && (#[trigger] options[k]).0@ == "alpha"@ && match options[k].1 {
                Scalar::Int(i) => i < 0,
                Scalar::Float(bits) => is_finite(bits) && is_below_zero(bits),
                Scalar::Other => false,
            },
        Fault::NotANumber { at } => match at {
            Location::Alpha => exists|k: int|
                0 <= k < options.len() && (#[trigger] options[k]).0@ == "alpha"@ && options[k].1 is Other,
            Location::Target(j) => j < y.len() && y[j as int] is Other,
            Location::Feature(_, _) => matrix_refusal_is_true(fault, x),
        },
        Fault::NotFinite { at } => match at {
            Location::Alpha => exists|k: int|
                0 <= k < options.len() && (#[trigger] options[k]).0@ == "alpha"@ && (
                match options[k].1 {
                    Scalar::Float(bits) => !is_finite(bits),
                    _ => false,
                }),
            Location::Target(j) => j < y.len() && (match y[j as int] {
                Scalar::Float(bits) => !is_finite(bits),
                _ => false,
            }),
            Location::Feature(_, _) => matrix_refusal_is_true(fault, x),
        },
        Fault::TargetCount { found, expected } => found == y.len() && expected == x.len() && found
            != expected,
        Fault::TooFewRows { algorithm } => algorithm_named(name) == Some(algorithm) && algorithm
            != Algorithm::Logistic && x.len() <= row_width(x[0]),
        Fault::NotClassLabel { index } => algorithm_named(name) == Some(Algorithm::Logistic)
            && index < y.len() && !(y[index as int] is Int),
        _ => matrix_refusal_is_true(fault, x),
    }
}

/// Every refusal of a training request is true of it: the option, the value,
/// the counts or the index that it names are there and are as it says.
pub proof fn law_training_refusals_are_true(
    x: Seq<Row>,
    y: Seq<Scalar>,
    name: Seq<char>,
    options: Seq<(String, Scalar)>,
)
    requires
        indexable(x),
        y.len() <= usize::MAX,
    ensures
        training_result(x, y, name, options) matches Err(fault) ==> training_refusal_is_true(
            fault,
            x,
            y,
            name,
            options,
        ),
{
    if let Some(algorithm) = algorithm_named(name) {
        if refused_option(algorithm, options, 0) is Some {
            let k = lemma_refused_option_entry(algorithm, options, 0);
            assert(options[k].0@ == refused_option(algorithm, options, 0)->Some_0);
        } else if alpha_entry(options, 0) is Some {
            let k = lemma_alpha_entry_index(options, 0);
            let value = options[k].1;
            if let Scalar::Int(i) = value {
                if i >= 0 {
                    lemma_nonnegative_integer_double(i);
                }
            }
            assert(options[k].0@ == "alpha"@);
        }
        if alpha_result(algorithm, options) is Ok {
            law_matrix_refusals_are_true(x);
            if let Ok((rows, features)) = matrix_result(x) {
                if y.len() == x.len() {
                    if algorithm == Algorithm::Logistic {
                        if labels_fault(y, 0) is Some {
                            let j = lemma_failing_label(y, 0);
                            assert((j as nat) as int == j);
                        }
                    } else if targets_fault(y, 0) is Some {
                        let j = lemma_failing_target(y, 0);
                        assert((j as usize) as int == j);
                    }
                }
            }
        }
    }
}

/// What a refusal of a prediction request says is so of the request.
pub open spec fn prediction_refusal_is_true(fault: Fault, x: Seq<Row>, model: ModelView) -> bool {
    match fault {
        Fault::FeatureCount { found, expected } => found == row_width(x[0]) && x[0] is Array
            && expected == model.features && found != expected,
        Fault::UnknownModelType { name } => name == model.model_type && algorithm_named(name) is None,
        _ => matrix_refusal_is_true(fault, x),
    }
}

/// Every refusal of a prediction request is true of it.
pub proof fn law_prediction_refusals_are_true(x: Seq<Row>, model: ModelView)
    requires
        indexable(x),
    ensures
        prediction_result(x, model) matches Err(fault) ==> prediction_refusal_is_true(
            fault,
            x,
            model,
        ),
{
    law_matrix_refusals_are_true(x);
    if matrix_result(x) is Ok {
        law_accepted_matrices_are_rectangular_and_finite(x);
    }
}

/// A value is read as a number exactly when it is an integer or a finite
/// float, and then as the double it stands for.
pub proof fn law_numbers_read_as_their_doubles(value: Scalar, at: Location)
    ensures
        number_result(value, at) is Ok <==> is_number(value),
        number_result(value, at) matches Ok(bits) ==> reads_as(value, bits),
        value is Other ==> number_result(value, at) == Err::<u64, Fault>(Fault::NotANumber { at }),
        (value matches Scalar::Float(bits) && !is_finite(bits)) ==> number_result(value, at)
            == Err::<u64, Fault>(Fault::NotFinite { at }),
{
    if number_result(value, at) is Ok {
        lemma_number_reads_as(value, at);
    }
}

/// Rounding to double precision keeps integers below 2^53 and otherwise gives
/// the multiple of the unit of the 53rd significant bit nearest to the
/// integer, a tie going to the even multiple.
pub proof fn law_rounding_is_to_nearest_even(a: nat)
    requires
        a >= 1,
    ensures
        top_bit(a) <= 52 ==> round_to_double_precision(a) == a,
        top_bit(a) > 52 ==> {
            let unit = pow2((top_bit(a) - 52) as nat);
            let r = round_to_double_precision(a) as int;
            let distance = if r >= a {
                r - a
            } else {
                a - r
            };
            &&& r % unit as int == 0
            &&& 2 * distance <= unit
            &&& 2 * distance == unit ==> (r / unit as int) % 2 == 0
        },
{
    let e = top_bit(a);
    if e > 52 {
        let unit = pow2((e - 52) as nat);
        vstd::arithmetic::power2::lemma_pow2_pos((e - 52) as nat);
        lemma_pow2_unfold((e - 52) as nat);
        let q = a / unit;
        let rem = a % unit;
        vstd::arithmetic::div_mod::lemma_fundamental_div_mod(a as int, unit as int);
        let r = round_to_double_precision(a) as int;
        if 2 * rem > unit || (2 * rem == unit && q % 2 == 1) {
            assert(r == (q + 1) * unit);
            assert(r == q * unit + unit) by (nonlinear_arith)
                requires
                    r == (q + 1) * unit,
            ;
            vstd::arithmetic::div_mod::lemma_mod_multiples_basic((q + 1) as int, unit as int);
            vstd::arithmetic::div_mod::lemma_div_multiples_vanish((q + 1) as int, unit as int);
            assert((q + 1) * unit == unit * (q + 1)) by (nonlinear_arith);
        } else {
            assert(r == q * unit);
            vstd::arithmetic::div_mod::lemma_mod_multiples_basic(q as int, unit as int);
            vstd::arithmetic::div_mod::lemma_div_multiples_vanish(q as int, unit as int);
            assert(q * unit == unit * q) by (nonlinear_arith);
        }
    }
}

/// The checks of training come in the documented order: the model type, then
/// the options, then the matrix, then the number of targets. Each refuses the
/// request with its own error whatever the later inputs are.
pub proof fn law_training_checks_come_in_order(
    x: Seq<Row>,
    y: Seq<Scalar>,
    name: Seq<char>,
    options: Seq<(String, Scalar)>,
)
    ensures
        algorithm_named(name) is None ==> training_result(x, y, name, options) == Err::<
            PlanView,
            Fault,
        >(Fault::UnknownAlgorithm { name }),
        algorithm_named(name) matches Some(algorithm) ==> {
            &&& alpha_result(algorithm, options) matches Err(fault) ==> training_result(
                x,
                y,
                name,
                options,
            ) == Err::<PlanView, Fault>(fault)
            &&& alpha_result(algorithm, options) is Ok ==> (matrix_result(x) matches Err(fault)
                ==> training_result(x, y, name, options) == Err::<PlanView, Fault>(fault))
            &&& (alpha_result(algorithm, options) is Ok && matrix_result(x) is Ok && y.len()
                != x.len()) ==> training_result(x, y, name, options) == Err::<PlanView, Fault>(
                Fault::TargetCount { found: y.len(), expected: x.len() },
            )
        },
{
}

/// A prediction request is refused first for its matrix, with the error that
/// reading the matrix gives.
pub proof fn law_prediction_checks_the_matrix_first(x: Seq<Row>, model: ModelView)
    ensures
        matrix_result(x) matches Err(fault) ==> prediction_result(x, model) == Err::<
            (Algorithm, Seq<Seq<u64>>),
            Fault,
        >(fault),
{
}

} // verus!
