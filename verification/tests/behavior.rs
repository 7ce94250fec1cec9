use rhai_ml::{
    plan_prediction, plan_training, Algorithm, MlError, Model, PredictionPlan, Row, Scalar,
    TrainingPlan,
};

fn integer(i: i64) -> Scalar {
    Scalar::Int(i)
}

fn float(f: f64) -> Scalar {
    Scalar::Float(f.to_bits())
}

fn row(cells: &[Scalar]) -> Row {
    Row::Array(cells.to_vec())
}

fn ints(values: &[i64]) -> Vec<Scalar> {
    values.iter().map(|v| Scalar::Int(*v)).collect()
}

/// `[[v0], [v1], ...]`
fn column(values: &[i64]) -> Vec<Row> {
    values.iter().map(|v| row(&[Scalar::Int(*v)])).collect()
}

fn assert_training_error(result: Result<TrainingPlan, MlError>, expected: &str) {
    let error = result.expect_err("training should be refused");
    let message = error.message();
    assert!(
        message.contains(expected),
        "expected {expected:?}, got {message}"
    );
}

fn assert_prediction_error(result: Result<PredictionPlan, MlError>, expected: &str) {
    let error = result.expect_err("prediction should be refused");
    let message = error.message();
    assert!(
        message.contains(expected),
        "expected {expected:?}, got {message}"
    );
}

/// The model that training hands back for a request, with an empty serialized model.
fn trained(x: &[Row], y: &[Scalar], algorithm: &str) -> Model {
    let plan = plan_training(&x.to_vec(), &y.to_vec(), algorithm).expect("training is accepted");
    Model::from_training(&plan, Vec::new())
}

#[test]
fn malformed_training_matrices_return_errors_for_every_algorithm() {
    for algorithm in ["linear", "lasso", "logistic"] {
        let cases: Vec<(Vec<Row>, &str)> = vec![
            (vec![], "at least one row"),
            (vec![row(&[])], "at least one feature"),
            (vec![Row::Other, Row::Other], "x[0] must be an array"),
            (vec![row(&[integer(1)]), Row::Other], "x[1] must be an array"),
            (
                vec![row(&[integer(1), integer(2)]), row(&[integer(3)])],
                "x[1] has 1 features; expected 2",
            ),
            (
                vec![row(&[integer(1)]), row(&[integer(2), integer(3)])],
                "x[1] has 2 features; expected 1",
            ),
            (vec![row(&[integer(1)]), row(&[])], "x[1] has 0 features; expected 1"),
            (
                vec![row(&[Scalar::Other]), row(&[integer(2)])],
                "x[0][0] must be a number",
            ),
            (
                vec![row(&[integer(1)]), row(&[Scalar::Other])],
                "x[1][0] must be a number",
            ),
            (
                vec![row(&[Scalar::Other]), row(&[integer(2)])],
                "x[0][0] must be a number",
            ),
        ];
        for (matrix, expected) in cases {
            assert_training_error(plan_training(&matrix, &ints(&[0, 1]), algorithm), expected);
        }
    }
}

#[test]
fn target_lengths_must_match_training_rows() {
    for algorithm in ["linear", "lasso", "logistic"] {
        for targets in [ints(&[]), ints(&[0]), ints(&[0, 1, 2])] {
            assert_training_error(
                plan_training(&column(&[0, 1]), &targets, algorithm),
                "expected 2 (one per row of x)",
            );
        }
    }
}

#[test]
fn regression_targets_must_be_numeric() {
    for algorithm in ["linear", "lasso"] {
        // `"bad"`, `true` and `[]` are each read as a value that is not a number.
        let not_a_number = vec![integer(1), Scalar::Other, integer(3)];
        for targets in [not_a_number.clone(), not_a_number.clone(), not_a_number] {
            assert_training_error(
                plan_training(&column(&[0, 1, 2]), &targets, algorithm),
                "y[1] must be a number",
            );
        }
    }
}

#[test]
fn logistic_requires_integer_class_labels() {
    for targets in [
        vec![float(0.0), float(1.0)],
        vec![integer(0), float(1.0)],
        // `[false, true]` and `["a", "b"]`.
        vec![Scalar::Other, Scalar::Other],
        vec![Scalar::Other, Scalar::Other],
    ] {
        assert_training_error(
            plan_training(&column(&[0, 1]), &targets, "logistic"),
            "must be an integer class label",
        );
    }
}

#[test]
fn unknown_algorithms_return_a_useful_error() {
    assert_training_error(
        plan_training(&column(&[0, 1]), &ints(&[0, 1]), "unknown"),
        "expected linear, lasso, or logistic",
    );
}

#[test]
fn malformed_prediction_matrices_return_errors() {
    for algorithm in ["linear", "lasso", "logistic"] {
        let model = trained(&column(&[0, 1, 2, 3]), &ints(&[0, 0, 1, 1]), algorithm);
        let cases: Vec<(Vec<Row>, &str)> = vec![
            (vec![], "at least one row"),
            (vec![row(&[])], "at least one feature"),
            (vec![Row::Other], "x[0] must be an array"),
            (
                vec![row(&[integer(1)]), row(&[integer(2), integer(3)])],
                "x[1] has 2 features; expected 1",
            ),
            (vec![row(&[Scalar::Other])], "x[0][0] must be a number"),
            (vec![row(&[integer(1), integer(2)])], "x has 2 features; model expects 1"),
        ];
        for (query, expected) in cases {
            assert_prediction_error(plan_prediction(&query, &model), expected);
        }
    }
}

#[test]
fn predictions_reject_too_few_features() {
    let x = vec![
        row(&[integer(0), integer(0)]),
        row(&[integer(1), integer(0)]),
        row(&[integer(0), integer(1)]),
        row(&[integer(1), integer(1)]),
    ];
    let model = trained(&x, &ints(&[1, 3, 4, 6]), "linear");
    assert_prediction_error(
        plan_prediction(&column(&[1]), &model),
        "x has 1 features; model expects 2",
    );
}

#[test]
fn non_finite_numbers_return_errors() {
    for value in [f64::NAN, f64::INFINITY, f64::NEG_INFINITY] {
        let bad = float(value);
        assert_training_error(
            plan_training(&vec![row(&[bad]), row(&[integer(1)])], &ints(&[0, 1]), "linear"),
            "x[0][0] must be finite",
        );
        assert_training_error(
            plan_training(&column(&[0, 1]), &vec![integer(0), bad], "linear"),
            "y[1] must be finite",
        );
        assert_training_error(
            plan_training(&column(&[0, 1]), &vec![integer(0), bad], "lasso"),
            "y[1] must be finite",
        );
        assert_training_error(
            plan_training(&vec![row(&[bad]), row(&[integer(1)])], &ints(&[0, 1]), "logistic"),
            "x[0][0] must be finite",
        );
        let model = trained(&column(&[0, 1, 2]), &ints(&[0, 1, 2]), "linear");
        assert_prediction_error(
            plan_prediction(&vec![row(&[bad])], &model),
            "x[0][0] must be finite",
        );
    }
}

#[test]
fn underdetermined_regression_training_returns_an_error() {
    for algorithm in ["linear", "lasso"] {
        let cases: Vec<(Vec<Row>, Vec<Scalar>)> = vec![
            (vec![row(&[integer(1), integer(2)])], ints(&[1])),
            (vec![row(&[integer(1)])], ints(&[1])),
            (
                vec![row(&[integer(1), integer(2)]), row(&[integer(3), integer(4)])],
                ints(&[1, 2]),
            ),
        ];
        for (x, y) in cases {
            assert_training_error(plan_training(&x, &y, algorithm), "more rows than features");
        }
    }
}

#[test]
fn accepted_training_keeps_the_matrix_and_targets() {
    let x = vec![row(&[integer(0)]), row(&[float(1.0)]), row(&[integer(2)]), row(&[float(3.0)])];
    let y = vec![integer(1), float(3.0), integer(5), float(7.0)];
    let plan = plan_training(&x, &y, "linear").unwrap();
    let bits = |values: &[f64]| values.iter().map(|v| v.to_bits()).collect::<Vec<u64>>();
    assert_eq!(plan.features, 1);
    assert_eq!(
        plan.rows,
        vec![bits(&[0.0]), bits(&[1.0]), bits(&[2.0]), bits(&[3.0])]
    );
    match plan.fit {
        rhai_ml::Fit::Linear { targets } => assert_eq!(targets, bits(&[1.0, 3.0, 5.0, 7.0])),
        other => panic!("unexpected fit {other:?}"),
    }
    let model = Model::from_training(&plan_training(&x, &y, "linear").unwrap(), vec![7, 8]);
    assert_eq!(model.saved_model(), &vec![7, 8]);
    assert_eq!(model.model_type(), "linear");
    assert_eq!(model.features(), 1);
    let prediction = plan_prediction(&vec![row(&[integer(4)]), row(&[float(5.0)])], &model).unwrap();
    assert_eq!(prediction.algorithm, Algorithm::Linear);
    assert_eq!(prediction.rows, vec![bits(&[4.0]), bits(&[5.0])]);
}

#[test]
fn logistic_training_keeps_integer_class_labels() {
    let plan = plan_training(
        &column(&[-3, -2, -1, 1, 2, 3]),
        &ints(&[-5, -5, -5, 7, 7, 7]),
        "logistic",
    )
    .unwrap();
    match plan.fit {
        rhai_ml::Fit::Logistic { labels, alpha } => {
            assert_eq!(labels, vec![-5, -5, -5, 7, 7, 7]);
            assert_eq!(alpha, None);
        }
        other => panic!("unexpected fit {other:?}"),
    }
}
