use rhai_ml::{plan_training, plan_training_with_options, Fit, MlError, Row, Scalar, TrainingPlan};

fn integer(i: i64) -> Scalar {
    Scalar::Int(i)
}

fn float(f: f64) -> Scalar {
    Scalar::Float(f.to_bits())
}

fn ints(values: &[i64]) -> Vec<Scalar> {
    values.iter().map(|v| Scalar::Int(*v)).collect()
}

/// `[[v0], [v1], ...]`
fn column(values: &[i64]) -> Vec<Row> {
    values
        .iter()
        .map(|v| Row::Array(vec![Scalar::Int(*v)]))
        .collect()
}

fn options(entries: &[(&str, Scalar)]) -> Vec<(String, Scalar)> {
    entries
        .iter()
        .map(|(key, value)| (key.to_string(), *value))
        .collect()
}

fn assert_error(result: Result<TrainingPlan, MlError>, expected: &str) {
    let message = result.expect_err("training should be refused").message();
    assert!(message.contains(expected), "{message}");
}

fn alpha_of(plan: &TrainingPlan) -> Option<u64> {
    match &plan.fit {
        Fit::Linear { .. } => None,
        Fit::Lasso { alpha, .. } => *alpha,
        Fit::Logistic { alpha, .. } => *alpha,
    }
}

#[test]
fn empty_options_preserve_every_algorithms_predictions() {
    for algorithm in ["linear", "lasso", "logistic"] {
        let x = column(&[0, 1, 2, 3, 4, 5]);
        let y = ints(&[0, 0, 0, 0, 1, 1]);
        let original = plan_training(&x, &y, algorithm).unwrap();
        let explicit = plan_training_with_options(&x, &y, algorithm, &options(&[])).unwrap();
        assert!(format!("{original:?}") == format!("{explicit:?}"));
    }
}

#[test]
fn integer_and_float_alphas_are_equivalent() {
    for algorithm in ["lasso", "logistic"] {
        let x = column(&[0, 1, 2, 3, 4, 5]);
        let y = ints(&[0, 0, 0, 0, 1, 1]);
        let integer =
            plan_training_with_options(&x, &y, algorithm, &options(&[("alpha", integer(1))]))
                .unwrap();
        let floating =
            plan_training_with_options(&x, &y, algorithm, &options(&[("alpha", float(1.0))]))
                .unwrap();
        assert!(format!("{integer:?}") == format!("{floating:?}"));
        assert_eq!(alpha_of(&integer), Some(1.0f64.to_bits()));
    }
}

#[test]
fn invalid_alpha_types_and_negative_values_return_errors() {
    for algorithm in ["lasso", "logistic"] {
        for (value, message) in [
            (integer(-1), "options.alpha must be nonnegative"),
            (float(-0.1), "options.alpha must be nonnegative"),
            // `"0.1"`, `true`, `[]`, `#{}` and `()` are not numbers.
            (Scalar::Other, "options.alpha must be a number"),
            (Scalar::Other, "options.alpha must be a number"),
            (Scalar::Other, "options.alpha must be a number"),
            (Scalar::Other, "options.alpha must be a number"),
            (Scalar::Other, "options.alpha must be a number"),
        ] {
            assert_error(
                plan_training_with_options(
                    &column(&[0, 1, 2]),
                    &ints(&[0, 0, 1]),
                    algorithm,
                    &options(&[("alpha", value)]),
                ),
                message,
            );
        }
    }
}

#[test]
fn non_finite_alpha_values_return_errors() {
    for algorithm in ["lasso", "logistic"] {
        for alpha in [f64::NAN, f64::INFINITY, f64::NEG_INFINITY] {
            let error = plan_training_with_options(
                &column(&[0, 1, 2]),
                &ints(&[0, 0, 1]),
                algorithm,
                &options(&[("alpha", float(alpha))]),
            )
            .unwrap_err();
            assert!(
                error.message().contains("options.alpha must be finite"),
                "{}",
                error.message()
            );
        }
    }
}

#[test]
fn unknown_options_are_never_ignored() {
    for algorithm in ["lasso", "logistic"] {
        // `#{ alhpa: 0.1 }` and `#{ alpha: 0.1, alhpa: 0.1 }`, in the map's key order.
        for entries in [
            options(&[("alhpa", float(0.1))]),
            options(&[("alhpa", float(0.1)), ("alpha", float(0.1))]),
        ] {
            assert_error(
                plan_training_with_options(&column(&[0, 1, 2]), &ints(&[0, 0, 1]), algorithm, &entries),
                "unknown option 'alhpa'",
            );
        }
    }
    for entries in [
        options(&[("alpha", float(0.1))]),
        options(&[("solver", Scalar::Other)]),
    ] {
        assert_error(
            plan_training_with_options(&column(&[0, 1, 2]), &ints(&[0, 0, 1]), "linear", &entries),
            "linear does not support option",
        );
    }
}

#[test]
fn overload_retains_input_and_algorithm_validation() {
    for algorithm in ["linear", "lasso", "logistic"] {
        let cases: Vec<(Vec<Row>, Vec<Scalar>, &str)> = vec![
            (vec![], ints(&[]), "at least one row"),
            (
                vec![
                    Row::Array(vec![integer(0)]),
                    Row::Array(vec![integer(1), integer(2)]),
                ],
                ints(&[0, 1]),
                "features; expected",
            ),
            (column(&[0, 1]), ints(&[0]), "one per row of x"),
        ];
        for (x, y, message) in cases {
            assert_error(plan_training_with_options(&x, &y, algorithm, &options(&[])), message);
        }
    }
    assert_error(
        plan_training_with_options(
            &column(&[0, 1]),
            &ints(&[0, 1]),
            "unknown",
            &options(&[("alpha", integer(1))]),
        ),
        "not a recognized model type",
    );
}

#[test]
fn zero_and_explicit_alphas_reach_the_fit() {
    let x = column(&[0, 1, 2, 3]);
    let y = ints(&[1, 3, 5, 7]);
    let zero = plan_training_with_options(&x, &y, "lasso", &options(&[("alpha", integer(0))])).unwrap();
    assert_eq!(alpha_of(&zero), Some(0));
    // `-0.0 < 0.0` is false, so negative zero is accepted as it is.
    let negative_zero =
        plan_training_with_options(&x, &y, "lasso", &options(&[("alpha", float(-0.0))])).unwrap();
    assert_eq!(alpha_of(&negative_zero), Some((-0.0f64).to_bits()));
    let strong =
        plan_training_with_options(&x, &y, "logistic", &options(&[("alpha", float(100.0))]))
            .unwrap();
    assert_eq!(alpha_of(&strong), Some(100.0f64.to_bits()));
}
