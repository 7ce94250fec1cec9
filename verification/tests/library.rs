use rhai_ml::error::{location_string, Location, MlError};
use rhai_ml::ieee::{bits_are_below_zero, bits_are_finite, int_to_double_bits};
use rhai_ml::input::{class_labels, matrix, number, regression_targets, training_alpha};
use rhai_ml::text::decimal_string;
use rhai_ml::{plan_prediction, predictions, Algorithm, Model, Row, Scalar};

#[test]
fn integers_convert_as_rust_converts_them() {
    let mut samples: Vec<i64> = vec![
        0,
        1,
        -1,
        2,
        3,
        7,
        -42,
        1 << 52,
        (1 << 53) - 1,
        1 << 53,
        (1 << 53) + 1,
        (1 << 53) + 2,
        (1 << 53) + 3,
        (1 << 54) + 2,
        (1 << 54) + 6,
        (1 << 54) - 1,
        i64::MAX,
        i64::MAX - 1,
        i64::MIN,
        i64::MIN + 1,
        -(1 << 53) - 1,
        0x7FFF_FFFF_FFFF_FDFF,
        0x7FFF_FFFF_FFFF_FE00,
        0x7FFF_FFFF_FFFF_FC00,
    ];
    let mut state: u64 = 0x9E37_79B9_7F4A_7C15;
    for _ in 0..10_000 {
        state ^= state << 13;
        state ^= state >> 7;
        state ^= state << 17;
        let shift = (state % 64) as u32;
        samples.push((state >> shift) as i64);
        samples.push(-((state >> shift) as i64));
    }
    for i in samples {
        assert_eq!(int_to_double_bits(i), (i as f64).to_bits(), "converting {i}");
    }
}

#[test]
fn finiteness_and_sign_follow_ieee() {
    for value in [
        0.0,
        -0.0,
        1.0,
        -1.0,
        f64::MIN_POSITIVE,
        -f64::MIN_POSITIVE,
        5e-324,
        -5e-324,
        f64::MAX,
        f64::MIN,
        f64::INFINITY,
        f64::NEG_INFINITY,
        f64::NAN,
        -f64::NAN,
    ] {
        let bits = value.to_bits();
        assert_eq!(bits_are_finite(bits), value.is_finite(), "{value}");
        assert_eq!(bits_are_below_zero(bits), value < 0.0, "{value}");
    }
}

#[test]
fn decimals_are_written_without_leading_zeros() {
    assert_eq!(decimal_string(0), "0");
    assert_eq!(decimal_string(7), "7");
    assert_eq!(decimal_string(10), "10");
    assert_eq!(decimal_string(1204), "1204");
    assert_eq!(decimal_string(usize::MAX), usize::MAX.to_string());
}

#[test]
fn every_error_has_its_message() {
    let cases = [
        (
            MlError::UnknownAlgorithm { name: "svm".to_string() },
            "svm is not a recognized model type; expected linear, lasso, or logistic",
        ),
        (
            MlError::LinearOption { key: "alpha".to_string() },
            "linear does not support option 'alpha'",
        ),
        (
            MlError::UnknownOption { key: "beta".to_string(), algorithm: Algorithm::Lasso },
            "unknown option 'beta' for lasso; supported option: alpha",
        ),
        (
            MlError::NotANumber { at: Location::Feature(3, 12) },
            "x[3][12] must be a number (integer or float)",
        ),
        (
            MlError::NotFinite { at: Location::Target(5) },
            "y[5] must be finite",
        ),
        (
            MlError::NotFinite { at: Location::Alpha },
            "options.alpha must be finite",
        ),
        (MlError::NegativeAlpha, "options.alpha must be nonnegative"),
        (MlError::NoRows, "x must contain at least one row"),
        (MlError::RowNotArray { row: 10 }, "x[10] must be an array"),
        (MlError::NoFeatures, "x rows must contain at least one feature"),
        (
            MlError::RowWidth { row: 2, found: 0, expected: 31 },
            "x[2] has 0 features; expected 31",
        ),
        (
            MlError::TargetCount { found: 3, expected: 2 },
            "y has 3 targets; expected 2 (one per row of x)",
        ),
        (
            MlError::TooFewRows { algorithm: Algorithm::Linear },
            "linear training requires more rows than features",
        ),
        (
            MlError::TooFewRows { algorithm: Algorithm::Lasso },
            "lasso training requires more rows than features",
        ),
        (
            MlError::NotClassLabel { index: 1 },
            "y[1] must be an integer class label for logistic",
        ),
        (
            MlError::FeatureCount { found: 2, expected: 1 },
            "x has 2 features; model expects 1",
        ),
        (
            MlError::UnknownModelType { name: "".to_string() },
            " is not a recognized model type",
        ),
        (MlError::NonFinitePrediction, "prediction produced a non-finite value"),
    ];
    for (error, message) in cases {
        assert_eq!(error.message(), message);
    }
    assert_eq!(location_string(Location::Feature(0, 0)), "x[0][0]");
}

#[test]
fn numbers_are_read_with_their_location() {
    assert_eq!(number(Scalar::Int(3), Location::Alpha).unwrap(), 3.0f64.to_bits());
    assert_eq!(
        number(Scalar::Float(2.5f64.to_bits()), Location::Alpha).unwrap(),
        2.5f64.to_bits()
    );
    assert_eq!(
        number(Scalar::Other, Location::Target(4)).unwrap_err().message(),
        "y[4] must be a number (integer or float)"
    );
    assert_eq!(
        number(Scalar::Float(f64::NAN.to_bits()), Location::Feature(1, 2))
            .unwrap_err()
            .message(),
        "x[1][2] must be finite"
    );
}

#[test]
fn the_first_bad_cell_in_reading_order_is_reported() {
    let x = vec![
        Row::Array(vec![Scalar::Int(1), Scalar::Other]),
        Row::Array(vec![Scalar::Float(f64::NAN.to_bits()), Scalar::Int(1)]),
        Row::Other,
    ];
    assert_eq!(matrix(&x).unwrap_err().message(), "x[0][1] must be a number (integer or float)");
    let y = vec![Scalar::Int(1), Scalar::Float(f64::INFINITY.to_bits()), Scalar::Other];
    assert_eq!(regression_targets(&y).unwrap_err().message(), "y[1] must be finite");
    assert_eq!(
        class_labels(&y).unwrap_err().message(),
        "y[1] must be an integer class label for logistic"
    );
}

#[test]
fn options_are_checked_in_map_order() {
    let entries = vec![
        ("alpha".to_string(), Scalar::Other),
        ("beta".to_string(), Scalar::Int(1)),
    ];
    // An unknown key is reported before the value of `alpha` is read.
    assert_eq!(
        training_alpha(Algorithm::Logistic, &entries).unwrap_err().message(),
        "unknown option 'beta' for logistic; supported option: alpha"
    );
    assert_eq!(
        training_alpha(Algorithm::Linear, &entries).unwrap_err().message(),
        "linear does not support option 'alpha'"
    );
    assert_eq!(training_alpha(Algorithm::Linear, &vec![]).unwrap(), None);
    assert_eq!(training_alpha(Algorithm::Lasso, &vec![]).unwrap(), None);
}

#[test]
fn regression_predictions_must_be_finite() {
    let good = vec![9.0f64.to_bits(), (-11.5f64).to_bits()];
    assert_eq!(predictions(good.clone()).unwrap(), good);
    assert_eq!(predictions(vec![]).unwrap(), Vec::<u64>::new());
    for bad in [f64::INFINITY, f64::NEG_INFINITY, f64::NAN] {
        let error = predictions(vec![1.0f64.to_bits(), bad.to_bits()]).unwrap_err();
        assert_eq!(error.message(), "prediction produced a non-finite value");
    }
}

#[test]
fn an_empty_model_expects_no_features() {
    let model = Model::default();
    assert!(model.saved_model().is_empty());
    assert_eq!(model.model_type(), "");
    assert_eq!(model.features(), 0);
    let query = vec![Row::Array(vec![Scalar::Int(1)])];
    assert_eq!(
        plan_prediction(&query, &model).unwrap_err().message(),
        "x has 1 features; model expects 0"
    );
}

#[test]
fn model_types_are_found_by_name() {
    for algorithm in [Algorithm::Linear, Algorithm::Lasso, Algorithm::Logistic] {
        assert_eq!(Algorithm::from_name(&algorithm.name()), Some(algorithm));
    }
    assert_eq!(Algorithm::from_name("Linear"), None);
    assert_eq!(Algorithm::from_name(""), None);
}
