//! The model types that training offers.
use vstd::prelude::*;
use vstd::string::StringExecFns;

verus! {

/// A model type: ordinary least squares, lasso, or logistic regression.
#[derive(Clone, Copy, Debug, PartialEq, Eq, Structural)]
pub enum Algorithm {
    Linear,
    Lasso,
    Logistic,
}

/// The name by which scripts ask for a model type.
pub open spec fn algorithm_name(algorithm: Algorithm) -> Seq<char> {
    match algorithm {
        Algorithm::Linear => "linear"@,
        Algorithm::Lasso => "lasso"@,
        Algorithm::Logistic => "logistic"@,
    }
}

/// The model type that a name stands for, if it stands for one.
pub open spec fn algorithm_named(name: Seq<char>) -> Option<Algorithm> {
    if name == "linear"@ {
        Some(Algorithm::Linear)
    } else if name == "lasso"@ {
        Some(Algorithm::Lasso)
    } else if name == "logistic"@ {
        Some(Algorithm::Logistic)
    } else {
        None
    }
}

impl Algorithm {
    /// Returns the model type named `name`, or `None` for any other name.
    pub fn from_name(name: &str) -> (r: Option<Algorithm>)
        ensures
            r == algorithm_named(name@),
    {
        let given = String::from_str(name);
        if given == String::from_str("linear") {
            Some(Algorithm::Linear)
        } else if given == String::from_str("lasso") {
            Some(Algorithm::Lasso)
        } else if given == String::from_str("logistic") {
            Some(Algorithm::Logistic)
        } else {
            None
        }
    }

    /// Returns the name of this model type.
    pub fn name(&self) -> (r: String)
        ensures
            r@ == algorithm_name(*self),
    {
        match self {
            Algorithm::Linear => String::from_str("linear"),
            Algorithm::Lasso => String::from_str("lasso"),
            Algorithm::Logistic => String::from_str("logistic"),
        }
    }
}

/// Every model type is found again by its name.
pub proof fn lemma_algorithm_name_round_trip(algorithm: Algorithm)
    ensures
        algorithm_named(algorithm_name(algorithm)) == Some(algorithm),
{
    reveal_strlit("linear");
    reveal_strlit("lasso");
    reveal_strlit("logistic");
    assert("linear"@.len() == 6);
    assert("lasso"@.len() == 5);
    assert("logistic"@.len() == 8);
}

} // verus!
