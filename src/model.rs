//! Model kinds and the configuration errors that stop a run before it starts.
use vstd::prelude::*;

verus! {

/// The regression model that scores a feature subset.
#[derive(Clone, Copy, Debug, PartialEq, Eq, Structural)]
pub enum ModelName {
    LinearRegression,
    /// Accepted as a name, but no scoring is registered for it.
    DecisionTreeRegressor,
}

/// A fatal error in what the caller asked for.
#[derive(Clone, Copy, Debug, PartialEq, Eq, Structural)]
pub enum ConfigError {
    /// The model kind has no scoring implementation.
    UnsupportedModel,
    /// The population size is zero.
    EmptyPopulation,
    /// Fewer than one fold was asked for.
    NoFolds,
    /// A mask's length is not the dataset's feature count.
    MaskLength,
}

/// The model kinds that can be scored.
pub open spec fn is_supported(m: ModelName) -> bool {
    m == ModelName::LinearRegression
}

/// `Ok` exactly for the model kinds that can be scored.
pub fn check_model(m: ModelName) -> (r: Result<(), ConfigError>)
    ensures
        r is Ok <==> is_supported(m),
        r is Err ==> r == Err::<(), ConfigError>(ConfigError::UnsupportedModel),
{
    match m {
        ModelName::LinearRegression => Ok(()),
        ModelName::DecisionTreeRegressor => Err(ConfigError::UnsupportedModel),
    }
}

} // verus!
