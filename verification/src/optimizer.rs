use vstd::prelude::*;

use crate::error::ConfigError;
use crate::text::{lowercase, same_text, to_lowercase};

verus! {

/// The update rule a model is trained with.
#[derive(Clone, Copy, Debug, PartialEq, Eq, Structural)]
pub enum OptimizerKind {
    /// Stochastic gradient descent.
    SGD,
    /// Adaptive moment estimation.
    Adam,
}

/// The optimizer that a lower-case name selects, or the error for an unknown name.
pub open spec fn optimizer_named(name: Seq<char>) -> Result<OptimizerKind, ConfigError> {
    if name == "sgd"@ {
        Ok(OptimizerKind::SGD)
    } else if name == "adam"@ {
        Ok(OptimizerKind::Adam)
    } else {
        Err(ConfigError::UnknownOptimizer)
    }
}

/// A lower-case name selects SGD exactly when it is `sgd`, Adam exactly when it is
/// `adam`, and every other name is refused as an unknown optimizer.
pub proof fn lemma_optimizer_names(name: Seq<char>)
    ensures
        (optimizer_named(name) == Ok::<OptimizerKind, ConfigError>(OptimizerKind::SGD)) <==> name
            == "sgd"@,
        (optimizer_named(name) == Ok::<OptimizerKind, ConfigError>(OptimizerKind::Adam)) <==> name
            == "adam"@,
        (optimizer_named(name) == Err::<OptimizerKind, ConfigError>(ConfigError::UnknownOptimizer))
            <==> (name != "sgd"@ && name != "adam"@),
{
    reveal_strlit("sgd");
    reveal_strlit("adam");
    assert("sgd"@.len() == 3);
    assert("adam"@.len() == 4);
}

/// Selects an optimizer by a name that is already in lower case.
pub fn optimizer_from_lowercase(name: &str) -> (chosen: Result<OptimizerKind, ConfigError>)
    ensures
        chosen == optimizer_named(name@),
{
    if same_text(name, "sgd") {
        Ok(OptimizerKind::SGD)
    } else if same_text(name, "adam") {
        Ok(OptimizerKind::Adam)
    } else {
        Err(ConfigError::UnknownOptimizer)
    }
}

/// Selects an optimizer by name, ignoring letter case: `sgd` or `adam`.
pub fn parse_optimizer(name: &str) -> (chosen: Result<OptimizerKind, ConfigError>)
    ensures
        chosen == optimizer_named(lowercase(name@)),
{
    let lowered = to_lowercase(name);
    optimizer_from_lowercase(lowered.as_str())
}

} // verus!
