use vstd::prelude::*;

use crate::error::ConfigError;
use crate::text::{lowercase, same_text, to_lowercase};

verus! {

/// Mean squared error, for regression.
#[derive(Clone, Copy, Debug, PartialEq, Eq, Structural)]
pub struct MSE;

/// Binary cross-entropy, for binary classification.
#[derive(Clone, Copy, Debug, PartialEq, Eq, Structural)]
pub struct BinaryCrossEntropy;

/// Categorical cross-entropy, for multi-class classification after a softmax.
#[derive(Clone, Copy, Debug, PartialEq, Eq, Structural)]
pub struct CategoricalCrossEntropy;

/// The loss a model is trained with.
#[derive(Clone, Copy, Debug, PartialEq, Eq, Structural)]
pub enum LossKind {
    MSE(MSE),
    BCE(BinaryCrossEntropy),
    CCE(CategoricalCrossEntropy),
}

/// The loss that a lower-case name selects, or the error for an unknown name.
pub open spec fn loss_named(name: Seq<char>) -> Result<LossKind, ConfigError> {
    if name == "mse"@ {
        Ok(LossKind::MSE(MSE))
    } else if name == "bce"@ || name == "binary_crossentropy"@ {
        Ok(LossKind::BCE(BinaryCrossEntropy))
    } else if name == "cce"@ || name == "categorical_crossentropy"@ {
        Ok(LossKind::CCE(CategoricalCrossEntropy))
    } else {
        Err(ConfigError::UnknownLoss)
    }
}

/// A lower-case name selects MSE exactly when it is `mse`, binary cross-entropy
/// exactly when it is `bce` or `binary_crossentropy`, categorical cross-entropy
/// exactly when it is `cce` or `categorical_crossentropy`, and every other name is
/// refused as an unknown loss.
pub proof fn lemma_loss_names(name: Seq<char>)
    ensures
        (loss_named(name) == Ok::<LossKind, ConfigError>(LossKind::MSE(MSE))) <==> name == "mse"@,
        (loss_named(name) == Ok::<LossKind, ConfigError>(LossKind::BCE(BinaryCrossEntropy)))
            <==> (name == "bce"@ || name == "binary_crossentropy"@),
        (loss_named(name) == Ok::<LossKind, ConfigError>(LossKind::CCE(CategoricalCrossEntropy)))
            <==> (name == "cce"@ || name == "categorical_crossentropy"@),
        (loss_named(name) == Err::<LossKind, ConfigError>(ConfigError::UnknownLoss)) <==> (name
            != "mse"@ && name != "bce"@ && name != "binary_crossentropy"@ && name != "cce"@ && name
            != "categorical_crossentropy"@),
{
    reveal_strlit("mse");
    reveal_strlit("bce");
    reveal_strlit("cce");
    reveal_strlit("binary_crossentropy");
    reveal_strlit("categorical_crossentropy");
    assert("mse"@.len() == 3 && "mse"@[0] == 'm');
    assert("bce"@.len() == 3 && "bce"@[0] == 'b');
    assert("cce"@.len() == 3 && "cce"@[0] == 'c');
    assert("binary_crossentropy"@.len() == 19);
    assert("categorical_crossentropy"@.len() == 24);
}

/// Selects a loss by a name that is already in lower case.
pub fn loss_from_lowercase(name: &str) -> (chosen: Result<LossKind, ConfigError>)
    ensures
        chosen == loss_named(name@),
{
    if same_text(name, "mse") {
        Ok(LossKind::MSE(MSE))
    } else if same_text(name, "bce") || same_text(name, "binary_crossentropy") {
        Ok(LossKind::BCE(BinaryCrossEntropy))
    } else if same_text(name, "cce") || same_text(name, "categorical_crossentropy") {
        Ok(LossKind::CCE(CategoricalCrossEntropy))
    } else {
        Err(ConfigError::UnknownLoss)
    }
}

/// Selects a loss by name, ignoring letter case: `mse`, `bce` or
/// `binary_crossentropy`, `cce` or `categorical_crossentropy`.
pub fn parse_loss(name: &str) -> (chosen: Result<LossKind, ConfigError>)
    ensures
        chosen == loss_named(lowercase(name@)),
{
    let lowered = to_lowercase(name);
    loss_from_lowercase(lowered.as_str())
}

} // verus!
