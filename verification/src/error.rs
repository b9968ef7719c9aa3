use vstd::prelude::*;

verus! {

/// Why a model could not be configured or trained.
#[derive(Clone, Copy, Debug, PartialEq, Eq, Structural)]
pub enum ConfigError {
    /// The optimizer name is neither `sgd` nor `adam` (in any letter case).
    UnknownOptimizer,
    /// The loss name is none of `mse`, `bce`, `binary_crossentropy`, `cce`,
    /// `categorical_crossentropy` (in any letter case).
    UnknownLoss,
    /// Training was asked for before an optimizer was chosen.
    OptimizerNotSet,
    /// Training was asked for before a loss was chosen.
    LossNotSet,
}

impl ConfigError {
    /// The text shown to the user for this error.
    pub fn message(&self) -> (text: &'static str)
        ensures
            *self == ConfigError::UnknownOptimizer ==> text@ == "Unknown optimizer. Use 'sgd' or 'adam'"@,
            *self == ConfigError::UnknownLoss ==> text@ == "Unknown loss. Use 'mse', 'bce', or 'cce'"@,
            *self == ConfigError::OptimizerNotSet ==> text@ == "Call set_optimizer() first"@,
            *self == ConfigError::LossNotSet ==> text@ == "Call set_loss() first"@,
    {
        match self {
            ConfigError::UnknownOptimizer => "Unknown optimizer. Use 'sgd' or 'adam'",
            ConfigError::UnknownLoss => "Unknown loss. Use 'mse', 'bce', or 'cce'",
            ConfigError::OptimizerNotSet => "Call set_optimizer() first",
            ConfigError::LossNotSet => "Call set_loss() first",
        }
    }
}

} // verus!
