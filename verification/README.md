# neural_engine

A small neural-network engine. The verified library (`src/`) holds the logic that
does not touch floating-point numbers:

- `optimizer`, `loss`: choosing an optimizer (`sgd`, `adam`) or a loss (`mse`,
  `bce`/`binary_crossentropy`, `cce`/`categorical_crossentropy`) by name, in any
  letter case;
- `training`: whether training may start, the shuffled visiting order of an epoch
  (always a permutation of the samples), mini-batches (they concatenate back to the
  order), and which epochs report their loss;
- `model`: `Sequential`, a network whose layers run first to last going forward and
  last to first going backward, generic over the layer and batch types;
- `error`, `text`: error values with their messages, and string comparison.

`app/` holds the tensor arithmetic (ndarray), the layers, losses and optimizers, and
the Python bindings (pyo3, numpy).
