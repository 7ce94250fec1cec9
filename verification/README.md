# rhai-ml

Machine learning for the Rhai scripting language, backed by SmartCore: scripts
train linear, lasso and logistic regression models and predict with them.

- `src/` is the verified library. It reads script values as plain data
  (numbers by the bits of their IEEE 754 doubles), checks training and
  prediction requests, decides what reaches the backend and which error a
  script sees, converts integers to doubles as Rust's `as f64` does, and
  builds the trained model. `src/laws.rs` states the properties that span
  these checks.
- `app/` is the Rhai package: the `train` and `predict` script functions,
  `MLPackage` and `eval`. It converts Rhai values, runs SmartCore's fits and
  predictions, and encodes models with bincode.
- `tests/` exercises the library's checks and messages.
