//! Time-domain nonlinear DAE assembly and extraction.
//!
//! Builds the implicit residual system `F(x, x', t) = 0` for a circuit, where
//! `x = [node voltages; branch currents; device states]` and `x'` are companion
//! time-derivative symbols. Dynamics enter through derivative symbols: a
//! capacitor contributes `C*(v'_a - v'_b)`, an inductor adds a branch current
//! with the constraint `v_a - v_b - L*i' = 0`. Nonlinear devices contribute their
//! large-signal terminal currents. Nothing is solved here.
//!
//! Naming convention for the minted symbols: node voltages `v{n}`, their
//! derivatives `vdot{n}`, branch currents `i_{name}`, inductor current
//! derivatives `idot_{name}`, and time `t`.
pub mod assemble;
pub mod blocks;
pub mod cases;
pub mod curvature;
pub mod eliminate;
pub mod formulas;
pub mod jacobian;
pub mod linearize;
pub mod meaning;
pub mod merge;
pub mod places;
pub mod readable;
pub mod reading;
pub mod reduce;
pub mod relations;
pub mod relevance;
pub mod sens;
pub mod shapes;
pub mod slopes;
pub mod stamping;
pub mod switching;
pub mod symbols;
pub mod system;
pub mod templates;
pub mod terms;
pub mod weights;
