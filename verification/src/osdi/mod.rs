//! Compiled compact models: OSDI modules as devices.
//!
//! An OSDI model exposes residuals `f(x)` (resistive) and `q(x)` (reactive, with
//! `f + dq/dt = 0`) and their first-order Jacobians. Each node's `f` and `q`
//! become outputs of one outside function over the device's node voltages; the
//! terminal current is `f + d/dt q`. Loading a library, running its setup and
//! evaluating it is the host's work. What is decided from what the library
//! reports stands here: which parameter a name binds, what its setup errors say,
//! how its nodes collapse, where its Jacobian entries add up, and how the device
//! lowers onto the expression graph.
pub mod evaluate;
pub mod lower;
pub mod module;
pub mod topology;
