//! SPICE netlists: from text to circuits.
pub mod behavioral;
pub mod compat;
pub mod devices;
pub mod drives;
pub mod elements;
pub mod error;
pub mod expr;
pub mod model_cards;
pub mod naming;
pub mod nodes;
pub mod options;
pub mod parse;
pub mod placement;
pub mod preprocess;
pub mod resolve;
pub mod scaling;
pub mod settings;
pub mod source;
pub mod subckt;
pub mod va;
pub mod values;
pub mod wiring;
pub mod world;
