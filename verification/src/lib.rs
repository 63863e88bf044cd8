//! A small calculation library: it parses a six-field textual input record,
//! classifies the three boolean fields into a category through a per-variant
//! rule table, and selects the numeric formula that the boundary layer then
//! evaluates on the numeric fields.

pub mod input;
pub mod laws;
pub mod rules;
pub mod text;

pub use input::Input;

pub use rules::HValue;
pub use rules::KFormula;
pub use rules::Output;
pub use rules::Substitution;
