//! Verified core of `uvlift`: reading the dependency arrays of a `pyproject.toml`,
//! classifying their version specifiers, comparing against the newest release on
//! PyPI, rewriting selected requirements, and the selection state of the
//! interactive dependency picker.
pub mod text;
pub mod pep;
pub mod model;
pub mod manifest;
pub mod pyproject;
pub mod pypi;
pub mod order;
pub mod screen;
pub mod tui;
