//! A chess engine core, verified with Verus: the position data model, the
//! record and move-notation codec, the legal-move generator, and an
//! iterative-deepening alpha-beta search with a capture-only quiescence
//! extension.
//!
//! Every executable function's behaviour is pinned by a specification
//! mirror: decoding inverts encoding, the generator returns exactly the
//! legal-move set of its spec, and the search returns exactly the score,
//! principal variation and leaf count of its spec.

pub mod engine;
pub mod model;
pub mod uci;
pub mod util;
