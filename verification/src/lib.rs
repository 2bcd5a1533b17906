//! A 2D air-hockey simulation engine: two paddles (one pointer-driven, one
//! driven by a reactive AI), a puck, four static goal posts, a rectangular
//! field with goal openings, and a scoring loop.
//!
//! All scalar quantities are fixed-point numbers — an `i64` holding the
//! value times [`fx::SCALE`] — so every rule of the engine is stated and
//! proved exactly over integers.
//!
//! - [`fx`]: fixed-point scalars, truncating multiplication and division,
//!   and a floor square root.
//! - [`vec2`]: 2D vectors with length, normalization, dot product and
//!   perpendiculars.
//! - [`pendinglist`]: the pending-mutation registry that stages structural
//!   changes and applies them only at explicit commit points.
//! - [`entity`]: the game objects (paddles, goal posts, the puck) and
//!   their per-frame update rules.
//! - [`game`]: the aggregate state and the frame loop's steps — player
//!   control, update pass, opponent AI, collision and bounce, goal
//!   scoring, commit — with input events and score-display layout.

pub mod entity;
pub mod fx;
pub mod game;
pub mod pendinglist;
pub mod vec2;
