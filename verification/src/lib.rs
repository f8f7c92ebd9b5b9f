//! Core logic of a grid-based platformer level: building a live world from a
//! parsed map document, pairing teleporters, the global epoch state machine
//! with its per-tile projection, and the tile animation clock.

pub mod anim;
pub mod document;
pub mod epoch;
pub mod props;
pub mod runtime;
pub mod world;

pub use anim::Frame;
pub use anim::TileAnimation;
pub use epoch::Epoch;
pub use epoch::EpochSprite;
