//! A turn-based roguelike simulation engine: entities on a grid take turns by
//! priority, resolve their action programs into deferred commands, and the
//! world applies those commands once each turn is over.

pub mod point;
pub mod datum;
pub mod damage;
pub mod vfx;
pub mod attacks;
pub mod entity;
pub mod world;
pub mod engine;
pub mod turn;
pub mod scheduler;
pub mod path;
pub mod saves;
pub mod metadata;
pub mod presets;
