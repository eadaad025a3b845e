//! Per-frame simulation core of a small 2D world.
//!
//! The crate is an entity-component system: a [`world::World`] stores
//! per-entity component tables, a [`scheduler::Dispatcher`] runs a fixed
//! pipeline of systems once per tick, and the systems themselves turn the
//! current movement intent into velocities ([`keyboard::Keyboard`]), resolve
//! movement and collisions inside a bounded viewport ([`physics::Physics`])
//! and advance sprite animations ([`animator::Animator`]).
//!
//! Presentation and input translation are host concerns: the host hands a
//! [`world::FrameContext`] to every dispatch and reads the component
//! state back once the tick is over.

pub mod rect;

pub mod components;

pub mod world;

pub mod keyboard;

pub mod ai;

pub mod animator;

pub mod physics;

pub mod scheduler;

pub mod setup;

pub mod laws;

