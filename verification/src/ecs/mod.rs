//! The entity component system.
pub mod component;
pub mod entity;
pub mod world;
pub mod laws;

pub use component::{every_call_ran, Called, Component, Hook};
pub use entity::{ComponentError, ComponentReference, Entity, EntityBuilder, UUID};
pub use world::{ComponentsModified, Error, World};
