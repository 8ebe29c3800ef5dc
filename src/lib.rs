//! A small entity-component store: generation-tagged entity handles, per-type
//! component tables, resources, queries and deferred entity creation.

pub mod entity;
mod slots;
pub mod registry;
pub mod store;
pub mod disjoint;
pub mod borrow;
pub mod query;
pub mod resource;
pub mod world;
pub mod commands;
pub mod system;

pub use entity::Entity;
pub use registry::{Entities, EntityRegistry};
pub use store::{Component, ComponentContainerTrait, ComponentStore};
pub use borrow::{Borrow, BorrowType};
pub use query::{Query, QueryMut, Ref, RefMut, both};
pub use resource::{Res, ResMut, Resource, ResourceCell, RunError};
pub use world::{add_component, remove_component};
pub use commands::Commands;
pub use system::{Param, SystemSet, SystemWrapper, component_types, plan_run, resource_types};
