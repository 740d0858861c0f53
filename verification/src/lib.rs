//! Runtime core of an entity-component-system framework.
//!
//! Components live in slot pools with free-slot reuse; an attachment index
//! relates entity handles to the component references they own; a scene owns
//! polymorphic object instances, queues typed events, and drives a four-phase
//! frame update that keeps structural mutation apart from iteration.

pub mod component;
pub mod entity;
pub mod event;
pub mod kv;
pub mod object;
pub mod property;
pub mod sample;
pub mod scene;
pub mod system;
pub mod text;
