//! Schema composition and render orchestration for a template engine.
//!
//! This crate sits in front of an opaque template-rendering engine. A caller
//! supplies a template (by file path or as inline source) together with zero
//! or more schema fragments in several input forms; the crate composes those
//! fragments into one schema, prepares a render, and records the structured
//! outcome of each render attempt.
//!
//! The core of the crate is the schema composition model:
//!
//! * a recursive converter ([`convert::convert`]) that turns a host-language
//!   dynamic value into a strict JSON-compatible value, rejecting unsupported
//!   types and non-finite numbers;
//! * a deep-merge function ([`value::merge_values`]) that combines two
//!   structured values, merging nested objects key by key while replacing
//!   arrays and scalars outright;
//! * a merge-ordering state machine ([`store::SchemaStore`]) that combines a
//!   base schema with an ordered list of later merge operations, deferring
//!   work that needs the engine until render time.
//!
//! The engine itself (template parsing, file loading, decoding of serialized
//! and compact-binary schemas) is an external collaborator. The host embeds
//! this crate, drains a [`template::RenderPlan`] through the engine, and hands
//! the observed outcome back to the [`template::NeutralTemplate`] object.

pub mod convert;
pub mod decode;
pub mod store;
pub mod template;
pub mod value;
