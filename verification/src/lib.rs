//! Verified core logic of the Ambient engine: component sets, attribute
//! stores, the component registry and related building blocks.

pub mod bits;
pub mod component_set;
pub mod attributes;
mod std_wrappers;
pub mod component_registry;
pub mod enums;
pub mod wit;
pub mod bindgen;
pub mod paths;
pub mod listing;
pub mod campfire;
pub mod text;
pub mod new_package;
pub mod client_proto;
pub mod shader;
pub mod gpu;
pub mod window;
pub mod editor;
pub mod network;
pub mod asset;
pub mod guest_entity;
pub mod entity;
pub mod golden;
pub mod prefab;
pub mod client;
