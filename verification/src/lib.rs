//! Renders encoded scenes, with true backdrop blur, into recordings of GPU
//! commands.
//!
//! An encoding is resolved to a packed scene ([`encoding`], [`encoded`], [`resolve`],
//! [`layout`], [`packing`]), which is cut at its backdrops where its layers allow that
//! ([`layers`], [`ranges`], [`replay`]). Each part is rendered by a pass of GPU
//! commands ([`recording`], [`config`], [`coarse`], [`masks`], [`render`]), each
//! backdrop by its own commands ([`color`], [`backdrop`]), and [`frame`] and
//! [`scene`] put a whole frame together. The modules whose names end in `_laws`
//! state what holds of all scenes.

pub mod encoded;
pub mod encoding;
pub mod float_bits;
mod index_set;
pub mod layout;
pub mod packing;

pub mod layers;
pub mod ranges;
pub mod replay;

pub mod color;
pub mod config;
pub mod masks;
pub mod recording;
pub mod coarse;
pub mod render;
pub mod resolve;

pub mod backdrop;
pub mod frame;
pub mod scene;

pub mod cut_laws;
pub mod flow_laws;
pub mod frame_laws;
pub mod image_laws;
pub mod layer_laws;
pub mod pass_laws;
pub mod path_laws;
pub mod picture_laws;
pub mod replay_laws;
pub mod segment_laws;
pub mod use_laws;
