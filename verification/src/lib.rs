//! Core of a retained-mode 2D scene graph with a script-facing handle layer.
//!
//! The library owns RGBA pixel buffers ([`bitmap::Bitmap`]), positioned and
//! depth-ordered drawables ([`scene::Sprite`]), a registry that keeps every
//! sprite alive, turns dirty pixel buffers into render-ready textures once
//! per frame, and issues draw commands in ascending depth order
//! ([`scene::Graphics`]), and per-frame keyboard state ([`input::Input`]).
//! Handles ([`scene::BitmapId`], [`scene::SpriteId`]) are the aliases through
//! which a host or an embedded script mutates shared graphics state; the
//! registry is the sole owner of the underlying objects.

pub mod bitmap;
pub mod errors;
pub mod frame;
pub mod input;
pub mod pixel;
pub mod scene;
