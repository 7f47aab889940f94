//! Software rasterizer and scene composer for a top-down sailing simulation.
//!
//! All geometry is carried in fixed-point numbers with 16 fractional bits
//! ([`fixed`], [`vec2`]), so every drawing primitive is an exact function of
//! its inputs: no rounding depends on the machine. Angles that direct a
//! drawing are given by their unit vectors.
//!
//! The primitives ([`draw`]) come with any surface that exposes its pixel
//! storage; [`renderer::Renderer`] is the frame buffer that the simulation
//! presents. What each primitive covers is a set of pixels ([`shapes`]), and
//! what it does to a surface is to paint that set on the surface's model
//! ([`canvas`]). [`projection`] places the world around the camera,
//! [`scene`] composes a frame, and [`boat`] and [`environment`] hold the
//! state that a frame shows.

pub mod boat;
pub mod canvas;
pub mod colors;
pub mod draw;
pub mod environment;
pub mod fixed;
pub mod projection;
pub mod renderer;
pub mod scene;
pub mod shapes;
pub mod vec2;
