//! A grid-based first-person maze renderer.
//!
//! A ray is marched from the viewer through a grid of cells for every column
//! of the screen; what it meets, and how far away, decides the textured wall
//! slab drawn in that column. A minimap and the decisions of the frame loop
//! complete the picture.
//!
//! Positions and directions are 16.16 fixed-point integers, and a grid cell
//! is 100 world units wide, so everything here is exact integer arithmetic.
//!
//! * [`canvas`]: the model of a pixel surface that the contracts speak of.
//! * [`framebuffer`]: the pixel surface and its drawing primitives.
//! * [`texture`]: a decoded image and the lookup of its texels.
//! * [`maze`]: the grid and its text format.
//! * [`player`]: the viewer's position and heading.
//! * [`scene`]: the grid with its goal, and the test for reaching it.
//! * [`caster`]: the ray caster.
//! * [`ray_laws`]: what holds of every cast.
//! * [`render`]: the frame composer.
//! * [`minimap`]: the overhead map.
//! * [`frame_loop`]: the phases of the frame loop and the pacing of frames.

pub mod canvas;
pub mod caster;
pub mod frame_loop;
pub mod framebuffer;
pub mod maze;
pub mod minimap;
pub mod player;
pub mod ray_laws;
pub mod render;
pub mod scene;
pub mod texture;
