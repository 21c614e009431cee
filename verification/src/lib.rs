//! Verified core of an ARGB lighting controller: the LED panel geometry, the
//! bitmap font, the OpenRGB wire format and the self-playing panel games.

pub mod font;
pub mod openrgb;
pub mod rng;
pub mod shapes;
pub mod floodfill;
pub mod snake;
pub mod stack;
pub mod score;
pub mod tetris;
pub mod games;
pub mod engine;
pub mod appcolor;
pub mod settings;
