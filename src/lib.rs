pub mod args;
pub mod bmp;
pub mod controls;
pub mod fill;
pub mod frame;
pub mod image;
pub mod interpolate;
pub mod parsers;
pub mod pixel;
pub mod ppm;
pub mod widgets;
