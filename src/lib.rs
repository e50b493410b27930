//! A two-player drop-four game: a 7-wide, 6-tall board with gravity,
//! a win scan around the last piece placed, parsing of a typed move, and the
//! turn engine that ties them together. Rendering and terminal input live
//! outside this library.
pub mod board;
pub mod win;
pub mod input;
pub mod game;
