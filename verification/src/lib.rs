//! The engine of a falling-block game: the pieces and their rotation, the
//! board with its collision test and its sweep for full rows, and the tick
//! that moves the game from one frame to the next. Drawing and keyboard
//! input are left to the program that hosts the engine.

pub mod board;
pub mod piece;
pub mod tetris;
