//! The decision core of the interactive layer: keyboard intents and their
//! effect on the application state. Reading events and drawing the screen
//! happen outside the library.

pub mod keybinds;
