pub mod chip8;
pub mod display;
pub mod keypad;
pub mod ram;
