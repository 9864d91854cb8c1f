pub mod snes;
