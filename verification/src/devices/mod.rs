pub mod device;
pub mod retroarch;
pub mod sd2snes;
pub mod emunwa;
pub mod lua;
pub mod table;
pub mod manager;
