pub mod room;
