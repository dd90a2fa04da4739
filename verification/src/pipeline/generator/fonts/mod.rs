pub mod bitmap_font;
pub mod text_burner;
