pub mod cover;
pub mod lyric;
pub mod music;
pub mod playlist;
pub mod sanitize;
pub mod service;
pub mod tagging;
pub mod text;
