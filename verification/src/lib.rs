pub mod config;
pub mod generate_features;
pub mod generate_json;
pub mod generate_systems;
pub mod laws;
pub mod models;
pub mod ordered;
pub mod requirements;
pub mod roms;
pub mod skips;
pub mod text;
pub mod translate;
pub mod translations;
pub mod xml;
