pub mod codec;
pub mod fixture;
pub mod json;
pub mod language;
pub mod loader;
pub mod marker;
pub mod numeral;
pub mod sorter;
pub mod stats;
pub mod synth;
pub mod template;
pub mod table;
