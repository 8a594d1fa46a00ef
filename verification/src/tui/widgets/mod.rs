pub mod progress;
pub mod text_input;
