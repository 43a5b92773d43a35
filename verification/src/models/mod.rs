pub mod chunk;
pub mod document;

pub use chunk::Chunk;
pub use document::Document;
