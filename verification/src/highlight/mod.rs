//! Highlight annotations: what analyzers find in the text and how pages show it.
pub mod annotation;
pub mod analyzer;
pub mod jieba_analyzer;
pub mod ltp_legacy_analyzer;
pub mod render;
pub mod store;
