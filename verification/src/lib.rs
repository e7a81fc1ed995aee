//! Verified rules of a PDF toolkit: page lists, content-stream tokens and
//! operators, watermark detection, text decoding, heading recognition,
//! outline planning and page operations.
pub mod chars;
pub mod tokenizer;
pub mod operators;
pub mod escape;
pub mod text;
pub mod pages;
pub mod content;
pub mod keywords;
pub mod search;
pub mod indices;
pub mod report;
pub mod headings;
pub mod outline;
pub mod unicode;
pub mod cmap;
pub mod decode;
pub mod labels;
pub mod marks;
pub mod pageops;
pub mod patterns;
pub mod replace;
pub mod ops;
pub mod analysis;
pub mod opcount;
pub mod forms;
