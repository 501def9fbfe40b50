//! Course-portal artifact retrieval: an idempotent cache, a content crawler,
//! and an HLS playlist, key and segment pipeline.

pub mod cache;
pub mod config;
pub mod course;
pub mod crawl;
pub mod hls;
pub mod mime;
pub mod multipart;
pub mod portal;
pub mod qs;
pub mod syllabus;
pub mod text;
pub mod uri;
pub mod video;
