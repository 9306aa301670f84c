//! A document-to-HTML compiler for a lightweight markup language, with an
//! image ingestion, transformation and caching pipeline.
//!
//! The library holds the logic: the markup parser, the HTML renderer, the
//! display-size and variant planning for images, the EXIF handling and the
//! cache bookkeeping. File and network I/O, worker threads and subprocesses
//! live outside the library and hand plain values in and out.

pub mod ast;
pub mod config;
pub mod dims;
pub mod dispatch;
pub mod exif;
pub mod html_renderer;
pub mod image_processor;
pub mod math_engine;
pub mod parser;
pub mod raster;
pub mod strutil;
pub mod svg;
