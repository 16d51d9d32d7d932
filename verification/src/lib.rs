//! The parts of a CUDA implementation for AMD GPUs that decide and compute: which PTX of an image is
//! translated, under which key a translation is kept and what becomes of a cached one, which steps
//! turn a translated module into an executable, what is answered about functions and surfaces, and
//! what is handed to the device driver.
//!
//! What only the code generator, the PTX front end, the device driver and the operating system can do
//! is passed in: as plain values, or as functions that are called at a stated point with stated
//! arguments. The contracts say what comes out for whatever these functions give.
//!
//! - [`target`], [`codegen`] and [`compile`]: from intermediate code to an executable.
//! - [`digest`], [`json`], [`cache_key`], [`cache`] and [`clock`]: the cache of translated modules.
//! - [`ptx`] and [`load`]: from an image to a loaded module.
//! - [`metadata`], [`name_table`] and [`module`]: loaded modules and their functions.
//! - [`function`] and [`surface`]: attributes, launches, surface objects and their samplers.
//! - [`text`], [`error`], [`lock`] and [`support`]: what the others share, and what tests need.
pub mod cache;
pub mod cache_key;
pub mod clock;
pub mod codegen;
pub mod compile;
pub mod digest;
pub mod error;
pub mod function;
pub mod json;
pub mod load;
pub mod lock;
pub mod metadata;
pub mod module;
pub mod name_table;
pub mod ptx;
pub mod support;
pub mod surface;
pub mod target;
pub mod text;
