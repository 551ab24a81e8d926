//! Calls into WebAssembly binaries without glue: annotated functions get shims
//! that exchange numbers and archives with their host ([`annotate`], [`mem`]),
//! and leave metadata in the binary, from which the JavaScript and TypeScript
//! that call them are generated ([`bindings`]).
//!
//! [`wasm`], [`meta`] and [`ty`] read the metadata, [`order`] says what is
//! collected from it, [`layout`] where archived values lie, and [`expr`],
//! [`method`] and [`module`] with [`template`] and [`text`] write the modules.
//! [`numbers`], [`reading`], [`typing`], [`encoding`] and [`calling`] say what the
//! text of the modules means, and that it means what it should.
//! [`pool`] and [`parallel`] run work on threads that the host starts. The other
//! modules are what the demo pages, the benchmark and the programs around them
//! compute.
pub mod annotate;
pub mod benchmark;
pub mod bindings;
pub mod calling;
pub mod canvas;
pub mod cli;
pub mod demo_nostd;
pub mod demo_std;
pub mod encoding;
pub mod expr;
pub mod font;
pub mod layout;
pub mod mandelbrot;
pub mod mem;
pub mod meta;
pub mod method;
pub mod module;
pub mod notes;
pub mod numbers;
pub mod order;
pub mod parallel;
pub mod pictures;
pub mod pool;
pub mod reading;
pub mod serve;
pub mod template;
pub mod text;
pub mod ty;
pub mod typing;
pub mod wasm;
