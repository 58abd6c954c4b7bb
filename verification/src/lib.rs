//! HeineOS kernel logic: the interactive shell, the terminal driver state,
//! the scheduler, the heap allocator model, the BMP loader and the tar file system.
pub mod text;
pub mod shell;
pub mod device;
pub mod library;
pub mod allocator;
pub mod thread;
pub mod filesystem;
pub mod logger;
pub mod coroutine;
pub mod demo;
pub mod machine;
