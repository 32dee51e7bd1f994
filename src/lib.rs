pub mod backend;
pub mod bencher;
pub mod bridge;
pub mod cached;
pub mod context;
pub mod coroutine;
pub mod jobs;
pub mod page;
pub mod panicking;
pub mod rw_count;
