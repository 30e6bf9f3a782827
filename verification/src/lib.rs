pub mod bump;
pub mod coroutine;
pub mod green_threads;
pub mod stack;
