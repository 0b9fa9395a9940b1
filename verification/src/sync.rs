pub mod lock;
pub mod semaphore;
