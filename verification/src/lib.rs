//! Small conveniences: a restartable counting loop, a dispatcher that calls a
//! function with named, overridable arguments, and a memoizing call wrapper
//! whose entries expire.

pub mod cache_func;
pub mod cache_state;
pub mod clock;
pub mod countable;
pub mod default_func;
pub mod for_loop;

pub use cache_func::CSCFCACHE;
pub use countable::Countable;
pub use default_func::CSCDARG;
pub use for_loop::CSCFor;
