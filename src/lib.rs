//! The event-data plane of a server for neuromorphic (event-based) cameras: buffer pools,
//! the fan-out router, lookback rings, packet assembly, recording formats and bookkeeping,
//! recording control, and the conversion of recordings, each with its contract.
pub mod control;
pub mod conversion;
pub mod decoder;
pub mod format;
pub mod ids;
pub mod lookback;
pub mod naming;
pub mod packet;
pub mod producer;
pub mod protocol;
pub mod recording;
pub mod recordings;
pub mod router;
pub mod sampler_lookback;
pub mod stack;
