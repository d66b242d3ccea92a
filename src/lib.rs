//! Measures execution jitter on pinned processors: the worst delay between
//! consecutive clock reads of a spinning loop, per fixed-length reporting window.
//!
//! The library holds the verified logic: the run configuration, the sampling
//! state machine, the core-list grammar, clock conversion and calibration, and
//! the line-protocol records with their size-bounded batches. Reading hardware
//! counters, masking interrupts, pinning threads and sending batches are left
//! to the program that drives it.

pub mod clock;
pub mod config;
pub mod cpu_list;
pub mod pipeline;
pub mod publish;
pub mod sampler;

pub use config::{Jitter, ProgramArgs, TimeSource, NANOS_IN_MILLI, NANOS_IN_SEC};
pub use sampler::{busy_loop, Sampler};
pub use cpu_list::{parse_cpu_list, CpuListError};
pub use publish::{publish_results, BATCH_PUBLISH_THRESHOLD_BYTES};
pub use pipeline::{capture_jitter, write_url};
pub use clock::{calibrate_monotonic, calibration_offset, clock_monotonic, monotonic_nanos, monotonic_offset, clock_rdtsc, clock_realtime, configure_clock, counter_nanos, timespec_nanos, ClockError};
