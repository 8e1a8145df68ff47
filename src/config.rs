//! Instantiation options, parsed at the boundary from whatever the host gives.
use vstd::prelude::*;

verus! {

/// How host objects are passed to the guest.
#[derive(PartialEq, Eq, Structural, Clone, Copy, Debug)]
pub enum ExternBindingType {
    /// Not at all.
    Disabled,
    /// As integer handles into the object registry.
    Registry,
    /// As opaque references on the guest value stack.
    Native,
}

/// Where a guest's standard stream goes.
#[derive(PartialEq, Eq, Structural, Clone, Copy, Debug)]
pub enum PipeBindingType {
    /// The host process's own stream.
    Inherited,
    /// A buffer that the host reads or fills.
    HostBuffered,
    /// A pipe owned by the instance.
    InstancePipe,
}

/// How output to a guest's standard stream is buffered.
#[derive(PartialEq, Eq, Structural, Clone, Copy, Debug)]
pub enum PipeBufferType {
    Unbuffered,
    LineBuffer,
    BlockBuffer,
}

/// Named options with their defaults.
pub struct Config {
    pub extern_bind: ExternBindingType,
    /// Cap on linear-memory growth in bytes; `None` for no cap.
    pub max_memory: Option<u64>,
    /// Cap on table growth in entries; `None` for no cap.
    pub max_entries: Option<u64>,
    /// Ticks before a guest call is interrupted; `0` for no deadline.
    pub epoch_timeout: u64,
    /// Whether a host may re-arm the deadline of a running instance.
    pub epoch_autoreset: bool,
    pub with_wasi: bool,
    pub wasi_stdin: PipeBindingType,
    pub wasi_stdout: PipeBindingType,
    pub wasi_stderr: PipeBindingType,
    pub wasi_stdout_buffer: PipeBufferType,
    pub wasi_stderr_buffer: PipeBufferType,
}

impl Config {
    /// No object passing, no caps, no deadline, no standard I/O; streams
    /// inherited and line-buffered should standard I/O be switched on.
    pub fn new() -> (r: Config)
        ensures
            r.extern_bind == ExternBindingType::Disabled,
            r.max_memory.is_none(),
            r.max_entries.is_none(),
            r.epoch_timeout == 0,
            !r.epoch_autoreset,
            !r.with_wasi,
            r.wasi_stdin == PipeBindingType::Inherited,
            r.wasi_stdout == PipeBindingType::Inherited,
            r.wasi_stderr == PipeBindingType::Inherited,
            r.wasi_stdout_buffer == PipeBufferType::LineBuffer,
            r.wasi_stderr_buffer == PipeBufferType::LineBuffer,
    {
        Config {
            extern_bind: ExternBindingType::Disabled,
            max_memory: None,
            max_entries: None,
            epoch_timeout: 0,
            epoch_autoreset: false,
            with_wasi: false,
            wasi_stdin: PipeBindingType::Inherited,
            wasi_stdout: PipeBindingType::Inherited,
            wasi_stderr: PipeBindingType::Inherited,
            wasi_stdout_buffer: PipeBufferType::LineBuffer,
            wasi_stderr_buffer: PipeBufferType::LineBuffer,
        }
    }
}

} // verus!
