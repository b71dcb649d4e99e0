//! The application simulation: a client invokes a frontend, whose handler
//! invokes a file system, a storage and a GPU service and copies each of the
//! latter two's buffers `transfer_size` times before it returns.
use vstd::prelude::*;

verus! {

/// Clock speed, in cycles per microsecond, by which the simulated services
/// scale their work.
pub const CPU_CLOCK_SPEED: u64 = 210 / 2;

/// Id of the frontend's end handler, which stops the frontend.
pub const FRONTEND_END_CAP: u64 = 50;

/// Id of the client's end handler.
pub const CLIENT_END_CAP: u64 = 51;

/// Id of the file system's end handler.
pub const FS_END_CAP: u64 = 51;

/// Id of the frontend's request handler.
pub const FRONTEND_CAP: u64 = 100;

/// Id of the file system's request handler.
pub const FS_CAP: u64 = 200;

/// Id of the storage's request handler.
pub const STORAGE_CAP: u64 = 300;

/// Id of the GPU's request handler.
pub const GPU_CAP: u64 = 400;

/// Id of the frontend's memory shared with the GPU.
pub const FRONTEND_TO_GPU_MEM_CAP: u64 = 450;

/// Id of the frontend's memory shared with the storage.
pub const FRONTEND_TO_STORAGE_MEM_CAP: u64 = 350;

/// Id of the client's memory shared with the frontend.
pub const CLIENT_TO_FRONTEND_MEM_CAP: u64 = 50;

/// Id of the storage's memory that the frontend copies.
pub const STORAGE_TO_FRONTEND_MEM_CAP: u64 = 375;

/// Id of the GPU's memory that the frontend copies.
pub const GPU_TO_FRONTEND_MEM_CAP: u64 = 475;

/// Length in bytes of the GPU's shared buffer.
pub const GPU_BUFFER_LEN: usize = 4096;

/// Length in bytes of the storage's shared buffer.
pub const STORAGE_BUFFER_LEN: usize = 1024;

/// Microseconds the client waits before it sends its request; they are
/// taken off each measured time.
pub const CLIENT_START_DELAY_MICROS: u128 = 20;

/// Nanoseconds the GPU's handler works for a transfer of `transfer_size`.
pub open spec fn spec_gpu_delay_nanos(transfer_size: int) -> int {
    13 * transfer_size * CPU_CLOCK_SPEED
}

/// Nanoseconds the storage's handler works for a transfer of `transfer_size`.
pub open spec fn spec_storage_delay_nanos(transfer_size: int) -> int {
    3 * transfer_size * CPU_CLOCK_SPEED
}

/// Nanoseconds the GPU's handler works for a transfer of `transfer_size`.
pub fn gpu_delay_nanos(transfer_size: u64) -> (r: u64)
    requires
        spec_gpu_delay_nanos(transfer_size as int) <= u64::MAX,
    ensures
        r == spec_gpu_delay_nanos(transfer_size as int),
        r == 1365 * transfer_size,
{
    13 * transfer_size * CPU_CLOCK_SPEED
}

/// Nanoseconds the storage's handler works for a transfer of `transfer_size`.
pub fn storage_delay_nanos(transfer_size: u64) -> (r: u64)
    requires
        spec_storage_delay_nanos(transfer_size as int) <= u64::MAX,
    ensures
        r == spec_storage_delay_nanos(transfer_size as int),
        r == 315 * transfer_size,
{
    3 * transfer_size * CPU_CLOCK_SPEED
}

/// The simulated work grows linearly with the transfer size: nothing for
/// no transfer, 1365 ns per unit on the GPU and 315 ns per unit on the
/// storage, so the work for two transfers together is the sum of their
/// works, and a larger transfer never takes less.
pub proof fn lemma_delays_linear(n: int, m: int)
    requires
        n >= 0,
        m >= 0,
    ensures
        spec_gpu_delay_nanos(0) == 0,
        spec_gpu_delay_nanos(1) == 1365,
        spec_gpu_delay_nanos(n) == 1365 * n,
        spec_gpu_delay_nanos(n + m) == spec_gpu_delay_nanos(n) + spec_gpu_delay_nanos(m),
        n <= m ==> spec_gpu_delay_nanos(n) <= spec_gpu_delay_nanos(m),
        spec_storage_delay_nanos(0) == 0,
        spec_storage_delay_nanos(1) == 315,
        spec_storage_delay_nanos(n) == 315 * n,
        spec_storage_delay_nanos(n + m) == spec_storage_delay_nanos(n) + spec_storage_delay_nanos(m),
        n <= m ==> spec_storage_delay_nanos(n) <= spec_storage_delay_nanos(m),
{
    assert(13 * n * 105 == 1365 * n) by (nonlinear_arith);
    assert(13 * m * 105 == 1365 * m) by (nonlinear_arith);
    assert(13 * (n + m) * 105 == 1365 * (n + m)) by (nonlinear_arith);
    assert(3 * n * 105 == 315 * n) by (nonlinear_arith);
    assert(3 * m * 105 == 315 * m) by (nonlinear_arith);
    assert(3 * (n + m) * 105 == 315 * (n + m)) by (nonlinear_arith);
}

/// The time a client run is reported with: the measured time less the
/// client's start delay.
pub fn client_latency_micros(elapsed_micros: u128) -> (r: u128)
    requires
        elapsed_micros >= CLIENT_START_DELAY_MICROS,
    ensures
        r == elapsed_micros - CLIENT_START_DELAY_MICROS,
{
    elapsed_micros - CLIENT_START_DELAY_MICROS
}

/// A step of the frontend's request handler.
#[derive(Clone, Copy, Debug, PartialEq, Eq, Structural)]
pub enum FrontendStep {
    /// Invoke the file system and wait for it.
    InvokeFs,
    /// Invoke the storage and wait for it.
    InvokeStorage,
    /// Copy the storage's shared buffer once.
    FetchStorageBuffer,
    /// Invoke the GPU and wait for it.
    InvokeGpu,
    /// Copy the GPU's shared buffer once.
    FetchGpuBuffer,
    /// The last step of a request: both copies are finished and the
    /// handler returns.
    Notify,
    /// Nothing is left to do.
    Done,
}

/// The step the handler takes at position `pos` of a request with the given
/// transfer size `n`: the file system, the storage, `n` copies of the
/// storage's buffer, the GPU, `n` copies of the GPU's buffer, and the
/// closing step.
pub open spec fn frontend_step_at(n: int, pos: int) -> FrontendStep {
    if pos == 0 {
        FrontendStep::InvokeFs
    } else if pos == 1 {
        FrontendStep::InvokeStorage
    } else if pos < 2 + n {
        FrontendStep::FetchStorageBuffer
    } else if pos == 2 + n {
        FrontendStep::InvokeGpu
    } else if pos < 3 + 2 * n {
        FrontendStep::FetchGpuBuffer
    } else if pos == 3 + 2 * n {
        FrontendStep::Notify
    } else {
        FrontendStep::Done
    }
}

/// The progress of the frontend's handler through one request.
pub struct FrontendRun {
    transfer_size: u64,
    pos: u128,
}

impl FrontendRun {
    pub closed spec fn wf(&self) -> bool {
        self.pos <= 4 + 2 * self.transfer_size
    }

    /// The transfer size of the request.
    pub closed spec fn spec_transfer_size(&self) -> nat {
        self.transfer_size as nat
    }

    /// The number of steps taken so far, `Done` not counted.
    pub closed spec fn position(&self) -> nat {
        self.pos as nat
    }

    /// A request with the given transfer size that has taken no step yet.
    pub fn new(transfer_size: u64) -> (r: Self)
        ensures
            r.wf(),
            r.spec_transfer_size() == transfer_size,
            r.position() == 0,
    {
        FrontendRun { transfer_size, pos: 0 }
    }

    /// The next step, once the previous one has completed.
    pub fn next_step(&mut self) -> (s: FrontendStep)
        requires
            old(self).wf(),
        ensures
            final(self).wf(),
            final(self).spec_transfer_size() == old(self).spec_transfer_size(),
            s == frontend_step_at(
                old(self).spec_transfer_size() as int,
                old(self).position() as int,
            ),
            final(self).position() == if s == FrontendStep::Done {
                old(self).position()
            } else {
                old(self).position() + 1
            },
    {
        let n: u128 = self.transfer_size as u128;
        let p = self.pos;
        let s = if p == 0 {
            FrontendStep::InvokeFs
        } else if p == 1 {
            FrontendStep::InvokeStorage
        } else if p < 2 + n {
            FrontendStep::FetchStorageBuffer
        } else if p == 2 + n {
            FrontendStep::InvokeGpu
        } else if p < 3 + 2 * n {
            FrontendStep::FetchGpuBuffer
        } else if p == 3 + 2 * n {
            FrontendStep::Notify
        } else {
            FrontendStep::Done
        };
        if p <= 3 + 2 * n {
            self.pos = p + 1;
        }
        s
    }
}

/// Before its closing step the handler has taken `3 + 2 * n` steps:
/// it has invoked each of the three services once, the storage before the
/// GPU, and copied each buffer exactly `n` times, the storage's after the
/// storage's invocation and before the GPU's, the GPU's after the GPU's
/// invocation.
pub proof fn lemma_frontend_order(n: int)
    requires
        n >= 0,
    ensures
        frontend_step_at(n, 0) == FrontendStep::InvokeFs,
        frontend_step_at(n, 1) == FrontendStep::InvokeStorage,
        frontend_step_at(n, 2 + n) == FrontendStep::InvokeGpu,
        frontend_step_at(n, 3 + 2 * n) == FrontendStep::Notify,
        forall|p: int|
            0 <= p ==> ((frontend_step_at(n, p) == FrontendStep::FetchStorageBuffer) <==> 2 <= p
                < 2 + n),
        forall|p: int|
            0 <= p ==> ((frontend_step_at(n, p) == FrontendStep::FetchGpuBuffer) <==> 3 + n <= p
                < 3 + 2 * n),
        forall|p: int| 0 <= p ==> ((frontend_step_at(n, p) == FrontendStep::Done) <==> p > 3 + 2 * n),
        forall|p: int| 0 <= p ==> ((frontend_step_at(n, p) == FrontendStep::InvokeFs) <==> p == 0),
        forall|p: int| 0 <= p ==> ((frontend_step_at(n, p) == FrontendStep::InvokeStorage) <==> p == 1),
        forall|p: int| 0 <= p ==> ((frontend_step_at(n, p) == FrontendStep::InvokeGpu) <==> p == 2 + n),
        forall|p: int| 0 <= p ==> ((frontend_step_at(n, p) == FrontendStep::Notify) <==> p == 3 + 2 * n),
{
}

} // verus!
