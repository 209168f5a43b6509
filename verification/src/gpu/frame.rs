use vstd::prelude::*;

use crate::gpu::command_buffer::command_buffer_step;
use crate::gpu::command_buffer::CommandBufferError;
use crate::gpu::command_buffer::CommandBufferManager;
use crate::rhi::frame::FrameIndexData;

verus! {

/// The frame cycle of the GPU: the frame counters and the bookkeeping of
/// the command buffers of the frames in flight. The slot of the current
/// frame is always the number of frames begun modulo the frames in flight.
pub struct FrameCycle {
    frame: FrameIndexData,
    command_buffers: CommandBufferManager,
}

impl FrameCycle {
    pub closed spec fn frame(&self) -> FrameIndexData {
        self.frame
    }

    pub closed spec fn command_buffers(&self) -> CommandBufferManager {
        self.command_buffers
    }

    pub open spec fn max_frames(&self) -> u32 {
        self.command_buffers().frames()
    }

    pub open spec fn wf(&self) -> bool {
        &&& self.command_buffers().wf()
        &&& self.max_frames() > 0
        &&& self.frame().current == self.frame().absolute % (self.max_frames() as u64)
        &&& self.frame().current < self.max_frames()
    }

    /// A cycle before its first frame, over `max_frames` frames in flight of
    /// `num_threads` threads, each with `per_thread` primary and
    /// `secondary_per_thread` secondary command buffers.
    pub fn new(max_frames: u32, num_threads: u32, per_thread: u32, secondary_per_thread: u32) -> (c: Self)
        requires
            max_frames > 0,
            max_frames * num_threads <= u32::MAX,
            max_frames * num_threads * per_thread <= u32::MAX,
            max_frames * num_threads * secondary_per_thread <= u32::MAX,
            per_thread < u32::MAX,
            secondary_per_thread < u32::MAX,
        ensures
            c.wf(),
            c.frame() == (FrameIndexData { current: 0, previous: 0, absolute: 0 }),
            c.max_frames() == max_frames,
            c.command_buffers().threads() == num_threads,
            c.command_buffers().per_thread() == per_thread,
            c.command_buffers().used() == Seq::new((max_frames * num_threads) as nat, |p: int| 0u32),
    {
        let c = FrameCycle {
            frame: FrameIndexData::new(),
            command_buffers: CommandBufferManager::new(max_frames, num_threads, per_thread, secondary_per_thread),
        };
        assert(0u64 % (max_frames as u64) == 0) by (nonlinear_arith)
            requires
                max_frames > 0,
        ;
        c
    }

    pub fn current_frame_index(&self) -> (i: u64)
        ensures
            i == self.frame().current,
    {
        self.frame.current
    }

    pub fn absolute_frame_index(&self) -> (i: u64)
        ensures
            i == self.frame().absolute,
    {
        self.frame.absolute
    }

    /// Begins the current frame: every command buffer of its pools is free
    /// again.
    pub fn new_frame(&mut self)
        requires
            old(self).wf(),
        ensures
            final(self).wf(),
            final(self).frame() == old(self).frame(),
            final(self).max_frames() == old(self).max_frames(),
            final(self).command_buffers().threads() == old(self).command_buffers().threads(),
            final(self).command_buffers().per_thread() == old(self).command_buffers().per_thread(),
            final(self).command_buffers().used() == Seq::new(
                old(self).command_buffers().used().len(),
                |p: int|
                    if old(self).frame().current * old(self).command_buffers().threads() <= p < (old(self).frame().current
                        + 1) * old(self).command_buffers().threads() {
                        0u32
                    } else {
                        old(self).command_buffers().used()[p]
                    },
            ),
    {
        let current = self.frame.current as u32;
        self.command_buffers.reset_pools(current);
    }

    /// Hands out the next primary command buffer of thread `thread_index`
    /// in the current frame.
    pub fn current_command_buffer(&mut self, thread_index: u32) -> (r: Result<u32, CommandBufferError>)
        requires
            old(self).wf(),
            thread_index < old(self).command_buffers().threads(),
            old(self).command_buffers().next_primary_in_range(old(self).frame().current as u32, thread_index),
        ensures
            final(self).wf(),
            final(self).frame() == old(self).frame(),
            final(self).max_frames() == old(self).max_frames(),
            final(self).command_buffers().threads() == old(self).command_buffers().threads(),
            final(self).command_buffers().per_thread() == old(self).command_buffers().per_thread(),
            command_buffer_step(
                old(self).command_buffers(),
                final(self).command_buffers(),
                old(self).frame().current as u32,
                thread_index,
                r,
            ),
    {
        let current = self.frame.current as u32;
        self.command_buffers.command_buffer(current, thread_index)
    }

    /// Ends the current frame after presenting it: the counters move on to
    /// the next frame.
    pub fn present(&mut self)
        requires
            old(self).wf(),
            old(self).frame().absolute < u64::MAX,
        ensures
            final(self).wf(),
            final(self).frame().previous == old(self).frame().current,
            final(self).frame().absolute == old(self).frame().absolute + 1,
            final(self).frame().current == (old(self).frame().current + 1) % (old(self).max_frames() as int),
            final(self).command_buffers() == old(self).command_buffers(),
    {
        let ghost before = self.frame;
        let max_frames = self.command_buffers.num_frames() as u64;
        self.frame.advance_frame_counters(max_frames);
        proof {
            crate::rhi::frame::lemma_advance_keeps_slot(before, self.frame, max_frames);
        }
    }
}

/// After a new frame begins, the first command buffer that a thread asks
/// for is the first buffer of its pool in the current frame.
pub proof fn lemma_new_frame_starts_at_first_buffer(
    begun: FrameCycle,
    after: FrameCycle,
    thread_index: u32,
    index: u32,
)
    requires
        begun.wf(),
        thread_index < begun.command_buffers().threads(),
        forall|p: int|
            begun.frame().current * begun.command_buffers().threads() <= p < (begun.frame().current + 1)
                * begun.command_buffers().threads() ==> #[trigger] begun.command_buffers().used()[p] == 0,
        command_buffer_step(
            begun.command_buffers(),
            after.command_buffers(),
            begun.frame().current as u32,
            thread_index,
            Ok(index),
        ),
    ensures
        index == (begun.frame().current * begun.command_buffers().threads() + thread_index)
            * begun.command_buffers().per_thread(),
{
    let m = begun.command_buffers();
    let f = begun.frame().current;
    let t = m.threads();
    let pool = m.spec_pool_index(f as u32, thread_index);
    assert(f * t <= pool < (f + 1) * t) by (nonlinear_arith)
        requires
            pool == f * t + thread_index,
            thread_index < t,
    ;
    assert(pool < m.frames() * t) by (nonlinear_arith)
        requires
            pool == f * t + thread_index,
            f < m.frames(),
            thread_index < t,
    ;
    assert(m.used()[pool] == 0);
    assert(pool * m.per_thread() <= m.frames() * t * m.per_thread()) by (nonlinear_arith)
        requires
            pool < m.frames() * t,
    ;
}

} // verus!
