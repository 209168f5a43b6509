use vstd::prelude::*;

verus! {

/// How the per-frame, per-thread pools are set up.
#[derive(Clone, Copy, PartialEq, Eq, Structural, Debug)]
pub struct FrameThreadPoolsDesc {
    pub num_threads: u32,
    pub time_queries_per_frame: u32,
    pub graphics_queue_family_index: u32,
}

/// The number of pool sets that `desc` asks for over `max_frames` frames in
/// flight: one per thread and frame.
pub fn num_frame_thread_pools(desc: &FrameThreadPoolsDesc, max_frames: u32) -> (n: u32)
    requires
        desc.num_threads * max_frames <= u32::MAX,
    ensures
        n == desc.num_threads * max_frames,
{
    desc.num_threads * max_frames
}

/// The index of the pools of thread `thread_index` in frame `frame_index`:
/// the pools of a frame stand together, in thread order.
pub fn frame_thread_pool_index(frame_index: u32, thread_index: u32, num_threads: u32, max_frames: u32) -> (index: u32)
    requires
        frame_index < max_frames,
        thread_index < num_threads,
        num_threads * max_frames <= u32::MAX,
    ensures
        index == frame_index * num_threads + thread_index,
        index < num_threads * max_frames,
{
    proof {
        assert(frame_index * num_threads + thread_index < num_threads * max_frames) by (nonlinear_arith)
            requires
                frame_index < max_frames,
                thread_index < num_threads,
        ;
    }
    frame_index * num_threads + thread_index
}

/// The frame counters: the slot of the current and of the previous frame
/// among the frames in flight, and the number of frames begun so far.
#[derive(Clone, Copy, PartialEq, Eq, Structural, Debug)]
pub struct FrameIndexData {
    pub current: u64,
    pub previous: u64,
    pub absolute: u64,
}

/// A semaphore that the frame logic waits on or signals.
#[derive(Clone, Copy, PartialEq, Eq, Structural, Debug)]
pub enum FrameSemaphore {
    /// Signalled when the swapchain image is acquired.
    SwapchainImageAcquired,
    /// The timeline that counts finished graphics frames.
    GraphicsWork,
    /// Signalled when the rendering of the frame in the given slot is done.
    RenderComplete(u64),
}

/// Vulkan's `VK_PIPELINE_STAGE_2_TOP_OF_PIPE_BIT`.
pub const STAGE_TOP_OF_PIPE: u64 = 0x1;

/// Vulkan's `VK_PIPELINE_STAGE_2_COLOR_ATTACHMENT_OUTPUT_BIT`.
pub const STAGE_COLOR_ATTACHMENT_OUTPUT: u64 = 0x400;

/// One semaphore of a queue submission: the stages it guards and, for the
/// timeline, the value waited for or signalled.
#[derive(Clone, Copy, PartialEq, Eq, Structural, Debug)]
pub struct SemaphoreSubmit {
    pub semaphore: FrameSemaphore,
    pub stage_mask: u64,
    pub value: Option<u64>,
}

impl FrameIndexData {
    pub fn new() -> (data: Self)
        ensures
            data == (FrameIndexData { current: 0, previous: 0, absolute: 0 }),
    {
        FrameIndexData { current: 0, previous: 0, absolute: 0 }
    }

    /// Moves on to the next frame: the current slot becomes the previous one,
    /// the slot advances modulo `max_frames`, and one more frame is counted.
    pub fn advance_frame_counters(&mut self, max_frames: u64)
        requires
            max_frames > 0,
            old(self).current < u64::MAX,
            old(self).absolute < u64::MAX,
        ensures
            final(self).previous == old(self).current,
            final(self).current == (old(self).current + 1) % (max_frames as int),
            final(self).absolute == old(self).absolute + 1,
    {
        self.previous = self.current;
        self.current = (self.current + 1) % max_frames;
        self.absolute = self.absolute + 1;
    }

    /// Whether a new frame must wait for earlier graphics work: only once
    /// every slot has been used.
    pub fn must_wait_for_graphics(&self, max_frames: u64) -> (b: bool)
        ensures
            b == (self.absolute >= max_frames),
    {
        self.absolute >= max_frames
    }

    /// The graphics timeline value that the current frame waits for.
    pub fn graphics_semaphore_wait_value(&self, max_frames: u64) -> (v: u64)
        requires
            max_frames > 0,
            self.absolute >= max_frames - 1,
        ensures
            v == self.absolute - (max_frames - 1),
    {
        self.absolute - (max_frames - 1)
    }

    /// The graphics timeline value that the current frame's work signals.
    pub fn graphics_semaphore_signal_value(&self) -> (v: u64)
        requires
            self.absolute < u64::MAX,
        ensures
            v == self.absolute + 1,
    {
        self.absolute + 1
    }

    pub open spec fn spec_wait_semaphores(self, max_frames: u64) -> Seq<SemaphoreSubmit> {
        let acquired = SemaphoreSubmit {
            semaphore: FrameSemaphore::SwapchainImageAcquired,
            stage_mask: STAGE_COLOR_ATTACHMENT_OUTPUT,
            value: None,
        };
        if self.absolute >= max_frames {
            seq![
                acquired,
                SemaphoreSubmit {
                    semaphore: FrameSemaphore::GraphicsWork,
                    stage_mask: STAGE_TOP_OF_PIPE,
                    value: Some((self.absolute - (max_frames - 1)) as u64),
                },
            ]
        } else {
            seq![acquired]
        }
    }

    pub open spec fn spec_signal_semaphores(self) -> Seq<SemaphoreSubmit> {
        seq![
            SemaphoreSubmit {
                semaphore: FrameSemaphore::RenderComplete(self.current),
                stage_mask: STAGE_COLOR_ATTACHMENT_OUTPUT,
                value: None,
            },
            SemaphoreSubmit {
                semaphore: FrameSemaphore::GraphicsWork,
                stage_mask: STAGE_COLOR_ATTACHMENT_OUTPUT,
                value: Some((self.absolute + 1) as u64),
            },
        ]
    }

    /// The semaphores that the current frame's graphics submission waits on
    /// and signals: it waits for the swapchain image and, once every slot
    /// has been used, for the graphics work of the frame that last used its
    /// slot; it signals its render-complete semaphore and the next timeline
    /// value.
    pub fn graphics_submit_semaphores(&self, max_frames: u64) -> (r: (Vec<SemaphoreSubmit>, Vec<SemaphoreSubmit>))
        requires
            max_frames > 0,
            self.absolute < u64::MAX,
        ensures
            r.0@ == self.spec_wait_semaphores(max_frames),
            r.1@ == self.spec_signal_semaphores(),
    {
        let mut wait: Vec<SemaphoreSubmit> = Vec::new();
        wait.push(
            SemaphoreSubmit {
                semaphore: FrameSemaphore::SwapchainImageAcquired,
                stage_mask: STAGE_COLOR_ATTACHMENT_OUTPUT,
                value: None,
            },
        );
        if self.must_wait_for_graphics(max_frames) {
            let value = self.graphics_semaphore_wait_value(max_frames);
            wait.push(
                SemaphoreSubmit {
                    semaphore: FrameSemaphore::GraphicsWork,
                    stage_mask: STAGE_TOP_OF_PIPE,
                    value: Some(value),
                },
            );
        }
        let mut signal: Vec<SemaphoreSubmit> = Vec::new();
        signal.push(
            SemaphoreSubmit {
                semaphore: FrameSemaphore::RenderComplete(self.current),
                stage_mask: STAGE_COLOR_ATTACHMENT_OUTPUT,
                value: None,
            },
        );
        let value = self.graphics_semaphore_signal_value();
        signal.push(
            SemaphoreSubmit {
                semaphore: FrameSemaphore::GraphicsWork,
                stage_mask: STAGE_COLOR_ATTACHMENT_OUTPUT,
                value: Some(value),
            },
        );
        proof {
            assert(wait@ =~= self.spec_wait_semaphores(max_frames));
            assert(signal@ =~= self.spec_signal_semaphores());
        }
        (wait, signal)
    }
}

/// The current slot is the number of frames begun, modulo the number of
/// frames in flight: advancing the counters keeps this so.
pub proof fn lemma_advance_keeps_slot(before: FrameIndexData, after: FrameIndexData, max_frames: u64)
    requires
        max_frames > 0,
        before.current == before.absolute % max_frames,
        after.previous == before.current,
        after.current == (before.current + 1) % (max_frames as int),
        after.absolute == before.absolute + 1,
    ensures
        after.current == after.absolute % max_frames,
        after.current < max_frames,
{
    let m = max_frames as int;
    let a = before.absolute as int;
    vstd::arithmetic::div_mod::lemma_mod_bound(a + 1, m);
    if max_frames == 1 {
        vstd::arithmetic::div_mod::lemma_mod_bound(before.current as int + 1, m);
    } else {
        vstd::arithmetic::div_mod::lemma_small_mod(1, m as nat);
        vstd::arithmetic::div_mod::lemma_add_mod_noop(a, 1, m);
    }
}

/// A frame waits for the graphics timeline value that the frame
/// `max_frames` before it signalled: the last frame to use the same slot.
pub proof fn lemma_wait_matches_earlier_signal(earlier: FrameIndexData, later: FrameIndexData, max_frames: u64)
    requires
        max_frames > 0,
        later.absolute == earlier.absolute + max_frames,
    ensures
        later.absolute >= max_frames,
        later.spec_wait_semaphores(max_frames)[1].value == earlier.spec_signal_semaphores()[1].value,
{
}

/// `after` is `before` with the counters advanced once over `max_frames`
/// frames in flight, as `advance_frame_counters` states.
pub open spec fn advanced(before: FrameIndexData, after: FrameIndexData, max_frames: u64) -> bool {
    &&& after.previous == before.current
    &&& after.current == (before.current + 1) % (max_frames as int)
    &&& after.absolute == before.absolute + 1
}

/// After `n` advances from fresh counters, `n` frames are counted, the
/// current slot is `n` modulo the frames in flight and the previous slot is
/// `n - 1` modulo them; `states[k]` holds the counters after `k` advances.
pub proof fn lemma_counters_after_advances(states: Seq<FrameIndexData>, max_frames: u64)
    requires
        max_frames > 0,
        states.len() >= 1,
        states[0] == (FrameIndexData { current: 0, previous: 0, absolute: 0 }),
        forall|k: int| 0 <= k < states.len() - 1 ==> #[trigger] advanced(states[k], states[k + 1], max_frames),
    ensures
        states.last().absolute == states.len() - 1,
        states.last().current == (states.len() - 1) % (max_frames as int),
        states.len() >= 2 ==> states.last().previous == (states.len() - 2) % (max_frames as int),
    decreases states.len(),
{
    let n = states.len() - 1;
    if n == 0 {
        assert(states.last() == states[0]);
        vstd::arithmetic::div_mod::lemma_small_mod(0, max_frames as nat);
    } else {
        let s2 = states.drop_last();
        assert forall|k: int| 0 <= k < s2.len() - 1 implies #[trigger] advanced(s2[k], s2[k + 1], max_frames) by {
            assert(advanced(states[k], states[k + 1], max_frames));
        }
        lemma_counters_after_advances(s2, max_frames);
        let k = n - 1;
        assert(advanced(states[k], states[k + 1], max_frames));
        assert(s2.last() == states[k]);
        lemma_advance_keeps_slot(states[k], states[n], max_frames);
        assert(states.last() == states[n]);
    }
}

} // verus!
