use vstd::prelude::*;

use crate::gpu::barriers::spec_image_transition;
use crate::gpu::barriers::Barriers;
use crate::gpu::barriers::STATE_COPY_DESTINATION;
use crate::gpu::barriers::STATE_SHADER_RESOURCE;
use crate::gpu::barriers::STATE_UNDEFINED;
use crate::gpu::types::AttachmentLoadOp;
use crate::gpu::types::AttachmentStoreOp;
use crate::gpu::types::GpuImage;
use crate::gpu::types::IMAGE_ASPECT_COLOR;
use crate::gpu::types::ClearColor;
use crate::gpu::types::ImageLayout;
use crate::gpu::types::RenderColorAttachment;
use crate::gpu::types::RenderDepthStencilAttachment;
use crate::gpu::types::RenderPassOperation;
use crate::gpu::types::RenderingState;

verus! {

/// Where a command buffer stands in the command buffer manager: its index
/// in the manager's array, and the frame and thread whose pool it came
/// from (`u32::MAX` for both where it is a secondary buffer).
#[derive(Clone, Copy, PartialEq, Eq, Structural, Debug)]
pub struct CommandBufferMetaData {
    pub array_index: u32,
    pub frame_index: u32,
    pub thread_index: u32,
}

/// The primary command buffers, in the order they are allocated: frame by
/// frame, thread by thread, `per_thread` buffers from each pool.
pub open spec fn primary_layout(num_frames: u32, num_threads: u32, per_thread: u32) -> Seq<CommandBufferMetaData> {
    Seq::new(
        (num_frames * num_threads * per_thread) as nat,
        |i: int| primary_meta_at(i, num_threads, per_thread),
    )
}

/// Why no command buffer can be handed out.
#[derive(Clone, Copy, PartialEq, Eq, Structural, Debug)]
pub enum CommandBufferError {
    /// Every primary command buffer of the frame's thread is in use.
    AllCommandBuffersUsed,
    /// Every secondary command buffer of the frame's thread is in use.
    AllSecondaryCommandBuffersUsed,
}

impl CommandBufferError {
    pub fn message(&self) -> (s: String)
        ensures
            *self == CommandBufferError::AllCommandBuffersUsed ==> s@
                == "All command buffers in current frame thread are already used!"@,
            *self == CommandBufferError::AllSecondaryCommandBuffersUsed ==> s@
                == "All secondary command buffers in current frame thread are already used!"@,
    {
        match self {
            CommandBufferError::AllCommandBuffersUsed => String::from_str(
                "All command buffers in current frame thread are already used!",
            ),
            CommandBufferError::AllSecondaryCommandBuffersUsed => String::from_str(
                "All secondary command buffers in current frame thread are already used!",
            ),
        }
    }
}

/// What handing out a primary command buffer does: the pool's next buffer,
/// counted as in use, or an error once the count has passed the pool's
/// buffers.
pub open spec fn command_buffer_step(
    before: CommandBufferManager,
    after: CommandBufferManager,
    frame_index: u32,
    thread_index: u32,
    r: Result<u32, CommandBufferError>,
) -> bool {
    let pool = before.spec_pool_index(frame_index, thread_index);
    let used = before.used()[pool];
    if used > before.per_thread() {
        &&& r == Err::<u32, CommandBufferError>(CommandBufferError::AllCommandBuffersUsed)
        &&& after.used() == before.used()
    } else {
        &&& r == Ok::<u32, CommandBufferError>((pool * before.per_thread() + used) as u32)
        &&& after.used() == before.used().update(pool, (used + 1) as u32)
    }
}

/// The bookkeeping of the command buffer manager: for each pool (one per
/// frame and thread) how many of its primary and secondary buffers are in
/// use this frame.
pub struct CommandBufferManager {
    num_used_command_buffers: Vec<u32>,
    num_used_secondary_command_buffers: Vec<u32>,
    num_frames: u32,
    num_threads_per_frame: u32,
    num_command_buffers_per_thread: u32,
    num_secondary_command_buffers_per_thread: u32,
}

impl CommandBufferManager {
    pub closed spec fn used(&self) -> Seq<u32> {
        self.num_used_command_buffers@
    }

    pub closed spec fn used_secondary(&self) -> Seq<u32> {
        self.num_used_secondary_command_buffers@
    }

    pub closed spec fn frames(&self) -> u32 {
        self.num_frames
    }

    pub closed spec fn threads(&self) -> u32 {
        self.num_threads_per_frame
    }

    pub closed spec fn per_thread(&self) -> u32 {
        self.num_command_buffers_per_thread
    }

    pub closed spec fn secondary_per_thread(&self) -> u32 {
        self.num_secondary_command_buffers_per_thread
    }

    /// One count per pool, the primary buffers all fit in `u32` indices,
    /// and no count passes one over the buffers of its pool.
    pub open spec fn wf(&self) -> bool {
        &&& self.used().len() == self.frames() * self.threads()
        &&& self.used_secondary().len() == self.frames() * self.threads()
        &&& self.frames() * self.threads() <= u32::MAX
        &&& self.frames() * self.threads() * self.per_thread() <= u32::MAX
        &&& self.frames() * self.threads() * self.secondary_per_thread() <= u32::MAX
        &&& self.per_thread() < u32::MAX
        &&& self.secondary_per_thread() < u32::MAX
        &&& forall|p: int| 0 <= p < self.used().len() ==> #[trigger] self.used()[p] <= self.per_thread() + 1
        &&& forall|p: int|
            0 <= p < self.used_secondary().len() ==> #[trigger] self.used_secondary()[p] <= self.secondary_per_thread()
                + 1
    }

    pub open spec fn spec_pool_index(&self, frame_index: u32, thread_index: u32) -> int {
        frame_index * self.threads() + thread_index
    }

    /// The primary buffer that the pool of thread `thread_index` in frame
    /// `frame_index` would hand out next lies among the primary buffers
    /// (where the pool can still hand one out).
    pub open spec fn next_primary_in_range(&self, frame_index: u32, thread_index: u32) -> bool {
        let pool = self.spec_pool_index(frame_index, thread_index);
        self.used()[pool] <= self.per_thread() ==> pool * self.per_thread() + self.used()[pool] < self.frames()
            * self.threads() * self.per_thread()
    }

    /// The secondary buffer that the pool of thread `thread_index` in frame
    /// `frame_index` would hand out next lies among the secondary buffers
    /// (where the pool can still hand one out).
    pub open spec fn next_secondary_in_range(&self, frame_index: u32, thread_index: u32) -> bool {
        let pool = self.spec_pool_index(frame_index, thread_index);
        self.used_secondary()[pool] <= self.secondary_per_thread() ==> pool * self.secondary_per_thread()
            * self.used_secondary()[pool] < self.frames() * self.threads() * self.secondary_per_thread()
    }

    /// A manager for `num_frames` frames of `num_threads` threads, each pool
    /// with `per_thread` primary and `secondary_per_thread` secondary
    /// buffers, none of them in use.
    pub fn new(num_frames: u32, num_threads: u32, per_thread: u32, secondary_per_thread: u32) -> (m: Self)
        requires
            num_frames * num_threads <= u32::MAX,
            num_frames * num_threads * per_thread <= u32::MAX,
            num_frames * num_threads * secondary_per_thread <= u32::MAX,
            per_thread < u32::MAX,
            secondary_per_thread < u32::MAX,
        ensures
            m.wf(),
            m.frames() == num_frames,
            m.threads() == num_threads,
            m.per_thread() == per_thread,
            m.secondary_per_thread() == secondary_per_thread,
            m.used() == Seq::new((num_frames * num_threads) as nat, |p: int| 0u32),
            m.used_secondary() == Seq::new((num_frames * num_threads) as nat, |p: int| 0u32),
    {
        let num_pools = num_frames * num_threads;
        let mut used: Vec<u32> = Vec::new();
        let mut used_secondary: Vec<u32> = Vec::new();
        let mut p: u32 = 0;
        while p < num_pools
            invariant
                p <= num_pools,
                used@ == Seq::new(p as nat, |k: int| 0u32),
                used_secondary@ == Seq::new(p as nat, |k: int| 0u32),
            decreases num_pools - p,
        {
            used.push(0);
            used_secondary.push(0);
            p = p + 1;
            assert(used@ =~= Seq::new(p as nat, |k: int| 0u32));
            assert(used_secondary@ =~= Seq::new(p as nat, |k: int| 0u32));
        }
        CommandBufferManager {
            num_used_command_buffers: used,
            num_used_secondary_command_buffers: used_secondary,
            num_frames,
            num_threads_per_frame: num_threads,
            num_command_buffers_per_thread: per_thread,
            num_secondary_command_buffers_per_thread: secondary_per_thread,
        }
    }

    pub fn num_frames(&self) -> (n: u32)
        ensures
            n == self.frames(),
    {
        self.num_frames
    }

    pub fn num_threads_per_frame(&self) -> (n: u32)
        ensures
            n == self.threads(),
    {
        self.num_threads_per_frame
    }

    /// The index of the pool of thread `thread_index` in frame
    /// `frame_index`.
    pub fn pool_index_from_indices(&self, frame_index: u32, thread_index: u32) -> (index: u32)
        requires
            self.wf(),
            frame_index < self.frames(),
            thread_index < self.threads(),
        ensures
            index == self.spec_pool_index(frame_index, thread_index),
            index < self.frames() * self.threads(),
    {
        proof {
            let f = self.frames();
            let t = self.threads();
            assert(frame_index * t + thread_index < f * t) by (nonlinear_arith)
                requires
                    frame_index < f,
                    thread_index < t,
            ;
        }
        frame_index * self.num_threads_per_frame + thread_index
    }

    /// Hands out the next primary command buffer of the pool of thread
    /// `thread_index` in frame `frame_index`, as its index in the array of
    /// primary buffers; an error once the count in use has passed the
    /// number of buffers per pool. The buffer handed out must exist.
    pub fn command_buffer(&mut self, frame_index: u32, thread_index: u32) -> (r: Result<u32, CommandBufferError>)
        requires
            old(self).wf(),
            frame_index < old(self).frames(),
            thread_index < old(self).threads(),
            old(self).next_primary_in_range(frame_index, thread_index),
        ensures
            final(self).wf(),
            final(self).frames() == old(self).frames(),
            final(self).threads() == old(self).threads(),
            final(self).per_thread() == old(self).per_thread(),
            final(self).secondary_per_thread() == old(self).secondary_per_thread(),
            final(self).used_secondary() == old(self).used_secondary(),
            command_buffer_step(*old(self), *final(self), frame_index, thread_index, r),
    {
        let pool = self.pool_index_from_indices(frame_index, thread_index);
        let used = self.num_used_command_buffers[pool as usize];
        if used > self.num_command_buffers_per_thread {
            return Err(CommandBufferError::AllCommandBuffersUsed);
        }
        self.num_used_command_buffers.set(pool as usize, used + 1);
        proof {
            let f = self.num_frames;
            let t = self.num_threads_per_frame;
            let n = self.num_command_buffers_per_thread;
            assert(pool * n + used <= f * t * n) by (nonlinear_arith)
                requires
                    pool < f * t,
                    used <= n,
            ;
        }
        Ok(pool * self.num_command_buffers_per_thread + used)
    }

    /// Hands out the next secondary command buffer of the pool of thread
    /// `thread_index` in frame `frame_index`, as its index in the array of
    /// secondary buffers: the pool's first index times the number in use;
    /// an error once the count in use has passed the number of secondary
    /// buffers per pool. The buffer handed out must exist.
    pub fn secondary_command_buffer(&mut self, frame_index: u32, thread_index: u32) -> (r: Result<
        u32,
        CommandBufferError,
    >)
        requires
            old(self).wf(),
            frame_index < old(self).frames(),
            thread_index < old(self).threads(),
            old(self).next_secondary_in_range(frame_index, thread_index),
        ensures
            final(self).wf(),
            final(self).frames() == old(self).frames(),
            final(self).threads() == old(self).threads(),
            final(self).per_thread() == old(self).per_thread(),
            final(self).secondary_per_thread() == old(self).secondary_per_thread(),
            final(self).used() == old(self).used(),
            ({
                let pool = old(self).spec_pool_index(frame_index, thread_index);
                let used = old(self).used_secondary()[pool];
                if used > old(self).secondary_per_thread() {
                    &&& r == Err::<u32, CommandBufferError>(CommandBufferError::AllSecondaryCommandBuffersUsed)
                    &&& final(self).used_secondary() == old(self).used_secondary()
                } else {
                    &&& r == Ok::<u32, CommandBufferError>((pool * old(self).secondary_per_thread() * used) as u32)
                    &&& final(self).used_secondary() == old(self).used_secondary().update(pool, (used + 1) as u32)
                }
            }),
    {
        let pool = self.pool_index_from_indices(frame_index, thread_index);
        let used = self.num_used_secondary_command_buffers[pool as usize];
        if used > self.num_secondary_command_buffers_per_thread {
            return Err(CommandBufferError::AllSecondaryCommandBuffersUsed);
        }
        self.num_used_secondary_command_buffers.set(pool as usize, used + 1);
        proof {
            let f = self.num_frames;
            let t = self.num_threads_per_frame;
            let n = self.num_secondary_command_buffers_per_thread;
            assert(pool * n <= f * t * n) by (nonlinear_arith)
                requires
                    pool < f * t,
            ;
        }
        Ok(pool * self.num_secondary_command_buffers_per_thread * used)
    }

    /// Marks every buffer of the pools of frame `frame_index` as free again.
    pub fn reset_pools(&mut self, frame_index: u32)
        requires
            old(self).wf(),
            frame_index < old(self).frames(),
        ensures
            final(self).wf(),
            final(self).frames() == old(self).frames(),
            final(self).threads() == old(self).threads(),
            final(self).per_thread() == old(self).per_thread(),
            final(self).secondary_per_thread() == old(self).secondary_per_thread(),
            final(self).used() == Seq::new(
                old(self).used().len(),
                |p: int|
                    if frame_index * old(self).threads() <= p < (frame_index + 1) * old(self).threads() {
                        0u32
                    } else {
                        old(self).used()[p]
                    },
            ),
            final(self).used_secondary() == Seq::new(
                old(self).used_secondary().len(),
                |p: int|
                    if frame_index * old(self).threads() <= p < (frame_index + 1) * old(self).threads() {
                        0u32
                    } else {
                        old(self).used_secondary()[p]
                    },
            ),
    {
        let ghost t = self.num_threads_per_frame;
        let ghost start = frame_index * t;
        let mut thread_index: u32 = 0;
        while thread_index < self.num_threads_per_frame
            invariant
                self.wf(),
                frame_index < self.frames(),
                self.frames() == old(self).frames(),
                self.threads() == old(self).threads(),
                t == self.threads(),
                start == frame_index * t,
                self.per_thread() == old(self).per_thread(),
                self.secondary_per_thread() == old(self).secondary_per_thread(),
                thread_index <= t,
                self.used() == Seq::new(
                    old(self).used().len(),
                    |p: int|
                        if start <= p < start + thread_index {
                            0u32
                        } else {
                            old(self).used()[p]
                        },
                ),
                self.used_secondary() == Seq::new(
                    old(self).used_secondary().len(),
                    |p: int|
                        if start <= p < start + thread_index {
                            0u32
                        } else {
                            old(self).used_secondary()[p]
                        },
                ),
            decreases t - thread_index,
        {
            let pool = self.pool_index_from_indices(frame_index, thread_index);
            self.num_used_command_buffers.set(pool as usize, 0);
            self.num_used_secondary_command_buffers.set(pool as usize, 0);
            thread_index = thread_index + 1;
            proof {
                assert(self.used() =~= Seq::new(
                    old(self).used().len(),
                    |p: int|
                        if start <= p < start + thread_index {
                            0u32
                        } else {
                            old(self).used()[p]
                        },
                ));
                assert(self.used_secondary() =~= Seq::new(
                    old(self).used_secondary().len(),
                    |p: int|
                        if start <= p < start + thread_index {
                            0u32
                        } else {
                            old(self).used_secondary()[p]
                        },
                ));
            }
        }
        proof {
            assert(start + t == (frame_index + 1) * t) by (nonlinear_arith)
                requires
                    start == frame_index * t,
            ;
        }
    }
}

/// The metadata of the primary command buffer at `i` in the manager's array.
pub open spec fn primary_meta_at(i: int, num_threads: u32, per_thread: u32) -> CommandBufferMetaData {
    CommandBufferMetaData {
        array_index: i as u32,
        frame_index: (i / (num_threads * per_thread)) as u32,
        thread_index: ((i / per_thread as int) % (num_threads as int)) as u32,
    }
}

proof fn lemma_primary_meta_at(f: int, t: int, k: int, num_threads: u32, per_thread: u32)
    requires
        0 <= f,
        0 <= t < num_threads,
        0 <= k < per_thread,
    ensures
        primary_meta_at((f * num_threads + t) * per_thread + k, num_threads, per_thread).frame_index == f as u32,
        primary_meta_at((f * num_threads + t) * per_thread + k, num_threads, per_thread).thread_index == t as u32,
{
    let n = (f * num_threads + t) * per_thread + k;
    let q = f * num_threads + t;
    vstd::arithmetic::div_mod::lemma_fundamental_div_mod_converse(n, per_thread as int, q, k);
    vstd::arithmetic::div_mod::lemma_fundamental_div_mod_converse(q, num_threads as int, f, t);
    assert(q >= 0) by (nonlinear_arith)
        requires
            f >= 0,
            t >= 0,
            num_threads > 0,
            q == f * num_threads + t,
    ;
    assert(n >= 0) by (nonlinear_arith)
        requires
            q >= 0,
            k >= 0,
            per_thread > 0,
            n == q * per_thread + k,
    ;
    vstd::arithmetic::div_mod::lemma_div_denominator(n, per_thread as int, num_threads as int);
    assert(per_thread * num_threads == num_threads * per_thread) by (nonlinear_arith);
}

/// The metadata of the primary command buffers a manager allocates, in
/// order: frame by frame, thread by thread, `per_thread` per pool.
pub fn primary_command_buffer_layout(num_frames: u32, num_threads: u32, per_thread: u32) -> (r: Vec<
    CommandBufferMetaData,
>)
    requires
        num_frames * num_threads * per_thread <= u32::MAX,
    ensures
        r@ == primary_layout(num_frames, num_threads, per_thread),
{
    let mut r: Vec<CommandBufferMetaData> = Vec::new();
    let mut frame_index: u32 = 0;
    while frame_index < num_frames
        invariant
            num_frames * num_threads * per_thread <= u32::MAX,
            frame_index <= num_frames,
            r@.len() == frame_index * num_threads * per_thread,
            forall|i: int| 0 <= i < r@.len() ==> #[trigger] r@[i] == primary_meta_at(i, num_threads, per_thread),
        decreases num_frames - frame_index,
    {
        let mut thread_index: u32 = 0;
        while thread_index < num_threads
            invariant
                num_frames * num_threads * per_thread <= u32::MAX,
                frame_index < num_frames,
                thread_index <= num_threads,
                r@.len() == (frame_index * num_threads + thread_index) * per_thread,
                forall|i: int| 0 <= i < r@.len() ==> #[trigger] r@[i] == primary_meta_at(i, num_threads, per_thread),
            decreases num_threads - thread_index,
        {
            let mut k: u32 = 0;
            while k < per_thread
                invariant
                    num_frames * num_threads * per_thread <= u32::MAX,
                    frame_index < num_frames,
                    thread_index < num_threads,
                    k <= per_thread,
                    r@.len() == (frame_index * num_threads + thread_index) * per_thread + k,
                    forall|i: int| 0 <= i < r@.len() ==> #[trigger] r@[i] == primary_meta_at(i, num_threads, per_thread),
                decreases per_thread - k,
            {
                proof {
                    assert((frame_index * num_threads + thread_index) * per_thread + k < num_frames * num_threads
                        * per_thread) by (nonlinear_arith)
                        requires
                            frame_index < num_frames,
                            thread_index < num_threads,
                            k < per_thread,
                    ;
                    lemma_primary_meta_at(frame_index as int, thread_index as int, k as int, num_threads, per_thread);
                }
                let array_index = r.len() as u32;
                r.push(CommandBufferMetaData { array_index, frame_index, thread_index });
                k = k + 1;
            }
            proof {
                assert((frame_index * num_threads + thread_index) * per_thread + per_thread == (frame_index
                    * num_threads + thread_index + 1) * per_thread) by (nonlinear_arith);
            }
            thread_index = thread_index + 1;
        }
        proof {
            assert((frame_index * num_threads + num_threads) * per_thread == (frame_index + 1) * num_threads
                * per_thread) by (nonlinear_arith);
        }
        frame_index = frame_index + 1;
    }
    assert(r@ =~= primary_layout(num_frames, num_threads, per_thread));
    r
}

/// A clear value: a colour, or a depth and stencil, as bit patterns.
#[derive(Clone, Copy, PartialEq, Eq, Structural, Debug)]
pub enum ClearValue {
    Color(ClearColor),
    DepthStencil { depth: u32, stencil: u32 },
    /// All zero bits.
    Zero,
}

/// One attachment of a dynamic rendering pass as it is begun: its view and
/// layout, how it loads and stores, and its clear value; it resolves into
/// no other image.
#[derive(Clone, Copy, PartialEq, Eq, Structural, Debug)]
pub struct RenderingAttachmentInfo {
    pub image_view: u64,
    pub image_layout: ImageLayout,
    pub resolves: bool,
    pub load_op: AttachmentLoadOp,
    pub store_op: AttachmentStoreOp,
    pub clear_value: ClearValue,
}

/// How a dynamic rendering pass is begun.
pub struct RenderingInfo {
    /// Whether its contents are recorded in secondary command buffers.
    pub contents_secondary: bool,
    pub color_attachments: Vec<RenderingAttachmentInfo>,
    /// `None` where the pass has no depth attachment.
    pub depth_attachment: Option<RenderingAttachmentInfo>,
    /// The render area: its offset and extent.
    pub offset_x: i32,
    pub offset_y: i32,
    pub width: u32,
    pub height: u32,
    pub layer_count: u32,
}

pub open spec fn color_attachment_info(a: RenderColorAttachment) -> RenderingAttachmentInfo {
    RenderingAttachmentInfo {
        image_view: a.image_view,
        image_layout: a.image_layout,
        resolves: false,
        load_op: a.operation.spec_load_op(),
        store_op: AttachmentStoreOp::Store,
        clear_value: if a.operation == RenderPassOperation::Clear {
            ClearValue::Color(a.clear_value)
        } else {
            ClearValue::Zero
        },
    }
}

pub open spec fn depth_attachment_info(a: RenderDepthStencilAttachment) -> RenderingAttachmentInfo {
    RenderingAttachmentInfo {
        image_view: a.image_view,
        image_layout: a.image_layout,
        resolves: false,
        load_op: a.depth_operation.spec_load_op(),
        store_op: AttachmentStoreOp::Store,
        clear_value: if a.depth_operation == RenderPassOperation::Clear {
            ClearValue::DepthStencil { depth: a.clear_depth, stencil: a.clear_stencil }
        } else {
            ClearValue::Zero
        },
    }
}

/// How a command buffer (secondary or not) begins rendering with
/// `rendering_state`: every attachment loads by its operation and, where it
/// clears, with its clear value, and is stored; the render area starts at
/// the origin and spans the state's extent, in one layer.
pub fn rendering_info(rendering_state: &RenderingState, is_secondary: bool) -> (info: RenderingInfo)
    ensures
        info.contents_secondary == is_secondary,
        info.color_attachments@ == rendering_state.color_attachments@.map_values(
            |a: RenderColorAttachment| color_attachment_info(a),
        ),
        info.depth_attachment == match rendering_state.depth_attachment {
            Some(d) => Some(depth_attachment_info(d)),
            None => None::<RenderingAttachmentInfo>,
        },
        info.offset_x == 0,
        info.offset_y == 0,
        info.width == rendering_state.width,
        info.height == rendering_state.height,
        info.layer_count == 1,
{
    let mut colors: Vec<RenderingAttachmentInfo> = Vec::new();
    let mut i: usize = 0;
    while i < rendering_state.color_attachments.len()
        invariant
            i <= rendering_state.color_attachments@.len(),
            colors@ == rendering_state.color_attachments@.take(i as int).map_values(
                |a: RenderColorAttachment| color_attachment_info(a),
            ),
        decreases rendering_state.color_attachments@.len() - i,
    {
        let a = rendering_state.color_attachments[i];
        let clear_value = if a.operation == RenderPassOperation::Clear {
            ClearValue::Color(a.clear_value)
        } else {
            ClearValue::Zero
        };
        colors.push(
            RenderingAttachmentInfo {
                image_view: a.image_view,
                image_layout: a.image_layout,
                resolves: false,
                load_op: a.operation.vk_attachment_load_op(),
                store_op: AttachmentStoreOp::Store,
                clear_value,
            },
        );
        proof {
            assert(rendering_state.color_attachments@.take(i as int + 1) =~= rendering_state.color_attachments@.take(
                i as int,
            ).push(a));
        }
        i = i + 1;
        assert(colors@ =~= rendering_state.color_attachments@.take(i as int).map_values(
            |a: RenderColorAttachment| color_attachment_info(a),
        ));
    }
    assert(rendering_state.color_attachments@.take(i as int) =~= rendering_state.color_attachments@);
    let depth = match rendering_state.depth_attachment {
        Some(d) => {
            let clear_value = if d.depth_operation == RenderPassOperation::Clear {
                ClearValue::DepthStencil { depth: d.clear_depth, stencil: d.clear_stencil }
            } else {
                ClearValue::Zero
            };
            Some(
                RenderingAttachmentInfo {
                    image_view: d.image_view,
                    image_layout: d.image_layout,
                    resolves: false,
                    load_op: d.depth_operation.vk_attachment_load_op(),
                    store_op: AttachmentStoreOp::Store,
                    clear_value,
                },
            )
        },
        None => None,
    };
    RenderingInfo {
        contents_secondary: is_secondary,
        color_attachments: colors,
        depth_attachment: depth,
        offset_x: 0,
        offset_y: 0,
        width: rendering_state.width,
        height: rendering_state.height,
        layer_count: 1,
    }
}

/// A pool hands out its primary buffers one after another: two buffers
/// handed out in a row for the same frame and thread have consecutive
/// indices, the first of them the pool's first buffer after a reset.
pub proof fn lemma_command_buffers_in_order(
    m0: CommandBufferManager,
    m1: CommandBufferManager,
    m2: CommandBufferManager,
    frame_index: u32,
    thread_index: u32,
    a: u32,
    b: u32,
)
    requires
        m0.wf(),
        frame_index < m0.frames(),
        thread_index < m0.threads(),
        m1.frames() == m0.frames(),
        m1.threads() == m0.threads(),
        m1.per_thread() == m0.per_thread(),
        command_buffer_step(m0, m1, frame_index, thread_index, Ok(a)),
        command_buffer_step(m1, m2, frame_index, thread_index, Ok(b)),
    ensures
        b == a + 1,
        m0.used()[m0.spec_pool_index(frame_index, thread_index)] == 0 ==> a == m0.spec_pool_index(
            frame_index,
            thread_index,
        ) * m0.per_thread(),
{
    let pool = m0.spec_pool_index(frame_index, thread_index);
    assert(pool < m0.frames() * m0.threads()) by (nonlinear_arith)
        requires
            pool == frame_index * m0.threads() + thread_index,
            frame_index < m0.frames(),
            thread_index < m0.threads(),
    ;
    assert(pool * m0.per_thread() + m0.used()[pool] + 1 <= m0.frames() * m0.threads() * m0.per_thread()) by (nonlinear_arith)
        requires
            pool < m0.frames() * m0.threads(),
            m0.used()[pool] < m0.per_thread(),
    {
        if m0.used()[pool] < m0.per_thread() {
            assert(pool * m0.per_thread() + m0.per_thread() == (pool + 1) * m0.per_thread());
        }
    }
}

/// A copy from a buffer into the first level and layer of an image's color
/// aspect, tightly packed, into the image in its transfer layout.
#[derive(Clone, Copy, PartialEq, Eq, Structural, Debug)]
pub struct BufferImageCopy {
    pub buffer_offset: u64,
    pub buffer_row_length: u32,
    pub buffer_image_height: u32,
    pub aspect_mask: u32,
    pub mip_level: u32,
    pub base_array_layer: u32,
    pub layer_count: u32,
    pub width: u32,
    pub height: u32,
    pub depth: u32,
    pub dst_image_layout: ImageLayout,
}

/// The copy of a buffer from `buffer_offset` into a whole image of extent
/// `width` by `height` by `depth`.
pub fn buffer_image_copy(buffer_offset: u64, width: u32, height: u32, depth: u32) -> (c: BufferImageCopy)
    ensures
        c == (BufferImageCopy {
            buffer_offset,
            buffer_row_length: 0,
            buffer_image_height: 0,
            aspect_mask: IMAGE_ASPECT_COLOR,
            mip_level: 0,
            base_array_layer: 0,
            layer_count: 1,
            width,
            height,
            depth,
            dst_image_layout: ImageLayout::TransferDstOptimal,
        }),
{
    BufferImageCopy {
        buffer_offset,
        buffer_row_length: 0,
        buffer_image_height: 0,
        aspect_mask: IMAGE_ASPECT_COLOR,
        mip_level: 0,
        base_array_layer: 0,
        layer_count: 1,
        width,
        height,
        depth,
        dst_image_layout: ImageLayout::TransferDstOptimal,
    }
}

/// The barriers around an upload into `image`: before the copy the image
/// moves from undefined to copy destination, after it from copy
/// destination to shader resource.
pub fn upload_barriers(image: &GpuImage) -> (r: (Barriers, Barriers))
    ensures
        r.0.barriers() == seq![spec_image_transition(*image, STATE_UNDEFINED, STATE_COPY_DESTINATION)],
        r.1.barriers() == seq![spec_image_transition(*image, STATE_COPY_DESTINATION, STATE_SHADER_RESOURCE)],
{
    let mut before = Barriers::new();
    before.add_image(image, STATE_UNDEFINED, STATE_COPY_DESTINATION);
    let mut after = Barriers::new();
    after.add_image(image, STATE_COPY_DESTINATION, STATE_SHADER_RESOURCE);
    proof {
        assert(before.barriers() =~= seq![spec_image_transition(*image, STATE_UNDEFINED, STATE_COPY_DESTINATION)]);
        assert(after.barriers() =~= seq![
            spec_image_transition(*image, STATE_COPY_DESTINATION, STATE_SHADER_RESOURCE),
        ]);
    }
    (before, after)
}

} // verus!
