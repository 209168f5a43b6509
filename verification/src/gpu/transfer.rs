use vstd::prelude::*;

verus! {

/// What the transfer manager does in one step: the timeline value it waits
/// for before reporting the images it finished, those images, and the
/// upload it records next with the timeline value that upload signals.
pub struct TransferStep {
    pub wait_value: Option<u64>,
    pub finished: Vec<u64>,
    pub upload: Option<u64>,
    pub signal_value: Option<u64>,
}

/// The decisions of the asynchronous transfer manager: the image uploads
/// asked for and not yet recorded, the uploads recorded and not yet
/// reported finished, and the number of transfer submissions so far. Images
/// are named by the handles the renderer finds them again by.
pub struct TransferScheduler {
    pending: Vec<u64>,
    completed: Vec<u64>,
    submission_index: u64,
}

impl TransferScheduler {
    pub closed spec fn spec_pending(&self) -> Seq<u64> {
        self.pending@
    }

    pub closed spec fn spec_completed(&self) -> Seq<u64> {
        self.completed@
    }

    pub closed spec fn spec_submission_index(&self) -> u64 {
        self.submission_index
    }

    pub fn new() -> (s: Self)
        ensures
            s.spec_pending().len() == 0,
            s.spec_completed().len() == 0,
            s.spec_submission_index() == 0,
    {
        TransferScheduler { pending: Vec::new(), completed: Vec::new(), submission_index: 0 }
    }

    pub fn submission_index(&self) -> (i: u64)
        ensures
            i == self.spec_submission_index(),
    {
        self.submission_index
    }

    /// One step of the transfers, with `received` the upload requests that
    /// arrived since the last step. Where uploads were recorded and not yet
    /// reported, or requests wait after an earlier submission, the step
    /// first waits for the last submission and reports the recorded uploads
    /// finished. Then the last request asked for is recorded, signalling the
    /// next submission value.
    pub fn perform_transfers(&mut self, received: Vec<u64>) -> (step: TransferStep)
        requires
            old(self).spec_submission_index() < u64::MAX,
        ensures
            transfer_step(*old(self), *final(self), received@, step),
    {
        let waits = self.completed.len() > 0 || (self.pending.len() > 0 && self.submission_index > 0);
        let wait_value = if waits {
            Some(self.submission_index)
        } else {
            None
        };
        let mut finished: Vec<u64> = Vec::new();
        std::mem::swap(&mut finished, &mut self.completed);
        let mut received = received;
        self.pending.append(&mut received);
        match self.pending.pop() {
            Some(image) => {
                self.submission_index = self.submission_index + 1;
                self.completed.push(image);
                proof {
                    assert(self.completed@ =~= seq![image]);
                }
                TransferStep { wait_value, finished, upload: Some(image), signal_value: Some(self.submission_index) }
            },
            None => TransferStep { wait_value, finished, upload: None, signal_value: None },
        }
    }
}

/// What one step of the transfers does, from `before` to `after`, with
/// `received` the requests that arrived.
pub open spec fn transfer_step(before: TransferScheduler, after: TransferScheduler, received: Seq<u64>, step: TransferStep) -> bool {
    let waits = before.spec_completed().len() > 0 || (before.spec_pending().len() > 0
        && before.spec_submission_index() > 0);
    let requests = before.spec_pending() + received;
    &&& step.wait_value == if waits {
        Some(before.spec_submission_index())
    } else {
        None::<u64>
    }
    &&& step.finished@ == before.spec_completed()
    &&& requests.len() == 0 ==> {
        &&& step.upload is None
        &&& step.signal_value is None
        &&& after.spec_pending().len() == 0
        &&& after.spec_completed().len() == 0
        &&& after.spec_submission_index() == before.spec_submission_index()
    }
    &&& requests.len() > 0 ==> {
        &&& step.upload == Some(requests.last())
        &&& step.signal_value == Some((before.spec_submission_index() + 1) as u64)
        &&& after.spec_pending() == requests.drop_last()
        &&& after.spec_completed() == seq![requests.last()]
        &&& after.spec_submission_index() == before.spec_submission_index() + 1
    }
}

/// An upload recorded in one step is reported finished in the next, after
/// waiting for the value that its submission signals.
pub proof fn lemma_upload_reported_next_step(
    s0: TransferScheduler,
    s1: TransferScheduler,
    s2: TransferScheduler,
    r1: Seq<u64>,
    r2: Seq<u64>,
    step1: TransferStep,
    step2: TransferStep,
)
    requires
        transfer_step(s0, s1, r1, step1),
        transfer_step(s1, s2, r2, step2),
        step1.upload is Some,
    ensures
        step2.wait_value == step1.signal_value,
        step2.finished@ == seq![step1.upload->0],
{
}

/// The requests received over the first `n` steps, in order.
pub open spec fn received_upto(received: Seq<Seq<u64>>, n: int) -> Seq<u64>
    decreases n,
{
    if n <= 0 {
        Seq::empty()
    } else {
        received_upto(received, n - 1) + received[n - 1]
    }
}

/// The images reported finished over the first `n` steps, in order.
pub open spec fn finished_upto(steps: Seq<TransferStep>, n: int) -> Seq<u64>
    decreases n,
{
    if n <= 0 {
        Seq::empty()
    } else {
        finished_upto(steps, n - 1) + steps[n - 1].finished@
    }
}

/// The number of uploads recorded over the first `n` steps.
pub open spec fn uploads_upto(steps: Seq<TransferStep>, n: int) -> int
    decreases n,
{
    if n <= 0 {
        0
    } else {
        uploads_upto(steps, n - 1) + if steps[n - 1].upload is Some {
            1int
        } else {
            0int
        }
    }
}

/// `states` is a run of `steps` from a fresh scheduler, with `received[k]`
/// the requests that arrived before step `k`.
pub open spec fn is_run(states: Seq<TransferScheduler>, received: Seq<Seq<u64>>, steps: Seq<TransferStep>) -> bool {
    &&& states.len() == steps.len() + 1
    &&& received.len() == steps.len()
    &&& states[0].spec_pending().len() == 0
    &&& states[0].spec_completed().len() == 0
    &&& states[0].spec_submission_index() == 0
    &&& forall|k: int|
        0 <= k < steps.len() ==> #[trigger] transfer_step(states[k], states[k + 1], received[k], steps[k])
}

proof fn lemma_step_accounts(before: TransferScheduler, after: TransferScheduler, received: Seq<u64>, step: TransferStep)
    requires
        transfer_step(before, after, received, step),
    ensures
        (before.spec_pending() + received).to_multiset().add(before.spec_completed().to_multiset())
            == step.finished@.to_multiset().add(after.spec_pending().to_multiset()).add(
            after.spec_completed().to_multiset(),
        ),
{
    broadcast use vstd::seq_lib::lemma_multiset_commutative;
    broadcast use vstd::multiset::group_multiset_axioms;
    broadcast use vstd::seq_lib::group_to_multiset_ensures;

    let requests = before.spec_pending() + received;
    if requests.len() > 0 {
        assert(requests =~= requests.drop_last() + seq![requests.last()]);
        assert(requests.to_multiset() =~= requests.drop_last().to_multiset().add(seq![requests.last()].to_multiset()));
    } else {
        assert(requests =~= Seq::<u64>::empty());
        assert(requests.to_multiset() =~= vstd::multiset::Multiset::empty());
        assert(after.spec_pending() =~= Seq::<u64>::empty());
        assert(after.spec_pending().to_multiset() =~= vstd::multiset::Multiset::empty());
        assert(after.spec_completed() =~= Seq::<u64>::empty());
        assert(after.spec_completed().to_multiset() =~= vstd::multiset::Multiset::empty());
    }
    assert(step.finished@.to_multiset() == before.spec_completed().to_multiset());
}

/// Over any run of steps from a fresh scheduler, every request received is
/// either reported finished in exactly one step, or still recorded or waiting:
/// as multisets, the requests received are the images reported plus those
/// recorded and not yet reported plus those waiting. So no image is reported
/// twice and none is lost. The submission index counts the steps that
/// recorded an upload, one at most per step.
pub proof fn lemma_requests_accounted(states: Seq<TransferScheduler>, received: Seq<Seq<u64>>, steps: Seq<TransferStep>)
    requires
        is_run(states, received, steps),
    ensures
        received_upto(received, steps.len() as int).to_multiset() == finished_upto(
            steps,
            steps.len() as int,
        ).to_multiset().add(states.last().spec_pending().to_multiset()).add(
            states.last().spec_completed().to_multiset(),
        ),
        states.last().spec_submission_index() == uploads_upto(steps, steps.len() as int),
    decreases steps.len(),
{
    broadcast use vstd::seq_lib::lemma_multiset_commutative;
    broadcast use vstd::multiset::group_multiset_axioms;
    broadcast use vstd::seq_lib::group_to_multiset_ensures;

    let n = steps.len() as int;
    if n == 0 {
        assert(received_upto(received, 0) =~= Seq::<u64>::empty());
        assert(received_upto(received, 0).to_multiset() =~= vstd::multiset::Multiset::empty());
        assert(finished_upto(steps, 0) =~= Seq::<u64>::empty());
        assert(finished_upto(steps, 0).to_multiset() =~= vstd::multiset::Multiset::empty());
        assert(states.last() == states[0]);
        assert(states[0].spec_pending() =~= Seq::<u64>::empty());
        assert(states[0].spec_pending().to_multiset() =~= vstd::multiset::Multiset::empty());
        assert(states[0].spec_completed() =~= Seq::<u64>::empty());
        assert(states[0].spec_completed().to_multiset() =~= vstd::multiset::Multiset::empty());
    } else {
        let s2 = states.drop_last();
        let r2 = received.drop_last();
        let t2 = steps.drop_last();
        assert forall|k: int| 0 <= k < t2.len() implies #[trigger] transfer_step(s2[k], s2[k + 1], r2[k], t2[k]) by {
            assert(transfer_step(states[k], states[k + 1], received[k], steps[k]));
        }
        lemma_requests_accounted(s2, r2, t2);
        assert forall|m: int| 0 <= m <= n - 1 implies received_upto(r2, m) == received_upto(received, m) by {
            lemma_received_prefix(received, r2, m);
        }
        assert forall|m: int| 0 <= m <= n - 1 implies finished_upto(t2, m) == finished_upto(steps, m) by {
            lemma_finished_prefix(steps, t2, m);
        }
        lemma_uploads_prefix(steps, t2, n - 1);
        let k = n - 1;
        assert(transfer_step(states[k], states[k + 1], received[k], steps[k]));
        lemma_step_accounts(states[k], states[n], received[k], steps[k]);
        assert(s2.last() == states[k]);
        assert(states.last() == states[n]);
        let rr = received_upto(received, k).to_multiset();
        let ff = finished_upto(steps, k).to_multiset();
        let p0 = states[k].spec_pending().to_multiset();
        let c0 = states[k].spec_completed().to_multiset();
        let r = received[k].to_multiset();
        let f = steps[k].finished@.to_multiset();
        let p1 = states[n].spec_pending().to_multiset();
        let c1 = states[n].spec_completed().to_multiset();
        assert(rr == ff.add(p0).add(c0));
        assert(p0.add(r).add(c0) == f.add(p1).add(c1));
        assert(received_upto(received, n) == received_upto(received, k) + received[k]);
        assert(finished_upto(steps, n) == finished_upto(steps, k) + steps[k].finished@);
        assert(received_upto(received, n).to_multiset() =~= rr.add(r));
        assert(finished_upto(steps, n).to_multiset() =~= ff.add(f));
        assert forall|x: u64| #[trigger] rr.add(r).count(x) == ff.add(f).add(p1).add(c1).count(x) by {
            assert(rr.count(x) == ff.add(p0).add(c0).count(x));
            assert(p0.add(r).add(c0).count(x) == f.add(p1).add(c1).count(x));
        }
        assert(rr.add(r) =~= ff.add(f).add(p1).add(c1));
    }
}

proof fn lemma_received_prefix(a: Seq<Seq<u64>>, b: Seq<Seq<u64>>, m: int)
    requires
        0 <= m <= b.len(),
        b.len() <= a.len(),
        forall|k: int| 0 <= k < b.len() ==> b[k] == a[k],
    ensures
        received_upto(b, m) == received_upto(a, m),
    decreases m,
{
    if m > 0 {
        lemma_received_prefix(a, b, m - 1);
    }
}

proof fn lemma_finished_prefix(a: Seq<TransferStep>, b: Seq<TransferStep>, m: int)
    requires
        0 <= m <= b.len(),
        b.len() <= a.len(),
        forall|k: int| 0 <= k < b.len() ==> b[k] == a[k],
    ensures
        finished_upto(b, m) == finished_upto(a, m),
    decreases m,
{
    if m > 0 {
        lemma_finished_prefix(a, b, m - 1);
    }
}

proof fn lemma_uploads_prefix(a: Seq<TransferStep>, b: Seq<TransferStep>, m: int)
    requires
        0 <= m <= b.len(),
        b.len() <= a.len(),
        forall|k: int| 0 <= k < b.len() ==> b[k] == a[k],
    ensures
        uploads_upto(b, m) == uploads_upto(a, m),
    decreases m,
{
    if m > 0 {
        lemma_uploads_prefix(a, b, m - 1);
    }
}

} // verus!
