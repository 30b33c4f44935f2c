//! The engine's guarantees, proved once and for all over the model:
//! invariant preservation, block alignment, latency exactness, and the
//! write/read round trip.

use vstd::prelude::*;

use crate::components::memory::{
    align, admit_entry, can_admit, chan_of, done_has_id, queue_has_id, read_block, read_entry, step,
    lemma_align, step_channel, step_n, step_queue, wf_chan, wf_done, wf_entry, wf_model, with_chan, write_block,
    write_entry, ChannelModel, DoneModel, EngineModel, EntryModel, MemType, StepResult, TxnModel,
};
use crate::{ACCESS_CYCLES, BLOCK_SIZE};

verus! {

/// The channel the tag does not select.
pub open spec fn other_chan(ch: MemType) -> MemType {
    match ch {
        MemType::IMem => MemType::DMem,
        MemType::DMem => MemType::IMem,
    }
}

/// One tick keeps a queue's entries well-formed, never grows it, and
/// produces only well-formed completion records.
proof fn lemma_step_queue_wf(q: Seq<EntryModel>, mem: Map<u32, u8>)
    requires
        forall|j: int| 0 <= j < q.len() ==> wf_entry(#[trigger] q[j]),
    ensures
        ({
            let r = step_queue(q, mem);
            &&& r.queue.len() <= q.len()
            &&& forall|j: int| 0 <= j < r.queue.len() ==> wf_entry(#[trigger] r.queue[j])
            &&& forall|j: int| 0 <= j < r.done.len() ==> wf_done(#[trigger] r.done[j])
        }),
    decreases q.len(),
{
    if q.len() > 0 {
        let e = q.first();
        assert(wf_entry(q[0]));
        assert(forall|j: int|
            0 <= j < q.drop_first().len() ==> wf_entry(#[trigger] q.drop_first()[j]));
        if e.elapsed + 1 >= ACCESS_CYCLES {
            match e.txn {
                TxnModel::ReadStarted => {
                    lemma_step_queue_wf(q.drop_first(), mem);
                },
                TxnModel::WriteStarted(data) => {
                    lemma_step_queue_wf(q.drop_first(), write_block(mem, e.addr, data));
                },
                _ => {
                    lemma_step_queue_wf(q.drop_first(), mem);
                },
            }
        } else {
            lemma_step_queue_wf(q.drop_first(), mem);
        }
    }
}

/// One tick over one channel preserves its well-formedness.
proof fn lemma_step_channel_wf(ch: ChannelModel, mem: Map<u32, u8>)
    requires
        wf_chan(ch),
    ensures
        wf_chan(step_channel(ch, mem).0),
{
    lemma_step_queue_wf(ch.queue, mem);
    let r = step_queue(ch.queue, mem);
    assert(forall|j: int|
        0 <= j < (ch.done + r.done).len() ==> wf_done(#[trigger] (ch.done + r.done)[j]));
}

/// One tick preserves the engine's invariant.
pub proof fn lemma_step_wf(m: EngineModel)
    requires
        wf_model(m),
    ensures
        wf_model(step(m)),
{
    lemma_step_channel_wf(m.dmem, m.mem);
    lemma_step_channel_wf(m.imem, step_channel(m.dmem, m.mem).1);
}

/// Any number of ticks preserves the engine's invariant.
pub proof fn lemma_step_n_wf(m: EngineModel, n: nat)
    requires
        wf_model(m),
    ensures
        wf_model(step_n(m, n)),
    decreases n,
{
    if n > 0 {
        lemma_step_n_wf(m, (n - 1) as nat);
        lemma_step_wf(step_n(m, (n - 1) as nat));
    }
}

/// Block alignment: two addresses of the same block are
/// indistinguishable to the engine. A read admitted at `a` and a read
/// admitted at `b` produce identical engine states — the queue stores
/// only the aligned address — and so read the identical byte range.
pub proof fn lemma_block_alignment(m: EngineModel, ch: MemType, a: u32, b: u32, id: u32)
    requires
        a - a % BLOCK_SIZE == b - b % BLOCK_SIZE,
    ensures
        read_entry(a, id) == read_entry(b, id),
        admit_entry(m, ch, read_entry(a, id)) == admit_entry(m, ch, read_entry(b, id)),
        read_block(m.mem, align(a)) == read_block(m.mem, align(b)),
{
    assert(align(a) == align(b));
}

/// Reading back a block just written returns the written data
/// unchanged.
pub proof fn lemma_read_write_block(mem: Map<u32, u8>, addr: u32, data: Seq<u8>)
    requires
        addr % BLOCK_SIZE == 0,
        data.len() == BLOCK_SIZE,
    ensures
        read_block(write_block(mem, addr, data), addr) == data,
{
    crate::components::memory::lemma_aligned_block_fits(addr);
    assert forall|i: int| 0 <= i < BLOCK_SIZE implies read_block(write_block(mem, addr, data), addr)[i]
        == data[i] by {
        assert(((addr + i) as u32) - addr == i);
    }
    assert(read_block(write_block(mem, addr, data), addr) =~= data);
}

/// At most one queued entry carries `id`.
pub open spec fn at_most_one_with_id(q: Seq<EntryModel>, id: u32) -> bool {
    forall|j: int, l: int|
        0 <= j < q.len() && 0 <= l < q.len() && (#[trigger] q[j]).id == id && (#[trigger] q[l]).id
            == id ==> j == l
}

/// The transaction `id` is pending on the channel with counter `c`:
/// queued exactly once, not yet completed.
pub open spec fn tracked_pending(ch: ChannelModel, id: u32, c: u32) -> bool {
    &&& queue_has_id(ch.queue, id)
    &&& at_most_one_with_id(ch.queue, id)
    &&& (forall|j: int|
        0 <= j < ch.queue.len() && (#[trigger] ch.queue[j]).id == id ==> ch.queue[j].elapsed == c)
    &&& !done_has_id(ch.done, id)
}

/// Membership of an id in a concatenation of queues splits over the
/// parts.
proof fn lemma_queue_has_id_concat(a: Seq<EntryModel>, b: Seq<EntryModel>, id: u32)
    ensures
        queue_has_id(a + b, id) == (queue_has_id(a, id) || queue_has_id(b, id)),
{
    if queue_has_id(a, id) {
        let j = choose|j: int| 0 <= j < a.len() && (#[trigger] a[j]).id == id;
        assert((a + b)[j].id == id);
    }
    if queue_has_id(b, id) {
        let j = choose|j: int| 0 <= j < b.len() && (#[trigger] b[j]).id == id;
        assert((a + b)[a.len() + j].id == id);
    }
    if queue_has_id(a + b, id) {
        let j = choose|j: int| 0 <= j < (a + b).len() && (#[trigger] (a + b)[j]).id == id;
        if j < a.len() {
            assert(a[j].id == id);
        } else {
            assert(b[j - a.len()].id == id);
        }
    }
}

/// Membership of an id in a concatenation of completion records splits
/// over the parts.
proof fn lemma_done_has_id_concat(a: Seq<DoneModel>, b: Seq<DoneModel>, id: u32)
    ensures
        done_has_id(a + b, id) == (done_has_id(a, id) || done_has_id(b, id)),
{
    if done_has_id(a, id) {
        let j = choose|j: int| 0 <= j < a.len() && (#[trigger] a[j]).id == id;
        assert((a + b)[j].id == id);
    }
    if done_has_id(b, id) {
        let j = choose|j: int| 0 <= j < b.len() && (#[trigger] b[j]).id == id;
        assert((a + b)[a.len() + j].id == id);
    }
    if done_has_id(a + b, id) {
        let j = choose|j: int| 0 <= j < (a + b).len() && (#[trigger] (a + b)[j]).id == id;
        if j < a.len() {
            assert(a[j].id == id);
        } else {
            assert(b[j - a.len()].id == id);
        }
    }
}

/// A tick over a queue that nowhere carries `id` produces neither an
/// entry nor a completion record carrying `id`.
proof fn lemma_step_queue_no_id(q: Seq<EntryModel>, mem: Map<u32, u8>, id: u32)
    requires
        !queue_has_id(q, id),
    ensures
        !queue_has_id(step_queue(q, mem).queue, id),
        !done_has_id(step_queue(q, mem).done, id),
    decreases q.len(),
{
    if q.len() > 0 {
        let e = q.first();
        assert(q[0].id != id);
        assert(forall|j: int|
            0 <= j < q.drop_first().len() ==> (#[trigger] q.drop_first()[j]) == q[j + 1]);
        assert(!queue_has_id(q.drop_first(), id));
        if e.elapsed + 1 >= ACCESS_CYCLES {
            match e.txn {
                TxnModel::ReadStarted => {
                    lemma_step_queue_no_id(q.drop_first(), mem, id);
                    let rest = step_queue(q.drop_first(), mem);
                    let rec = DoneModel { id: e.id, txn: TxnModel::ReadDone(read_block(mem, e.addr)) };
                    lemma_done_has_id_concat(seq![rec], rest.done, id);
                    assert(!done_has_id(seq![rec], id));
                },
                TxnModel::WriteStarted(data) => {
                    lemma_step_queue_no_id(q.drop_first(), write_block(mem, e.addr, data), id);
                    let rest = step_queue(q.drop_first(), write_block(mem, e.addr, data));
                    let rec = DoneModel { id: e.id, txn: TxnModel::WriteDone };
                    lemma_done_has_id_concat(seq![rec], rest.done, id);
                    assert(!done_has_id(seq![rec], id));
                },
                _ => {
                    lemma_step_queue_no_id(q.drop_first(), mem, id);
                },
            }
        } else {
            lemma_step_queue_no_id(q.drop_first(), mem, id);
            let rest = step_queue(q.drop_first(), mem);
            let bumped = EntryModel { elapsed: (e.elapsed + 1) as u32, ..e };
            lemma_queue_has_id_concat(seq![bumped], rest.queue, id);
            assert(!queue_has_id(seq![bumped], id));
        }
    }
}

/// One tick, seen by the unique queued transaction `id` with counter
/// `c`: if the incremented counter is still short of the latency, the
/// transaction is still queued exactly once with counter `c + 1` and
/// has produced no completion record; the tick that brings the counter
/// to the latency removes it from the queue and records its
/// completion.
proof fn lemma_step_queue_id(q: Seq<EntryModel>, mem: Map<u32, u8>, id: u32, c: u32)
    requires
        forall|j: int| 0 <= j < q.len() ==> wf_entry(#[trigger] q[j]),
        queue_has_id(q, id),
        at_most_one_with_id(q, id),
        forall|j: int| 0 <= j < q.len() && (#[trigger] q[j]).id == id ==> q[j].elapsed == c,
    ensures
        ({
            let r = step_queue(q, mem);
            &&& c + 1 < ACCESS_CYCLES ==> {
                &&& queue_has_id(r.queue, id)
                &&& at_most_one_with_id(r.queue, id)
                &&& (forall|j: int|
                    0 <= j < r.queue.len() && (#[trigger] r.queue[j]).id == id
                        ==> r.queue[j].elapsed == c + 1)
                &&& !done_has_id(r.done, id)
            }
            &&& c + 1 >= ACCESS_CYCLES ==> !queue_has_id(r.queue, id) && done_has_id(r.done, id)
        }),
    decreases q.len(),
{
    let j0 = choose|j: int| 0 <= j < q.len() && (#[trigger] q[j]).id == id;
    let e = q.first();
    assert(wf_entry(q[0]));
    assert(forall|j: int|
        0 <= j < q.drop_first().len() ==> (#[trigger] q.drop_first()[j]) == q[j + 1]);
    if e.id == id {
        // the tracked entry is at the head; the tail never carries id
        assert(e.elapsed == c);
        assert forall|j: int| 0 <= j < q.drop_first().len() implies (#[trigger] q.drop_first()[j]).id
            != id by {
            if q.drop_first()[j].id == id {
                assert(q[j + 1].id == id && q[0].id == id);
            }
        }
        assert(!queue_has_id(q.drop_first(), id));
        if c + 1 >= ACCESS_CYCLES {
            match e.txn {
                TxnModel::ReadStarted => {
                    lemma_step_queue_no_id(q.drop_first(), mem, id);
                    let rest = step_queue(q.drop_first(), mem);
                    let rec = DoneModel { id: e.id, txn: TxnModel::ReadDone(read_block(mem, e.addr)) };
                    lemma_done_has_id_concat(seq![rec], rest.done, id);
                    assert((seq![rec])[0].id == id);
                },
                TxnModel::WriteStarted(data) => {
                    lemma_step_queue_no_id(q.drop_first(), write_block(mem, e.addr, data), id);
                    let rest = step_queue(q.drop_first(), write_block(mem, e.addr, data));
                    let rec = DoneModel { id: e.id, txn: TxnModel::WriteDone };
                    lemma_done_has_id_concat(seq![rec], rest.done, id);
                    assert((seq![rec])[0].id == id);
                },
                _ => {
                    assert(false);
                },
            }
        } else {
            lemma_step_queue_no_id(q.drop_first(), mem, id);
            let rest = step_queue(q.drop_first(), mem);
            let bumped = EntryModel { elapsed: (e.elapsed + 1) as u32, ..e };
            lemma_queue_has_id_concat(seq![bumped], rest.queue, id);
            assert((seq![bumped])[0].id == id);
            let r = step_queue(q, mem);
            assert(r.queue == seq![bumped] + rest.queue);
            assert forall|j: int, l: int|
                0 <= j < r.queue.len() && 0 <= l < r.queue.len() && (#[trigger] r.queue[j]).id == id
                    && (#[trigger] r.queue[l]).id == id implies j == l by {
                if j > 0 {
                    assert(r.queue[j] == rest.queue[j - 1]);
                    assert(queue_has_id(rest.queue, id));
                }
                if l > 0 {
                    assert(r.queue[l] == rest.queue[l - 1]);
                    assert(queue_has_id(rest.queue, id));
                }
            }
            assert forall|j: int|
                0 <= j < r.queue.len() && (#[trigger] r.queue[j]).id == id implies r.queue[j].elapsed
                == c + 1 by {
                if j > 0 {
                    assert(r.queue[j] == rest.queue[j - 1]);
                    assert(queue_has_id(rest.queue, id));
                }
            }
        }
    } else {
        // the tracked entry sits in the tail
        assert(j0 > 0);
        assert(q.drop_first()[j0 - 1].id == id);
        assert(queue_has_id(q.drop_first(), id));
        assert forall|j: int, l: int|
            0 <= j < q.drop_first().len() && 0 <= l < q.drop_first().len() && (#[trigger] q.drop_first()[j]).id
                == id && (#[trigger] q.drop_first()[l]).id == id implies j == l by {
            assert(q[j + 1].id == id && q[l + 1].id == id);
        }
        assert forall|j: int|
            0 <= j < q.drop_first().len() && (#[trigger] q.drop_first()[j]).id == id implies q.drop_first()[j].elapsed
            == c by {
            assert(q[j + 1].id == id);
        }
        if e.elapsed + 1 >= ACCESS_CYCLES {
            match e.txn {
                TxnModel::ReadStarted => {
                    lemma_step_queue_id(q.drop_first(), mem, id, c);
                    let rest = step_queue(q.drop_first(), mem);
                    let rec = DoneModel { id: e.id, txn: TxnModel::ReadDone(read_block(mem, e.addr)) };
                    lemma_done_has_id_concat(seq![rec], rest.done, id);
                    assert(!done_has_id(seq![rec], id));
                },
                TxnModel::WriteStarted(data) => {
                    lemma_step_queue_id(q.drop_first(), write_block(mem, e.addr, data), id, c);
                    let rest = step_queue(q.drop_first(), write_block(mem, e.addr, data));
                    let rec = DoneModel { id: e.id, txn: TxnModel::WriteDone };
                    lemma_done_has_id_concat(seq![rec], rest.done, id);
                    assert(!done_has_id(seq![rec], id));
                },
                _ => {
                    assert(false);
                },
            }
        } else {
            lemma_step_queue_id(q.drop_first(), mem, id, c);
            let rest = step_queue(q.drop_first(), mem);
            let bumped = EntryModel { elapsed: (e.elapsed + 1) as u32, ..e };
            lemma_queue_has_id_concat(seq![bumped], rest.queue, id);
            assert(!queue_has_id(seq![bumped], id));
            let r = step_queue(q, mem);
            assert(r.queue == seq![bumped] + rest.queue);
            if c + 1 < ACCESS_CYCLES {
                assert forall|j: int, l: int|
                    0 <= j < r.queue.len() && 0 <= l < r.queue.len() && (#[trigger] r.queue[j]).id
                        == id && (#[trigger] r.queue[l]).id == id implies j == l by {
                    assert(j > 0 && l > 0);
                    assert(r.queue[j] == rest.queue[j - 1] && r.queue[l] == rest.queue[l - 1]);
                }
                assert forall|j: int|
                    0 <= j < r.queue.len() && (#[trigger] r.queue[j]).id == id implies r.queue[j].elapsed
                    == c + 1 by {
                    assert(j > 0);
                    assert(r.queue[j] == rest.queue[j - 1]);
                }
            }
        }
    }
}

/// One tick of the whole engine, seen by the unique pending
/// transaction `id` on channel `ch`.
proof fn lemma_step_tracked(m: EngineModel, ch: MemType, id: u32, c: u32)
    requires
        wf_model(m),
        tracked_pending(chan_of(m, ch), id, c),
    ensures
        c + 1 < ACCESS_CYCLES ==> tracked_pending(chan_of(step(m), ch), id, (c + 1) as u32),
        c + 1 >= ACCESS_CYCLES ==> !queue_has_id(chan_of(step(m), ch).queue, id) && done_has_id(
            chan_of(step(m), ch).done,
            id,
        ),
{
    let d = step_channel(m.dmem, m.mem);
    let i = step_channel(m.imem, d.1);
    match ch {
        MemType::DMem => {
            lemma_step_queue_id(m.dmem.queue, m.mem, id, c);
            lemma_done_has_id_concat(m.dmem.done, step_queue(m.dmem.queue, m.mem).done, id);
        },
        MemType::IMem => {
            lemma_step_queue_id(m.imem.queue, d.1, id, c);
            lemma_done_has_id_concat(m.imem.done, step_queue(m.imem.queue, d.1).done, id);
        },
    }
}

/// Running `k` ticks, seen by the unique pending transaction `id` with
/// counter `c`: pending with counter `c + k` while that is short of
/// the latency, completed on the tick that reaches it.
proof fn lemma_run_tracked(m: EngineModel, ch: MemType, id: u32, c: u32, k: nat)
    requires
        wf_model(m),
        tracked_pending(chan_of(m, ch), id, c),
        c + k <= ACCESS_CYCLES,
    ensures
        wf_model(step_n(m, k)),
        c + k < ACCESS_CYCLES ==> tracked_pending(chan_of(step_n(m, k), ch), id, (c + k) as u32),
        c + k == ACCESS_CYCLES && k > 0 ==> !queue_has_id(chan_of(step_n(m, k), ch).queue, id)
            && done_has_id(chan_of(step_n(m, k), ch).done, id),
    decreases k,
{
    if k > 0 {
        lemma_run_tracked(m, ch, id, c, (k - 1) as nat);
        let mp = step_n(m, (k - 1) as nat);
        lemma_step_wf(mp);
        lemma_step_tracked(mp, ch, id, (c + k - 1) as u32);
    }
}

/// Latency exactness: a transaction admitted on some tick is still
/// pending after up to `ACCESS_CYCLES - 1` subsequent ticks, with no
/// completion record, and has completed — left the queue, completion
/// recorded — after exactly `ACCESS_CYCLES` ticks. The id must be
/// fresh on its channel, as ids are what identify transactions.
pub proof fn lemma_latency_exactness(m: EngineModel, ch: MemType, e: EntryModel, k: nat)
    requires
        wf_model(m),
        can_admit(m, ch),
        wf_entry(e),
        e.elapsed == 0,
        !queue_has_id(chan_of(m, ch).queue, e.id),
        !done_has_id(chan_of(m, ch).done, e.id),
        k <= ACCESS_CYCLES,
    ensures
        ({
            let mk = step_n(admit_entry(m, ch, e), k);
            &&& k < ACCESS_CYCLES ==> queue_has_id(chan_of(mk, ch).queue, e.id) && !done_has_id(
                chan_of(mk, ch).done,
                e.id,
            )
            &&& k == ACCESS_CYCLES ==> !queue_has_id(chan_of(mk, ch).queue, e.id) && done_has_id(
                chan_of(mk, ch).done,
                e.id,
            )
        }),
{
    let m1 = admit_entry(m, ch, e);
    let q0 = chan_of(m, ch).queue;
    let q1 = chan_of(m1, ch).queue;
    assert(q1 == q0.push(e));
    assert(q1[q0.len() as int].id == e.id);
    assert(queue_has_id(q1, e.id));
    assert forall|j: int, l: int|
        0 <= j < q1.len() && 0 <= l < q1.len() && (#[trigger] q1[j]).id == e.id && (#[trigger] q1[l]).id
            == e.id implies j == l by {
        if j < q0.len() {
            assert(q1[j] == q0[j]);
            assert(queue_has_id(q0, e.id));
        }
        if l < q0.len() {
            assert(q1[l] == q0[l]);
            assert(queue_has_id(q0, e.id));
        }
    }
    assert forall|j: int| 0 <= j < q1.len() && (#[trigger] q1[j]).id == e.id implies q1[j].elapsed
        == 0 by {
        if j < q0.len() {
            assert(q1[j] == q0[j]);
            assert(queue_has_id(q0, e.id));
        }
    }
    assert(tracked_pending(chan_of(m1, ch), e.id, 0));
    assert forall|j: int| 0 <= j < q1.len() implies wf_entry(#[trigger] q1[j]) by {
        if j < q0.len() {
            assert(q1[j] == q0[j]);
            assert(wf_entry(chan_of(m, ch).queue[j]));
        }
    }
    assert(wf_model(m1));
    lemma_run_tracked(m1, ch, e.id, 0, k);
}

/// The completion record a lone entry produces against store contents
/// `mem`.
pub open spec fn completion_of(e: EntryModel, mem: Map<u32, u8>) -> DoneModel {
    match e.txn {
        TxnModel::WriteStarted(data) => DoneModel { id: e.id, txn: TxnModel::WriteDone },
        _ => DoneModel { id: e.id, txn: TxnModel::ReadDone(read_block(mem, e.addr)) },
    }
}

/// The store contents after a lone entry completes against `mem`.
pub open spec fn effect_of(e: EntryModel, mem: Map<u32, u8>) -> Map<u32, u8> {
    match e.txn {
        TxnModel::WriteStarted(data) => write_block(mem, e.addr, data),
        _ => mem,
    }
}

/// One tick over a queue holding a single entry: it accrues a cycle
/// while short of the latency, and completes on the tick that reaches
/// it.
proof fn lemma_step_queue_singleton(e: EntryModel, mem: Map<u32, u8>)
    requires
        wf_entry(e),
    ensures
        e.elapsed + 1 < ACCESS_CYCLES ==> step_queue(seq![e], mem) == (StepResult {
            queue: seq![EntryModel { elapsed: (e.elapsed + 1) as u32, ..e }],
            done: Seq::<DoneModel>::empty(),
            mem,
        }),
        e.elapsed + 1 >= ACCESS_CYCLES ==> step_queue(seq![e], mem) == (StepResult {
            queue: Seq::<EntryModel>::empty(),
            done: seq![completion_of(e, mem)],
            mem: effect_of(e, mem),
        }),
{
    assert(seq![e].first() == e);
    assert(seq![e].drop_first() =~= Seq::<EntryModel>::empty());
    match e.txn {
        TxnModel::ReadStarted => {
            assert(step_queue(Seq::<EntryModel>::empty(), mem) == (StepResult {
                queue: Seq::<EntryModel>::empty(),
                done: Seq::<DoneModel>::empty(),
                mem,
            }));
        },
        TxnModel::WriteStarted(data) => {
            assert(step_queue(Seq::<EntryModel>::empty(), mem) == (StepResult {
                queue: Seq::<EntryModel>::empty(),
                done: Seq::<DoneModel>::empty(),
                mem,
            }));
            assert(step_queue(Seq::<EntryModel>::empty(), write_block(mem, e.addr, data))
                == (StepResult {
                queue: Seq::<EntryModel>::empty(),
                done: Seq::<DoneModel>::empty(),
                mem: write_block(mem, e.addr, data),
            }));
        },
        _ => {
            assert(false);
        },
    }
    if e.elapsed + 1 < ACCESS_CYCLES {
        assert(step_queue(seq![e], mem) =~~= StepResult {
            queue: seq![EntryModel { elapsed: (e.elapsed + 1) as u32, ..e }],
            done: Seq::<DoneModel>::empty(),
            mem,
        });
    } else {
        assert(step_queue(seq![e], mem) =~~= StepResult {
            queue: Seq::<EntryModel>::empty(),
            done: seq![completion_of(e, mem)],
            mem: effect_of(e, mem),
        });
    }
}

/// Running `j` ticks while a lone entry stays short of the latency:
/// the engine is unchanged except that the entry's counter has accrued
/// `j` cycles.
proof fn lemma_run_solo_pending(m: EngineModel, ch: MemType, e: EntryModel, j: nat)
    requires
        wf_model(m),
        wf_entry(e),
        chan_of(m, ch).queue == seq![e],
        chan_of(m, other_chan(ch)).queue == Seq::<EntryModel>::empty(),
        e.elapsed + j < ACCESS_CYCLES,
    ensures
        step_n(m, j) == with_chan(
            m,
            ch,
            ChannelModel {
                queue: seq![EntryModel { elapsed: (e.elapsed + j) as u32, ..e }],
                ..chan_of(m, ch)
            },
        ),
    decreases j,
{
    if j == 0 {
        assert(EntryModel { elapsed: (e.elapsed + 0) as u32, ..e } =~= e);
        assert(seq![EntryModel { elapsed: (e.elapsed + 0) as u32, ..e }] =~= chan_of(m, ch).queue);
        match ch {
            MemType::IMem => {
                assert(step_n(m, 0) =~~= with_chan(
                    m,
                    ch,
                    ChannelModel {
                        queue: seq![EntryModel { elapsed: (e.elapsed + 0) as u32, ..e }],
                        ..chan_of(m, ch)
                    },
                ));
            },
            MemType::DMem => {
                assert(step_n(m, 0) =~~= with_chan(
                    m,
                    ch,
                    ChannelModel {
                        queue: seq![EntryModel { elapsed: (e.elapsed + 0) as u32, ..e }],
                        ..chan_of(m, ch)
                    },
                ));
            },
        }
    } else {
        lemma_run_solo_pending(m, ch, e, (j - 1) as nat);
        let mp = step_n(m, (j - 1) as nat);
        let ep = EntryModel { elapsed: (e.elapsed + j - 1) as u32, ..e };
        let en = EntryModel { elapsed: (e.elapsed + j) as u32, ..e };
        assert(chan_of(mp, ch).queue == seq![ep]);
        assert(chan_of(mp, other_chan(ch)).queue == Seq::<EntryModel>::empty());
        assert(wf_entry(ep));
        assert(step_queue(Seq::<EntryModel>::empty(), mp.mem) == (StepResult {
            queue: Seq::<EntryModel>::empty(),
            done: Seq::<DoneModel>::empty(),
            mem: mp.mem,
        }));
        lemma_step_queue_singleton(ep, mp.mem);
        assert(EntryModel { elapsed: (ep.elapsed + 1) as u32, ..ep } =~= en);
        // the lone entry only accrues a cycle; the empty channel
        // changes nothing
        match ch {
            MemType::DMem => {
                let d = step_channel(mp.dmem, mp.mem);
                assert(d.0.queue == seq![en]);
                assert(d.0.done =~= mp.dmem.done);
                assert(d.1 == mp.mem);
                let i = step_channel(mp.imem, d.1);
                assert(i.0.queue =~= Seq::<EntryModel>::empty());
                assert(i.0.done =~= mp.imem.done);
                assert(step(mp) =~~= with_chan(
                    m,
                    ch,
                    ChannelModel { queue: seq![en], ..chan_of(m, ch) },
                ));
            },
            MemType::IMem => {
                let d = step_channel(mp.dmem, mp.mem);
                assert(d.0.queue =~= Seq::<EntryModel>::empty());
                assert(d.0.done =~= mp.dmem.done);
                assert(d.1 == mp.mem);
                let i = step_channel(mp.imem, d.1);
                assert(i.0.queue == seq![en]);
                assert(i.0.done =~= mp.imem.done);
                assert(step(mp) =~~= with_chan(
                    m,
                    ch,
                    ChannelModel { queue: seq![en], ..chan_of(m, ch) },
                ));
            },
        }
    }
}

/// Running a lone admitted entry to completion: after exactly the
/// ticks that bring its counter to the latency, both queues are empty,
/// its completion record is appended — a read returns the block the
/// store held, a write has committed its payload — and nothing else
/// has changed.
proof fn lemma_run_solo(m: EngineModel, ch: MemType, e: EntryModel, k: nat)
    requires
        wf_model(m),
        wf_entry(e),
        chan_of(m, ch).queue == seq![e],
        chan_of(m, other_chan(ch)).queue == Seq::<EntryModel>::empty(),
        e.elapsed + k == ACCESS_CYCLES,
    ensures
        ({
            let mk = step_n(m, k);
            &&& mk.mem == effect_of(e, m.mem)
            &&& chan_of(mk, ch).queue == Seq::<EntryModel>::empty()
            &&& chan_of(mk, other_chan(ch)).queue == Seq::<EntryModel>::empty()
            &&& chan_of(mk, ch).done == chan_of(m, ch).done.push(completion_of(e, m.mem))
            &&& chan_of(mk, other_chan(ch)).done == chan_of(m, other_chan(ch)).done
            &&& chan_of(mk, ch).capacity == chan_of(m, ch).capacity
            &&& chan_of(mk, other_chan(ch)).capacity == chan_of(m, other_chan(ch)).capacity
            &&& wf_model(mk)
        }),
{
    assert(k >= 1);
    lemma_run_solo_pending(m, ch, e, (k - 1) as nat);
    let mp = step_n(m, (k - 1) as nat);
    let ep = EntryModel { elapsed: (e.elapsed + k - 1) as u32, ..e };
    assert(chan_of(mp, ch).queue == seq![ep]);
    assert(chan_of(mp, other_chan(ch)).queue == Seq::<EntryModel>::empty());
    assert(mp.mem == m.mem);
    assert(wf_entry(ep));
    assert(ep.elapsed + 1 >= ACCESS_CYCLES);
    let rec = completion_of(e, m.mem);
    let mem2 = effect_of(e, m.mem);
    lemma_step_queue_singleton(ep, m.mem);
    assert(completion_of(ep, m.mem) == rec);
    assert(effect_of(ep, m.mem) == mem2);
    assert(step_queue(Seq::<EntryModel>::empty(), mp.mem) == (StepResult {
        queue: Seq::<EntryModel>::empty(),
        done: Seq::<DoneModel>::empty(),
        mem: mp.mem,
    }));
    assert(step_queue(Seq::<EntryModel>::empty(), mem2) == (StepResult {
        queue: Seq::<EntryModel>::empty(),
        done: Seq::<DoneModel>::empty(),
        mem: mem2,
    }));
    // the lone entry completes on this tick; the empty channel changes
    // nothing
    match ch {
        MemType::DMem => {
            let d = step_channel(mp.dmem, mp.mem);
            assert(d.0.queue == Seq::<EntryModel>::empty());
            assert(d.0.done =~= mp.dmem.done.push(rec));
            assert(d.1 == mem2);
            let i = step_channel(mp.imem, d.1);
            assert(i.0.queue =~= Seq::<EntryModel>::empty());
            assert(i.0.done =~= mp.imem.done);
            assert(i.1 == mem2);
        },
        MemType::IMem => {
            let d = step_channel(mp.dmem, mp.mem);
            assert(d.0.queue =~= Seq::<EntryModel>::empty());
            assert(d.0.done =~= mp.dmem.done);
            assert(d.1 == mp.mem);
            let i = step_channel(mp.imem, d.1);
            assert(i.0.queue == Seq::<EntryModel>::empty());
            assert(i.0.done =~= mp.imem.done.push(rec));
            assert(i.1 == mem2);
        },
    }
    let mk = step_n(m, k);
    assert(mk == step(mp));
    assert(wf_done(rec)) by {
        match e.txn {
            TxnModel::ReadStarted => {
                assert(read_block(m.mem, e.addr).len() == BLOCK_SIZE);
            },
            _ => {},
        }
    }
    assert(forall|j: int|
        0 <= j < chan_of(mk, ch).done.len() ==> wf_done(#[trigger] chan_of(mk, ch).done[j]));
}

/// Write/read round trip: writing block `data` at `x`, letting the
/// write complete, then admitting a read at `x` and letting it
/// complete, hands back `data` unchanged — the read's completion
/// record carries exactly the written block.
pub proof fn lemma_write_read_round_trip(
    m: EngineModel,
    ch: MemType,
    x: u32,
    data: Seq<u8>,
    id1: u32,
    id2: u32,
)
    requires
        wf_model(m),
        data.len() == BLOCK_SIZE,
        m.imem.queue == Seq::<EntryModel>::empty(),
        m.dmem.queue == Seq::<EntryModel>::empty(),
        can_admit(m, ch),
    ensures
        ({
            let m1 = step_n(admit_entry(m, ch, write_entry(x, data, id1)), ACCESS_CYCLES as nat);
            let m2 = step_n(admit_entry(m1, ch, read_entry(x, id2)), ACCESS_CYCLES as nat);
            &&& m1.mem == write_block(m.mem, align(x), data)
            &&& chan_of(m2, ch).done.last() == DoneModel { id: id2, txn: TxnModel::ReadDone(data) }
        }),
{
    lemma_align(x);
    let we = write_entry(x, data, id1);
    let re = read_entry(x, id2);
    assert(wf_entry(we));
    assert(wf_entry(re));

    // admit the write on an empty channel and run it to completion
    let ma = admit_entry(m, ch, we);
    assert(chan_of(ma, ch).queue =~= seq![we]);
    assert(chan_of(ma, other_chan(ch)).queue =~= Seq::<EntryModel>::empty());
    assert(wf_model(ma)) by {
        assert(forall|j: int|
            0 <= j < chan_of(ma, ch).queue.len() ==> wf_entry(#[trigger] chan_of(ma, ch).queue[j]));
        match ch {
            MemType::IMem => {},
            MemType::DMem => {},
        }
    }
    lemma_run_solo(ma, ch, we, ACCESS_CYCLES as nat);
    let m1 = step_n(ma, ACCESS_CYCLES as nat);
    assert(m1.mem == write_block(m.mem, align(x), data));

    // admit the read and run it to completion against the written block
    let mb = admit_entry(m1, ch, re);
    assert(chan_of(mb, ch).queue =~= seq![re]);
    assert(chan_of(mb, other_chan(ch)).queue =~= Seq::<EntryModel>::empty());
    assert(wf_model(mb)) by {
        assert(forall|j: int|
            0 <= j < chan_of(mb, ch).queue.len() ==> wf_entry(#[trigger] chan_of(mb, ch).queue[j]));
        match ch {
            MemType::IMem => {},
            MemType::DMem => {},
        }
    }
    lemma_run_solo(mb, ch, re, ACCESS_CYCLES as nat);
    let m2 = step_n(mb, ACCESS_CYCLES as nat);
    lemma_read_write_block(m.mem, align(x), data);
    assert(completion_of(re, mb.mem) == DoneModel { id: id2, txn: TxnModel::ReadDone(data) });
    assert(chan_of(m2, ch).done.last() == DoneModel { id: id2, txn: TxnModel::ReadDone(data) });
}

} // verus!
