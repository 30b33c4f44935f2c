//! Transaction queue engine: per-channel admission control, latency
//! countdown, and block-level read/write execution against the backing
//! store.
//!
//! A requester submits a read or write addressed to one of the two
//! channels (instruction or data). The engine either admits it — the
//! entry joins that channel's bounded FIFO at the block-aligned
//! address — or rejects it synchronously with `Busy`, leaving all
//! state unchanged. Each simulated clock tick advances every queued
//! entry's elapsed-cycle counter; the tick that brings a counter to
//! the access latency performs the block transfer against the backing
//! store, removes the entry, and records the completion, which can be
//! observed by transaction id.

use vstd::prelude::*;

use crate::memory::Memory;
use crate::{ACCESS_CYCLES, BLOCK_SIZE};

verus! {

/// The two logical channels sharing the engine's admission/advance
/// logic: instruction fetch and data.
#[derive(Debug, Clone, Copy, PartialEq, Eq, Structural)]
pub enum MemType {
    IMem,
    DMem,
}

/// The lifecycle record of one request: refused at admission (`Busy`),
/// or an admitted read/write whose completion status changes exactly
/// once, from started to done. The payload kind never changes.
#[derive(Debug, Clone, PartialEq, Eq)]
pub enum Transaction {
    /// Admission was refused; returned synchronously, never queued.
    Busy,
    /// An admitted read, awaiting completion.
    ReadStarted,
    /// A completed read carrying the block that was fetched.
    ReadDone(Vec<u8>),
    /// An admitted write carrying the block to be committed.
    WriteStarted(Vec<u8>),
    /// A completed write.
    WriteDone,
}

/// A transaction as contracts see it: block payloads abstracted to
/// byte sequences.
#[verifier::ext_equal]
pub ghost enum TxnModel {
    Busy,
    ReadStarted,
    ReadDone(Seq<u8>),
    WriteStarted(Seq<u8>),
    WriteDone,
}

impl View for Transaction {
    type V = TxnModel;

    open spec fn view(&self) -> TxnModel {
        match self {
            Transaction::Busy => TxnModel::Busy,
            Transaction::ReadStarted => TxnModel::ReadStarted,
            Transaction::ReadDone(data) => TxnModel::ReadDone(data@),
            Transaction::WriteStarted(data) => TxnModel::WriteStarted(data@),
            Transaction::WriteDone => TxnModel::WriteDone,
        }
    }
}

/// One queued transaction: the block-aligned address, the
/// elapsed-cycle counter, the requester's id and the transaction
/// itself.
#[verifier::ext_equal]
pub ghost struct EntryModel {
    pub addr: u32,
    pub elapsed: u32,
    pub id: u32,
    pub txn: TxnModel,
}

/// One completion record: the requester's id and the finished
/// transaction.
#[verifier::ext_equal]
pub ghost struct DoneModel {
    pub id: u32,
    pub txn: TxnModel,
}

/// One channel: its bounded FIFO of in-flight entries, its completion
/// records in completion order, and its admission capacity.
#[verifier::ext_equal]
pub ghost struct ChannelModel {
    pub queue: Seq<EntryModel>,
    pub done: Seq<DoneModel>,
    pub capacity: nat,
}

/// The whole engine: both channels and the backing store's contents.
#[verifier::ext_equal]
pub ghost struct EngineModel {
    pub imem: ChannelModel,
    pub dmem: ChannelModel,
    pub mem: Map<u32, u8>,
}

/// The address `addr` aligned down to its block.
pub open spec fn align(addr: u32) -> u32 {
    (addr - addr % BLOCK_SIZE) as u32
}

/// The block of `BLOCK_SIZE` consecutive bytes starting at `addr`.
pub open spec fn read_block(mem: Map<u32, u8>, addr: u32) -> Seq<u8> {
    Seq::new(BLOCK_SIZE as nat, |i: int| mem[(addr + i) as u32])
}

/// The store after committing `data` byte by byte at consecutive
/// addresses starting at `addr`.
pub open spec fn write_block(mem: Map<u32, u8>, addr: u32, data: Seq<u8>) -> Map<u32, u8> {
    Map::new(
        |a: u32| true,
        |a: u32|
            if addr <= a < addr + data.len() {
                data[a - addr]
            } else {
                mem[a]
            },
    )
}

/// The outcome of one tick over one channel's queue: the entries still
/// in flight, the completions in completion order, and the store
/// contents after the completed writes.
#[verifier::ext_equal]
pub ghost struct StepResult {
    pub queue: Seq<EntryModel>,
    pub done: Seq<DoneModel>,
    pub mem: Map<u32, u8>,
}

/// One tick over a queue, processed front to back. An entry whose
/// incremented counter reaches `ACCESS_CYCLES` performs its block
/// transfer and leaves the queue — a read fetches the block the store
/// holds at that point, a write commits its payload — and every other
/// entry accrues one cycle, order preserved. Completions therefore
/// come out in FIFO order even when several entries finish in the same
/// tick.
pub open spec fn step_queue(q: Seq<EntryModel>, mem: Map<u32, u8>) -> StepResult
    decreases q.len(),
{
    if q.len() == 0 {
        StepResult { queue: Seq::empty(), done: Seq::empty(), mem }
    } else {
        let e = q.first();
        if e.elapsed + 1 >= ACCESS_CYCLES {
            match e.txn {
                TxnModel::ReadStarted => {
                    let rest = step_queue(q.drop_first(), mem);
                    StepResult {
                        queue: rest.queue,
                        done: seq![
                            DoneModel { id: e.id, txn: TxnModel::ReadDone(read_block(mem, e.addr)) },
                        ] + rest.done,
                        mem: rest.mem,
                    }
                },
                TxnModel::WriteStarted(data) => {
                    let rest = step_queue(q.drop_first(), write_block(mem, e.addr, data));
                    StepResult {
                        queue: rest.queue,
                        done: seq![DoneModel { id: e.id, txn: TxnModel::WriteDone }] + rest.done,
                        mem: rest.mem,
                    }
                },
                _ => {
                    // a refused or already-completed value never sits in
                    // a well-formed queue
                    step_queue(q.drop_first(), mem)
                },
            }
        } else {
            let rest = step_queue(q.drop_first(), mem);
            StepResult {
                queue: seq![EntryModel { elapsed: (e.elapsed + 1) as u32, ..e }] + rest.queue,
                done: rest.done,
                mem: rest.mem,
            }
        }
    }
}

/// One tick over one channel: completions are appended to its record,
/// in completion order.
pub open spec fn step_channel(ch: ChannelModel, mem: Map<u32, u8>) -> (ChannelModel, Map<u32, u8>) {
    let r = step_queue(ch.queue, mem);
    (ChannelModel { queue: r.queue, done: ch.done + r.done, capacity: ch.capacity }, r.mem)
}

/// One simulated clock tick over the whole engine: the data channel
/// advances first, then the instruction channel, both against the
/// shared backing store. The channels are independent; no property
/// depends on this relative order.
pub open spec fn step(m: EngineModel) -> EngineModel {
    let d = step_channel(m.dmem, m.mem);
    let i = step_channel(m.imem, d.1);
    EngineModel { dmem: d.0, imem: i.0, mem: i.1 }
}

/// The engine after `n` ticks.
pub open spec fn step_n(m: EngineModel, n: nat) -> EngineModel
    decreases n,
{
    if n == 0 {
        m
    } else {
        step(step_n(m, (n - 1) as nat))
    }
}

/// The channel of `m` that the tag `ch` selects.
pub open spec fn chan_of(m: EngineModel, ch: MemType) -> ChannelModel {
    match ch {
        MemType::IMem => m.imem,
        MemType::DMem => m.dmem,
    }
}

/// `m` with the channel that `ch` selects replaced by `c`.
pub open spec fn with_chan(m: EngineModel, ch: MemType, c: ChannelModel) -> EngineModel {
    match ch {
        MemType::IMem => EngineModel { imem: c, ..m },
        MemType::DMem => EngineModel { dmem: c, ..m },
    }
}

/// Admission control: a channel admits a request exactly when its
/// queue is below capacity.
pub open spec fn can_admit(m: EngineModel, ch: MemType) -> bool {
    chan_of(m, ch).queue.len() < chan_of(m, ch).capacity
}

/// The queue entry an admitted read produces: block-aligned address,
/// fresh cycle counter.
pub open spec fn read_entry(addr: u32, id: u32) -> EntryModel {
    EntryModel { addr: align(addr), elapsed: 0, id, txn: TxnModel::ReadStarted }
}

/// The queue entry an admitted write produces.
pub open spec fn write_entry(addr: u32, data: Seq<u8>, id: u32) -> EntryModel {
    EntryModel { addr: align(addr), elapsed: 0, id, txn: TxnModel::WriteStarted(data) }
}

/// The engine after admitting `e` on channel `ch`: the entry joins the
/// back of that queue and nothing else changes.
pub open spec fn admit_entry(m: EngineModel, ch: MemType, e: EntryModel) -> EngineModel {
    with_chan(
        m,
        ch,
        ChannelModel {
            queue: chan_of(m, ch).queue.push(e),
            done: chan_of(m, ch).done,
            capacity: chan_of(m, ch).capacity,
        },
    )
}

/// A queued entry is well-formed: still short of the access latency,
/// block-aligned, and an in-flight read or a write carrying a full
/// block.
pub open spec fn wf_entry(e: EntryModel) -> bool {
    &&& e.elapsed < ACCESS_CYCLES
    &&& e.addr % BLOCK_SIZE == 0
    &&& match e.txn {
        TxnModel::ReadStarted => true,
        TxnModel::WriteStarted(data) => data.len() == BLOCK_SIZE,
        _ => false,
    }
}

/// A completion record is well-formed: a read done with a full block,
/// or a write done.
pub open spec fn wf_done(d: DoneModel) -> bool {
    match d.txn {
        TxnModel::ReadDone(data) => data.len() == BLOCK_SIZE,
        TxnModel::WriteDone => true,
        _ => false,
    }
}

/// A channel is well-formed: the queue never exceeds its capacity and
/// every entry and completion record is well-formed.
pub open spec fn wf_chan(ch: ChannelModel) -> bool {
    &&& ch.queue.len() <= ch.capacity
    &&& forall|j: int| 0 <= j < ch.queue.len() ==> wf_entry(#[trigger] ch.queue[j])
    &&& forall|j: int| 0 <= j < ch.done.len() ==> wf_done(#[trigger] ch.done[j])
}

/// The engine's invariant: both channels well-formed.
pub open spec fn wf_model(m: EngineModel) -> bool {
    wf_chan(m.imem) && wf_chan(m.dmem)
}

/// The first completion record carrying `id`, if any.
pub open spec fn find_done(done: Seq<DoneModel>, id: u32) -> Option<TxnModel>
    decreases done.len(),
{
    if done.len() == 0 {
        None
    } else if done.first().id == id {
        Some(done.first().txn)
    } else {
        find_done(done.drop_first(), id)
    }
}

/// Whether some queued entry carries `id`.
pub open spec fn queue_has_id(q: Seq<EntryModel>, id: u32) -> bool {
    exists|j: int| 0 <= j < q.len() && (#[trigger] q[j]).id == id
}

/// Whether some completion record carries `id`.
pub open spec fn done_has_id(done: Seq<DoneModel>, id: u32) -> bool {
    exists|j: int| 0 <= j < done.len() && (#[trigger] done[j]).id == id
}

/// Alignment arithmetic: `align` subtracts the remainder, so it never
/// underflows, lands on a block boundary, and leaves the whole block
/// inside the 32-bit address space.
pub proof fn lemma_align(addr: u32)
    ensures
        addr % BLOCK_SIZE <= addr,
        align(addr) % BLOCK_SIZE == 0,
        align(addr) <= addr,
{
    assert(addr % 64u32 <= addr && ((addr - addr % 64u32) as u32) % 64u32 == 0) by (bit_vector);
}

/// A block-aligned address leaves room for the whole block below
/// `u32::MAX`.
pub proof fn lemma_aligned_block_fits(addr: u32)
    requires
        addr % BLOCK_SIZE == 0,
    ensures
        addr + BLOCK_SIZE <= 0x1_0000_0000,
{
    assert(addr % 64u32 == 0 ==> addr + 64 <= 0x1_0000_0000) by (bit_vector);
}

// ---------------------------------------------------------------------
// Executable engine
// ---------------------------------------------------------------------

/// The model of a vector of queued entries.
spec fn queue_model(q: Seq<QueueEntry>) -> Seq<EntryModel> {
    q.map_values(|e: QueueEntry| e.model())
}

/// The model of a vector of completion records.
spec fn done_model(d: Seq<DoneRecord>) -> Seq<DoneModel> {
    d.map_values(|x: DoneRecord| x.model())
}

/// One queued transaction as held by the engine.
struct QueueEntry {
    addr: u32,
    elapsed: u32,
    id: u32,
    txn: Transaction,
}

impl QueueEntry {
    spec fn model(self) -> EntryModel {
        EntryModel { addr: self.addr, elapsed: self.elapsed, id: self.id, txn: self.txn@ }
    }
}

/// One completion record as held by the engine.
struct DoneRecord {
    id: u32,
    txn: Transaction,
}

impl DoneRecord {
    spec fn model(self) -> DoneModel {
        DoneModel { id: self.id, txn: self.txn@ }
    }
}

/// One channel's state: its bounded FIFO and its completion records.
struct Channel {
    queue: Vec<QueueEntry>,
    done: Vec<DoneRecord>,
    capacity: usize,
}

impl Channel {
    spec fn model(self) -> ChannelModel {
        ChannelModel {
            queue: queue_model(self.queue@),
            done: done_model(self.done@),
            capacity: self.capacity as nat,
        }
    }

    fn empty(capacity: usize) -> (r: Self)
        ensures
            r.model() == (ChannelModel {
                queue: Seq::<EntryModel>::empty(),
                done: Seq::<DoneModel>::empty(),
                capacity: capacity as nat,
            }),
    {
        let r = Channel { queue: Vec::new(), done: Vec::new(), capacity };
        proof {
            assert(r.model() =~= ChannelModel {
                queue: Seq::<EntryModel>::empty(),
                done: Seq::<DoneModel>::empty(),
                capacity: capacity as nat,
            });
        }
        r
    }

    /// Admission: push the entry if the queue is below capacity, else
    /// refuse and leave everything unchanged.
    fn enqueue(&mut self, e: QueueEntry) -> (admitted: bool)
        ensures
            if old(self).model().queue.len() < old(self).model().capacity {
                admitted && final(self).model() == (ChannelModel {
                    queue: old(self).model().queue.push(e.model()),
                    done: old(self).model().done,
                    capacity: old(self).model().capacity,
                })
            } else {
                !admitted && final(self).model() == old(self).model()
            },
    {
        if self.queue.len() < self.capacity {
            self.queue.push(e);
            proof {
                assert(self.model() =~= ChannelModel {
                    queue: old(self).model().queue.push(e.model()),
                    done: old(self).model().done,
                    capacity: old(self).model().capacity,
                });
            }
            true
        } else {
            false
        }
    }
}

/// The transaction queue engine: two independent channels over one
/// exclusively-owned backing store.
pub struct QueueMemory {
    imem: Channel,
    dmem: Channel,
    store: Memory,
}

impl View for QueueMemory {
    type V = EngineModel;

    closed spec fn view(&self) -> EngineModel {
        EngineModel {
            imem: self.imem.model(),
            dmem: self.dmem.model(),
            mem: self.store.contents(),
        }
    }
}

impl QueueMemory {
    /// The engine's invariant: the store and both channel models are
    /// well-formed.
    pub closed spec fn wf(self) -> bool {
        self.store.wf() && wf_model(self.view())
    }

    /// The invariant seen through the model, for use with the
    /// model-level lemmas.
    pub proof fn lemma_wf_model(self)
        requires
            self.wf(),
        ensures
            wf_model(self@),
    {
    }

    /// Creates an engine that owns `store`, with empty queues and the
    /// given per-channel admission capacities.
    pub fn init(store: Memory, imem_capacity: usize, dmem_capacity: usize) -> (r: Self)
        requires
            store.wf(),
        ensures
            r.wf(),
            r@ == (EngineModel {
                imem: ChannelModel {
                    queue: Seq::<EntryModel>::empty(),
                    done: Seq::<DoneModel>::empty(),
                    capacity: imem_capacity as nat,
                },
                dmem: ChannelModel {
                    queue: Seq::<EntryModel>::empty(),
                    done: Seq::<DoneModel>::empty(),
                    capacity: dmem_capacity as nat,
                },
                mem: store.contents(),
            }),
    {
        QueueMemory {
            imem: Channel::empty(imem_capacity),
            dmem: Channel::empty(dmem_capacity),
            store,
        }
    }

    /// Admits a read on `channel` if its queue has space: a new entry
    /// at the block-aligned address with a fresh cycle counter, handle
    /// `ReadStarted`. A full queue returns `Busy` synchronously and
    /// leaves the queue's contents and length — and every other part
    /// of the engine — unchanged. The backing store is not touched at
    /// admission time.
    pub fn enqueue_read(&mut self, channel: MemType, addr: u32, request_id: u32) -> (r: Transaction)
        requires
            old(self).wf(),
        ensures
            final(self).wf(),
            can_admit(old(self)@, channel) ==> r@ == TxnModel::ReadStarted && final(self)@ == admit_entry(
                old(self)@,
                channel,
                read_entry(addr, request_id),
            ),
            !can_admit(old(self)@, channel) ==> r@ == TxnModel::Busy && final(self)@ == old(self)@,
    {
        let block_addr = addr - addr % BLOCK_SIZE;
        proof {
            lemma_align(addr);
        }
        let e = QueueEntry {
            addr: block_addr,
            elapsed: 0,
            id: request_id,
            txn: Transaction::ReadStarted,
        };
        let admitted = match channel {
            MemType::IMem => self.imem.enqueue(e),
            MemType::DMem => self.dmem.enqueue(e),
        };
        proof {
            if can_admit(old(self)@, channel) {
                assert(self@ =~= admit_entry(old(self)@, channel, read_entry(addr, request_id)));
            } else {
                assert(self@ =~= old(self)@);
            }
        }
        if admitted {
            Transaction::ReadStarted
        } else {
            Transaction::Busy
        }
    }

    /// Admits a write of one full block on `channel` if its queue has
    /// space, symmetric to `enqueue_read`; the entry carries the data
    /// to be committed at completion, and the handle `WriteStarted`
    /// carries a copy. Nothing reaches the backing store at admission
    /// time.
    pub fn enqueue_write(
        &mut self,
        channel: MemType,
        addr: u32,
        data: Vec<u8>,
        request_id: u32,
    ) -> (r: Transaction)
        requires
            old(self).wf(),
            data@.len() == BLOCK_SIZE,
        ensures
            final(self).wf(),
            can_admit(old(self)@, channel) ==> r@ == TxnModel::WriteStarted(data@) && final(self)@
                == admit_entry(old(self)@, channel, write_entry(addr, data@, request_id)),
            !can_admit(old(self)@, channel) ==> r@ == TxnModel::Busy && final(self)@ == old(self)@,
    {
        let block_addr = addr - addr % BLOCK_SIZE;
        proof {
            lemma_align(addr);
        }
        let handle = copy_block(&data);
        let e = QueueEntry {
            addr: block_addr,
            elapsed: 0,
            id: request_id,
            txn: Transaction::WriteStarted(data),
        };
        let admitted = match channel {
            MemType::IMem => self.imem.enqueue(e),
            MemType::DMem => self.dmem.enqueue(e),
        };
        proof {
            if can_admit(old(self)@, channel) {
                assert(self@ =~= admit_entry(old(self)@, channel, write_entry(addr, handle@, request_id)));
            } else {
                assert(self@ =~= old(self)@);
            }
        }
        if admitted {
            Transaction::WriteStarted(handle)
        } else {
            Transaction::Busy
        }
    }

    /// Advances the simulation by one clock tick: the data channel
    /// first, then the instruction channel, each against the shared
    /// backing store. The tick that brings an entry's counter to the
    /// access latency completes it; completed entries never re-enter
    /// the queue.
    pub fn advance(&mut self)
        requires
            old(self).wf(),
        ensures
            final(self).wf(),
            final(self)@ == step(old(self)@),
    {
        self.dmem.advance(&mut self.store);
        self.imem.advance(&mut self.store);
        proof {
            let d = step_channel(old(self)@.dmem, old(self)@.mem);
            let i = step_channel(old(self)@.imem, d.1);
            assert(self@.dmem =~= d.0);
            assert(self@.imem =~= i.0);
            assert(self@ =~= step(old(self)@));
        }
    }

    /// Queries a completed transaction by its id on the given channel:
    /// the first completion record carrying the id, if any. Admitted
    /// transactions can be observed here once `advance` has completed
    /// them; the engine's state is never exposed for mutation.
    pub fn poll(&self, channel: MemType, request_id: u32) -> (r: Option<&Transaction>)
        ensures
            match r {
                Some(t) => find_done(chan_of(self@, channel).done, request_id) == Some(t@),
                None => find_done(chan_of(self@, channel).done, request_id) is None,
            },
    {
        match channel {
            MemType::IMem => self.imem.find(request_id),
            MemType::DMem => self.dmem.find(request_id),
        }
    }

    /// Whether a transaction with this id is still queued (admitted,
    /// not yet completed) on the given channel.
    pub fn pending(&self, channel: MemType, request_id: u32) -> (r: bool)
        ensures
            r == queue_has_id(chan_of(self@, channel).queue, request_id),
    {
        match channel {
            MemType::IMem => self.imem.has_pending(request_id),
            MemType::DMem => self.dmem.has_pending(request_id),
        }
    }
}

/// Byte-for-byte copy of one block, so that an admitted write's handle
/// can carry the data while the queue owns the block it will commit.
fn copy_block(data: &Vec<u8>) -> (r: Vec<u8>)
    ensures
        r@ == data@,
{
    let mut r: Vec<u8> = Vec::new();
    let mut j: usize = 0;
    while j < data.len()
        invariant
            j <= data@.len(),
            r@ == data@.take(j as int),
        decreases data@.len() - j,
    {
        r.push(data[j]);
        proof {
            assert(r@ =~= data@.take(j + 1));
        }
        j = j + 1;
    }
    proof {
        assert(r@ =~= data@);
    }
    r
}

/// Fetches the block of `BLOCK_SIZE` consecutive bytes starting at the
/// block-aligned address `addr`.
fn read_block_exec(store: &Memory, addr: u32) -> (data: Vec<u8>)
    requires
        store.wf(),
        addr % BLOCK_SIZE == 0,
    ensures
        data@ == read_block(store.contents(), addr),
{
    proof {
        lemma_aligned_block_fits(addr);
    }
    let mut data: Vec<u8> = Vec::new();
    let mut j: u32 = 0;
    while j < BLOCK_SIZE
        invariant
            store.wf(),
            addr + BLOCK_SIZE <= 0x1_0000_0000,
            j <= BLOCK_SIZE,
            data@.len() == j,
            forall|k: int| 0 <= k < j ==> data@[k] == store.contents()[(addr + k) as u32],
        decreases BLOCK_SIZE - j,
    {
        data.push(store.read_byte(addr + j));
        j = j + 1;
    }
    proof {
        assert(data@ =~= read_block(store.contents(), addr));
    }
    data
}

/// Commits `data` to the store one byte per address, starting at the
/// block-aligned address `addr`.
fn write_block_exec(store: &mut Memory, addr: u32, data: &Vec<u8>)
    requires
        old(store).wf(),
        addr % BLOCK_SIZE == 0,
        data@.len() == BLOCK_SIZE,
    ensures
        final(store).wf(),
        final(store).spec_pc() == old(store).spec_pc(),
        final(store).contents() == write_block(old(store).contents(), addr, data@),
{
    proof {
        lemma_aligned_block_fits(addr);
    }
    let mut j: usize = 0;
    while j < data.len()
        invariant
            store.wf(),
            store.spec_pc() == old(store).spec_pc(),
            addr + BLOCK_SIZE <= 0x1_0000_0000,
            data@.len() == BLOCK_SIZE,
            j <= data@.len(),
            forall|a: u32|
                store.contents()[a] == if addr <= a < addr + j {
                    data@[a - addr]
                } else {
                    old(store).contents()[a]
                },
        decreases data@.len() - j,
    {
        store.write_byte(addr + (j as u32), data[j]);
        j = j + 1;
    }
    proof {
        store.lemma_contents_total();
        assert(store.contents().dom() =~= write_block(old(store).contents(), addr, data@).dom());
        assert(store.contents() =~= write_block(old(store).contents(), addr, data@));
    }
}

impl Channel {
    /// One tick over this channel: the entries whose counters reach the
    /// access latency perform their block transfers front to back and
    /// move to the completion record in FIFO order; every other entry
    /// accrues one cycle, order preserved.
    fn advance(&mut self, store: &mut Memory)
        requires
            wf_chan(old(self).model()),
            old(store).wf(),
        ensures
            final(store).wf(),
            final(store).spec_pc() == old(store).spec_pc(),
            wf_chan(final(self).model()),
            ({
                let r = step_queue(old(self).model().queue, old(store).contents());
                &&& final(self).model().queue == r.queue
                &&& final(self).model().done == old(self).model().done + r.done
                &&& final(self).model().capacity == old(self).model().capacity
                &&& final(store).contents() == r.mem
            }),
    {
        let ghost full = queue_model(self.queue@);
        let ghost mem0 = store.contents();
        let ghost done0 = done_model(self.done@);
        let ghost r_full = step_queue(full, mem0);
        let mut new_queue: Vec<QueueEntry> = Vec::new();

        while self.queue.len() > 0
            invariant
                store.wf(),
                store.spec_pc() == old(store).spec_pc(),
                self.capacity == old(self).capacity,
                full.len() <= old(self).capacity,
                full == old(self).model().queue,
                done0 == old(self).model().done,
                r_full == step_queue(full, mem0),
                queue_model(new_queue@).len() + queue_model(self.queue@).len() <= full.len(),
                forall|j: int|
                    0 <= j < queue_model(self.queue@).len() ==> wf_entry(
                        #[trigger] queue_model(self.queue@)[j],
                    ),
                forall|j: int|
                    0 <= j < queue_model(new_queue@).len() ==> wf_entry(
                        #[trigger] queue_model(new_queue@)[j],
                    ),
                done_model(self.done@).len() >= done0.len(),
                done_model(self.done@).take(done0.len() as int) == done0,
                forall|j: int|
                    done0.len() <= j < done_model(self.done@).len() ==> wf_done(
                        #[trigger] done_model(self.done@)[j],
                    ),
                ({
                    let cur = step_queue(queue_model(self.queue@), store.contents());
                    &&& r_full.queue == queue_model(new_queue@) + cur.queue
                    &&& r_full.done == done_model(self.done@).skip(done0.len() as int) + cur.done
                    &&& r_full.mem == cur.mem
                }),
            decreases self.queue@.len(),
    {
            let ghost rem = queue_model(self.queue@);
            let ghost mem_cur = store.contents();
            let ghost pushed0 = done_model(self.done@).skip(done0.len() as int);
            let e = self.queue.remove(0);
            proof {
                assert(rem[0] == e.model());
                assert(queue_model(self.queue@) =~= rem.drop_first());
            }
            if e.elapsed + 1 >= ACCESS_CYCLES {
                match e.txn {
                    Transaction::ReadStarted => {
                        let ghost rec = DoneModel {
                            id: e.id,
                            txn: TxnModel::ReadDone(read_block(mem_cur, e.addr)),
                        };
                        proof {
                            let rest = step_queue(rem.drop_first(), mem_cur);
                            assert(step_queue(rem, mem_cur) == StepResult {
                                queue: rest.queue,
                                done: seq![rec] + rest.done,
                                mem: rest.mem,
                            });
                        }
                        let ghost dm0 = done_model(self.done@);
                        let data = read_block_exec(store, e.addr);
                        self.done.push(DoneRecord { id: e.id, txn: Transaction::ReadDone(data) });
                        proof {
                            assert(done_model(self.done@) =~= dm0.push(rec));
                            assert(done_model(self.done@).take(done0.len() as int) =~= done0);
                            assert(done_model(self.done@).skip(done0.len() as int) =~= pushed0.push(
                                rec,
                            ));
                            let rest = step_queue(queue_model(self.queue@), store.contents());
                            assert(r_full.done =~= pushed0.push(rec) + rest.done);
                        }
                    },
                    Transaction::WriteStarted(data) => {
                        let ghost rec = DoneModel { id: e.id, txn: TxnModel::WriteDone };
                        proof {
                            let rest = step_queue(
                                rem.drop_first(),
                                write_block(mem_cur, e.model().addr, data@),
                            );
                            assert(step_queue(rem, mem_cur) == StepResult {
                                queue: rest.queue,
                                done: seq![rec] + rest.done,
                                mem: rest.mem,
                            });
                        }
                        let ghost dm0 = done_model(self.done@);
                        write_block_exec(store, e.addr, &data);
                        self.done.push(DoneRecord { id: e.id, txn: Transaction::WriteDone });
                        proof {
                            assert(done_model(self.done@) =~= dm0.push(rec));
                            assert(done_model(self.done@).take(done0.len() as int) =~= done0);
                            assert(done_model(self.done@).skip(done0.len() as int) =~= pushed0.push(
                                rec,
                            ));
                            let rest = step_queue(queue_model(self.queue@), store.contents());
                            assert(r_full.done =~= pushed0.push(rec) + rest.done);
                        }
                    },
                    _ => {
                        // a refused or already-completed value never
                        // sits in a well-formed queue
                        proof {
                            assert(step_queue(rem, mem_cur) == step_queue(
                                rem.drop_first(),
                                mem_cur,
                            ));
                        }
                    },
                }
            } else {
                let ghost bumped = EntryModel {
                    elapsed: (e.model().elapsed + 1) as u32,
                    ..e.model()
                };
                proof {
                    let rest = step_queue(rem.drop_first(), mem_cur);
                    assert(step_queue(rem, mem_cur) == StepResult {
                        queue: seq![bumped] + rest.queue,
                        done: rest.done,
                        mem: rest.mem,
                    });
                }
                let ghost nq0 = queue_model(new_queue@);
                new_queue.push(
                    QueueEntry { addr: e.addr, elapsed: e.elapsed + 1, id: e.id, txn: e.txn },
                );
                proof {
                    assert(queue_model(new_queue@) =~= nq0.push(bumped));
                    let rest = step_queue(queue_model(self.queue@), store.contents());
                    assert(r_full.queue =~= queue_model(new_queue@) + rest.queue);
                }
            }
        }
        proof {
            assert(queue_model(self.queue@) =~= Seq::<EntryModel>::empty());
            let cur = step_queue(queue_model(self.queue@), store.contents());
            assert(cur == StepResult {
                queue: Seq::<EntryModel>::empty(),
                done: Seq::<DoneModel>::empty(),
                mem: store.contents(),
            });
            assert(r_full.queue =~= queue_model(new_queue@));
            assert(r_full.done =~= done_model(self.done@).skip(done0.len() as int));
        }
        self.queue = new_queue;
        proof {
            assert(self.model().done =~= done0 + r_full.done);
        }
    }

    /// The first completion record carrying `request_id`, if any.
    fn find(&self, request_id: u32) -> (r: Option<&Transaction>)
        ensures
            match r {
                Some(t) => find_done(self.model().done, request_id) == Some(t@),
                None => find_done(self.model().done, request_id) is None,
            },
    {
        let ghost all = done_model(self.done@);
        proof {
            assert(all.skip(0) =~= all);
        }
        let mut i: usize = 0;
        while i < self.done.len()
            invariant
                all == done_model(self.done@),
                i <= self.done@.len(),
                find_done(all, request_id) == find_done(all.skip(i as int), request_id),
            decreases self.done@.len() - i,
        {
            proof {
                assert(all.skip(i as int).first() == all[i as int]);
            }
            if self.done[i].id == request_id {
                return Some(&self.done[i].txn);
            }
            proof {
                assert(all.skip(i as int).drop_first() =~= all.skip(i + 1));
            }
            i = i + 1;
        }
        proof {
            assert(all.skip(i as int) =~= Seq::<DoneModel>::empty());
        }
        None
    }

    /// Whether some queued entry carries `request_id`.
    fn has_pending(&self, request_id: u32) -> (r: bool)
        ensures
            r == queue_has_id(self.model().queue, request_id),
    {
        let mut i: usize = 0;
        while i < self.queue.len()
            invariant
                i <= self.queue@.len(),
                forall|j: int|
                    0 <= j < i ==> (#[trigger] queue_model(self.queue@)[j]).id != request_id,
            decreases self.queue@.len() - i,
        {
            if self.queue[i].id == request_id {
                proof {
                    assert(queue_model(self.queue@)[i as int].id == request_id);
                }
                return true;
            }
            i = i + 1;
        }
        false
    }
}

} // verus!
