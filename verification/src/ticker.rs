//! The main thread's scheduler: who owns which scheduling chunk, which chunk
//! servers wait to tick, and which requests wait for an answer.
use vstd::prelude::*;
use crate::pos::{SChunkPos, WChunkPos};
use crate::schunk::{SChunk, slot_index};
use crate::world::WChunk;
use crate::server::{
    ChunkServer, ChunkServerState, Responser, ServerBuilder, build_weight, ids_at_most,
    states_build_weight, states_deep_wf, states_ids_at_most, state_build_weight,
    state_deep_wf, state_ids_at_most, lemma_states_ids_at_most_grow,
};
use crate::vec_map::VecMap;
use crate::config::{MAX_SCHUNK_DECAY_RATE, MAX_THREAD_COUNT};

verus! {

#[verifier::external_type_specification]
#[verifier::external_body]
pub struct ExInterval(tokio::time::Interval);

#[verifier::external_type_specification]
#[verifier::external_body]
pub struct ExInstant(tokio::time::Instant);

/// `Task` is the type of the tasks that chunk servers leave for the main thread.
pub struct Ticker<Task> {
    /// Chunk servers that are not ticking, by id.
    pub servers: VecMap<u64, Box<ChunkServer<Task>>>,
    /// Chunk servers waiting for a thread, by id.
    pub pendings: VecMap<u64, Box<ChunkServer<Task>>>,
    /// Requests waiting for a scheduling chunk, by the requester's id.
    pub waitings: VecMap<u64, Responser<Task>>,
    /// Tasks that chunk servers left for the main thread.
    pub tasks: Vec<Task>,
    /// Paces the ticks.
    pub interval: tokio::time::Interval,
    /// When the current tick started.
    pub tick_start_time: tokio::time::Instant,
    /// Whether the server keeps running.
    pub scheduled_run: bool,
    /// The id of the server that owns each scheduling chunk.
    pub schunk_pos_map: VecMap<SChunkPos, u64>,
    /// Number of chunk servers ticking on threads; never above `MAX_THREAD_COUNT`.
    pub thread_count: usize,
    /// The id of the last chunk server built.
    pub server_builder: u64,
}

/// An answer the main thread owes: the request and the server it is answered with.
pub type Reply<Task> = (Responser<Task>, ChunkServerState<Task>);

/// A pair of the chunk map stays with its server when its decay level is
/// above the rate.
pub open spec fn stays(e: (SChunkPos, Box<SChunk>), rate: u8) -> bool {
    e.1.dep_level > rate
}

/// The same scheduling chunk with another decay level.
pub open spec fn with_dep(sc: Box<SChunk>, d: u8) -> Box<SChunk> {
    Box::new(SChunk { dep_level: d, ..*sc })
}

/// The pairs that stay, with their decay levels lowered by the rate.
pub open spec fn kept(s: Seq<(SChunkPos, Box<SChunk>)>, rate: u8) -> Seq<(SChunkPos, Box<SChunk>)>
    decreases s.len(),
{
    if s.len() == 0 {
        Seq::empty()
    } else {
        kept(s.drop_last(), rate) + if stays(s.last(), rate) {
            seq![(s.last().0, with_dep(s.last().1, (s.last().1.dep_level - rate) as u8))]
        } else {
            Seq::empty()
        }
    }
}

/// `p` is the key of a pair that does not stay.
pub open spec fn is_split_key(s: Seq<(SChunkPos, Box<SChunk>)>, p: SChunkPos, rate: u8) -> bool {
    exists|k: int| 0 <= k < s.len() && #[trigger] s[k].0 == p && !stays(s[k], rate)
}

/// A server that holds exactly the scheduling chunk `sc` at `pos`.
pub open spec fn holds_only<Task>(s: ChunkServer<Task>, id: u64, pos: SChunkPos, sc: Box<SChunk>) -> bool {
    &&& s.id == id
    &&& s.deep_wf()
    &&& s.sc_map@ =~= map![pos => sc]
    &&& s.sc_map.len_spec() == 1
    &&& s.borrows@.len() == 0
    &&& s.global_tasks@.len() == 0
}

/// `after` is `before` with `k` servers from the end of `pend` appended, last
/// first, where `k` is what fits below `MAX_THREAD_COUNT` from `threads`:
/// what starting pending servers on threads does.
pub open spec fn filled<Task>(
    pend: Seq<(u64, Box<ChunkServer<Task>>)>,
    pend_after: Seq<(u64, Box<ChunkServer<Task>>)>,
    threads: int,
    threads_after: int,
    before: Seq<Box<ChunkServer<Task>>>,
    after: Seq<Box<ChunkServer<Task>>>,
) -> bool {
    let n = pend.len() as int;
    let k = vstd::math::min(n, MAX_THREAD_COUNT - threads);
    &&& threads_after == threads + k
    &&& pend_after == pend.take(n - k)
    &&& after.len() == before.len() + k
    &&& after.take(before.len() as int) == before
    &&& forall|m: int| 0 <= m < k ==> #[trigger] after[before.len() + m] == pend[n - 1 - m].1
}

/// `u` is `t` after the pairs of `pairs` that do not stay moved, each to a new
/// idle server of its own that owns it: the builder moved past their ids, and
/// owners of other positions did not change.
pub open spec fn split_done<Task>(
    t: Ticker<Task>,
    u: Ticker<Task>,
    pairs: Seq<(SChunkPos, Box<SChunk>)>,
    rate: u8,
) -> bool {
    let b0 = t.server_builder;
    &&& u.server_builder == b0 + (pairs.len() - kept(pairs, rate).len())
    &&& forall|k: int| 0 <= k < pairs.len() && !stays(#[trigger] pairs[k], rate) ==> {
        let id = u.schunk_pos_map@[pairs[k].0];
        &&& u.schunk_pos_map@.contains_key(pairs[k].0)
        &&& b0 < id <= u.server_builder
        &&& u.servers@.contains_key(id)
        &&& holds_only(*u.servers@[id], id, pairs[k].0, with_dep(pairs[k].1, MAX_SCHUNK_DECAY_RATE))
    }
    &&& forall|p: SChunkPos| !is_split_key(pairs, p, rate) ==> (
        #[trigger] u.schunk_pos_map@.contains_key(p) == t.schunk_pos_map@.contains_key(p)
            && (t.schunk_pos_map@.contains_key(p) ==> u.schunk_pos_map@[p] == t.schunk_pos_map@[p]))
    &&& forall|id: u64| #[trigger] u.servers@.contains_key(id) && id > b0 ==> exists|k: int|
        0 <= k < pairs.len() && !stays(#[trigger] pairs[k], rate) && u.schunk_pos_map@.contains_key(pairs[k].0)
            && u.schunk_pos_map@[pairs[k].0] == id
}

/// A server built to hold exactly one new scheduling chunk.
pub open spec fn holds_only_fresh<Task>(s: ChunkServer<Task>, id: u64, pos: SChunkPos) -> bool {
    &&& s.id == id
    &&& s.deep_wf()
    &&& s.sc_map.wf()
    &&& s.sc_map@.dom() =~= set![pos]
    &&& s.sc_map@[pos].is_fresh(pos)
    &&& s.borrows@.len() == 0
    &&& s.global_tasks@.len() == 0
}

/// The main thread's state, with the answers it has queued.
pub type Stage<Task> = (Ticker<Task>, Vec<Reply<Task>>);

/// `b` is `a` once `server`, whose lent servers are all back, finished its
/// tick: handed to the first request waiting for one of its chunks if there
/// is one, else left idle as `finished_idle` says.
pub open spec fn tick_finished<Task>(a: Stage<Task>, server: ChunkServer<Task>, rate: u8, b: Stage<Task>) -> bool {
    &&& a.0.wf()
    &&& b.0.wf()
    &&& server.wf()
    &&& server.borrows@.len() == 0
    &&& b.0.interval == a.0.interval
    &&& b.0.tick_start_time == a.0.tick_start_time
    &&& b.0.scheduled_run == a.0.scheduled_run
    &&& a.0.handed_to_waiter(b.0, server, a.1, b.1)
    &&& (!a.0.some_waits_in(server.sc_map@) ==> a.0.finished_idle(b.0, server, rate, a.1, b.1))
}

/// `u` is `t` after the thread of a server whose tick ended was released
/// and pending servers were started on free threads (see `filled`).
pub open spec fn threads_released<Task>(
    t: Ticker<Task>,
    u: Ticker<Task>,
    spawns: Vec<Box<ChunkServer<Task>>>,
    spawns_after: Vec<Box<ChunkServer<Task>>>,
) -> bool {
    &&& u == Ticker { pendings: u.pendings, thread_count: u.thread_count, ..t }
    &&& filled(
        t.pendings.pairs(),
        u.pendings.pairs(),
        t.thread_count - 1,
        u.thread_count as int,
        spawns@,
        spawns_after@,
    )
}

/// `b` is `a` once the tick of `s` ended on its thread: `s` and the servers
/// lent to it were settled (see `tick_ended`), and then its thread was
/// released (see `threads_released`).
pub open spec fn tick_end_handled<Task>(
    a: Stage<Task>,
    s: ChunkServer<Task>,
    rate: u8,
    b: Stage<Task>,
    spawns: Vec<Box<ChunkServer<Task>>>,
    spawns_after: Vec<Box<ChunkServer<Task>>>,
) -> bool {
    exists|m: Stage<Task>|
        #[trigger] threads_released(m.0, b.0, spawns, spawns_after) && m.0.wf() && tick_ended(a, s, rate, m) && b.1
            == m.1
}

/// `b` is `a` once the server `s` ended its tick: the servers lent to it went
/// back, the last first, and then it finished its tick with its own chunks
/// and tasks.
pub open spec fn tick_ended<Task>(a: Stage<Task>, s: ChunkServer<Task>, rate: u8, b: Stage<Task>) -> bool
    decreases s,
{
    exists|m: Stage<Task>, s0: ChunkServer<Task>|
        #![trigger tick_finished(m, s0, rate, b)]
        {
            &&& borrows_returned(a, s.borrows@, rate, m)
            &&& s0.id == s.id
            &&& s0.sc_map == s.sc_map
            &&& s0.global_tasks == s.global_tasks
            &&& tick_finished(m, s0, rate, b)
        }
}

/// The ticker of the stage `m` is well formed.
pub open spec fn stage_wf<Task>(m: Stage<Task>) -> bool {
    m.0.wf()
}

/// `b` is `a` once the lent servers `ss` went back, the last first.
pub open spec fn borrows_returned<Task>(
    a: Stage<Task>,
    ss: Seq<ChunkServerState<Task>>,
    rate: u8,
    b: Stage<Task>,
) -> bool
    decreases ss,
{
    if ss.len() == 0 {
        b == a
    } else {
        exists|m: Stage<Task>|
            #[trigger] stage_wf(m) && borrows_returned(a, ss.drop_first(), rate, m) && borrow_returned(
                m,
                ss.first(),
                rate,
                b,
            )
    }
}

/// `b` is `a` once the lent server `st` went back: the request of a waiting
/// one is handled anew, a ticked one ends its tick in turn, and a pending
/// one waits for a thread again.
pub open spec fn borrow_returned<Task>(a: Stage<Task>, st: ChunkServerState<Task>, rate: u8, b: Stage<Task>) -> bool
    decreases st,
{
    match st {
        ChunkServerState::IsTicking(r) => {
            &&& a.0.wf()
            &&& !a.0.schunk_pos_map@.contains_key(r.req_cell.sc_pos) ==> a.0.server_builder < u64::MAX
            &&& b.0.same_frame(a.0)
            &&& a.0.request_handled(b.0, r, a.1, b.1)
        },
        ChunkServerState::IsTicked(s) => tick_ended(a, *s, rate, b),
        ChunkServerState::IsPending(s) => {
            &&& b.0 == Ticker { pendings: b.0.pendings, ..a.0 }
            &&& b.0.pendings.wf()
            &&& b.0.pendings@ =~= a.0.pendings@.insert(s.id, s)
            &&& !a.0.pendings@.contains_key(s.id) ==> b.0.pendings.pairs() =~= a.0.pendings.pairs().push((s.id, s))
            &&& a.0.pendings@.contains_key(s.id) ==> b.0.pendings.keys() =~= a.0.pendings.keys()
            &&& b.1 == a.1
        },
    }
}

impl<Task> Ticker<Task> {
    /// The maps are well formed, each server and request is stored under the
    /// id of its server, and every idle server's id has been handed out.
    pub open spec fn wf(self) -> bool {
        &&& self.servers.wf()
        &&& self.pendings.wf()
        &&& self.waitings.wf()
        &&& self.schunk_pos_map.wf()
        &&& self.thread_count <= MAX_THREAD_COUNT
        &&& forall|id: u64| #[trigger]
            self.servers@.contains_key(id) ==> self.servers@[id].id == id
                && self.servers@[id].deep_wf() && id <= self.server_builder
        &&& forall|id: u64| #[trigger]
            self.pendings@.contains_key(id) ==> self.pendings@[id].id == id
                && self.pendings@[id].deep_wf() && id <= self.server_builder
        &&& forall|id: u64| #[trigger]
            self.waitings@.contains_key(id) ==> self.waitings@[id].req_cell.requester.id == id
                && self.waitings@[id].req_cell.requester.deep_wf()
    }

    /// Every chunk held by an idle or pending server is recorded as owned by
    /// that server.
    pub open spec fn owners_consistent(self) -> bool {
        &&& forall|id: u64, p: SChunkPos|
            #[trigger] self.servers@.contains_key(id) && #[trigger] self.servers@[id].sc_map@.contains_key(p)
                ==> self.schunk_pos_map@.contains_key(p) && self.schunk_pos_map@[p] == id
        &&& forall|id: u64, p: SChunkPos|
            #[trigger] self.pendings@.contains_key(id) && #[trigger] self.pendings@[id].sc_map@.contains_key(p)
                ==> self.schunk_pos_map@.contains_key(p) && self.schunk_pos_map@[p] == id
    }

    /// The parts that the scheduling steps leave alone.
    pub open spec fn same_frame(self, other: Self) -> bool {
        &&& self.tasks == other.tasks
        &&& self.interval == other.interval
        &&& self.tick_start_time == other.tick_start_time
        &&& self.scheduled_run == other.scheduled_run
        &&& self.thread_count == other.thread_count
    }

    pub fn new(interval: tokio::time::Interval, tick_start_time: tokio::time::Instant) -> (t: Self)
        ensures
            t.wf(),
            t.servers@ == Map::<u64, Box<ChunkServer<Task>>>::empty(),
            t.pendings@ == Map::<u64, Box<ChunkServer<Task>>>::empty(),
            t.waitings@ == Map::<u64, Responser<Task>>::empty(),
            t.schunk_pos_map@ == Map::<SChunkPos, u64>::empty(),
            t.tasks@.len() == 0,
            t.interval == interval,
            t.tick_start_time == tick_start_time,
            t.scheduled_run,
            t.thread_count == 0,
            t.server_builder == 0,
    {
        Ticker {
            servers: VecMap::new(),
            pendings: VecMap::new(),
            waitings: VecMap::new(),
            tasks: Vec::new(),
            interval,
            tick_start_time,
            scheduled_run: true,
            schunk_pos_map: VecMap::new(),
            thread_count: 0,
            server_builder: 0,
        }
    }

    /// Builds a server that holds a new scheduling chunk at `pos`, and
    /// records it as the owner of `pos`.
    fn build_owner(&mut self, pos: SChunkPos) -> (s: Box<ChunkServer<Task>>)
        requires
            old(self).wf(),
            old(self).server_builder < u64::MAX,
        ensures
            final(self).wf(),
            final(self).same_frame(*old(self)),
            final(self).server_builder == old(self).server_builder + 1,
            final(self).schunk_pos_map@ == old(self).schunk_pos_map@.insert(pos, final(self).server_builder),
            final(self).servers == old(self).servers,
            final(self).pendings == old(self).pendings,
            final(self).waitings == old(self).waitings,
            holds_only_fresh(*s, final(self).server_builder, pos),
    {
        let mut server = self.server_builder.build();
        let sc = Box::new(SChunk::new(pos));
        server.sc_map.insert(pos, sc);
        assert(server.sc_map@.dom() =~= set![pos]);
        assert(crate::server::states_deep_wf(server.borrows@));
        self.schunk_pos_map.insert(pos, server.id);
        server
    }

    /// `u` is `self` after the request `responser` was handled, and
    /// `replies_after` is `replies` with the answer it got, if any.
    pub open spec fn request_handled(
        self,
        u: Self,
        responser: Responser<Task>,
        replies: Vec<Reply<Task>>,
        replies_after: Vec<Reply<Task>>,
    ) -> bool {
        let pos = responser.req_cell.sc_pos;
        let t = self;
        if t.schunk_pos_map@.contains_key(pos) {
            let id = t.schunk_pos_map@[pos];
            &&& u.schunk_pos_map == t.schunk_pos_map
            &&& u.server_builder == t.server_builder
            &&& if t.servers@.contains_key(id) {
                &&& u.servers@ =~= t.servers@.remove(id)
                &&& u.waitings == t.waitings
                &&& u.pendings == t.pendings
                &&& replies_after@ =~= replies@.push(
                    (responser, ChunkServerState::IsTicked(t.servers@[id])),
                )
            } else if t.waitings@.contains_key(id) {
                &&& u.servers == t.servers
                &&& u.waitings@ =~= t.waitings@.remove(id)
                &&& u.pendings == t.pendings
                &&& replies_after@ =~= replies@.push(
                    (responser, ChunkServerState::IsTicking(t.waitings@[id])),
                )
            } else if t.pendings@.contains_key(id) {
                &&& u.servers == t.servers
                &&& u.waitings == t.waitings
                &&& u.pendings@ =~= t.pendings@.remove(id)
                &&& replies_after@ =~= replies@.push(
                    (responser, ChunkServerState::IsPending(t.pendings@[id])),
                )
            } else {
                &&& u.servers == t.servers
                &&& u.pendings == t.pendings
                &&& u.waitings@ =~= t.waitings@.insert(responser.req_cell.requester.id, responser)
                &&& replies_after@ =~= replies@
            }
        } else {
            let id = (t.server_builder + 1) as u64;
            &&& u.server_builder == id
            &&& u.schunk_pos_map@ =~= t.schunk_pos_map@.insert(pos, id)
            &&& u.servers == t.servers
            &&& u.waitings == t.waitings
            &&& u.pendings == t.pendings
            &&& replies_after@.len() == replies@.len() + 1
            &&& replies_after@.drop_last() =~= replies@
            &&& replies_after@.last().0 == responser
            &&& replies_after@.last().1 matches ChunkServerState::IsTicked(s)
                && holds_only_fresh(*s, id, pos)
        }
    }

    /// Answers a request for the scheduling chunk at `responser.req_cell.sc_pos`:
    /// with its owner if that owner is idle, waiting for a thread, or itself
    /// waiting for a chunk; by queueing the request if the owner is ticking;
    /// with a new server holding a new chunk if nobody owns it.
    pub fn handle_request_sc(&mut self, responser: Responser<Task>, replies: &mut Vec<Reply<Task>>)
        requires
            old(self).wf(),
            !old(self).schunk_pos_map@.contains_key(responser.req_cell.sc_pos) ==> old(self).server_builder
                < u64::MAX,
            responser.req_cell.requester.deep_wf(),
        ensures
            final(self).wf(),
            final(self).same_frame(*old(self)),
            old(self).request_handled(*final(self), responser, *old(replies), *final(replies)),
    {
        let request_pos = responser.req_cell.sc_pos;
        match self.schunk_pos_map.get(&request_pos) {
            Some(server_id) => {
                let server_id = *server_id;
                if let Some(borrow) = self.servers.remove(&server_id) {
                    replies.push((responser, ChunkServerState::IsTicked(borrow)));
                    return;
                }
                if let Some(borrow) = self.waitings.remove(&server_id) {
                    replies.push((responser, ChunkServerState::IsTicking(borrow)));
                    return;
                }
                if let Some(borrow) = self.pendings.remove(&server_id) {
                    replies.push((responser, ChunkServerState::IsPending(borrow)));
                    return;
                }
                let requester_id = responser.req_cell.requester.id;
                self.waitings.insert(requester_id, responser);
            },
            None => {
                let borrow = self.build_owner(request_pos);
                let ghost before = replies@;
                replies.push((responser, ChunkServerState::IsTicked(borrow)));
                assert(replies@.drop_last() =~= before);
            },
        }
    }

    /// Whether the request at index `i` of `waitings` asks for `pos`.
    pub open spec fn waits_for(self, i: int, pos: SChunkPos) -> bool {
        self.waitings.pairs()[i].1.req_cell.sc_pos == pos
    }

    /// The index of the first waiting request that asks for `pos`, if any.
    pub fn first_waiting_for(&self, pos: &SChunkPos) -> (r: Option<usize>)
        ensures
            r is None ==> forall|j: int| 0 <= j < self.waitings.len_spec() ==> !#[trigger] self.waits_for(j, *pos),
            r matches Some(i) ==> i < self.waitings.len_spec() && self.waits_for(i as int, *pos)
                && forall|j: int| 0 <= j < i ==> !#[trigger] self.waits_for(j, *pos),
    {
        let n = self.waitings.len();
        let mut i: usize = 0;
        while i < n
            invariant
                n == self.waitings.len_spec(),
                i <= n,
                forall|j: int| 0 <= j < i ==> !#[trigger] self.waits_for(j, *pos),
            decreases n - i,
        {
            if self.waitings.value_at(i).req_cell.sc_pos == *pos {
                return Some(i);
            }
            i = i + 1;
        }
        None
    }

    /// `u` is `self` after the scheduling chunk at `pos` was dropped by its
    /// owner, and `replies_after` is `replies` with the answer that gave a
    /// new chunk at `pos` to a waiting request, if one waited.
    pub open spec fn schunk_removed(
        self,
        u: Self,
        pos: SChunkPos,
        replies: Vec<Reply<Task>>,
        replies_after: Vec<Reply<Task>>,
    ) -> bool {
        let t = self;
        &&& u.servers == t.servers
        &&& u.pendings == t.pendings
        &&& if exists|j: int| 0 <= j < t.waitings.len_spec() && #[trigger] t.waits_for(j, pos) {
            let i = choose|i: int|
                0 <= i < t.waitings.len_spec() && #[trigger] t.waits_for(i, pos) && forall|j: int|
                    0 <= j < i ==> !#[trigger] t.waits_for(j, pos);
            let id = (t.server_builder + 1) as u64;
            &&& u.waitings@ =~= t.waitings@.remove(t.waitings.pairs()[i].0)
            &&& u.server_builder == id
            &&& u.schunk_pos_map@ =~= t.schunk_pos_map@.insert(pos, id)
            &&& replies_after@.len() == replies@.len() + 1
            &&& replies_after@.drop_last() =~= replies@
            &&& replies_after@.last().0 == t.waitings.pairs()[i].1
            &&& replies_after@.last().1 matches ChunkServerState::IsTicked(s)
                && holds_only_fresh(*s, id, pos)
        } else {
            &&& u.waitings == t.waitings
            &&& u.server_builder == t.server_builder
            &&& u.schunk_pos_map@ =~= t.schunk_pos_map@.remove(pos)
            &&& replies_after@ =~= replies@
        }
    }

    /// A scheduling chunk at `pos` became empty and was dropped by its owner:
    /// the first request waiting for it gets a new server with a new chunk;
    /// if nobody waits, `pos` loses its owner.
    pub fn handle_remove_schunk(&mut self, pos: SChunkPos, replies: &mut Vec<Reply<Task>>)
        requires
            old(self).wf(),
            (exists|j: int| 0 <= j < old(self).waitings.len_spec() && #[trigger] old(self).waits_for(j, pos))
                ==> old(self).server_builder < u64::MAX,
            old(self).schunk_pos_map@.contains_key(pos) || exists|j: int|
                0 <= j < old(self).waitings.len_spec() && #[trigger] old(self).waits_for(j, pos),
        ensures
            final(self).wf(),
            final(self).same_frame(*old(self)),
            final(self).servers == old(self).servers,
            final(self).pendings == old(self).pendings,
            old(self).schunk_removed(*final(self), pos, *old(replies), *final(replies)),
    {
        match self.first_waiting_for(&pos) {
            Some(i) => {
                let ghost t = *self;
                proof {
                    t.waitings.lemma_at(i as int);
                    let c = choose|c: int|
                        0 <= c < t.waitings.len_spec() && #[trigger] t.waits_for(c, pos) && forall|j: int|
                            0 <= j < c ==> !#[trigger] t.waits_for(j, pos);
                    if c < i {
                    } else if i < c {
                        assert(!t.waits_for(i as int, pos));
                    }
                    assert(c == i);
                }
                let (_, responser) = self.waitings.remove_at(i);
                let server = self.build_owner(pos);
                let ghost before = replies@;
                replies.push((responser, ChunkServerState::IsTicked(server)));
                assert(replies@.drop_last() =~= before);
            },
            None => {
                let removed = self.schunk_pos_map.remove(&pos);
                if removed.is_none() {
                    proof {
                        let j = choose|j: int| 0 <= j < old(self).waitings.len_spec() && #[trigger] old(self).waits_for(j, pos);
                        assert(!self.waits_for(j, pos));
                    }
                }
            },
        }
    }

    /// The id of the server that owns `sc_pos`, or of the server that would be
    /// built for it.
    pub open spec fn owner_of(self, sc_pos: SChunkPos) -> u64 {
        if self.schunk_pos_map@.contains_key(sc_pos) {
            self.schunk_pos_map@[sc_pos]
        } else {
            (self.server_builder + 1) as u64
        }
    }

    /// An owned scheduling chunk is held by an idle server.
    pub open spec fn owner_idle(self, sc_pos: SChunkPos) -> bool {
        self.schunk_pos_map@.contains_key(sc_pos) ==> {
            let id = self.schunk_pos_map@[sc_pos];
            &&& self.servers@.contains_key(id)
            &&& self.servers@[id].sc_map@.contains_key(sc_pos)
        }
    }

    /// The idle server that owns `sc_pos`; if nobody owns it, a new server
    /// holding a new chunk at `sc_pos` is built, recorded and returned.
    fn get_chunk_server(&mut self, sc_pos: SChunkPos) -> (r: &mut ChunkServer<Task>)
        requires
            old(self).wf(),
            !old(self).schunk_pos_map@.contains_key(sc_pos) ==> old(self).server_builder < u64::MAX,
            old(self).schunk_pos_map@.contains_key(sc_pos) ==> old(self).servers@.contains_key(
                old(self).schunk_pos_map@[sc_pos],
            ),
        ensures
            final(self).same_frame(*old(self)),
            final(self).pendings == old(self).pendings,
            final(self).waitings == old(self).waitings,
            final(r).id == r.id && final(r).deep_wf() ==> final(self).wf(),
            r.id == old(self).owner_of(sc_pos),
            r.deep_wf(),
            final(self).servers@ == old(self).servers@.insert(r.id, Box::new(*final(r))),
            old(self).schunk_pos_map@.contains_key(sc_pos) ==> {
                &&& *r == *old(self).servers@[r.id]
                &&& final(self).schunk_pos_map == old(self).schunk_pos_map
                &&& final(self).server_builder == old(self).server_builder
            },
            !old(self).schunk_pos_map@.contains_key(sc_pos) ==> {
                &&& holds_only_fresh(*r, r.id, sc_pos)
                &&& final(self).schunk_pos_map@ == old(self).schunk_pos_map@.insert(sc_pos, r.id)
                &&& final(self).server_builder == r.id
                &&& !old(self).servers@.contains_key(r.id)
            },
    {
        match self.schunk_pos_map.get(&sc_pos) {
            Some(id) => {
                let id = *id;
                let ghost t = *self;
                let r = self.servers.get_mut(&id);
                r
            },
            None => {
                let server = self.build_owner(sc_pos);
                let id = server.id;
                let ghost t = *self;
                self.servers.insert(id, server);
                self.servers.get_mut(&id)
            },
        }
    }

    /// `u` is `self` after the chunk at `pos` was loaded (or found) as `c`,
    /// which the caller then changed to `c_after`.  The scheduling chunk that
    /// holds it keeps its position and was used (its decay level back at the
    /// top).
    pub open spec fn wchunk_loaded(
        self,
        u: Self,
        pos: WChunkPos,
        c: WChunk,
        c_after: WChunk,
    ) -> bool {
        let sc_pos = pos.schunk_of();
        let t = self;
        let id = t.owner_of(sc_pos);
        let s = u.servers@[id];
        let sc = s.sc_map@[sc_pos];
        &&& u.pendings == t.pendings
        &&& u.servers@ =~= t.servers@.insert(id, s)
        &&& s.id == id
        &&& sc.pos == sc_pos
        &&& sc.dep_level == MAX_SCHUNK_DECAY_RATE
        &&& sc.slot(pos) == Some(Box::new(c_after))
        &&& if t.schunk_pos_map@.contains_key(sc_pos) {
            let old_s = t.servers@[id];
            let old_sc = old_s.sc_map@[sc_pos];
            &&& u.schunk_pos_map == t.schunk_pos_map
            &&& u.server_builder == t.server_builder
            &&& s.borrows == old_s.borrows
            &&& s.global_tasks == old_s.global_tasks
            &&& s.sc_map@ =~= old_s.sc_map@.insert(sc_pos, sc)
            &&& sc.slots() =~= old_sc.slots().update(slot_index(pos), Some(Box::new(c_after)))
            &&& sc.wchunk_count == old_sc.wchunk_count + (if old_sc.slot(pos) is None { 1int } else { 0int })
            &&& (old_sc.slot(pos) matches Some(b) ==> c == *b)
            &&& (old_sc.slot(pos) is None ==> c.loaded_at(pos))
        } else {
            &&& u.schunk_pos_map@ =~= t.schunk_pos_map@.insert(sc_pos, id)
            &&& u.server_builder == id
            &&& s.sc_map@.dom() =~= set![sc_pos]
            &&& s.borrows@.len() == 0
            &&& s.global_tasks@.len() == 0
            &&& sc.wchunk_count == 1
            &&& c.loaded_at(pos)
            &&& forall|i: int| 0 <= i < sc.slots().len() && i != slot_index(pos) ==> #[trigger] sc.slots()[i] is None
        }
    }

    /// The chunk at `pos`, loaded if it was not; the owner of its scheduling
    /// chunk is found, or built if there is none.
    pub fn load_wchunk(&mut self, pos: WChunkPos) -> (c: &mut WChunk)
        requires
            old(self).wf(),
            !old(self).schunk_pos_map@.contains_key(pos.schunk_of()) ==> old(self).server_builder < u64::MAX,
            old(self).owner_idle(pos.schunk_of()),
        ensures
            final(self).wf(),
            final(self).same_frame(*old(self)),
            final(self).pendings == old(self).pendings,
            final(self).waitings == old(self).waitings,
            old(self).wchunk_loaded(*final(self), pos, *c, *final(c)),
    {
        let sc_pos = pos.to_schunk_pos();
        let server = self.get_chunk_server(sc_pos);
        let sc = server.sc_map.get_mut(&sc_pos);
        sc.load_wchunk(pos)
    }

    /// The loaded chunk at `pos`, if any; as `load_wchunk`, this finds or
    /// builds the owner of the scheduling chunk, which keeps its position and
    /// is marked as used (its decay level back at the top).
    pub fn get_chunk(&mut self, pos: &WChunkPos) -> (r: Option<&mut Box<WChunk>>)
        requires
            old(self).wf(),
            !old(self).schunk_pos_map@.contains_key(pos.schunk_of()) ==> old(self).server_builder < u64::MAX,
            old(self).owner_idle(pos.schunk_of()),
        ensures
            final(self).wf(),
            final(self).same_frame(*old(self)),
            final(self).pendings == old(self).pendings,
            final(self).waitings == old(self).waitings,
            ({
                let sc_pos = pos.schunk_of();
                let t = *old(self);
                let u = *final(self);
                let id = t.owner_of(sc_pos);
                let s = u.servers@[id];
                let sc = s.sc_map@[sc_pos];
                &&& u.servers@ == t.servers@.insert(id, s)
                &&& s.id == id
                &&& sc.pos == sc_pos
                &&& sc.dep_level == MAX_SCHUNK_DECAY_RATE
                &&& if t.schunk_pos_map@.contains_key(sc_pos) {
                    let old_s = t.servers@[id];
                    let old_sc = old_s.sc_map@[sc_pos];
                    &&& u.schunk_pos_map == t.schunk_pos_map
                    &&& u.server_builder == t.server_builder
                    &&& s.borrows == old_s.borrows
                    &&& s.global_tasks == old_s.global_tasks
                    &&& s.sc_map@ == old_s.sc_map@.insert(sc_pos, sc)
                    &&& sc.wchunk_count == old_sc.wchunk_count
                    &&& (r is None ==> old_sc.slot(*pos) is None && sc.slots() == old_sc.slots())
                    &&& (r matches Some(b) ==> old_sc.slot(*pos) == Some(*b) && sc.slots()
                        == old_sc.slots().update(slot_index(*pos), Some(*final(b))))
                } else {
                    &&& u.schunk_pos_map@ == t.schunk_pos_map@.insert(sc_pos, id)
                    &&& u.server_builder == id
                    &&& holds_only_fresh(*s, id, sc_pos)
                    &&& r is None
                }
            }),
    {
        let sc_pos = pos.to_schunk_pos();
        let ghost mapped = self.schunk_pos_map@.contains_key(sc_pos);
        let server = self.get_chunk_server(sc_pos);
        let sc = server.sc_map.get_mut(&sc_pos);
        proof {
            if !mapped {
                assert(sc.slots()[slot_index(*pos)] is None);
                crate::pos::lemma_wchunk_from_slot(*pos);
            }
        }
        sc.get_wchunk(pos)
    }

    /// `u` is `self` after the chunk at `pos` was unloaded, giving `r`: the
    /// scheduling chunk that held it was used (its decay level back at the
    /// top); once it holds no chunk it leaves its server and loses its owner
    /// record, and until then it keeps both.
    pub open spec fn wchunk_removed(self, u: Self, pos: WChunkPos, r: Option<Box<WChunk>>) -> bool {
        &&& u.pendings == self.pendings
        &&& {
            let sc_pos = pos.schunk_of();
            let t = self;
            if t.schunk_pos_map@.contains_key(sc_pos) {
                let id = t.schunk_pos_map@[sc_pos];
                let old_s = t.servers@[id];
                let old_sc = old_s.sc_map@[sc_pos];
                let s = u.servers@[id];
                &&& r == old_sc.slot(pos)
                &&& u.servers@ =~= t.servers@.insert(id, s)
                &&& s.id == id
                &&& s.borrows == old_s.borrows
                &&& s.global_tasks == old_s.global_tasks
                &&& if old_sc.count_without(pos) == 0 {
                    &&& u.schunk_pos_map@ =~= t.schunk_pos_map@.remove(sc_pos)
                    &&& s.sc_map@ =~= old_s.sc_map@.remove(sc_pos)
                } else {
                    let sc = s.sc_map@[sc_pos];
                    &&& u.schunk_pos_map == t.schunk_pos_map
                    &&& s.sc_map@ =~= old_s.sc_map@.insert(sc_pos, sc)
                    &&& old_sc.removed_to(pos, *sc)
                }
            } else {
                &&& r is None
                &&& u == t
            }
        }
    }

    /// Unloads the chunk at `pos`.  A scheduling chunk left with no chunk
    /// leaves its server and loses its owner record.
    pub fn remove_wchunk(&mut self, pos: &WChunkPos) -> (r: Option<Box<WChunk>>)
        requires
            old(self).wf(),
            old(self).owner_idle(pos.schunk_of()),
        ensures
            final(self).wf(),
            final(self).same_frame(*old(self)),
            final(self).pendings == old(self).pendings,
            final(self).waitings == old(self).waitings,
            final(self).server_builder == old(self).server_builder,
            old(self).wchunk_removed(*final(self), *pos, r),
    {
        let sc_pos = pos.to_schunk_pos();
        let id = match self.schunk_pos_map.get(&sc_pos) {
            Some(id) => *id,
            None => {
                return None;
            },
        };
        let server = self.servers.get_mut(&id);
        let sc = server.sc_map.get_mut(&sc_pos);
        let wchunk = sc.remove_wchunk(pos);
        if sc.wchunk_count == 0 {
            server.sc_map.remove(&sc_pos);
            self.schunk_pos_map.remove(&sc_pos);
        }
        wchunk
    }

    /// Lowers the decay level of each of `server`'s scheduling chunks by
    /// `decay_rate`; each chunk whose level reaches zero leaves `server` for
    /// a new idle server of its own, with its level back at the top.
    fn split_decayed(&mut self, server: &mut ChunkServer<Task>, decay_rate: u8)
        requires
            old(self).wf(),
            old(server).wf(),
            old(self).server_builder + old(server).sc_map.len_spec() <= u64::MAX,
        ensures
            final(self).wf(),
            final(self).same_frame(*old(self)),
            final(self).pendings == old(self).pendings,
            final(self).waitings == old(self).waitings,
            final(server).wf(),
            final(server).id == old(server).id,
            final(server).borrows == old(server).borrows,
            final(server).global_tasks == old(server).global_tasks,
            final(server).sc_map.pairs() == kept(old(server).sc_map.pairs(), decay_rate),
            split_done(*old(self), *final(self), old(server).sc_map.pairs(), decay_rate),
            forall|id: u64| id <= old(self).server_builder ==> (#[trigger] final(self).servers@.contains_key(id)
                == old(self).servers@.contains_key(id) && (old(self).servers@.contains_key(id)
                ==> final(self).servers@[id] == old(self).servers@[id])),
    {
        let ghost pairs = server.sc_map.pairs();
        let ghost b0 = self.server_builder;
        let ghost t = *self;
        let ghost orig = *server;
        let mut i: usize = 0;
        let ghost mut j: int = 0;
        proof {
            assert(pairs.take(0) =~= Seq::<(SChunkPos, Box<SChunk>)>::empty());
            assert(kept(pairs.take(0), decay_rate) =~= Seq::<(SChunkPos, Box<SChunk>)>::empty());
            assert(server.sc_map.pairs() =~= kept(pairs.take(0), decay_rate) + pairs.skip(0));
        }
        while i < server.sc_map.len()
            invariant
                self.wf(),
                self.same_frame(t),
                self.pendings == t.pendings,
                self.waitings == t.waitings,
                server.wf(),
                server.id == orig.id,
                server.borrows == orig.borrows,
                server.global_tasks == orig.global_tasks,
                pairs == orig.sc_map.pairs(),
                orig.wf(),
                0 <= i <= j <= pairs.len(),
                server.sc_map.pairs() == kept(pairs.take(j), decay_rate) + pairs.skip(j),
                i == kept(pairs.take(j), decay_rate).len(),
                self.server_builder == b0 + (j - i),
                b0 + pairs.len() <= u64::MAX,
                forall|k: int| 0 <= k < j && !stays(#[trigger] pairs[k], decay_rate) ==> {
                    let id = self.schunk_pos_map@[pairs[k].0];
                    &&& self.schunk_pos_map@.contains_key(pairs[k].0)
                    &&& b0 < id <= self.server_builder
                    &&& self.servers@.contains_key(id)
                    &&& holds_only(*self.servers@[id], id, pairs[k].0, with_dep(pairs[k].1, MAX_SCHUNK_DECAY_RATE))
                },
                forall|p: SChunkPos| !is_split_key(pairs.take(j), p, decay_rate) ==> (
                    #[trigger] self.schunk_pos_map@.contains_key(p) == t.schunk_pos_map@.contains_key(p)
                        && (t.schunk_pos_map@.contains_key(p) ==> self.schunk_pos_map@[p] == t.schunk_pos_map@[p])),
                forall|id: u64| id <= b0 ==> (#[trigger] self.servers@.contains_key(id) == t.servers@.contains_key(id)
                    && (t.servers@.contains_key(id) ==> self.servers@[id] == t.servers@[id])),
                forall|id: u64| #[trigger] self.servers@.contains_key(id) && id > b0 ==> exists|k: int|
                    0 <= k < j && !stays(#[trigger] pairs[k], decay_rate) && self.schunk_pos_map@.contains_key(pairs[k].0)
                        && self.schunk_pos_map@[pairs[k].0] == id,
            decreases pairs.len() - j,
        {
            proof {
                lemma_kept_len(pairs.take(j), decay_rate);
                assert(server.sc_map.pairs()[i as int] == pairs[j]);
                orig.sc_map.lemma_at(j);
            }
            let sc = server.sc_map.value_at_mut(i);
            sc.dep_level = sc.dep_level.saturating_sub(decay_rate);
            let level = sc.dep_level;
            proof {
                assert(pairs.take(j + 1).drop_last() =~= pairs.take(j));
                assert(pairs.take(j + 1).last() == pairs[j]);
            }
            if level == 0 {
                let (pos, mut sc) = server.sc_map.remove_at(i);
                sc.dep_level = MAX_SCHUNK_DECAY_RATE;
                let mut new = self.server_builder.build();
                new.sc_map.insert(pos, sc);
                assert(crate::server::states_deep_wf(new.borrows@));
                self.schunk_pos_map.insert(pos, new.id);
                let new_id = new.id;
                self.servers.insert(new_id, new);
                proof {
                    assert(server.sc_map.pairs() =~= kept(pairs.take(j + 1), decay_rate) + pairs.skip(j + 1));
                    assert forall|k: int| 0 <= k < j + 1 && !stays(#[trigger] pairs[k], decay_rate) implies {
                        let id = self.schunk_pos_map@[pairs[k].0];
                        &&& self.schunk_pos_map@.contains_key(pairs[k].0)
                        &&& b0 < id <= self.server_builder
                        &&& self.servers@.contains_key(id)
                        &&& holds_only(*self.servers@[id], id, pairs[k].0, with_dep(pairs[k].1, MAX_SCHUNK_DECAY_RATE))
                    } by {
                        if k < j {
                            assert(pairs[k].0 != pairs[j].0);
                        }
                    }
                    assert forall|p: SChunkPos| !is_split_key(pairs.take(j + 1), p, decay_rate) implies (
                        #[trigger] self.schunk_pos_map@.contains_key(p) == t.schunk_pos_map@.contains_key(p)
                            && (t.schunk_pos_map@.contains_key(p) ==> self.schunk_pos_map@[p] == t.schunk_pos_map@[p])) by {
                        assert(pairs.take(j + 1)[j] == pairs[j]);
                        if is_split_key(pairs.take(j), p, decay_rate) {
                            let k = choose|k: int| 0 <= k < pairs.take(j).len() && #[trigger] pairs.take(j)[k].0 == p && !stays(pairs.take(j)[k], decay_rate);
                            assert(pairs.take(j + 1)[k] == pairs.take(j)[k]);
                        }
                    }
                    j = j + 1;
                }
            } else {
                i = i + 1;
                proof {
                    assert(server.sc_map.pairs() =~= kept(pairs.take(j + 1), decay_rate) + pairs.skip(j + 1));
                    assert forall|p: SChunkPos| !is_split_key(pairs.take(j + 1), p, decay_rate) implies (
                        #[trigger] self.schunk_pos_map@.contains_key(p) == t.schunk_pos_map@.contains_key(p)
                            && (t.schunk_pos_map@.contains_key(p) ==> self.schunk_pos_map@[p] == t.schunk_pos_map@[p])) by {
                        if is_split_key(pairs.take(j), p, decay_rate) {
                            let k = choose|k: int| 0 <= k < pairs.take(j).len() && #[trigger] pairs.take(j)[k].0 == p && !stays(pairs.take(j)[k], decay_rate);
                            assert(pairs.take(j + 1)[k] == pairs.take(j)[k]);
                        }
                    }
                    j = j + 1;
                }
            }
        }
        proof {
            lemma_kept_len(pairs.take(j), decay_rate);
            assert(j == pairs.len());
            assert(pairs.take(j) =~= pairs);
            assert(server.sc_map.pairs() =~= kept(pairs, decay_rate));
            assert forall|p: SChunkPos| !is_split_key(pairs, p, decay_rate) implies (
                #[trigger] self.schunk_pos_map@.contains_key(p) == t.schunk_pos_map@.contains_key(p)
                    && (t.schunk_pos_map@.contains_key(p) ==> self.schunk_pos_map@[p] == t.schunk_pos_map@[p])) by {
                assert(!is_split_key(pairs.take(j), p, decay_rate));
            }
        }
    }

    /// Starts pending servers, the last first, until none is left or
    /// `MAX_THREAD_COUNT` servers tick.
    fn fill_threads(&mut self, spawns: &mut Vec<Box<ChunkServer<Task>>>)
        requires
            old(self).wf(),
        ensures
            final(self).wf(),
            final(self).tasks == old(self).tasks,
            final(self).interval == old(self).interval,
            final(self).tick_start_time == old(self).tick_start_time,
            final(self).scheduled_run == old(self).scheduled_run,
            final(self).servers == old(self).servers,
            final(self).waitings == old(self).waitings,
            final(self).schunk_pos_map == old(self).schunk_pos_map,
            final(self).server_builder == old(self).server_builder,
            final(self).thread_count <= MAX_THREAD_COUNT,
            filled(
                old(self).pendings.pairs(),
                final(self).pendings.pairs(),
                old(self).thread_count as int,
                final(self).thread_count as int,
                old(spawns)@,
                final(spawns)@,
            ),
    {
        let ghost t = *self;
        let ghost s0 = spawns@;
        let ghost n = t.pendings.pairs().len() as int;
        let ghost mut k: int = 0;
        proof {
            assert(t.pendings.pairs().take(n) =~= t.pendings.pairs());
            assert(spawns@.take(s0.len() as int) =~= s0);
        }
        if self.thread_count == MAX_THREAD_COUNT {
            return;
        }
        loop
            invariant_except_break
                self.thread_count < MAX_THREAD_COUNT,
            invariant
                self.wf(),
                self.tasks == t.tasks,
                self.interval == t.interval,
                self.tick_start_time == t.tick_start_time,
                self.scheduled_run == t.scheduled_run,
                self.servers == t.servers,
                self.waitings == t.waitings,
                self.schunk_pos_map == t.schunk_pos_map,
                self.server_builder == t.server_builder,
                n == t.pendings.pairs().len(),
                0 <= k <= n,
                k <= MAX_THREAD_COUNT - t.thread_count,
                self.thread_count == t.thread_count + k,
                self.pendings.pairs() == t.pendings.pairs().take(n - k),
                spawns@.len() == s0.len() + k,
                spawns@.take(s0.len() as int) == s0,
                forall|m: int| 0 <= m < k ==> #[trigger] spawns@[s0.len() + m] == t.pendings.pairs()[n - 1 - m].1,
            ensures
                self.wf(),
                self.tasks == t.tasks,
                self.interval == t.interval,
                self.tick_start_time == t.tick_start_time,
                self.scheduled_run == t.scheduled_run,
                self.servers == t.servers,
                self.waitings == t.waitings,
                self.schunk_pos_map == t.schunk_pos_map,
                self.server_builder == t.server_builder,
                k == vstd::math::min(n, MAX_THREAD_COUNT - t.thread_count),
                self.thread_count == t.thread_count + k,
                self.pendings.pairs() == t.pendings.pairs().take(n - k),
                spawns@.len() == s0.len() + k,
                spawns@.take(s0.len() as int) == s0,
                forall|m: int| 0 <= m < k ==> #[trigger] spawns@[s0.len() + m] == t.pendings.pairs()[n - 1 - m].1,
            decreases n - k,
        {
            match self.pendings.pop() {
                None => {
                    break;
                },
                Some((_, server)) => {
                    proof {
                        assert(t.pendings.pairs().take(n - k).last() == t.pendings.pairs()[n - 1 - k]);
                        assert(t.pendings.pairs().take(n - k).drop_last() =~= t.pendings.pairs().take(n - k - 1));
                    }
                    spawns.push(server);
                    self.thread_count = self.thread_count + 1;
                    proof {
                        k = k + 1;
                        assert(spawns@.take(s0.len() as int) =~= s0);
                    }
                    if self.thread_count == MAX_THREAD_COUNT {
                        break;
                    }
                },
            }
        }
    }

    /// Whether the request at index `i` of `waitings` asks for a chunk of `m`.
    pub open spec fn waits_in(self, i: int, m: Map<SChunkPos, Box<SChunk>>) -> bool {
        m.contains_key(self.waitings.pairs()[i].1.req_cell.sc_pos)
    }

    /// The index of the first waiting request that asks for a chunk of `m`.
    fn first_waiting_in(&self, m: &VecMap<SChunkPos, Box<SChunk>>) -> (r: Option<usize>)
        requires
            m.wf(),
        ensures
            r is None ==> forall|j: int| 0 <= j < self.waitings.len_spec() ==> !#[trigger] self.waits_in(j, m@),
            r matches Some(i) ==> i < self.waitings.len_spec() && self.waits_in(i as int, m@)
                && forall|j: int| 0 <= j < i ==> !#[trigger] self.waits_in(j, m@),
    {
        let n = self.waitings.len();
        let mut i: usize = 0;
        while i < n
            invariant
                n == self.waitings.len_spec(),
                m.wf(),
                i <= n,
                forall|j: int| 0 <= j < i ==> !#[trigger] self.waits_in(j, m@),
            decreases n - i,
        {
            if m.contains_key(&self.waitings.value_at(i).req_cell.sc_pos) {
                return Some(i);
            }
            i = i + 1;
        }
        None
    }

    /// Some waiting request asks for a chunk of `m`.
    pub open spec fn some_waits_in(self, m: Map<SChunkPos, Box<SChunk>>) -> bool {
        exists|j: int| 0 <= j < self.waitings.len_spec() && #[trigger] self.waits_in(j, m)
    }

    /// The index of the first waiting request that asks for a chunk of `m`.
    pub open spec fn first_waits_in(self, m: Map<SChunkPos, Box<SChunk>>) -> int {
        choose|i: int|
            0 <= i < self.waitings.len_spec() && #[trigger] self.waits_in(i, m) && forall|j: int|
                0 <= j < i ==> !#[trigger] self.waits_in(j, m)
    }

    /// If a request waits for a chunk of `server`, `u` is `self` after the
    /// first such request was answered with `server`.
    pub open spec fn handed_to_waiter(
        self,
        u: Self,
        server: ChunkServer<Task>,
        replies: Vec<Reply<Task>>,
        replies_after: Vec<Reply<Task>>,
    ) -> bool {
        self.some_waits_in(server.sc_map@) ==> {
            let i = self.first_waits_in(server.sc_map@);
            &&& u.waitings@ == self.waitings@.remove(self.waitings.pairs()[i].0)
            &&& replies_after@ == replies@.push(
                (self.waitings.pairs()[i].1, ChunkServerState::IsTicked(Box::new(server))),
            )
            &&& u.servers == self.servers
            &&& u.pendings == self.pendings
            &&& u.schunk_pos_map == self.schunk_pos_map
            &&& u.server_builder == self.server_builder
            &&& u.thread_count == self.thread_count
            &&& u.tasks == self.tasks
        }
    }

    /// `u` is `self` after `server` finished its tick with nobody waiting for
    /// it: its tasks queued, decayed chunks split off when the rate is not
    /// zero and it has more than one, and kept as idle unless left with no
    /// chunk.
    pub open spec fn finished_idle(
        self,
        u: Self,
        server: ChunkServer<Task>,
        decay_rate: u8,
        replies: Vec<Reply<Task>>,
        replies_after: Vec<Reply<Task>>,
    ) -> bool {
        let t = self;
        let pairs = server.sc_map.pairs();
        let splitting = decay_rate != 0 && pairs.len() > 1;
        let left = if splitting {
            kept(pairs, decay_rate)
        } else {
            pairs
        };
        &&& u.tasks@ == t.tasks@ + server.global_tasks@
        &&& u.waitings == t.waitings
        &&& replies_after@ == replies@
        &&& (splitting ==> split_done(t, u, pairs, decay_rate))
        &&& (!splitting ==> u.schunk_pos_map == t.schunk_pos_map && u.server_builder == t.server_builder)
        &&& forall|id: u64|
            id <= t.server_builder && id != server.id ==> (#[trigger] u.servers@.contains_key(id)
                == t.servers@.contains_key(id) && (t.servers@.contains_key(id) ==> u.servers@[id]
                == t.servers@[id]))
        &&& (left.len() > 0 ==> {
            let s = u.servers@[server.id];
            &&& u.servers@.contains_key(server.id)
            &&& s.id == server.id
            &&& s.sc_map.pairs() == left
            &&& s.borrows@.len() == 0
            &&& s.global_tasks@.len() == 0
        })
        &&& (left.len() == 0 ==> u.servers@.contains_key(server.id) == t.servers@.contains_key(server.id)
            && (t.servers@.contains_key(server.id) ==> u.servers@[server.id] == t.servers@[server.id]))
        &&& u.pendings == t.pendings
        &&& u.thread_count == t.thread_count
    }

    /// The part of a tick end that follows the return of the lent servers:
    /// the server goes to the first request that waits for one of its chunks;
    /// if none does, its tasks are queued, decayed chunks split off (when the
    /// rate is not zero and it has more than one), and it becomes idle
    /// unless it is left with no chunk.
    fn finish_tick_end(
        &mut self,
        server: Box<ChunkServer<Task>>,
        decay_rate: u8,
        replies: &mut Vec<Reply<Task>>,
    )
        requires
            old(self).wf(),
            server.wf(),
            server.borrows@.len() == 0,
            server.id <= old(self).server_builder,
            old(self).server_builder + server.sc_map.len_spec() <= u64::MAX,
        ensures
            final(self).wf(),
            final(self).interval == old(self).interval,
            final(self).tick_start_time == old(self).tick_start_time,
            tick_finished((*old(self), *old(replies)), *server, decay_rate, (*final(self), *final(replies))),
    {
        let ghost t0 = *self;
        let ghost rp0 = *replies;
        let ghost srv = *server;
        let mut server = server;
        if let Some(i) = self.first_waiting_in(&server.sc_map) {
            let ghost t = *self;
            proof {
                let c = t.first_waits_in(server.sc_map@);
                if c < i {
                } else if i < c {
                    assert(!t.waits_in(i as int, server.sc_map@));
                }
                assert(c == i);
            }
            let (_, responser) = self.waitings.remove_at(i);
            replies.push((responser, ChunkServerState::IsTicked(server)));
            proof {
                assert(t0.some_waits_in(srv.sc_map@));
                assert(t0.handed_to_waiter(*self, srv, rp0, *replies));
                assert(tick_finished((t0, rp0), srv, decay_rate, (*self, *replies)));
            }
            return;
        }
        let ghost t = *self;
        let ghost orig = *server;
        let ghost pairs = orig.sc_map.pairs();
        let ghost splitting = decay_rate != 0 && pairs.len() > 1;
        let ghost left = if splitting { kept(pairs, decay_rate) } else { pairs };
        self.tasks.append(&mut server.global_tasks);
        assert(self.tasks@ == t.tasks@ + orig.global_tasks@);
        if decay_rate != 0 && server.sc_map.len() > 1 {
            self.split_decayed(&mut server, decay_rate);
        }
        proof {
            lemma_kept_len(orig.sc_map.pairs(), decay_rate);
        }
        let ghost t2 = *self;
        assert(server.sc_map.pairs() == left);
        assert(t2.servers@.contains_key(orig.id) == t.servers@.contains_key(orig.id));
        assert(t.servers@.contains_key(orig.id) ==> t2.servers@[orig.id] == t.servers@[orig.id]);
        assert(crate::server::states_deep_wf(server.borrows@));
        if !server.sc_map.is_empty() {
            let id = server.id;
            self.servers.insert(id, server);
        }
        let ghost t3 = *self;
        assert(forall|id: u64| id <= t.server_builder && id != orig.id ==> (#[trigger] t3.servers@.contains_key(id)
            == t.servers@.contains_key(id) && (t.servers@.contains_key(id) ==> t3.servers@[id] == t.servers@[id])));
        assert(self.servers == t3.servers);
        assert(self.schunk_pos_map == t2.schunk_pos_map);
        assert(self.server_builder == t2.server_builder);
        proof {
            if splitting {
                let u = *self;
                assert(split_done(t, t2, pairs, decay_rate));
                assert forall|k: int| 0 <= k < pairs.len() && !stays(#[trigger] pairs[k], decay_rate) implies {
                    let id = u.schunk_pos_map@[pairs[k].0];
                    &&& u.schunk_pos_map@.contains_key(pairs[k].0)
                    &&& t.server_builder < id <= u.server_builder
                    &&& u.servers@.contains_key(id)
                    &&& holds_only(*u.servers@[id], id, pairs[k].0, with_dep(pairs[k].1, MAX_SCHUNK_DECAY_RATE))
                } by {
                    let id = t2.schunk_pos_map@[pairs[k].0];
                    assert(t2.servers@.contains_key(id));
                    assert(id != orig.id);
                    assert(u.servers@[id] == t2.servers@[id]);
                }
                assert forall|p: SChunkPos| !is_split_key(pairs, p, decay_rate) implies (
                    #[trigger] u.schunk_pos_map@.contains_key(p) == t.schunk_pos_map@.contains_key(p)
                        && (t.schunk_pos_map@.contains_key(p) ==> u.schunk_pos_map@[p] == t.schunk_pos_map@[p])) by {
                    assert(t2.schunk_pos_map@.contains_key(p) == t.schunk_pos_map@.contains_key(p));
                }
                assert(u.server_builder == t.server_builder + (pairs.len() - kept(pairs, decay_rate).len()));
                assert(split_done(t, u, pairs, decay_rate));
            }
        }
        assert(left.len() > 0 ==> {
            let s = self.servers@[orig.id];
            &&& self.servers@.contains_key(orig.id)
            &&& s.id == orig.id
            &&& s.sc_map.pairs() == left
            &&& s.borrows@.len() == 0
            &&& s.global_tasks@.len() == 0
        });
        assert(left.len() == 0 ==> self.servers@.contains_key(orig.id) == t.servers@.contains_key(orig.id)
            && (t.servers@.contains_key(orig.id) ==> self.servers@[orig.id] == t.servers@[orig.id]));
        assert(self.waitings == t.waitings);
        proof {
            assert(!t0.some_waits_in(srv.sc_map@));
            assert(t0.finished_idle(*self, srv, decay_rate, rp0, *replies));
            assert(tick_finished((t0, rp0), srv, decay_rate, (*self, *replies)));
        }
    }

    /// A chunk server's tick ended on its thread.  The server and the
    /// servers lent to it are settled (see `settle_tick_end`); then its
    /// thread is released, and pending servers are started on the free
    /// threads, the last first (see `fill_threads`).  `decay_rate` is the
    /// current decay rate of scheduling chunks.
    pub fn handle_tick_end(
        &mut self,
        server: Box<ChunkServer<Task>>,
        decay_rate: u8,
        replies: &mut Vec<Reply<Task>>,
        spawns: &mut Vec<Box<ChunkServer<Task>>>,
    )
        requires
            old(self).wf(),
            server.deep_wf(),
            ids_at_most(*server, old(self).server_builder),
            old(self).server_builder + build_weight(*server) <= u64::MAX,
            old(self).thread_count >= 1,
        ensures
            final(self).wf(),
            old(self).server_builder <= final(self).server_builder <= old(self).server_builder + build_weight(*server),
            final(self).tasks@.len() >= old(self).tasks@.len(),
            final(self).tasks@.take(old(self).tasks@.len() as int) == old(self).tasks@,
            final(replies)@.len() >= old(replies)@.len(),
            final(replies)@.take(old(replies)@.len() as int) == old(replies)@,
            tick_end_handled(
                (*old(self), *old(replies)),
                *server,
                decay_rate,
                (*final(self), *final(replies)),
                *old(spawns),
                *final(spawns),
            ),
    {
        let ghost a: Stage<Task> = (*self, *replies);
        let ghost s_in = *server;
        self.settle_tick_end(server, decay_rate, replies);
        let ghost m: Stage<Task> = (*self, *replies);
        let ghost sp0 = *spawns;
        assert(tick_ended(a, s_in, decay_rate, m));
        self.thread_count = self.thread_count - 1;
        self.fill_threads(spawns);
        proof {
            let b: Stage<Task> = (*self, *replies);
            assert(threads_released(m.0, b.0, sp0, *spawns));
            assert(m.0.wf());
            assert(b.1 == m.1);
            assert(tick_end_handled(a, s_in, decay_rate, b, sp0, *spawns));
        }
    }

    /// Settles a server whose tick ended, without touching the thread
    /// count: the servers lent to it go back, the last first (see
    /// `return_borrow`); then the server itself goes to a waiting request,
    /// or becomes idle (see `finished_idle`).
    fn settle_tick_end(&mut self, server: Box<ChunkServer<Task>>, decay_rate: u8, replies: &mut Vec<Reply<Task>>)
        requires
            old(self).wf(),
            server.deep_wf(),
            ids_at_most(*server, old(self).server_builder),
            old(self).server_builder + build_weight(*server) <= u64::MAX,
        ensures
            final(self).wf(),
            final(self).interval == old(self).interval,
            final(self).tick_start_time == old(self).tick_start_time,
            final(self).scheduled_run == old(self).scheduled_run,
            final(self).thread_count == old(self).thread_count,
            old(self).server_builder <= final(self).server_builder <= old(self).server_builder + build_weight(*server),
            final(self).tasks@.len() >= old(self).tasks@.len(),
            final(self).tasks@.take(old(self).tasks@.len() as int) == old(self).tasks@,
            final(replies)@.len() >= old(replies)@.len(),
            final(replies)@.take(old(replies)@.len() as int) == old(replies)@,
            tick_ended((*old(self), *old(replies)), *server, decay_rate, (*final(self), *final(replies))),
        decreases *server, 1nat,
    {
        let mut server = server;
        let ghost rp0 = replies@;
        let ghost tk0 = self.tasks@;
        let ghost a: Stage<Task> = (*self, *replies);
        let ghost s_in = *server;
        if server.borrows.len() > 0 {
            self.return_borrows(&mut server, decay_rate, replies);
        }
        let ghost m: Stage<Task> = (*self, *replies);
        let ghost s0 = *server;
        assert(borrows_returned(a, s_in.borrows@, decay_rate, m));
        proof {
            lemma_kept_len(server.sc_map.pairs(), decay_rate);
        }
        self.finish_tick_end(server, decay_rate, replies);
        proof {
            assert(replies@.take(rp0.len() as int) =~= rp0);
            assert(self.tasks@.take(tk0.len() as int) =~= tk0);
            let b: Stage<Task> = (*self, *replies);
            assert(tick_finished(m, s0, decay_rate, b));
            assert(tick_ended(a, s_in, decay_rate, b));
        }
    }

    /// Gives back the servers lent to `server`, the last first.
    #[verifier::loop_isolation(false)]
    fn return_borrows(
        &mut self,
        server: &mut ChunkServer<Task>,
        decay_rate: u8,
        replies: &mut Vec<Reply<Task>>,
    )
        requires
            old(self).wf(),
            states_deep_wf(old(server).borrows@),
            states_ids_at_most(old(server).borrows@, old(self).server_builder),
            old(self).server_builder + states_build_weight(old(server).borrows@) <= u64::MAX,
        ensures
            final(self).wf(),
            final(server).borrows@.len() == 0,
            final(server).id == old(server).id,
            final(server).sc_map == old(server).sc_map,
            final(server).global_tasks == old(server).global_tasks,
            final(self).interval == old(self).interval,
            final(self).tick_start_time == old(self).tick_start_time,
            final(self).scheduled_run == old(self).scheduled_run,
            final(self).thread_count == old(self).thread_count,
            old(self).server_builder <= final(self).server_builder <= old(self).server_builder
                + states_build_weight(old(server).borrows@),
            final(self).tasks@.len() >= old(self).tasks@.len(),
            final(self).tasks@.take(old(self).tasks@.len() as int) == old(self).tasks@,
            final(replies)@.len() >= old(replies)@.len(),
            final(replies)@.take(old(replies)@.len() as int) == old(replies)@,
            borrows_returned((*old(self), *old(replies)), old(server).borrows@, decay_rate, (*final(self), *final(replies))),
        decreases *old(server), 0nat,
    {
        let ghost orig = *server;
        let ghost t0 = *self;
        let ghost rp0 = replies@;
        let ghost tk0 = self.tasks@;
        let ghost mut n: int = orig.borrows@.len() as int;
        let ghost a: Stage<Task> = (*self, *replies);
        proof {
            assert(orig.borrows@.take(n) =~= orig.borrows@);
            assert(orig.borrows@.subrange(n, n).len() == 0);
            assert(replies@.take(rp0.len() as int) =~= rp0);
            assert(self.tasks@.take(tk0.len() as int) =~= tk0);
        }
        while server.borrows.len() > 0
            invariant
                0 <= n <= orig.borrows@.len(),
                server.borrows@ == orig.borrows@.take(n),
                server.id == orig.id,
                server.sc_map == orig.sc_map,
                server.global_tasks == orig.global_tasks,
                states_deep_wf(server.borrows@),
                self.wf(),
                self.interval == t0.interval,
                self.tick_start_time == t0.tick_start_time,
                self.scheduled_run == t0.scheduled_run,
                self.thread_count == t0.thread_count,
                t0.server_builder <= self.server_builder,
                self.server_builder + states_build_weight(server.borrows@) <= t0.server_builder
                    + states_build_weight(orig.borrows@),
                states_ids_at_most(server.borrows@, self.server_builder),
                replies@.len() >= rp0.len(),
                replies@.take(rp0.len() as int) == rp0,
                self.tasks@.len() >= tk0.len(),
                self.tasks@.take(tk0.len() as int) == tk0,
                borrows_returned(
                    a,
                    orig.borrows@.subrange(n, orig.borrows@.len() as int),
                    decay_rate,
                    (*self, *replies),
                ),
            decreases n,
        {
            let ghost cur = server.borrows@;
            let ghost b0 = self.server_builder;
            let ghost m: Stage<Task> = (*self, *replies);
            let borrow = match server.borrows.pop() {
                Some(b) => b,
                None => vstd::pervasive::unreached(),
            };
            proof {
                assert(cur.drop_last() =~= orig.borrows@.take(n - 1));
                assert(borrow == orig.borrows@[n - 1]);
                assert(decreases_to!(orig => orig.borrows));
                assert(decreases_to!(orig.borrows => orig.borrows@));
                assert(decreases_to!(orig.borrows@ => orig.borrows@[n - 1]));
            }
            self.return_borrow(borrow, decay_rate, replies);
            proof {
                let len = orig.borrows@.len() as int;
                let ss = orig.borrows@.subrange(n - 1, len);
                assert(ss.drop_first() =~= orig.borrows@.subrange(n, len));
                assert(ss.first() == orig.borrows@[n - 1]);
                assert(stage_wf(m));
                assert(borrows_returned(a, ss, decay_rate, (*self, *replies)));
                assert(replies@.take(rp0.len() as int) =~= rp0);
                assert(self.tasks@.take(tk0.len() as int) =~= tk0);
                lemma_states_ids_at_most_grow(server.borrows@, b0, self.server_builder);
                n = n - 1;
            }
        }
        proof {
            assert(n == 0);
            assert(orig.borrows@.subrange(0, orig.borrows@.len() as int) =~= orig.borrows@);
        }
    }

    /// Gives back one server that was lent to a server whose tick ended.
    fn return_borrow(
        &mut self,
        borrow: ChunkServerState<Task>,
        decay_rate: u8,
        replies: &mut Vec<Reply<Task>>,
    )
        requires
            old(self).wf(),
            state_deep_wf(borrow),
            state_ids_at_most(borrow, old(self).server_builder),
            old(self).server_builder + state_build_weight(borrow) <= u64::MAX,
        ensures
            final(self).wf(),
            final(self).interval == old(self).interval,
            final(self).tick_start_time == old(self).tick_start_time,
            final(self).scheduled_run == old(self).scheduled_run,
            final(self).thread_count == old(self).thread_count,
            old(self).server_builder <= final(self).server_builder <= old(self).server_builder
                + state_build_weight(borrow),
            final(self).tasks@.len() >= old(self).tasks@.len(),
            final(self).tasks@.take(old(self).tasks@.len() as int) == old(self).tasks@,
            final(replies)@.len() >= old(replies)@.len(),
            final(replies)@.take(old(replies)@.len() as int) == old(replies)@,
            borrow_returned((*old(self), *old(replies)), borrow, decay_rate, (*final(self), *final(replies))),
        decreases borrow, 2nat,
    {
        let ghost rp0 = replies@;
        let ghost tk0 = self.tasks@;
        match borrow {
            ChunkServerState::IsTicking(responser) => {
                self.handle_request_sc(responser, replies);
            },
            ChunkServerState::IsTicked(s) => {
                self.settle_tick_end(s, decay_rate, replies);
            },
            ChunkServerState::IsPending(s) => {
                let id = s.id;
                self.pendings.insert(id, s);
            },
        }
        proof {
            assert(replies@.take(rp0.len() as int) =~= rp0);
            assert(self.tasks@.take(tk0.len() as int) =~= tk0);
        }
    }

    /// The start of a tick: the idle servers all become pending, and pending
    /// servers are started, the last first, until none is left or
    /// `MAX_THREAD_COUNT` servers tick.  The servers to start are appended to
    /// `spawns`.
    pub fn start_tick_chunk(&mut self, spawns: &mut Vec<Box<ChunkServer<Task>>>)
        requires
            old(self).wf(),
        ensures
            final(self).wf(),
            final(self).tasks == old(self).tasks,
            final(self).interval == old(self).interval,
            final(self).tick_start_time == old(self).tick_start_time,
            final(self).scheduled_run == old(self).scheduled_run,
            final(self).servers == old(self).pendings,
            final(self).waitings == old(self).waitings,
            final(self).schunk_pos_map == old(self).schunk_pos_map,
            final(self).server_builder == old(self).server_builder,
            final(self).thread_count <= MAX_THREAD_COUNT,
            filled(
                old(self).servers.pairs(),
                final(self).pendings.pairs(),
                old(self).thread_count as int,
                final(self).thread_count as int,
                old(spawns)@,
                final(spawns)@,
            ),
    {
        std::mem::swap(&mut self.pendings, &mut self.servers);
        self.fill_threads(spawns);
    }
}

/// Every kept pair comes from a pair that stays, with the same key.
pub proof fn lemma_kept_keys(s: Seq<(SChunkPos, Box<SChunk>)>, rate: u8, i: int)
    requires
        0 <= i < kept(s, rate).len(),
    ensures
        exists|k: int| 0 <= k < s.len() && #[trigger] s[k].0 == kept(s, rate)[i].0 && stays(s[k], rate),
    decreases s.len(),
{
    let d = s.drop_last();
    if i < kept(d, rate).len() {
        lemma_kept_keys(d, rate, i);
        let k = choose|k: int| 0 <= k < d.len() && #[trigger] d[k].0 == kept(d, rate)[i].0 && stays(d[k], rate);
        assert(s[k] == d[k]);
    } else {
        assert(s[s.len() - 1].0 == kept(s, rate)[i].0);
    }
}

/// Keeping never makes a sequence longer.
pub proof fn lemma_kept_len(s: Seq<(SChunkPos, Box<SChunk>)>, rate: u8)
    ensures
        kept(s, rate).len() <= s.len(),
    decreases s.len(),
{
    if s.len() > 0 {
        lemma_kept_len(s.drop_last(), rate);
    }
}

} // verus!