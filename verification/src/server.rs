//! Chunk servers: the units of work that tick a set of scheduling chunks on
//! one thread, and the messages that carry them between threads.
use vstd::prelude::*;
use crate::channel::OnetimeSender;
use crate::pos::{SChunkPos, WChunkPos};
use crate::schunk::SChunk;
use crate::world::WChunk;
use crate::vec_map::{MapKey, VecMap};

verus! {

impl MapKey for SChunkPos {
    fn key_eq(&self, other: &Self) -> (same: bool) {
        *self == *other
    }
}

/// A chunk server: the scheduling chunks it owns, the servers it has borrowed
/// from others while ticking, and the tasks (of type `Task`) it leaves for the
/// main thread.
pub struct ChunkServer<Task> {
    pub id: u64,
    pub sc_map: VecMap<SChunkPos, Box<SChunk>>,
    pub borrows: Vec<ChunkServerState<Task>>,
    pub global_tasks: Vec<Task>,
}

/// A server lent to another one, with the state it was in.
pub enum ChunkServerState<Task> {
    /// It was waiting for its turn to tick.
    IsPending(Box<ChunkServer<Task>>),
    /// It is ticking and is itself waiting for a scheduling chunk.
    IsTicking(Responser<Task>),
    /// It had ticked.
    IsTicked(Box<ChunkServer<Task>>),
}

/// A request for the scheduling chunk at `sc_pos`, carrying the requesting
/// server while it waits.
pub struct SChunkRequestCell<Task> {
    pub requester: Box<ChunkServer<Task>>,
    pub sc_pos: SChunkPos,
}

/// The answer to a request: the requester back, and the server it may use.
pub struct SChunkResponseCell<Task> {
    pub requester: Box<ChunkServer<Task>>,
    pub response: ChunkServerState<Task>,
}

/// A pending request with the channel its answer goes through.
pub struct Responser<Task> {
    pub req_cell: SChunkRequestCell<Task>,
    pub tx: OnetimeSender<SChunkResponseCell<Task>>,
}

/// What chunk servers tell the main thread.
pub enum ChunkServerEvent<Task> {
    TickEndEvent(Box<ChunkServer<Task>>),
    RequestSCEvent(Responser<Task>),
    RemoveSCEvent(SChunkPos),
}

/// Every scheduling chunk is well formed and is stored under its own position.
pub open spec fn sc_map_wf(m: VecMap<SChunkPos, Box<SChunk>>) -> bool {
    &&& m.wf()
    &&& forall|p: SChunkPos| #[trigger] m@.contains_key(p) ==> m@[p].wf() && m@[p].pos == p
}

impl<Task> ChunkServer<Task> {
    /// The server's own scheduling chunks are well formed.
    pub open spec fn wf(self) -> bool {
        sc_map_wf(self.sc_map)
    }

    /// This server and every server lent to it, at any depth, are well formed.
    pub open spec fn deep_wf(self) -> bool
        decreases self,
    {
        &&& self.wf()
        &&& states_deep_wf(self.borrows@)
    }

    /// The number of scheduling chunks held by this server and, at any depth,
    /// by the servers lent to it.
    pub open spec fn load_size(self) -> nat
        decreases self,
    {
        self.sc_map.len_spec() + states_load_size(self.borrows@)
    }

    /// An empty server with the given id.
    pub open spec fn is_empty_with_id(self, id: u64) -> bool {
        &&& self.id == id
        &&& self.sc_map@ == Map::<SChunkPos, Box<SChunk>>::empty()
        &&& self.sc_map.wf()
        &&& self.sc_map.len_spec() == 0
        &&& self.borrows@.len() == 0
        &&& self.global_tasks@.len() == 0
    }

    pub fn empty(id: u64) -> (s: Self)
        ensures
            s.is_empty_with_id(id),
            s.deep_wf(),
    {
        let s = ChunkServer { id, sc_map: VecMap::new(), borrows: Vec::new(), global_tasks: Vec::new() };
        assert(states_deep_wf(s.borrows@));
        s
    }

    /// Packs this server into a request for the scheduling chunk at `pos`,
    /// leaving an empty server with the same id in its place until the
    /// answer brings it back.
    pub fn into_request(&mut self, pos: SChunkPos, tx: OnetimeSender<SChunkResponseCell<Task>>) -> (r:
        Responser<Task>)
        ensures
            *r.req_cell.requester == *old(self),
            r.req_cell.sc_pos == pos,
            r.tx == tx,
            final(self).is_empty_with_id(old(self).id),
    {
        let mut requester = ChunkServer::empty(self.id);
        std::mem::swap(self, &mut requester);
        Responser { req_cell: SChunkRequestCell { requester: Box::new(requester), sc_pos: pos }, tx }
    }

    /// Takes this server's state back from the answer to its request for
    /// the scheduling chunk at `pos`, keeps the lent server among its
    /// borrows, and returns that server's chunk at `pos`.
    pub fn accept_response(&mut self, cell: SChunkResponseCell<Task>, pos: SChunkPos) -> (r: &mut SChunk)
        requires
            cell.response.server().wf(),
            cell.response.server().sc_map@.contains_key(pos),
        ensures
            *r == *cell.response.server().sc_map@[pos],
            final(self).id == cell.requester.id,
            final(self).sc_map == cell.requester.sc_map,
            final(self).global_tasks == cell.requester.global_tasks,
            final(self).borrows@.len() == cell.requester.borrows@.len() + 1,
            final(self).borrows@.drop_last() == cell.requester.borrows@,
            final(self).borrows@.last().server().sc_map@ == cell.response.server().sc_map@.insert(
                pos,
                Box::new(*final(r)),
            ),
            final(self).borrows@.last() == cell.response.with_server(final(self).borrows@.last().server()),
    {
        let SChunkResponseCell { requester, response } = cell;
        *self = *requester;
        let index = self.borrows.len();
        self.borrows.push(response);
        let lent = self.borrows[index].get_mut();
        let sc = lent.sc_map.get_mut(&pos);
        sc
    }

    /// A request for the scheduling chunk at `pos` has been met: the chunk is
    /// among this server's own, or else in the server lent to it last.
    pub open spec fn reaches(self, pos: SChunkPos) -> bool {
        ||| self.sc_map@.contains_key(pos)
        ||| self.borrows@.len() > 0 && self.borrows@.last().server().sc_map@.contains_key(pos)
    }

    /// The scheduling chunk at `pos` that `reaches` finds.
    pub open spec fn reached(self, pos: SChunkPos) -> SChunk {
        if self.sc_map@.contains_key(pos) {
            *self.sc_map@[pos]
        } else {
            *self.borrows@.last().server().sc_map@[pos]
        }
    }

    /// `after` is this server with the scheduling chunk that `reaches` finds
    /// at `pos` replaced by `sc`, and all else as it was.
    pub open spec fn reached_replaced(self, pos: SChunkPos, sc: SChunk, after: Self) -> bool {
        &&& after.id == self.id
        &&& after.global_tasks == self.global_tasks
        &&& if self.sc_map@.contains_key(pos) {
            &&& after.sc_map.wf()
            &&& after.sc_map@ == self.sc_map@.insert(pos, Box::new(sc))
            &&& after.borrows == self.borrows
        } else {
            let lent = self.borrows@.last().server();
            let lent_after = after.borrows@.last().server();
            &&& after.sc_map == self.sc_map
            &&& after.borrows@.len() == self.borrows@.len()
            &&& after.borrows@.drop_last() =~= self.borrows@.drop_last()
            &&& after.borrows@.last() == self.borrows@.last().with_server(lent_after)
            &&& lent_after.id == lent.id
            &&& lent_after.borrows == lent.borrows
            &&& lent_after.global_tasks == lent.global_tasks
            &&& lent_after.sc_map.wf()
            &&& lent_after.sc_map@ == lent.sc_map@.insert(pos, Box::new(sc))
        }
    }

    /// The scheduling chunk at `pos` where a met request left it.
    pub fn reached_schunk(&mut self, pos: SChunkPos) -> (r: &mut SChunk)
        requires
            old(self).sc_map.wf(),
            old(self).reaches(pos),
            !old(self).sc_map@.contains_key(pos) ==> old(self).borrows@.last().server().sc_map.wf(),
        ensures
            *r == old(self).reached(pos),
            old(self).reached_replaced(pos, *final(r), *final(self)),
    {
        if self.sc_map.contains_key(&pos) {
            let sc = self.sc_map.get_mut(&pos);
            sc
        } else {
            let i = self.borrows.len() - 1;
            let lent = self.borrows[i].get_mut();
            let sc = lent.sc_map.get_mut(&pos);
            sc
        }
    }

    /// Takes the world chunk at `pos` out of the scheduling chunk that a met
    /// request for it found. When no world chunk is left there, the
    /// scheduling chunk leaves this server's own map, and its position is
    /// returned for the main thread to be told.
    pub fn remove_reached_wchunk(&mut self, pos: &WChunkPos) -> (r: (Option<Box<WChunk>>, Option<SChunkPos>))
        requires
            old(self).wf(),
            old(self).reaches(pos.schunk_of()),
            !old(self).sc_map@.contains_key(pos.schunk_of()) ==> old(self).borrows@.last().server().wf(),
        ensures
            ({
                let sc_pos = pos.schunk_of();
                let before = old(self).reached(sc_pos);
                let emptied = before.count_without(*pos) == 0;
                &&& r.0 == before.slot(*pos)
                &&& r.1 == (if emptied { Some(sc_pos) } else { None::<SChunkPos> })
                &&& final(self).wf()
                &&& if emptied && old(self).sc_map@.contains_key(sc_pos) {
                    &&& final(self).id == old(self).id
                    &&& final(self).global_tasks == old(self).global_tasks
                    &&& final(self).borrows == old(self).borrows
                    &&& final(self).sc_map@ == old(self).sc_map@.remove(sc_pos)
                } else {
                    &&& final(self).reaches(sc_pos)
                    &&& before.removed_to(*pos, final(self).reached(sc_pos))
                    &&& old(self).reached_replaced(sc_pos, final(self).reached(sc_pos), *final(self))
                }
            }),
    {
        let sc_pos = pos.to_schunk_pos();
        let sc = self.reached_schunk(sc_pos);
        let wchunk = sc.remove_wchunk(pos);
        let emptied = sc.wchunk_count == 0;
        if emptied {
            self.sc_map.remove(&sc_pos);
            (wchunk, Some(sc_pos))
        } else {
            (wchunk, None)
        }
    }

    /// The number of scheduling chunks this server holds, its borrowed
    /// servers included.
    pub fn get_load_size(&self) -> (n: usize)
        requires
            self.load_size() <= usize::MAX,
        ensures
            n == self.load_size(),
        decreases self,
    {
        let mut load_size = self.sc_map.len();
        let len = self.borrows.len();
        let mut i: usize = 0;
        proof {
            lemma_states_load_prefix(self.borrows@, 0);
            lemma_states_load_prefix(self.borrows@, len as int);
            assert(self.borrows@.take(len as int) =~= self.borrows@);
        }
        while i < len
            invariant
                len == self.borrows@.len(),
                i <= len,
                self.load_size() <= usize::MAX,
                load_size == self.sc_map.len_spec() + states_load_size(self.borrows@.take(i as int)),
            decreases len - i,
        {
            proof {
                lemma_states_load_prefix(self.borrows@, i as int);
                lemma_states_load_monotone(self.borrows@, i as int + 1);
                assert(self.borrows@.take(len as int) =~= self.borrows@);
                assert(decreases_to!(self => self.borrows));
                assert(decreases_to!(self.borrows => self.borrows@));
                assert(decreases_to!(self.borrows@ => self.borrows@[i as int]));
                lemma_state_server_smaller(self.borrows@[i as int]);
            }
            let inner = self.borrows[i].get();
            load_size = load_size + inner.get_load_size();
            i = i + 1;
        }
        load_size
    }
}

/// Every state in the sequence holds a deeply well-formed server.
pub open spec fn states_deep_wf<Task>(ss: Seq<ChunkServerState<Task>>) -> bool
    decreases ss,
{
    if ss.len() == 0 {
        true
    } else {
        states_deep_wf(ss.drop_last()) && state_deep_wf(ss.last())
    }
}

/// The server the state holds is deeply well formed.
pub open spec fn state_deep_wf<Task>(st: ChunkServerState<Task>) -> bool
    decreases st,
{
    match st {
        ChunkServerState::IsPending(s) => s.deep_wf(),
        ChunkServerState::IsTicking(r) => r.req_cell.requester.deep_wf(),
        ChunkServerState::IsTicked(s) => s.deep_wf(),
    }
}

/// Total load of the servers held by the states.
pub open spec fn states_load_size<Task>(ss: Seq<ChunkServerState<Task>>) -> nat
    decreases ss,
{
    if ss.len() == 0 {
        0
    } else {
        states_load_size(ss.drop_last()) + match ss.last() {
            ChunkServerState::IsPending(s) => s.load_size(),
            ChunkServerState::IsTicking(r) => r.req_cell.requester.load_size(),
            ChunkServerState::IsTicked(s) => s.load_size(),
        }
    }
}

/// An upper bound on the number of servers the main thread builds when this
/// server's tick ends: one per scheduling chunk that may split off, and one
/// per lent request that may need a new owner.
pub open spec fn build_weight<Task>(s: ChunkServer<Task>) -> nat
    decreases s,
{
    s.sc_map.len_spec() + states_build_weight(s.borrows@)
}

pub open spec fn states_build_weight<Task>(ss: Seq<ChunkServerState<Task>>) -> nat
    decreases ss,
{
    if ss.len() == 0 {
        0
    } else {
        states_build_weight(ss.drop_last()) + state_build_weight(ss.last())
    }
}

pub open spec fn state_build_weight<Task>(st: ChunkServerState<Task>) -> nat
    decreases st,
{
    match st {
        ChunkServerState::IsTicked(c) => build_weight(*c),
        ChunkServerState::IsTicking(_) => 1,
        ChunkServerState::IsPending(_) => 0,
    }
}

/// This server and the idle or pending servers lent to it, at any depth,
/// have ids at most `b`.
pub open spec fn ids_at_most<Task>(s: ChunkServer<Task>, b: u64) -> bool
    decreases s,
{
    s.id <= b && states_ids_at_most(s.borrows@, b)
}

pub open spec fn states_ids_at_most<Task>(ss: Seq<ChunkServerState<Task>>, b: u64) -> bool
    decreases ss,
{
    if ss.len() == 0 {
        true
    } else {
        states_ids_at_most(ss.drop_last(), b) && state_ids_at_most(ss.last(), b)
    }
}

pub open spec fn state_ids_at_most<Task>(st: ChunkServerState<Task>, b: u64) -> bool
    decreases st,
{
    match st {
        ChunkServerState::IsTicked(c) => ids_at_most(*c, b),
        ChunkServerState::IsPending(c) => ids_at_most(*c, b),
        ChunkServerState::IsTicking(_) => true,
    }
}

/// A bound on ids stays a bound when it grows.
pub proof fn lemma_ids_at_most_grow<Task>(s: ChunkServer<Task>, b: u64, b2: u64)
    requires
        ids_at_most(s, b),
        b <= b2,
    ensures
        ids_at_most(s, b2),
    decreases s,
{
    lemma_states_ids_at_most_grow(s.borrows@, b, b2);
}

pub proof fn lemma_states_ids_at_most_grow<Task>(ss: Seq<ChunkServerState<Task>>, b: u64, b2: u64)
    requires
        states_ids_at_most(ss, b),
        b <= b2,
    ensures
        states_ids_at_most(ss, b2),
    decreases ss,
{
    if ss.len() > 0 {
        lemma_states_ids_at_most_grow(ss.drop_last(), b, b2);
        lemma_state_ids_at_most_grow(ss.last(), b, b2);
    }
}

pub proof fn lemma_state_ids_at_most_grow<Task>(st: ChunkServerState<Task>, b: u64, b2: u64)
    requires
        state_ids_at_most(st, b),
        b <= b2,
    ensures
        state_ids_at_most(st, b2),
    decreases st,
{
    match st {
        ChunkServerState::IsTicked(c) => {
            lemma_ids_at_most_grow(*c, b, b2);
        },
        ChunkServerState::IsPending(c) => {
            lemma_ids_at_most_grow(*c, b, b2);
        },
        ChunkServerState::IsTicking(_) => {},
    }
}

proof fn lemma_state_server_smaller<Task>(st: ChunkServerState<Task>)
    ensures
        decreases_to!(st => st.server()),
{
    match st {
        ChunkServerState::IsPending(s) => {
        },
        ChunkServerState::IsTicking(r) => {
            assert(decreases_to!(st => r));
            assert(decreases_to!(r => r.req_cell));
            assert(decreases_to!(r.req_cell => r.req_cell.requester));
        },
        ChunkServerState::IsTicked(s) => {
        },
    }
}

/// The load of a prefix grows by the load of the next state.
proof fn lemma_states_load_prefix<Task>(ss: Seq<ChunkServerState<Task>>, i: int)
    requires
        0 <= i <= ss.len(),
    ensures
        i == 0 ==> states_load_size(ss.take(i)) == 0,
        i < ss.len() ==> states_load_size(ss.take(i + 1)) == states_load_size(ss.take(i))
            + ss[i].server().load_size(),
{
    if i < ss.len() {
        assert(ss.take(i + 1).drop_last() =~= ss.take(i));
    }
    if i == 0 {
        assert(ss.take(0).len() == 0);
    }
}

/// The load of a prefix is at most the load of the whole.
proof fn lemma_states_load_monotone<Task>(ss: Seq<ChunkServerState<Task>>, i: int)
    requires
        0 <= i <= ss.len(),
    ensures
        states_load_size(ss.take(i)) <= states_load_size(ss),
    decreases ss.len() - i,
{
    if i < ss.len() {
        lemma_states_load_monotone(ss, i + 1);
        lemma_states_load_prefix(ss, i);
    } else {
        assert(ss.take(i) =~= ss);
    }
}

impl<Task> ChunkServerState<Task> {
    /// The server this state holds.
    pub open spec fn server(self) -> ChunkServer<Task> {
        match self {
            ChunkServerState::IsPending(s) => *s,
            ChunkServerState::IsTicking(r) => *r.req_cell.requester,
            ChunkServerState::IsTicked(s) => *s,
        }
    }

    /// The same state with its server replaced.
    pub open spec fn with_server(self, s: ChunkServer<Task>) -> ChunkServerState<Task> {
        match self {
            ChunkServerState::IsPending(_) => ChunkServerState::IsPending(Box::new(s)),
            ChunkServerState::IsTicking(r) => ChunkServerState::IsTicking(
                Responser {
                    req_cell: SChunkRequestCell { requester: Box::new(s), sc_pos: r.req_cell.sc_pos },
                    tx: r.tx,
                },
            ),
            ChunkServerState::IsTicked(_) => ChunkServerState::IsTicked(Box::new(s)),
        }
    }

    pub fn get_mut(&mut self) -> (s: &mut ChunkServer<Task>)
        ensures
            *s == old(self).server(),
            *final(self) == old(self).with_server(*final(s)),
    {
        match self {
            ChunkServerState::IsTicking(responser) => &mut responser.req_cell.requester,
            ChunkServerState::IsTicked(server) => server,
            ChunkServerState::IsPending(server) => server,
        }
    }

    pub fn get(&self) -> (s: &ChunkServer<Task>)
        ensures
            *s == self.server(),
    {
        match self {
            ChunkServerState::IsTicking(responser) => &responser.req_cell.requester,
            ChunkServerState::IsTicked(server) => server,
            ChunkServerState::IsPending(server) => server,
        }
    }

    pub fn remove(self) -> (s: Box<ChunkServer<Task>>)
        ensures
            *s == self.server(),
    {
        match self {
            ChunkServerState::IsTicking(responser) => responser.req_cell.requester,
            ChunkServerState::IsTicked(server) => server,
            ChunkServerState::IsPending(server) => server,
        }
    }
}

impl<Task> Responser<Task> {
    /// Answers the request: the requester goes back together with `server`.
    pub fn response(self, server: ChunkServerState<Task>) {
        let Responser { req_cell, tx } = self;
        tx.send(SChunkResponseCell { requester: req_cell.requester, response: server });
    }
}

/// Makes fresh chunk servers with increasing ids.
pub trait ServerBuilder {
    spec fn last_id(&self) -> u64;

    fn build<Task>(&mut self) -> (s: Box<ChunkServer<Task>>)
        requires
            old(self).last_id() < u64::MAX,
        ensures
            final(self).last_id() == old(self).last_id() + 1,
            s.is_empty_with_id(final(self).last_id()),
            s.deep_wf(),
    ;
}

impl ServerBuilder for u64 {
    open spec fn last_id(&self) -> u64 {
        *self
    }

    fn build<Task>(&mut self) -> (s: Box<ChunkServer<Task>>) {
        *self = *self + 1;
        Box::new(ChunkServer::empty(*self))
    }
}

} // verus!
