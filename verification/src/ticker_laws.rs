//! What the scheduling steps keep: every chunk held by an idle or pending
//! server stays recorded as owned by that server.
use vstd::prelude::*;
use crate::pos::{SChunkPos, WChunkPos};
use crate::world::WChunk;
use crate::server::{ChunkServer, ChunkServerState, Responser};
use crate::schunk::SChunk;
use crate::ticker::{
    Reply, Stage, Ticker, filled, kept, stays, is_split_key, lemma_kept_keys, lemma_kept_len, tick_ended,
    tick_finished, borrows_returned, borrow_returned, threads_released, tick_end_handled, stage_wf,
};

verus! {

/// Answering a request keeps the owner records of idle and pending servers
/// right.
pub proof fn law_request_keeps_owners<Task>(
    t: Ticker<Task>,
    u: Ticker<Task>,
    responser: Responser<Task>,
    replies: Vec<Reply<Task>>,
    replies_after: Vec<Reply<Task>>,
)
    requires
        t.wf(),
        t.owners_consistent(),
        t.request_handled(u, responser, replies, replies_after),
    ensures
        u.owners_consistent(),
{
    let pos = responser.req_cell.sc_pos;
    if !t.schunk_pos_map@.contains_key(pos) {
        assert forall|id: u64, p: SChunkPos|
            #[trigger] u.servers@.contains_key(id) && #[trigger] u.servers@[id].sc_map@.contains_key(p)
            implies u.schunk_pos_map@.contains_key(p) && u.schunk_pos_map@[p] == id by {
            assert(p != pos);
        }
        assert forall|id: u64, p: SChunkPos|
            #[trigger] u.pendings@.contains_key(id) && #[trigger] u.pendings@[id].sc_map@.contains_key(p)
            implies u.schunk_pos_map@.contains_key(p) && u.schunk_pos_map@[p] == id by {
            assert(p != pos);
        }
    }
}

/// Dropping the record of a scheduling chunk that no idle or pending server
/// holds keeps the owner records right, whether the chunk is given anew to a
/// waiting request or loses its owner.
pub proof fn law_remove_schunk_keeps_owners<Task>(
    t: Ticker<Task>,
    u: Ticker<Task>,
    pos: SChunkPos,
    replies: Vec<Reply<Task>>,
    replies_after: Vec<Reply<Task>>,
)
    requires
        t.wf(),
        t.owners_consistent(),
        forall|id: u64| #[trigger] t.servers@.contains_key(id) ==> !t.servers@[id].sc_map@.contains_key(pos),
        forall|id: u64| #[trigger] t.pendings@.contains_key(id) ==> !t.pendings@[id].sc_map@.contains_key(pos),
        t.schunk_removed(u, pos, replies, replies_after),
    ensures
        u.owners_consistent(),
{
    assert forall|id: u64, p: SChunkPos|
        #[trigger] u.servers@.contains_key(id) && #[trigger] u.servers@[id].sc_map@.contains_key(p)
        implies u.schunk_pos_map@.contains_key(p) && u.schunk_pos_map@[p] == id by {
        assert(p != pos);
    }
    assert forall|id: u64, p: SChunkPos|
        #[trigger] u.pendings@.contains_key(id) && #[trigger] u.pendings@[id].sc_map@.contains_key(p)
        implies u.schunk_pos_map@.contains_key(p) && u.schunk_pos_map@[p] == id by {
        assert(p != pos);
    }
}

/// Loading a chunk keeps the owner records right: the owner of its
/// scheduling chunk keeps the same chunks, or a new owner is recorded for the
/// one new scheduling chunk it holds.
pub proof fn law_load_keeps_owners<Task>(
    t: Ticker<Task>,
    u: Ticker<Task>,
    pos: WChunkPos,
    c: WChunk,
    c_after: WChunk,
)
    requires
        t.wf(),
        t.owners_consistent(),
        !t.schunk_pos_map@.contains_key(pos.schunk_of()) ==> t.server_builder < u64::MAX,
        t.owner_idle(pos.schunk_of()),
        t.wchunk_loaded(u, pos, c, c_after),
    ensures
        u.owners_consistent(),
{
    let sc_pos = pos.schunk_of();
    let id = t.owner_of(sc_pos);
    if t.schunk_pos_map@.contains_key(sc_pos) {
        assert forall|i: u64, p: SChunkPos|
            #[trigger] u.servers@.contains_key(i) && #[trigger] u.servers@[i].sc_map@.contains_key(p)
            implies u.schunk_pos_map@.contains_key(p) && u.schunk_pos_map@[p] == i by {
            if i == id {
                assert(t.servers@[id].sc_map@.contains_key(p));
            } else {
                assert(t.servers@.contains_key(i));
            }
        }
    } else {
        assert(!t.servers@.contains_key(id));
        assert forall|i: u64, p: SChunkPos|
            #[trigger] u.servers@.contains_key(i) && #[trigger] u.servers@[i].sc_map@.contains_key(p)
            implies u.schunk_pos_map@.contains_key(p) && u.schunk_pos_map@[p] == i by {
            if i == id {
                assert(u.servers@[id].sc_map@.dom().contains(p));
                assert(p == sc_pos);
            } else {
                assert(t.servers@.contains_key(i));
                assert(t.servers@[i].sc_map@.contains_key(p));
                assert(p != sc_pos);
            }
        }
        assert forall|i: u64, p: SChunkPos|
            #[trigger] u.pendings@.contains_key(i) && #[trigger] u.pendings@[i].sc_map@.contains_key(p)
            implies u.schunk_pos_map@.contains_key(p) && u.schunk_pos_map@[p] == i by {
            assert(p != sc_pos);
        }
    }
}

/// Unloading a chunk keeps the owner records right: the scheduling chunk
/// that held it stays with its server and keeps its record while it holds
/// other chunks, and leaves its server as its record goes once it holds none.
pub proof fn law_remove_wchunk_keeps_owners<Task>(
    t: Ticker<Task>,
    u: Ticker<Task>,
    pos: WChunkPos,
    r: Option<Box<WChunk>>,
)
    requires
        t.wf(),
        t.owners_consistent(),
        t.owner_idle(pos.schunk_of()),
        forall|i: u64| #[trigger] t.pendings@.contains_key(i) ==> !t.pendings@[i].sc_map@.contains_key(pos.schunk_of()),
        t.wchunk_removed(u, pos, r),
    ensures
        u.owners_consistent(),
{
    let sc_pos = pos.schunk_of();
    if t.schunk_pos_map@.contains_key(sc_pos) {
        let id = t.schunk_pos_map@[sc_pos];
        assert forall|i: u64, p: SChunkPos|
            #[trigger] u.servers@.contains_key(i) && #[trigger] u.servers@[i].sc_map@.contains_key(p)
            implies u.schunk_pos_map@.contains_key(p) && u.schunk_pos_map@[p] == i by {
            if i == id {
                assert(t.servers@[id].sc_map@.contains_key(p));
            } else {
                assert(t.servers@.contains_key(i));
                assert(t.servers@[i].sc_map@.contains_key(p));
                if p == sc_pos {
                    assert(t.schunk_pos_map@[p] == i);
                }
            }
        }
        assert forall|i: u64, p: SChunkPos|
            #[trigger] u.pendings@.contains_key(i) && #[trigger] u.pendings@[i].sc_map@.contains_key(p)
            implies u.schunk_pos_map@.contains_key(p) && u.schunk_pos_map@[p] == i by {
            assert(p != sc_pos);
        }
    }
}

/// When a server whose tick ended lends nothing and holds only chunks
/// recorded as its own, and is neither idle nor pending, then handing it to a
/// waiting request, or making it idle (with its decayed chunks split off),
/// keeps the owner records right.
proof fn lemma_tick_finished_keeps_owners<Task>(
    t: Ticker<Task>,
    u: Ticker<Task>,
    server: ChunkServer<Task>,
    decay_rate: u8,
    replies: Vec<Reply<Task>>,
    replies_after: Vec<Reply<Task>>,
)
    requires
        t.wf(),
        u.wf(),
        t.owners_consistent(),
        server.wf(),
        server.borrows@.len() == 0,
        !t.servers@.contains_key(server.id),
        !t.pendings@.contains_key(server.id),
        forall|p: SChunkPos| #[trigger] server.sc_map@.contains_key(p) ==> t.schunk_pos_map@.contains_key(p)
            && t.schunk_pos_map@[p] == server.id,
        t.handed_to_waiter(u, server, replies, replies_after),
        !t.some_waits_in(server.sc_map@) ==> t.finished_idle(u, server, decay_rate, replies, replies_after),
    ensures
        u.owners_consistent(),
{
    if !t.some_waits_in(server.sc_map@) {
        let pairs = server.sc_map.pairs();
        let splitting = decay_rate != 0 && pairs.len() > 1;
        let left = if splitting { kept(pairs, decay_rate) } else { pairs };
        let b0 = t.server_builder;
        lemma_kept_len(pairs, decay_rate);
        // A key of the server's map that is a split key is recorded for the server.
        assert forall|p: SChunkPos| is_split_key(pairs, p, decay_rate) implies #[trigger] server.sc_map@.contains_key(p)
            by {
            let j = choose|j: int| 0 <= j < pairs.len() && #[trigger] pairs[j].0 == p && !stays(pairs[j], decay_rate);
            server.sc_map.lemma_at(j);
        }
        assert forall|i: u64, p: SChunkPos|
            #[trigger] u.servers@.contains_key(i) && #[trigger] u.servers@[i].sc_map@.contains_key(p)
            implies u.schunk_pos_map@.contains_key(p) && u.schunk_pos_map@[p] == i by {
            if i == server.id {
                let s = u.servers@[i];
                assert(left.len() > 0);
                assert(s.sc_map.has(p));
                let j = choose|j: int| 0 <= j < s.sc_map.pairs().len() && #[trigger] s.sc_map.pairs()[j].0 == p;
                if splitting {
                    lemma_kept_keys(pairs, decay_rate, j);
                    let kk = choose|kk: int| 0 <= kk < pairs.len() && #[trigger] pairs[kk].0 == kept(pairs, decay_rate)[j].0
                        && stays(pairs[kk], decay_rate);
                    server.sc_map.lemma_at(kk);
                    if is_split_key(pairs, p, decay_rate) {
                        let k2 = choose|k2: int| 0 <= k2 < pairs.len() && #[trigger] pairs[k2].0 == p && !stays(pairs[k2], decay_rate);
                        assert(k2 != kk);
                    }
                } else {
                    server.sc_map.lemma_at(j);
                }
            } else if i <= b0 {
                assert(t.servers@.contains_key(i));
                assert(t.servers@[i].sc_map@.contains_key(p));
                if splitting && is_split_key(pairs, p, decay_rate) {
                    assert(server.sc_map@.contains_key(p));
                }
            } else {
                assert(splitting);
                let kk = choose|kk: int|
                    0 <= kk < pairs.len() && !stays(#[trigger] pairs[kk], decay_rate) && u.schunk_pos_map@.contains_key(pairs[kk].0)
                        && u.schunk_pos_map@[pairs[kk].0] == i;
                assert(u.servers@[i].sc_map@.dom().contains(p));
            }
        }
        assert forall|i: u64, p: SChunkPos|
            #[trigger] u.pendings@.contains_key(i) && #[trigger] u.pendings@[i].sc_map@.contains_key(p)
            implies u.schunk_pos_map@.contains_key(p) && u.schunk_pos_map@[p] == i by {
            assert(t.pendings@.contains_key(i));
            assert(t.pendings@[i].sc_map@.contains_key(p));
            if splitting && is_split_key(pairs, p, decay_rate) {
                assert(server.sc_map@.contains_key(p));
            }
        }
    }
}

/// Starting a tick, which makes the idle servers pending and starts some of
/// them, keeps the owner records right.
pub proof fn law_start_tick_keeps_owners<Task>(
    t: Ticker<Task>,
    u: Ticker<Task>,
    spawns: Seq<Box<ChunkServer<Task>>>,
    spawns_after: Seq<Box<ChunkServer<Task>>>,
)
    requires
        t.wf(),
        t.owners_consistent(),
        u.servers == t.pendings,
        u.schunk_pos_map == t.schunk_pos_map,
        filled(t.servers.pairs(), u.pendings.pairs(), t.thread_count as int, u.thread_count as int, spawns, spawns_after),
    ensures
        u.owners_consistent(),
{
    let n = t.servers.pairs().len() as int;
    let k = vstd::math::min(n, crate::config::MAX_THREAD_COUNT - t.thread_count);
    u.pendings.lemma_prefix_submap(t.servers, n - k);
    assert forall|i: u64, p: SChunkPos|
        #[trigger] u.pendings@.contains_key(i) && #[trigger] u.pendings@[i].sc_map@.contains_key(p)
        implies u.schunk_pos_map@.contains_key(p) && u.schunk_pos_map@[p] == i by {
        assert(t.servers@.contains_key(i));
    }
}

/// In `t`, `s` holds only chunks recorded as its own, is neither idle nor
/// pending, and has an id that `t` has given out.
pub open spec fn holds_recorded<Task>(t: Ticker<Task>, s: ChunkServer<Task>) -> bool {
    &&& !t.servers@.contains_key(s.id)
    &&& !t.pendings@.contains_key(s.id)
    &&& s.id <= t.server_builder
    &&& forall|p: SChunkPos| #[trigger] s.sc_map@.contains_key(p) ==> t.schunk_pos_map@.contains_key(p)
        && t.schunk_pos_map@[p] == s.id
}

/// The ids of `s` and of the ticked or pending servers lent to it, at any
/// depth.
pub open spec fn tree_ids<Task>(s: ChunkServer<Task>) -> Set<u64>
    decreases s,
{
    set![s.id].union(states_ids(s.borrows@))
}

pub open spec fn states_ids<Task>(ss: Seq<ChunkServerState<Task>>) -> Set<u64>
    decreases ss,
{
    if ss.len() == 0 {
        Set::empty()
    } else {
        states_ids(ss.drop_first()).union(state_ids(ss.first()))
    }
}

pub open spec fn state_ids<Task>(st: ChunkServerState<Task>) -> Set<u64>
    decreases st,
{
    match st {
        ChunkServerState::IsTicked(c) => tree_ids(*c),
        ChunkServerState::IsPending(c) => set![c.id],
        ChunkServerState::IsTicking(_) => Set::empty(),
    }
}

/// In `t`, `s` and the ticked or pending servers lent to it, at any depth,
/// each hold only chunks recorded as their own and are neither idle nor
/// pending, and no two of them have the same id.
pub open spec fn tree_recorded<Task>(t: Ticker<Task>, s: ChunkServer<Task>) -> bool
    decreases s,
{
    &&& holds_recorded(t, s)
    &&& !states_ids(s.borrows@).contains(s.id)
    &&& states_recorded(t, s.borrows@)
}

pub open spec fn states_recorded<Task>(t: Ticker<Task>, ss: Seq<ChunkServerState<Task>>) -> bool
    decreases ss,
{
    if ss.len() == 0 {
        true
    } else {
        &&& states_recorded(t, ss.drop_first())
        &&& state_recorded(t, ss.first())
        &&& states_ids(ss.drop_first()).disjoint(state_ids(ss.first()))
    }
}

pub open spec fn state_recorded<Task>(t: Ticker<Task>, st: ChunkServerState<Task>) -> bool
    decreases st,
{
    match st {
        ChunkServerState::IsTicked(c) => tree_recorded(t, *c),
        ChunkServerState::IsPending(c) => holds_recorded(t, *c),
        ChunkServerState::IsTicking(_) => true,
    }
}

/// From `t` to `u`, the builder did not go back, the owner records of
/// chunks owned outside `ids` stayed, and the idle and pending servers that
/// joined have ids in `ids` or ids new in `t`.
pub open spec fn changes_within<Task>(t: Ticker<Task>, u: Ticker<Task>, ids: Set<u64>) -> bool {
    &&& t.server_builder <= u.server_builder
    &&& forall|p: SChunkPos| #[trigger] t.schunk_pos_map@.contains_key(p) && !ids.contains(t.schunk_pos_map@[p])
        ==> u.schunk_pos_map@.contains_key(p) && u.schunk_pos_map@[p] == t.schunk_pos_map@[p]
    &&& forall|id: u64| #[trigger] u.servers@.contains_key(id) ==> t.servers@.contains_key(id) || ids.contains(id)
        || t.server_builder < id
    &&& forall|id: u64| #[trigger] u.pendings@.contains_key(id) ==> t.pendings@.contains_key(id) || ids.contains(id)
        || t.server_builder < id
}

proof fn lemma_changes_compose<Task>(
    t: Ticker<Task>,
    m: Ticker<Task>,
    u: Ticker<Task>,
    x1: Set<u64>,
    x2: Set<u64>,
)
    requires
        changes_within(t, m, x1),
        changes_within(m, u, x2),
    ensures
        changes_within(t, u, x1.union(x2)),
{
    assert forall|p: SChunkPos| #[trigger] t.schunk_pos_map@.contains_key(p) && !x1.union(x2).contains(
        t.schunk_pos_map@[p],
    ) implies u.schunk_pos_map@.contains_key(p) && u.schunk_pos_map@[p] == t.schunk_pos_map@[p] by {
        assert(m.schunk_pos_map@.contains_key(p));
    }
    assert forall|id: u64| #[trigger] u.servers@.contains_key(id) implies t.servers@.contains_key(id)
        || x1.union(x2).contains(id) || t.server_builder < id by {
        if !x2.contains(id) && id <= m.server_builder {
            assert(m.servers@.contains_key(id));
        }
    }
    assert forall|id: u64| #[trigger] u.pendings@.contains_key(id) implies t.pendings@.contains_key(id)
        || x1.union(x2).contains(id) || t.server_builder < id by {
        if !x2.contains(id) && id <= m.server_builder {
            assert(m.pendings@.contains_key(id));
        }
    }
}

proof fn lemma_holds_recorded_kept<Task>(t: Ticker<Task>, u: Ticker<Task>, x: Set<u64>, s: ChunkServer<Task>)
    requires
        holds_recorded(t, s),
        changes_within(t, u, x),
        !x.contains(s.id),
    ensures
        holds_recorded(u, s),
{
    assert forall|p: SChunkPos| #[trigger] s.sc_map@.contains_key(p) implies u.schunk_pos_map@.contains_key(p)
        && u.schunk_pos_map@[p] == s.id by {
        assert(t.schunk_pos_map@.contains_key(p));
    }
}

proof fn lemma_tree_recorded_kept<Task>(t: Ticker<Task>, u: Ticker<Task>, x: Set<u64>, s: ChunkServer<Task>)
    requires
        tree_recorded(t, s),
        changes_within(t, u, x),
        x.disjoint(tree_ids(s)),
    ensures
        tree_recorded(u, s),
    decreases s,
{
    assert(tree_ids(s).contains(s.id));
    lemma_holds_recorded_kept(t, u, x, s);
    assert(x.disjoint(states_ids(s.borrows@)));
    lemma_states_recorded_kept(t, u, x, s.borrows@);
}

proof fn lemma_states_recorded_kept<Task>(
    t: Ticker<Task>,
    u: Ticker<Task>,
    x: Set<u64>,
    ss: Seq<ChunkServerState<Task>>,
)
    requires
        states_recorded(t, ss),
        changes_within(t, u, x),
        x.disjoint(states_ids(ss)),
    ensures
        states_recorded(u, ss),
    decreases ss,
{
    if ss.len() > 0 {
        assert(x.disjoint(states_ids(ss.drop_first())));
        assert(x.disjoint(state_ids(ss.first())));
        lemma_states_recorded_kept(t, u, x, ss.drop_first());
        lemma_state_recorded_kept(t, u, x, ss.first());
    }
}

proof fn lemma_state_recorded_kept<Task>(t: Ticker<Task>, u: Ticker<Task>, x: Set<u64>, st: ChunkServerState<Task>)
    requires
        state_recorded(t, st),
        changes_within(t, u, x),
        x.disjoint(state_ids(st)),
    ensures
        state_recorded(u, st),
    decreases st,
{
    match st {
        ChunkServerState::IsTicked(c) => {
            lemma_tree_recorded_kept(t, u, x, *c);
        },
        ChunkServerState::IsPending(c) => {
            assert(state_ids(st).contains(c.id));
            lemma_holds_recorded_kept(t, u, x, *c);
        },
        ChunkServerState::IsTicking(_) => {},
    }
}

/// Finishing a tick changes owner records only for the server's own chunks,
/// and only the server itself or new servers join the idle ones.
proof fn lemma_tick_finished_changes<Task>(m: Stage<Task>, s0: ChunkServer<Task>, rate: u8, b: Stage<Task>)
    requires
        tick_finished(m, s0, rate, b),
        holds_recorded(m.0, s0),
    ensures
        changes_within(m.0, b.0, set![s0.id]),
{
    let t = m.0;
    let u = b.0;
    if !t.some_waits_in(s0.sc_map@) {
        let pairs = s0.sc_map.pairs();
        let splitting = rate != 0 && pairs.len() > 1;
        lemma_kept_len(pairs, rate);
        assert forall|p: SChunkPos| #[trigger] t.schunk_pos_map@.contains_key(p) && !set![s0.id].contains(
            t.schunk_pos_map@[p],
        ) implies u.schunk_pos_map@.contains_key(p) && u.schunk_pos_map@[p] == t.schunk_pos_map@[p] by {
            if splitting && is_split_key(pairs, p, rate) {
                let j = choose|j: int| 0 <= j < pairs.len() && #[trigger] pairs[j].0 == p && !stays(pairs[j], rate);
                s0.sc_map.lemma_at(j);
                assert(s0.sc_map@.contains_key(p));
            }
        }
        assert forall|id: u64| #[trigger] u.servers@.contains_key(id) implies t.servers@.contains_key(id)
            || set![s0.id].contains(id) || t.server_builder < id by {
            if id <= t.server_builder && id != s0.id {
            }
        }
    }
}

proof fn lemma_tick_ended_owners<Task>(a: Stage<Task>, s: ChunkServer<Task>, rate: u8, b: Stage<Task>)
    requires
        a.0.owners_consistent(),
        tree_recorded(a.0, s),
        tick_ended(a, s, rate, b),
    ensures
        b.0.owners_consistent(),
        changes_within(a.0, b.0, tree_ids(s)),
    decreases s,
{
    let (m, s0): (Stage<Task>, ChunkServer<Task>) = choose|m: Stage<Task>, s0: ChunkServer<Task>|
        {
            &&& borrows_returned(a, s.borrows@, rate, m)
            &&& s0.id == s.id
            &&& s0.sc_map == s.sc_map
            &&& s0.global_tasks == s.global_tasks
            &&& tick_finished(m, s0, rate, b)
        };
    lemma_borrows_returned_owners(a, s.borrows@, rate, m);
    lemma_holds_recorded_kept(a.0, m.0, states_ids(s.borrows@), s);
    assert(holds_recorded(m.0, s0));
    lemma_tick_finished_keeps_owners(m.0, b.0, s0, rate, m.1, b.1);
    lemma_tick_finished_changes(m, s0, rate, b);
    lemma_changes_compose(a.0, m.0, b.0, states_ids(s.borrows@), set![s.id]);
    assert(states_ids(s.borrows@).union(set![s.id]) =~= tree_ids(s));
}

proof fn lemma_borrows_returned_owners<Task>(
    a: Stage<Task>,
    ss: Seq<ChunkServerState<Task>>,
    rate: u8,
    b: Stage<Task>,
)
    requires
        a.0.owners_consistent(),
        states_recorded(a.0, ss),
        borrows_returned(a, ss, rate, b),
    ensures
        b.0.owners_consistent(),
        changes_within(a.0, b.0, states_ids(ss)),
    decreases ss,
{
    if ss.len() > 0 {
        let m = choose|m: Stage<Task>|
            stage_wf(m) && borrows_returned(a, ss.drop_first(), rate, m) && borrow_returned(
                m,
                ss.first(),
                rate,
                b,
            );
        lemma_borrows_returned_owners(a, ss.drop_first(), rate, m);
        lemma_state_recorded_kept(a.0, m.0, states_ids(ss.drop_first()), ss.first());
        lemma_borrow_returned_owners(m, ss.first(), rate, b);
        lemma_changes_compose(a.0, m.0, b.0, states_ids(ss.drop_first()), state_ids(ss.first()));
    }
}

proof fn lemma_borrow_returned_owners<Task>(a: Stage<Task>, st: ChunkServerState<Task>, rate: u8, b: Stage<Task>)
    requires
        a.0.owners_consistent(),
        state_recorded(a.0, st),
        borrow_returned(a, st, rate, b),
    ensures
        b.0.owners_consistent(),
        changes_within(a.0, b.0, state_ids(st)),
    decreases st,
{
    let t = a.0;
    let u = b.0;
    match st {
        ChunkServerState::IsTicking(r) => {
            law_request_keeps_owners(t, u, r, a.1, b.1);
            let pos = r.req_cell.sc_pos;
            assert forall|p: SChunkPos| #[trigger] t.schunk_pos_map@.contains_key(p) && !state_ids(st).contains(
                t.schunk_pos_map@[p],
            ) implies u.schunk_pos_map@.contains_key(p) && u.schunk_pos_map@[p] == t.schunk_pos_map@[p] by {
                if !t.schunk_pos_map@.contains_key(pos) {
                    assert(p != pos);
                }
            }
        },
        ChunkServerState::IsTicked(c) => {
            lemma_tick_ended_owners(a, *c, rate, b);
        },
        ChunkServerState::IsPending(c) => {
            assert(u.servers == t.servers);
            assert(u.schunk_pos_map == t.schunk_pos_map);
            assert forall|id: u64, p: SChunkPos|
                #[trigger] u.pendings@.contains_key(id) && #[trigger] u.pendings@[id].sc_map@.contains_key(p)
                implies u.schunk_pos_map@.contains_key(p) && u.schunk_pos_map@[p] == id by {
                if id != c.id {
                    assert(t.pendings@.contains_key(id));
                    assert(u.pendings@[id] == t.pendings@[id]);
                }
            }
            assert(state_ids(st).contains(c.id));
        },
    }
}

/// When a server ends its tick, the servers lent to it go back, the last
/// first, the server is handed on or made idle, its thread is released and
/// pending servers start.  If before that the server and every ticked or
/// pending server lent to it, at any depth, held only chunks recorded as its
/// own, was neither idle nor pending, and had an id none of the others had,
/// then the owner records of idle and pending servers stay right.
pub proof fn law_tick_end_keeps_owners<Task>(
    t: Ticker<Task>,
    u: Ticker<Task>,
    server: ChunkServer<Task>,
    decay_rate: u8,
    replies: Vec<Reply<Task>>,
    replies_after: Vec<Reply<Task>>,
    spawns: Vec<Box<ChunkServer<Task>>>,
    spawns_after: Vec<Box<ChunkServer<Task>>>,
)
    requires
        t.owners_consistent(),
        tree_recorded(t, server),
        tick_end_handled((t, replies), server, decay_rate, (u, replies_after), spawns, spawns_after),
    ensures
        u.owners_consistent(),
{
    let m = choose|m: Stage<Task>|
        threads_released(m.0, u, spawns, spawns_after) && m.0.wf() && tick_ended((t, replies), server, decay_rate, m)
            && replies_after == m.1;
    lemma_tick_ended_owners((t, replies), server, decay_rate, m);
    let v = m.0;
    let n = v.pendings.pairs().len() as int;
    let k = vstd::math::min(n, crate::config::MAX_THREAD_COUNT - (v.thread_count - 1));
    u.pendings.lemma_prefix_submap(v.pendings, n - k);
    assert forall|i: u64, p: SChunkPos|
        #[trigger] u.pendings@.contains_key(i) && #[trigger] u.pendings@[i].sc_map@.contains_key(p)
        implies u.schunk_pos_map@.contains_key(p) && u.schunk_pos_map@[p] == i by {
        assert(v.pendings@.contains_key(i));
    }
}

/// When a server that lends nothing ends its tick, the ticker's task queue
/// afterwards is the queue before followed by all of the server's tasks if
/// no request waits for any of its chunks, whatever chunks the server is
/// left with after splitting; if a request waits, the server goes to it with
/// its tasks and the queue stays as it was.
pub proof fn law_tick_end_queues_tasks<Task>(
    t: Ticker<Task>,
    u: Ticker<Task>,
    server: ChunkServer<Task>,
    decay_rate: u8,
    replies: Vec<Reply<Task>>,
    replies_after: Vec<Reply<Task>>,
    spawns: Vec<Box<ChunkServer<Task>>>,
    spawns_after: Vec<Box<ChunkServer<Task>>>,
)
    requires
        server.borrows@.len() == 0,
        tick_end_handled((t, replies), server, decay_rate, (u, replies_after), spawns, spawns_after),
    ensures
        !t.some_waits_in(server.sc_map@) ==> u.tasks@ == t.tasks@ + server.global_tasks@,
        t.some_waits_in(server.sc_map@) ==> u.tasks@ == t.tasks@,
{
    let m = choose|m: Stage<Task>|
        threads_released(m.0, u, spawns, spawns_after) && m.0.wf() && tick_ended((t, replies), server, decay_rate, m)
            && replies_after == m.1;
    let (m2, s0): (Stage<Task>, ChunkServer<Task>) = choose|m2: Stage<Task>, s0: ChunkServer<Task>|
        {
            &&& borrows_returned((t, replies), server.borrows@, decay_rate, m2)
            &&& s0.id == server.id
            &&& s0.sc_map == server.sc_map
            &&& s0.global_tasks == server.global_tasks
            &&& tick_finished(m2, s0, decay_rate, m)
        };
    assert(m2 == (t, replies));
    assert(u.tasks == m.0.tasks);
}

/// Loading a world chunk that is already loaded gives back that very chunk:
/// once a load of `pos` has left the chunk as `c1`, the next load of `pos`
/// returns `c1`, not a newly loaded one.
pub proof fn law_load_twice_gives_loaded_chunk<Task>(
    t: Ticker<Task>,
    u: Ticker<Task>,
    v: Ticker<Task>,
    pos: WChunkPos,
    c0: WChunk,
    c1: WChunk,
    c2: WChunk,
    c3: WChunk,
)
    requires
        t.wchunk_loaded(u, pos, c0, c1),
        u.wchunk_loaded(v, pos, c2, c3),
    ensures
        c2 == c1,
{
    let sc_pos = pos.schunk_of();
    let id = t.owner_of(sc_pos);
    assert(u.schunk_pos_map@.contains_key(sc_pos));
    assert(u.owner_of(sc_pos) == id);
}

} // verus!
