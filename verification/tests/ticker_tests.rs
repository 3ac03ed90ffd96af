use messfunc::channel::OnetimeChannel;
use messfunc::config::{MAX_SCHUNK_DECAY_RATE, MAX_THREAD_COUNT};
use messfunc::pos::{SChunkPos, WChunkPos};
use messfunc::schunk::SChunk;
use messfunc::server::{ChunkServer, ChunkServerState, Responser, SChunkResponseCell, ServerBuilder};
use messfunc::ticker::Ticker;
use std::time::Duration;

fn ticker() -> Ticker<u32> {
    let rt = tokio::runtime::Builder::new_current_thread().enable_time().build().unwrap();
    let interval = rt.block_on(async { tokio::time::interval(Duration::from_millis(1000)) });
    Ticker::new(interval, tokio::time::Instant::now())
}

fn request(requester_id: u64, pos: SChunkPos) -> Responser<u32> {
    let (tx, _rx) = OnetimeChannel::<SChunkResponseCell<u32>>::new().split();
    let mut requester = ChunkServer::empty(requester_id);
    requester.into_request(pos, tx)
}

fn sc(x: i64) -> SChunkPos {
    SChunkPos { world: 1, x, z: 0 }
}

#[test]
fn new_ticker_is_empty() {
    let t = ticker();
    assert!(t.servers.is_empty());
    assert!(t.pendings.is_empty());
    assert!(t.waitings.is_empty());
    assert!(t.schunk_pos_map.is_empty());
    assert_eq!(t.thread_count, 0);
    assert_eq!(t.server_builder, 0);
    assert!(t.scheduled_run);
}

#[test]
fn build_counts_ids() {
    let mut b: u64 = 0;
    let s1: Box<ChunkServer<u32>> = b.build();
    let s2: Box<ChunkServer<u32>> = b.build();
    assert_eq!(s1.id, 1);
    assert_eq!(s2.id, 2);
    assert_eq!(b, 2);
    assert!(s2.sc_map.is_empty());
}

#[test]
fn request_for_unowned_chunk_builds_owner() {
    let mut t = ticker();
    let mut replies = Vec::new();
    t.handle_request_sc(request(100, sc(3)), &mut replies);
    assert_eq!(replies.len(), 1);
    assert_eq!(t.server_builder, 1);
    assert_eq!(t.schunk_pos_map.get(&sc(3)), Some(&1));
    let (r, state) = replies.pop().unwrap();
    assert_eq!(r.req_cell.requester.id, 100);
    match state {
        ChunkServerState::IsTicked(s) => {
            assert_eq!(s.id, 1);
            assert_eq!(s.sc_map.len(), 1);
            let c = s.sc_map.get(&sc(3)).unwrap();
            assert_eq!(c.pos, sc(3));
            assert_eq!(c.wchunk_count, 0);
            assert_eq!(c.dep_level, MAX_SCHUNK_DECAY_RATE);
        },
        _ => panic!("expected a ticked server"),
    }
}

#[test]
fn request_lends_idle_pending_or_waiting_owner() {
    let mut t = ticker();
    // an idle owner
    t.load_wchunk(WChunkPos { world: 1, x: 0, z: 0 });
    assert!(t.servers.contains_key(&1));
    let mut replies = Vec::new();
    t.handle_request_sc(request(50, sc(0)), &mut replies);
    assert!(!t.servers.contains_key(&1));
    assert!(matches!(replies[0].1, ChunkServerState::IsTicked(ref b) if b.id == 1));
    // the owner is now ticking elsewhere: the next request waits
    t.handle_request_sc(request(51, sc(0)), &mut replies);
    assert_eq!(replies.len(), 1);
    assert!(t.waitings.contains_key(&51));
    // a request for the waiting requester's chunk lends the waiting request
    t.schunk_pos_map.insert(sc(9), 51);
    t.handle_request_sc(request(52, sc(9)), &mut replies);
    assert_eq!(replies.len(), 2);
    assert!(matches!(replies[1].1, ChunkServerState::IsTicking(ref r) if r.req_cell.requester.id == 51));
    assert!(!t.waitings.contains_key(&51));
    // a pending owner is lent as pending
    let mut p: Box<ChunkServer<u32>> = Box::new(ChunkServer::empty(1));
    p.sc_map.insert(sc(0), Box::new(SChunk::new(sc(0))));
    t.pendings.insert(1, p);
    t.handle_request_sc(request(53, sc(0)), &mut replies);
    assert!(matches!(replies[2].1, ChunkServerState::IsPending(ref b) if b.id == 1));
    assert!(t.pendings.is_empty());
}

#[test]
fn removed_chunk_goes_to_first_waiter_or_loses_owner() {
    let mut t = ticker();
    let mut replies = Vec::new();
    t.handle_request_sc(request(10, sc(4)), &mut replies);
    // owner 1 is ticking; two requests wait
    t.handle_request_sc(request(11, sc(4)), &mut replies);
    t.handle_request_sc(request(12, sc(4)), &mut replies);
    assert_eq!(t.waitings.len(), 2);
    replies.clear();
    t.handle_remove_schunk(sc(4), &mut replies);
    assert_eq!(replies.len(), 1);
    assert_eq!(replies[0].0.req_cell.requester.id, 11);
    assert!(matches!(replies[0].1, ChunkServerState::IsTicked(ref b) if b.id == 2));
    assert_eq!(t.schunk_pos_map.get(&sc(4)), Some(&2));
    assert_eq!(t.waitings.len(), 1);
    // nobody waits for another chunk: its owner record goes
    t.schunk_pos_map.insert(sc(8), 7);
    replies.clear();
    t.handle_remove_schunk(sc(8), &mut replies);
    assert!(replies.is_empty());
    assert!(!t.schunk_pos_map.contains_key(&sc(8)));
}

#[test]
fn load_get_remove_through_ticker() {
    let mut t = ticker();
    let p = WChunkPos { world: 1, x: 17, z: -3 };
    assert!(t.get_chunk(&p).is_none());
    assert_eq!(t.server_builder, 1);
    let c = t.load_wchunk(p);
    assert_eq!(c.pos, p);
    assert_eq!(t.server_builder, 1);
    assert!(t.get_chunk(&p).is_some());
    let other = WChunkPos { world: 1, x: 18, z: -3 };
    t.load_wchunk(other);
    let r = t.remove_wchunk(&p).unwrap();
    assert_eq!(r.pos, p);
    // the scheduling chunk still holds `other`, so it keeps its record
    assert_eq!(t.schunk_pos_map.get(&p.to_schunk_pos()), Some(&1));
    assert!(t.servers.get(&1).unwrap().sc_map.contains_key(&p.to_schunk_pos()));
    assert!(t.get_chunk(&other).is_some());
    assert_eq!(t.server_builder, 1);
    assert!(t.remove_wchunk(&p).is_none());
    assert_eq!(t.remove_wchunk(&other).unwrap().pos, other);
    // now it holds nothing: it leaves its server and loses its record
    assert!(!t.schunk_pos_map.contains_key(&p.to_schunk_pos()));
    assert!(!t.servers.get(&1).unwrap().sc_map.contains_key(&p.to_schunk_pos()));
    assert!(t.remove_wchunk(&other).is_none());
}

#[test]
fn tick_end_splits_decayed_chunks() {
    let mut t = ticker();
    t.server_builder = 10;
    t.thread_count = 1;
    let mut s: Box<ChunkServer<u32>> = Box::new(ChunkServer::empty(10));
    let mut a = SChunk::new(sc(1));
    a.dep_level = 5;
    let mut b = SChunk::new(sc(2));
    b.dep_level = 200;
    s.sc_map.insert(sc(1), Box::new(a));
    s.sc_map.insert(sc(2), Box::new(b));
    s.global_tasks.push(77);
    t.schunk_pos_map.insert(sc(1), 10);
    t.schunk_pos_map.insert(sc(2), 10);
    let mut replies = Vec::new();
    let mut spawns = Vec::new();
    t.handle_tick_end(s, 10, &mut replies, &mut spawns);
    assert!(replies.is_empty());
    assert!(spawns.is_empty());
    assert_eq!(t.thread_count, 0);
    assert_eq!(t.tasks, vec![77]);
    assert_eq!(t.server_builder, 11);
    assert_eq!(t.schunk_pos_map.get(&sc(1)), Some(&11));
    assert_eq!(t.schunk_pos_map.get(&sc(2)), Some(&10));
    let kept = t.servers.get(&10).unwrap();
    assert_eq!(kept.sc_map.len(), 1);
    assert_eq!(kept.sc_map.get(&sc(2)).unwrap().dep_level, 190);
    let split = t.servers.get(&11).unwrap();
    assert_eq!(split.sc_map.get(&sc(1)).unwrap().dep_level, MAX_SCHUNK_DECAY_RATE);
}

#[test]
fn tick_end_hands_server_to_waiter_and_returns_borrows() {
    let mut t = ticker();
    let mut replies = Vec::new();
    // server 1 owns sc(1); request 20 waits for it while it ticks
    t.handle_request_sc(request(5, sc(1)), &mut replies);
    let (_, st) = replies.pop().unwrap();
    let owner = st.remove();
    t.handle_request_sc(request(20, sc(1)), &mut replies);
    assert!(t.waitings.contains_key(&20));
    // server 30 borrowed a pending server 31 and ended its tick
    let mut ended: Box<ChunkServer<u32>> = Box::new(ChunkServer::empty(1));
    ended.sc_map = owner.sc_map;
    let mut pending = Box::new(ChunkServer::empty(0));
    pending.sc_map.insert(sc(6), Box::new(SChunk::new(sc(6))));
    ended.borrows.push(ChunkServerState::IsPending(pending));
    t.thread_count = 1;
    let mut spawns = Vec::new();
    t.handle_tick_end(ended, 0, &mut replies, &mut spawns);
    assert_eq!(replies.len(), 1);
    assert_eq!(replies[0].0.req_cell.requester.id, 20);
    assert!(matches!(replies[0].1, ChunkServerState::IsTicked(ref b) if b.id == 1));
    // the ended server's thread went to the pending server it had borrowed
    assert!(t.pendings.is_empty());
    assert_eq!(spawns.len(), 1);
    assert_eq!(spawns[0].id, 0);
    assert_eq!(t.thread_count, 1);
}

#[test]
fn start_tick_spawns_idle_servers() {
    let mut t = ticker();
    for x in 0..3 {
        t.load_wchunk(WChunkPos { world: 1, x: x * 16, z: 0 });
    }
    assert_eq!(t.servers.len(), 3);
    let mut spawns = Vec::new();
    t.start_tick_chunk(&mut spawns);
    assert_eq!(spawns.len(), 3);
    assert_eq!(spawns[0].id, 3);
    assert_eq!(t.thread_count, 3);
    assert!(t.servers.is_empty());
    assert!(t.pendings.is_empty());
}

#[test]
fn start_tick_stops_at_thread_limit() {
    let mut t = ticker();
    t.thread_count = MAX_THREAD_COUNT - 1;
    for x in 0..3 {
        t.load_wchunk(WChunkPos { world: 1, x: x * 16, z: 0 });
    }
    let mut spawns = Vec::new();
    t.start_tick_chunk(&mut spawns);
    assert_eq!(spawns.len(), 1);
    assert_eq!(t.thread_count, MAX_THREAD_COUNT);
    assert_eq!(t.pendings.len(), 2);
}

#[test]
fn load_size_counts_borrowed_servers() {
    let mut s: ChunkServer<u32> = ChunkServer::empty(1);
    s.sc_map.insert(sc(1), Box::new(SChunk::new(sc(1))));
    let mut lent = Box::new(ChunkServer::empty(2));
    lent.sc_map.insert(sc(2), Box::new(SChunk::new(sc(2))));
    lent.sc_map.insert(sc(3), Box::new(SChunk::new(sc(3))));
    s.borrows.push(ChunkServerState::IsTicked(lent));
    assert_eq!(s.get_load_size(), 3);
}

#[test]
fn request_round_trip_restores_requester() {
    let mut s: ChunkServer<u32> = ChunkServer::empty(4);
    s.sc_map.insert(sc(1), Box::new(SChunk::new(sc(1))));
    s.global_tasks.push(9);
    let (tx, rx) = OnetimeChannel::new().split();
    let req = s.into_request(sc(2), tx);
    assert!(s.sc_map.is_empty());
    assert_eq!(s.id, 4);
    let mut lent = Box::new(ChunkServer::empty(5));
    lent.sc_map.insert(sc(2), Box::new(SChunk::new(sc(2))));
    req.response(ChunkServerState::IsTicked(lent));
    let cell = rx.try_recv().unwrap();
    let chunk = s.accept_response(cell, sc(2));
    assert_eq!(chunk.pos, sc(2));
    assert_eq!(s.sc_map.len(), 1);
    assert_eq!(s.global_tasks, vec![9]);
    assert_eq!(s.borrows.len(), 1);
    assert_eq!(s.borrows[0].get().id, 5);
}

#[test]
fn removing_last_wchunk_drops_own_schunk() {
    let mut s: ChunkServer<u32> = ChunkServer::empty(3);
    let a = WChunkPos { world: 1, x: 17, z: 2 };
    let b = WChunkPos { world: 1, x: 18, z: 2 };
    let mut chunk = SChunk::new(sc(1));
    chunk.load_wchunk(a);
    chunk.load_wchunk(b);
    s.sc_map.insert(sc(1), Box::new(chunk));
    let (w, emptied) = s.remove_reached_wchunk(&a);
    assert_eq!(w.unwrap().pos, a);
    assert!(emptied.is_none());
    assert_eq!(s.sc_map.get(&sc(1)).unwrap().wchunk_count, 1);
    let (w, emptied) = s.remove_reached_wchunk(&a);
    assert!(w.is_none());
    assert!(emptied.is_none());
    let (w, emptied) = s.remove_reached_wchunk(&b);
    assert_eq!(w.unwrap().pos, b);
    assert_eq!(emptied, Some(sc(1)));
    assert!(s.sc_map.is_empty());
}

#[test]
fn removing_from_lent_schunk_keeps_it_with_lender() {
    let mut s: ChunkServer<u32> = ChunkServer::empty(3);
    s.sc_map.insert(sc(5), Box::new(SChunk::new(sc(5))));
    let a = WChunkPos { world: 1, x: 20, z: 0 };
    let mut chunk = SChunk::new(sc(1));
    chunk.load_wchunk(a);
    let mut lent = Box::new(ChunkServer::empty(7));
    lent.sc_map.insert(sc(1), Box::new(chunk));
    s.borrows.push(ChunkServerState::IsTicked(lent));
    assert_eq!(s.reached_schunk(sc(1)).wchunk_count, 1);
    let (w, emptied) = s.remove_reached_wchunk(&a);
    assert_eq!(w.unwrap().pos, a);
    assert_eq!(emptied, Some(sc(1)));
    assert_eq!(s.sc_map.len(), 1);
    let lender = s.borrows[0].get();
    assert_eq!(lender.id, 7);
    assert_eq!(lender.sc_map.get(&sc(1)).unwrap().wchunk_count, 0);
}

fn owner_records_right(t: &Ticker<u32>) -> bool {
    let maps = [&t.servers, &t.pendings];
    for m in maps {
        for i in 0..m.len() {
            let id = m.key_at(i);
            let s = m.value_at(i);
            for j in 0..s.sc_map.len() {
                if t.schunk_pos_map.get(&s.sc_map.key_at(j)) != Some(&id) {
                    return false;
                }
            }
        }
    }
    true
}

#[test]
fn tick_end_with_lent_servers_keeps_owner_records() {
    let mut t = ticker();
    t.server_builder = 12;
    // only server 10 ticks on a thread; server 11 was lent to it
    t.thread_count = 1;
    let mut ended: Box<ChunkServer<u32>> = Box::new(ChunkServer::empty(10));
    ended.sc_map.insert(sc(1), Box::new(SChunk::new(sc(1))));
    let mut lent = Box::new(ChunkServer::empty(11));
    let mut decayed = SChunk::new(sc(2));
    decayed.dep_level = 5;
    let mut fresh = SChunk::new(sc(3));
    fresh.dep_level = 200;
    lent.sc_map.insert(sc(2), Box::new(decayed));
    lent.sc_map.insert(sc(3), Box::new(fresh));
    let mut pending = Box::new(ChunkServer::empty(12));
    pending.sc_map.insert(sc(4), Box::new(SChunk::new(sc(4))));
    ended.borrows.push(ChunkServerState::IsTicked(lent));
    ended.borrows.push(ChunkServerState::IsPending(pending));
    t.schunk_pos_map.insert(sc(1), 10);
    t.schunk_pos_map.insert(sc(2), 11);
    t.schunk_pos_map.insert(sc(3), 11);
    t.schunk_pos_map.insert(sc(4), 12);
    assert!(owner_records_right(&t));
    let mut replies = Vec::new();
    let mut spawns = Vec::new();
    t.handle_tick_end(ended, 10, &mut replies, &mut spawns);
    assert!(owner_records_right(&t));
    assert!(replies.is_empty());
    assert_eq!(spawns.len(), 1);
    assert_eq!(spawns[0].id, 12);
    assert_eq!(t.thread_count, 1);
    assert_eq!(t.server_builder, 13);
    assert_eq!(t.schunk_pos_map.get(&sc(2)), Some(&13));
    assert_eq!(t.servers.get(&11).unwrap().sc_map.get(&sc(3)).unwrap().dep_level, 190);
    assert!(t.servers.contains_key(&10));
    assert!(t.servers.contains_key(&13));
    assert!(t.pendings.is_empty());
}

#[test]
fn tick_end_releases_one_thread_per_ticking_server() {
    let mut t = ticker();
    let mut replies = Vec::new();
    // server 1 owns sc(1) and is idle; server 2 owns sc(2) and ticks
    t.handle_request_sc(request(5, sc(1)), &mut replies);
    let (_, st) = replies.pop().unwrap();
    t.servers.insert(1, st.remove());
    let mut ticking: Box<ChunkServer<u32>> = Box::new(ChunkServer::empty(2));
    ticking.sc_map.insert(sc(2), Box::new(SChunk::new(sc(2))));
    t.schunk_pos_map.insert(sc(2), 2);
    t.server_builder = 2;
    t.thread_count = 1;
    // while ticking, server 2 borrows the idle server 1
    t.handle_request_sc(request(2, sc(1)), &mut replies);
    let (_, lent) = replies.pop().unwrap();
    assert!(matches!(lent, ChunkServerState::IsTicked(ref b) if b.id == 1));
    ticking.borrows.push(lent);
    let mut spawns = Vec::new();
    t.handle_tick_end(ticking, 0, &mut replies, &mut spawns);
    assert_eq!(t.thread_count, 0);
    assert!(replies.is_empty());
    assert!(spawns.is_empty());
    assert!(t.servers.get(&1).unwrap().sc_map.contains_key(&sc(1)));
    assert!(t.servers.get(&2).unwrap().sc_map.contains_key(&sc(2)));
    assert!(owner_records_right(&t));
}

#[test]
fn ticker_access_marks_schunk_used() {
    let mut t = ticker();
    let p = WChunkPos { world: 1, x: 3, z: 4 };
    t.load_wchunk(p);
    let q = WChunkPos { world: 1, x: 5, z: 4 };
    t.load_wchunk(q);
    let sc_pos = p.to_schunk_pos();
    t.servers.get_mut(&1).sc_map.get_mut(&sc_pos).dep_level = 3;
    assert!(t.get_chunk(&p).is_some());
    assert_eq!(t.servers.get(&1).unwrap().sc_map.get(&sc_pos).unwrap().dep_level, MAX_SCHUNK_DECAY_RATE);
    t.servers.get_mut(&1).sc_map.get_mut(&sc_pos).dep_level = 3;
    t.remove_wchunk(&p);
    let sc = t.servers.get(&1).unwrap().sc_map.get(&sc_pos).unwrap();
    assert_eq!(sc.dep_level, MAX_SCHUNK_DECAY_RATE);
    assert_eq!(sc.pos, sc_pos);
}
