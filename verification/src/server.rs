//! Per-connection bookkeeping and dispatch: the decision core of the event
//! loop.
//!
//! The loop around this module waits on the OS readiness facility, accepts
//! sockets, reads bytes and writes responses; it owns no protocol or store
//! logic. Each readiness event becomes one call here: `on_accept` for a new
//! connection, `on_data` for bytes read from one, `remove` when a peer goes
//! away, `rearm` when the loop has re-enabled the one-shot registration.
//! `on_data` buffers partial messages per connection; when the buffered
//! bytes end in the terminator it decodes the line, applies the command to
//! the store, and hands back the response followed by the prompt.
//!
//! A connection's receive buffer is bounded by `BUF_CAP`. A message whose
//! buffered length would pass that bound is rejected: the buffer is cleared
//! and the generic failure response is returned, so the connection stays
//! usable.

use crate::protocol::Command;
use crate::protocol::CommandModel;
use crate::protocol::CR;
use crate::protocol::LF;
use crate::protocol::Reason;
use crate::protocol::SPACE;
use crate::protocol::bytes_of_range;
use crate::protocol::decode;
use crate::protocol::first_space;
use crate::protocol::get_verb;
use crate::protocol::lemma_first_space;
use crate::protocol::resp_ok;
use crate::protocol::set_verb;
use crate::protocol::terminator;
use crate::protocol::make_err;
use crate::protocol::make_miss;
use crate::protocol::make_missing_key;
use crate::protocol::make_missing_value;
use crate::protocol::make_ok;
use crate::protocol::prompt;
use crate::protocol::push_prompt;
use crate::protocol::resp_err;
use crate::protocol::response_of;
use crate::protocol::spec_decode;
use crate::protocol::store_after;
use crate::store::Store;
use std::collections::HashMap;
use vstd::prelude::*;

verus! {

broadcast use vstd::std_specs::hash::group_hash_axioms;

/// Capacity of a connection's receive buffer, in bytes.
pub const BUF_CAP: usize = 1024;

/// Per-connection state: the bytes buffered so far and whether the
/// connection's one-shot readiness registration is currently armed.
pub struct Connection {
    buf: Vec<u8>,
    armed: bool,
}

/// The mathematical form of a connection's state.
pub struct ConnModel {
    pub buf: Seq<u8>,
    pub armed: bool,
}

impl View for Connection {
    type V = ConnModel;

    closed spec fn view(&self) -> ConnModel {
        ConnModel { buf: self.buf@, armed: self.armed }
    }
}

/// What one delivery of bytes does to a connection and the store.
pub struct StepModel {
    /// The connection's buffer afterwards.
    pub buf: Seq<u8>,
    /// The store afterwards.
    pub kv: Map<Seq<u8>, Seq<u8>>,
    /// The bytes owed to the client, if the delivery completed a message.
    pub out: Option<Seq<u8>>,
}

/// Does `s` end in the two-byte terminator?
pub open spec fn ends_with_terminator(s: Seq<u8>) -> bool {
    s.len() >= 2 && s[s.len() - 2] == CR && s[s.len() - 1] == LF
}

/// The effect of `data` arriving on a connection whose buffer holds `buf`,
/// with the store at `kv`.
///
/// The buffer is cumulative across deliveries until its two most recent
/// bytes are the terminator; then the buffered line (terminator excluded) is
/// decoded, the command is applied, and the response plus prompt is owed.
/// Bytes that would grow the buffer past `BUF_CAP` discard the message and
/// owe the generic failure response plus prompt instead.
pub open spec fn spec_step(buf: Seq<u8>, kv: Map<Seq<u8>, Seq<u8>>, data: Seq<u8>) -> StepModel {
    let joined = buf + data;
    if joined.len() > BUF_CAP {
        StepModel { buf: Seq::empty(), kv, out: Some(resp_err() + prompt()) }
    } else if ends_with_terminator(joined) {
        let cmd = spec_decode(joined.subrange(0, joined.len() - 2));
        StepModel {
            buf: Seq::empty(),
            kv: store_after(kv, cmd),
            out: Some(response_of(kv, cmd) + prompt()),
        }
    } else {
        StepModel { buf: joined, kv, out: None }
    }
}

/// Law: a message split across partial deliveries acts exactly as the same
/// bytes delivered whole — provided the earlier delivery completed no
/// message, its bytes only accumulate.
pub proof fn lemma_split_reads(buf: Seq<u8>, kv: Map<Seq<u8>, Seq<u8>>, a: Seq<u8>, b: Seq<u8>)
    requires
        spec_step(buf, kv, a).out is None,
    ensures
        spec_step(spec_step(buf, kv, a).buf, spec_step(buf, kv, a).kv, b) == spec_step(
            buf,
            kv,
            a + b,
        ),
{
    assert((buf + a) + b =~= buf + (a + b));
}

/// Law: for every key `k` (non-empty, without spaces) and every value `v`,
/// the byte message `set k v\r\n` arriving on an empty buffer answers the
/// acknowledgement, and the byte message `get k\r\n` then answers `v` and
/// the terminator — the full pipeline from wire bytes through decoding to
/// the store, from any connection, since the store is shared.
pub proof fn lemma_wire_set_then_get(kv: Map<Seq<u8>, Seq<u8>>, k: Seq<u8>, v: Seq<u8>)
    requires
        k.len() > 0,
        forall|i: int| 0 <= i < k.len() ==> k[i] != SPACE,
        4 + k.len() + 1 + v.len() + 2 <= BUF_CAP,
    ensures
        ({
            let set_msg = set_verb() + k + seq![SPACE] + v + terminator();
            let get_msg = get_verb() + k + terminator();
            let r1 = spec_step(Seq::empty(), kv, set_msg);
            let r2 = spec_step(Seq::empty(), r1.kv, get_msg);
            &&& r1.out == Some(resp_ok() + prompt())
            &&& r2.kv == r1.kv
            &&& r2.out == Some(v + terminator() + prompt())
        }),
{
    let set_msg = set_verb() + k + seq![SPACE] + v + terminator();
    let get_msg = get_verb() + k + terminator();

    // The `set` message dispatches and decodes to the intended command.
    assert(Seq::empty() + set_msg =~= set_msg);
    assert(ends_with_terminator(set_msg));
    let line1 = set_msg.subrange(0, set_msg.len() - 2);
    assert(line1 =~= set_verb() + k + seq![SPACE] + v);
    assert(line1.subrange(0, 4) =~= set_verb());
    let rest1 = line1.skip(4);
    assert(rest1 =~= k + seq![SPACE] + v);
    lemma_first_space(rest1);
    let fs = first_space(rest1);
    assert(rest1[k.len() as int] == SPACE);
    if fs < k.len() {
        assert(rest1[fs] == k[fs]);
        assert(false);
    }
    if fs > k.len() {
        assert(false);
    }
    assert(spec_decode(line1) == (CommandModel::Put {
        key: rest1.subrange(0, k.len() as int),
        value: rest1.skip(k.len() as int + 1),
    }));
    assert(rest1.subrange(0, k.len() as int) =~= k);
    assert(rest1.skip(k.len() as int + 1) =~= v);
    let r1 = spec_step(Seq::empty(), kv, set_msg);
    assert(r1.kv == kv.insert(k, v));

    // The `get` message dispatches and reads the fresh binding back.
    assert(Seq::empty() + get_msg =~= get_msg);
    assert(ends_with_terminator(get_msg));
    let line2 = get_msg.subrange(0, get_msg.len() - 2);
    assert(line2 =~= get_verb() + k);
    assert(line2.subrange(0, 4) =~= get_verb());
    assert(line2.subrange(0, 4) != set_verb()) by {
        assert(set_verb()[0] == 115);
        assert(get_verb()[0] == 103);
    }
    assert(line2.skip(4) =~= k);
    assert(spec_decode(line2) == (CommandModel::Get { key: k }));
}

/// What `on_data` reports for one delivery of bytes.
#[derive(Debug, PartialEq, Eq)]
pub enum DataOutcome {
    /// The identifier names no live connection (it is stale).
    NotFound,
    /// The bytes were buffered; no message is complete yet.
    Pending,
    /// A message completed (or overflowed): these bytes are owed to the
    /// client.
    Reply(Vec<u8>),
}

/// Apply a decoded command to the store and produce the response bytes.
pub fn apply(store: &mut Store, cmd: Command) -> (resp: Vec<u8>)
    requires
        old(store).wf(),
    ensures
        final(store).wf(),
        final(store)@ == store_after(old(store)@, cmd@),
        resp@ == response_of(old(store)@, cmd@),
{
    match cmd {
        Command::Put { key, value } => {
            store.set(key, value);
            make_ok()
        },
        Command::Get { key } => {
            let found = store.get(key.as_slice());
            match found {
                Some(v) => {
                    let mut resp = bytes_of_range(v.as_slice(), 0, v.len());
                    resp.push(CR);
                    resp.push(LF);
                    proof {
                        assert(resp@ =~= response_of(old(store)@, cmd@));
                    }
                    resp
                },
                None => make_miss(),
            }
        },
        Command::Malformed { reason } => {
            match reason {
                Reason::MissingKey => make_missing_key(),
                Reason::MissingValue => make_missing_value(),
            }
        },
        Command::Unknown => make_err(),
    }
}

/// The driver: the store and the connection registry, both owned by the one
/// loop thread.
pub struct Driver {
    store: Store,
    conns: HashMap<u64, Connection>,
}

impl Driver {
    /// The store's mathematical model.
    pub closed spec fn kv(&self) -> Map<Seq<u8>, Seq<u8>> {
        self.store@
    }

    /// The registry's mathematical model: connection identifier to state.
    pub closed spec fn conns_model(&self) -> Map<u64, ConnModel> {
        self.conns@.map_values(|c: Connection| c@)
    }

    /// Internal invariant: the store is well formed and every buffered
    /// message respects the buffer capacity.
    pub closed spec fn wf(&self) -> bool {
        &&& self.store.wf()
        &&& forall|id: u64| #[trigger]
            self.conns@.contains_key(id) ==> self.conns@[id].buf@.len() <= BUF_CAP
    }

    /// A driver with an empty store and no connections.
    pub fn new() -> (d: Driver)
        ensures
            d.wf(),
            d.kv() == Map::<Seq<u8>, Seq<u8>>::empty(),
            d.conns_model() == Map::<u64, ConnModel>::empty(),
    {
        let d = Driver { store: Store::new(), conns: HashMap::new() };
        proof {
            assert(d.conns_model() =~= Map::<u64, ConnModel>::empty());
        }
        d
    }

    /// Register a newly accepted connection under `id`, armed and with an
    /// empty buffer, and hand back the prompt owed to the new client.
    pub fn on_accept(&mut self, id: u64) -> (out: Vec<u8>)
        requires
            old(self).wf(),
        ensures
            final(self).wf(),
            final(self).kv() == old(self).kv(),
            final(self).conns_model() == old(self).conns_model().insert(
                id,
                (ConnModel { buf: Seq::empty(), armed: true }),
            ),
            out@ == prompt(),
    {
        let conn = Connection { buf: Vec::new(), armed: true };
        self.conns.insert(id, conn);
        let mut out: Vec<u8> = Vec::new();
        push_prompt(&mut out);
        proof {
            assert(out@ =~= prompt());
            assert(self.conns_model() =~= old(self).conns_model().insert(
                id,
                (ConnModel { buf: Seq::empty(), armed: true }),
            ));
        }
        out
    }

    /// Drop the connection under `id`, reporting whether it was live. The
    /// store is untouched.
    pub fn remove(&mut self, id: u64) -> (found: bool)
        requires
            old(self).wf(),
        ensures
            final(self).wf(),
            final(self).kv() == old(self).kv(),
            final(self).conns_model() == old(self).conns_model().remove(id),
            found == old(self).conns_model().contains_key(id),
    {
        let taken = self.conns.remove(&id);
        proof {
            assert(self.conns_model() =~= old(self).conns_model().remove(id));
        }
        match taken {
            Some(_) => true,
            None => false,
        }
    }

    /// Record that the loop has re-enabled `id`'s one-shot registration,
    /// reporting whether the connection is live.
    pub fn rearm(&mut self, id: u64) -> (found: bool)
        requires
            old(self).wf(),
        ensures
            final(self).wf(),
            final(self).kv() == old(self).kv(),
            found == old(self).conns_model().contains_key(id),
            found ==> final(self).conns_model() == old(self).conns_model().insert(
                id,
                (ConnModel { buf: old(self).conns_model()[id].buf, armed: true }),
            ),
            !found ==> final(self).conns_model() == old(self).conns_model(),
    {
        let taken = self.conns.remove(&id);
        match taken {
            Some(mut conn) => {
                conn.armed = true;
                self.conns.insert(id, conn);
                proof {
                    assert(self.conns_model() =~= old(self).conns_model().insert(
                        id,
                        (ConnModel { buf: old(self).conns_model()[id].buf, armed: true }),
                    ));
                }
                true
            },
            None => {
                proof {
                    assert(self.conns@ =~= old(self).conns@);
                    assert(self.conns_model() =~= old(self).conns_model());
                }
                false
            },
        }
    }

    /// Is `id` a live connection?
    pub fn has_conn(&self, id: u64) -> (r: bool)
        ensures
            r == self.conns_model().contains_key(id),
    {
        self.conns.contains_key(&id)
    }

    /// Is `id` live with its readiness registration armed?
    pub fn is_armed(&self, id: u64) -> (r: bool)
        ensures
            r == (self.conns_model().contains_key(id) && self.conns_model()[id].armed),
    {
        let found = self.conns.get(&id);
        match found {
            Some(conn) => conn.armed,
            None => false,
        }
    }

    /// Deliver bytes read from connection `id`.
    ///
    /// The delivery disarms the connection (its one-shot registration has
    /// fired); the loop re-arms through `rearm` once it has handled the
    /// outcome. The buffer, store and owed bytes change exactly as
    /// `spec_step` says.
    pub fn on_data(&mut self, id: u64, data: &[u8]) -> (r: DataOutcome)
        requires
            old(self).wf(),
        ensures
            final(self).wf(),
            match r {
                DataOutcome::NotFound => {
                    &&& !old(self).conns_model().contains_key(id)
                    &&& final(self).kv() == old(self).kv()
                    &&& final(self).conns_model() == old(self).conns_model()
                },
                DataOutcome::Pending => {
                    let st = spec_step(old(self).conns_model()[id].buf, old(self).kv(), data@);
                    &&& old(self).conns_model().contains_key(id)
                    &&& st.out is None
                    &&& final(self).kv() == st.kv
                    &&& final(self).conns_model() == old(self).conns_model().insert(
                        id,
                        (ConnModel { buf: st.buf, armed: false }),
                    )
                },
                DataOutcome::Reply(out) => {
                    let st = spec_step(old(self).conns_model()[id].buf, old(self).kv(), data@);
                    &&& old(self).conns_model().contains_key(id)
                    &&& st.out == Some(out@)
                    &&& final(self).kv() == st.kv
                    &&& final(self).conns_model() == old(self).conns_model().insert(
                        id,
                        (ConnModel { buf: st.buf, armed: false }),
                    )
                },
            },
    {
        let taken = self.conns.remove(&id);
        match taken {
            None => {
                proof {
                    assert(self.conns@ =~= old(self).conns@);
                    assert(self.conns_model() =~= old(self).conns_model());
                }
                DataOutcome::NotFound
            },
            Some(mut conn) => {
                proof {
                    assert(old(self).conns@[id] == conn);
                    assert(conn.buf@.len() <= BUF_CAP);
                }
                let ghost old_buf = conn.buf@;
                conn.armed = false;
                if data.len() > BUF_CAP - conn.buf.len() {
                    conn.buf.clear();
                    let mut out = make_err();
                    push_prompt(&mut out);
                    self.conns.insert(id, conn);
                    proof {
                        assert(self.conns_model() =~= old(self).conns_model().insert(
                            id,
                            (ConnModel { buf: Seq::empty(), armed: false }),
                        ));
                    }
                    DataOutcome::Reply(out)
                } else {
                    conn.buf.extend_from_slice(data);
                    proof {
                        assert(conn.buf@ =~= old_buf + data@);
                    }
                    let n = conn.buf.len();
                    if n >= 2 && conn.buf[n - 2] == CR && conn.buf[n - 1] == LF {
                        let cmd = decode(&conn.buf[0..n - 2]);
                        let mut out = apply(&mut self.store, cmd);
                        push_prompt(&mut out);
                        conn.buf.clear();
                        self.conns.insert(id, conn);
                        proof {
                            assert(self.conns_model() =~= old(self).conns_model().insert(
                                id,
                                (ConnModel { buf: Seq::empty(), armed: false }),
                            ));
                        }
                        DataOutcome::Reply(out)
                    } else {
                        self.conns.insert(id, conn);
                        proof {
                            assert(self.conns_model() =~= old(self).conns_model().insert(
                                id,
                                (ConnModel { buf: old_buf + data@, armed: false }),
                            ));
                        }
                        DataOutcome::Pending
                    }
                }
            },
        }
    }
}

} // verus!
