//! The broadcast hub: the connection registry, the shared click counters, and
//! the per-session protocol step. Every registered connection owns a sink (a
//! non-blocking, unbounded, FIFO enqueue handle); handling one inbound frame
//! is a single atomic step over this state, and the step's contract pins both
//! the new state and the full delivery plan: which message goes to which
//! connection.

use vstd::prelude::*;
use std::collections::HashMap;
use crate::codec::ClientMessage;
use crate::codec::ServerMessage;
use crate::codec::decode_client;
use crate::codec::encode_message;
use crate::codec::spec_decode;

verus! {

broadcast use vstd::std_specs::hash::group_hash_axioms;

/// The outbound sink of one connection.
pub type Sink = futures_channel::mpsc::UnboundedSender<String>;

/// Declares the outside sender type so that it can stand in the registry.
#[verifier::external_type_specification]
#[verifier::external_body]
#[verifier::reject_recursive_types(T)]
pub struct ExUnboundedSender<T>(futures_channel::mpsc::UnboundedSender<T>);

/// Relies on futures_channel's `UnboundedSender::unbounded_send`: a
/// non-blocking enqueue onto the receiver's FIFO queue, which fails exactly
/// when the receiving end has been closed or dropped. Nothing is claimed of
/// the outcome: a failed enqueue is recovered from by skipping the recipient.
#[verifier::external_body]
fn sink_send(tx: &Sink, text: String) -> (r: bool) {
    tx.unbounded_send(text).is_ok()
}

/// Relies on chrono's `Utc::now` and `DateTime::to_rfc3339`: the wall-clock
/// time of the call, rendered as an RFC 3339 timestamp with offset. The result
/// depends on the clock, so nothing is claimed of it.
#[verifier::external_body]
fn now_rfc3339() -> (r: String) {
    chrono::Utc::now().to_rfc3339()
}

/// The hub's abstract state: the running total, each connection's click
/// count, and the registered connection ids in registry order.
#[verifier::ext_equal]
pub ghost struct HubModel {
    pub total: int,
    pub clicks: Map<u64, int>,
    pub regs: Seq<u64>,
}

/// One click by `id`: the total and `id`'s own count each grow by one
/// (a first click creates the count), and the registry is untouched.
pub open spec fn click_step(m: HubModel, id: u64) -> HubModel {
    HubModel {
        total: m.total + 1,
        clicks: m.clicks.insert(
            id,
            if m.clicks.contains_key(id) {
                m.clicks[id] + 1
            } else {
                1
            },
        ),
        regs: m.regs,
    }
}

/// The broadcast recipients: the registered ids with `excluded` left out,
/// in registry order.
pub open spec fn others(regs: Seq<u64>, excluded: u64) -> Seq<u64>
    decreases regs.len(),
{
    if regs.len() == 0 {
        Seq::empty()
    } else {
        others(regs.drop_last(), excluded) + (if regs.last() == excluded {
            Seq::<u64>::empty()
        } else {
            seq![regs.last()]
        })
    }
}

/// One planned delivery: a message bound for one connection's sink.
pub struct Delivery {
    pub to: u64,
    pub msg: ServerMessage,
}

/// The delivery plan of one click by `id`: first the personal
/// acknowledgment, then one global update to every other registered
/// connection, in registry order.
pub open spec fn click_plan(
    plan: Seq<Delivery>,
    id: u64,
    client_total: u64,
    new_total: u64,
    stamp: Seq<char>,
    regs: Seq<u64>,
) -> bool {
    let rest = others(regs, id);
    &&& plan.len() == 1 + rest.len()
    &&& plan[0].to == id
    &&& plan[0].msg matches ServerMessage::ClickResponse { client_clicks, total_clicks, timestamp }
        && client_clicks == client_total && total_clicks == new_total && timestamp@ == stamp
    &&& forall|k: int|
        0 <= k < rest.len() ==> #[trigger] plan[k + 1].to == rest[k] && plan[k + 1].msg
            == (ServerMessage::GlobalUpdate { total_clicks: new_total })
}

/// The hub: total and per-connection click counts, plus the registry from
/// connection id to sink.
pub struct Hub {
    total_clicks: u64,
    client_clicks: HashMap<u64, u64>,
    registry: Vec<(u64, Sink)>,
}

impl Hub {
    /// The running total of clicks ever processed.
    pub closed spec fn total(self) -> u64 {
        self.total_clicks
    }

    /// The per-connection click counts.
    pub closed spec fn clicks_of(self) -> Map<u64, u64> {
        self.client_clicks@
    }

    /// The registered connection ids, in registry order.
    pub closed spec fn reg_ids(self) -> Seq<u64> {
        self.registry@.map_values(|e: (u64, Sink)| e.0)
    }

    pub open spec fn is_registered(self, id: u64) -> bool {
        self.reg_ids().contains(id)
    }

    /// `id`'s click count, zero while no click of it is recorded.
    pub open spec fn client_count(self, id: u64) -> int {
        if self.clicks_of().contains_key(id) {
            self.clicks_of()[id] as int
        } else {
            0
        }
    }

    /// Well-formedness: ids are registered at most once, a click count exists
    /// only for a registered connection, and no count exceeds the total.
    pub open spec fn wf(self) -> bool {
        &&& forall|i: int, j: int|
            0 <= i < j < self.reg_ids().len() ==> self.reg_ids()[i] != self.reg_ids()[j]
        &&& forall|id: u64| self.clicks_of().contains_key(id) ==> self.is_registered(id)
        &&& forall|id: u64|
            self.clicks_of().contains_key(id) ==> #[trigger] self.clicks_of()[id] <= self.total()
    }

    /// The hub's abstract state.
    pub open spec fn model(self) -> HubModel {
        HubModel {
            total: self.total() as int,
            clicks: self.clicks_of().map_values(|v: u64| v as int),
            regs: self.reg_ids(),
        }
    }

    /// A fresh hub: no clicks ever, nobody registered.
    pub fn new() -> (r: Hub)
        ensures
            r.total() == 0,
            r.clicks_of() == Map::<u64, u64>::empty(),
            r.reg_ids() == Seq::<u64>::empty(),
            r.wf(),
    {
        let r = Hub { total_clicks: 0, client_clicks: HashMap::new(), registry: Vec::new() };
        proof {
            assert(r.reg_ids() =~= Seq::<u64>::empty());
        }
        r
    }

    /// A read-only snapshot of the total, used at connection-init time.
    pub fn current_total(&self) -> (r: u64)
        ensures
            r == self.total(),
    {
        self.total_clicks
    }

    /// The registry index under which `id` stands, if it is registered.
    fn find_index(&self, id: u64) -> (r: Option<usize>)
        ensures
            match r {
                Some(i) => i < self.reg_ids().len() && self.reg_ids()[i as int] == id,
                None => !self.is_registered(id),
            },
    {
        let mut i: usize = 0;
        loop
            invariant
                i <= self.registry.len(),
                forall|t: int| 0 <= t < i ==> self.reg_ids()[t] != id,
            decreases self.registry.len() - i,
        {
            if i == self.registry.len() {
                proof {
                    assert(!self.reg_ids().contains(id));
                }
                return None;
            }
            let e = &self.registry[i];
            if e.0 == id {
                proof {
                    assert(self.reg_ids()[i as int] == id);
                }
                return Some(i);
            }
            i = i + 1;
        }
    }

    /// Whether `id` is currently registered.
    pub fn is_connected(&self, id: u64) -> (r: bool)
        ensures
            r == self.is_registered(id),
    {
        match self.find_index(id) {
            Some(_) => {
                proof {
                    assert(self.reg_ids().contains(id));
                }
                true
            },
            None => false,
        }
    }

    /// Enqueues `text` on exactly one recipient's sink; a no-op when the id
    /// is not registered. Returns whether the id was registered.
    pub fn send_to(&self, id: u64, text: &str) -> (r: bool)
        ensures
            r == self.is_registered(id),
    {
        match self.find_index(id) {
            Some(i) => {
                let e = &self.registry[i];
                let _ = sink_send(&e.1, text.to_owned());
                proof {
                    assert(self.reg_ids().contains(id));
                }
                true
            },
            None => false,
        }
    }

    /// Enqueues `text` on the sink of every registered connection except
    /// `excluded`, in registry order; a failed enqueue to one recipient does
    /// not keep the rest from theirs. Returns the recipients.
    pub fn broadcast_except(&self, excluded: u64, text: &str) -> (sent: Vec<u64>)
        ensures
            sent@ == others(self.reg_ids(), excluded),
    {
        let mut sent: Vec<u64> = Vec::new();
        let mut i: usize = 0;
        proof {
            assert(sent@ =~= others(self.reg_ids().take(0), excluded));
        }
        loop
            invariant
                i <= self.registry.len(),
                self.reg_ids().len() == self.registry@.len(),
                sent@ == others(self.reg_ids().take(i as int), excluded),
            decreases self.registry.len() - i,
        {
            if i == self.registry.len() {
                proof {
                    assert(self.reg_ids().take(i as int) =~= self.reg_ids());
                }
                return sent;
            }
            proof {
                let pre = self.reg_ids().take(i as int);
                let cur = self.reg_ids().take(i as int + 1);
                assert(cur.drop_last() =~= pre);
                assert(cur.last() == self.reg_ids()[i as int]);
            }
            let e = &self.registry[i];
            if e.0 != excluded {
                let _ = sink_send(&e.1, text.to_owned());
                sent.push(e.0);
                proof {
                    assert(sent@ =~= others(self.reg_ids().take(i as int), excluded) + seq![
                        self.reg_ids()[i as int],
                    ]);
                }
            }
            i = i + 1;
        }
    }

    /// Registers `id` under a fresh sink and enqueues the `init` message,
    /// carrying the current total, on it. The id must not be registered: a
    /// collision is an id-allocation bug of the caller.
    pub fn connect(&mut self, id: u64, sink: Sink) -> (plan: Vec<Delivery>)
        requires
            old(self).wf(),
            !old(self).is_registered(id),
        ensures
            final(self).wf(),
            final(self).reg_ids() == old(self).reg_ids().push(id),
            final(self).total() == old(self).total(),
            final(self).clicks_of() == old(self).clicks_of(),
            plan@ == seq![
                Delivery { to: id, msg: ServerMessage::Init { total_clicks: old(self).total() } },
            ],
    {
        self.registry.push((id, sink));
        proof {
            assert(self.reg_ids() =~= old(self).reg_ids().push(id));
            assert forall|t: int| 0 <= t < old(self).reg_ids().len() implies old(
                self,
            ).reg_ids()[t] != id by {
                if old(self).reg_ids()[t] == id {
                    assert(old(self).reg_ids().contains(id));
                }
            }
            assert forall|jid: u64| self.clicks_of().contains_key(jid) implies self.is_registered(
                jid,
            ) by {
                assert(old(self).is_registered(jid));
                let t = choose|t: int|
                    0 <= t < old(self).reg_ids().len() && old(self).reg_ids()[t] == jid;
                assert(self.reg_ids()[t] == jid);
            }
        }
        let msg = ServerMessage::Init { total_clicks: self.total_clicks };
        let text = encode_message(&msg);
        self.send_to(id, text.as_str());
        let mut plan: Vec<Delivery> = Vec::new();
        plan.push(Delivery { to: id, msg });
        proof {
            assert(plan@ =~= seq![
                Delivery { to: id, msg: ServerMessage::Init { total_clicks: old(self).total() } },
            ]);
        }
        plan
    }

    /// Records one click by `id`: the sole mutator of the click counts.
    /// Returns the new per-connection count and the new total.
    pub fn record_click(&mut self, id: u64) -> (r: (u64, u64))
        requires
            old(self).wf(),
            old(self).is_registered(id),
            old(self).total() < u64::MAX,
        ensures
            final(self).wf(),
            final(self).reg_ids() == old(self).reg_ids(),
            final(self).total() == old(self).total() + 1,
            r.0 == old(self).client_count(id) + 1,
            r.1 == final(self).total(),
            final(self).clicks_of() == old(self).clicks_of().insert(id, r.0),
            final(self).model() == click_step(old(self).model(), id),
    {
        self.total_clicks = self.total_clicks + 1;
        let prev = match self.client_clicks.get(&id) {
            Some(v) => *v,
            None => 0,
        };
        proof {
            if old(self).clicks_of().contains_key(id) {
                assert(old(self).clicks_of()[id] <= old(self).total());
            }
        }
        let count = prev + 1;
        self.client_clicks.insert(id, count);
        proof {
            assert(self.model().clicks =~= click_step(old(self).model(), id).clicks);
            assert(self.model() =~= click_step(old(self).model(), id));
            assert forall|jid: u64|
                #[trigger] self.clicks_of().contains_key(jid) implies self.is_registered(jid) by {
                if jid != id {
                    assert(old(self).clicks_of().contains_key(jid));
                    assert(old(self).is_registered(jid));
                }
            }
            assert forall|jid: u64|
                self.clicks_of().contains_key(jid) implies #[trigger] self.clicks_of()[jid]
                <= self.total() by {
                if jid == id {
                    assert(self.clicks_of()[id] == count);
                } else {
                    assert(old(self).clicks_of().contains_key(jid));
                    assert(old(self).clicks_of()[jid] <= old(self).total());
                }
            }
        }
        (count, self.total_clicks)
    }

    /// Tears `id` down: removes it from the registry and forgets its click
    /// count; the total is untouched. A no-op when the id is not registered.
    pub fn disconnect(&mut self, id: u64)
        requires
            old(self).wf(),
        ensures
            final(self).wf(),
            final(self).total() == old(self).total(),
            final(self).clicks_of() == old(self).clicks_of().remove(id),
            !final(self).is_registered(id),
            forall|j: u64|
                j != id ==> (final(self).is_registered(j) <==> old(self).is_registered(j)),
            final(self).reg_ids().len() == old(self).reg_ids().len() - (if old(
                self,
            ).is_registered(id) {
                1int
            } else {
                0int
            }),
    {
        let ghost old_regs = self.reg_ids();
        match self.find_index(id) {
            Some(i) => {
                proof {
                    assert(self.reg_ids().contains(id));
                    assert(old_regs.len() == self.registry@.len());
                }
                let ghost k = i as int;
                self.registry.remove(i);
                proof {
                    assert(self.reg_ids() =~= old_regs.remove(k));
                    lemma_remove_registered(old_regs, k, id);
                }
            },
            None => {
            },
        }
        self.client_clicks.remove(&id);
        proof {
            assert(self.clicks_of() =~= old(self).clicks_of().remove(id));
            assert forall|jid: u64| self.clicks_of().contains_key(jid) implies self.is_registered(
                jid,
            ) by {
                assert(old(self).is_registered(jid));
                assert(jid != id);
            }
        }
    }

    /// One protocol step of a session in the `Established` state: decodes one
    /// inbound frame from `id` and acts on it. A `click` is recorded, answered
    /// with a personal `click_response` stamped `stamp`, and broadcast as a
    /// `global_update` to every other registered connection; a `ping` is
    /// answered with a personal `pong` and changes nothing; a malformed or
    /// unrecognized frame is dropped with no reply and no state change.
    /// Returns the delivery plan, each entry of which was enqueued on its
    /// recipient's sink in plan order.
    pub fn handle_frame(&mut self, id: u64, text: &str, stamp: String) -> (plan: Vec<Delivery>)
        requires
            old(self).wf(),
            old(self).is_registered(id),
            spec_decode(text@) == Some(ClientMessage::Click) ==> old(self).total() < u64::MAX,
        ensures
            final(self).wf(),
            final(self).reg_ids() == old(self).reg_ids(),
            match spec_decode(text@) {
                Some(ClientMessage::Click) => {
                    &&& final(self).model() == click_step(old(self).model(), id)
                    &&& click_plan(
                        plan@,
                        id,
                        (old(self).client_count(id) + 1) as u64,
                        (old(self).total() + 1) as u64,
                        stamp@,
                        old(self).reg_ids(),
                    )
                },
                Some(ClientMessage::Ping) => {
                    &&& *final(self) == *old(self)
                    &&& plan@ == seq![Delivery { to: id, msg: ServerMessage::Pong }]
                },
                None => {
                    &&& *final(self) == *old(self)
                    &&& plan@ == Seq::<Delivery>::empty()
                },
            },
    {
        let mut plan: Vec<Delivery> = Vec::new();
        match decode_client(text) {
            None => {
                proof {
                    assert(plan@ =~= Seq::<Delivery>::empty());
                }
                plan
            },
            Some(ClientMessage::Ping) => {
                let pong = ServerMessage::Pong;
                let reply = encode_message(&pong);
                self.send_to(id, reply.as_str());
                plan.push(Delivery { to: id, msg: pong });
                proof {
                    assert(plan@ =~= seq![Delivery { to: id, msg: ServerMessage::Pong }]);
                }
                plan
            },
            Some(ClientMessage::Click) => {
                let counts = self.record_click(id);
                let resp = ServerMessage::ClickResponse {
                    client_clicks: counts.0,
                    total_clicks: counts.1,
                    timestamp: stamp,
                };
                let reply = encode_message(&resp);
                self.send_to(id, reply.as_str());
                plan.push(Delivery { to: id, msg: resp });
                let update = encode_message(
                    &(ServerMessage::GlobalUpdate { total_clicks: counts.1 }),
                );
                let recipients = self.broadcast_except(id, update.as_str());
                let mut k: usize = 0;
                while k < recipients.len()
                    invariant
                        k <= recipients.len(),
                        recipients@ == others(old(self).reg_ids(), id),
                        plan@.len() == 1 + k,
                        plan@[0].to == id,
                        plan@[0].msg matches ServerMessage::ClickResponse {
                            client_clicks,
                            total_clicks,
                            timestamp,
                        } && client_clicks == counts.0 && total_clicks == counts.1 && timestamp@
                            == stamp@,
                        forall|t: int|
                            0 <= t < k ==> #[trigger] plan@[t + 1].to == recipients@[t]
                                && plan@[t + 1].msg == (ServerMessage::GlobalUpdate {
                                total_clicks: counts.1,
                            }),
                    decreases recipients.len() - k,
                {
                    let to = recipients[k];
                    plan.push(Delivery { to, msg: ServerMessage::GlobalUpdate {
                        total_clicks: counts.1,
                    } });
                    k = k + 1;
                }
                proof {
                    assert(click_plan(
                        plan@,
                        id,
                        (old(self).client_count(id) + 1) as u64,
                        (old(self).total() + 1) as u64,
                        stamp@,
                        old(self).reg_ids(),
                    ));
                }
                plan
            },
        }
    }

    /// `handle_frame` with the acknowledgment stamped by the wall clock.
    pub fn handle_frame_now(&mut self, id: u64, text: &str) -> (plan: Vec<Delivery>)
        requires
            old(self).wf(),
            old(self).is_registered(id),
            spec_decode(text@) == Some(ClientMessage::Click) ==> old(self).total() < u64::MAX,
        ensures
            final(self).wf(),
            final(self).reg_ids() == old(self).reg_ids(),
            match spec_decode(text@) {
                Some(ClientMessage::Click) => {
                    &&& final(self).model() == click_step(old(self).model(), id)
                    &&& exists|stamp: Seq<char>|
                        #[trigger] click_plan(
                            plan@,
                            id,
                            (old(self).client_count(id) + 1) as u64,
                            (old(self).total() + 1) as u64,
                            stamp,
                            old(self).reg_ids(),
                        )
                },
                Some(ClientMessage::Ping) => {
                    &&& *final(self) == *old(self)
                    &&& plan@ == seq![Delivery { to: id, msg: ServerMessage::Pong }]
                },
                None => {
                    &&& *final(self) == *old(self)
                    &&& plan@ == Seq::<Delivery>::empty()
                },
            },
    {
        let stamp = now_rfc3339();
        let ghost witness = stamp@;
        let plan = self.handle_frame(id, text, stamp);
        proof {
            if spec_decode(text@) == Some(ClientMessage::Click) {
                assert(click_plan(
                    plan@,
                    id,
                    (old(self).client_count(id) + 1) as u64,
                    (old(self).total() + 1) as u64,
                    witness,
                    old(self).reg_ids(),
                ));
            }
        }
        plan
    }
}

/// Removing the one index holding `id` from a duplicate-free id sequence
/// leaves a duplicate-free sequence from which `id` is absent and in which
/// every other id keeps its presence.
proof fn lemma_remove_registered(regs: Seq<u64>, k: int, id: u64)
    requires
        0 <= k < regs.len(),
        regs[k] == id,
        forall|i: int, j: int| 0 <= i < j < regs.len() ==> regs[i] != regs[j],
    ensures
        !regs.remove(k).contains(id),
        forall|j: u64| j != id ==> (regs.remove(k).contains(j) <==> regs.contains(j)),
        forall|i: int, j: int|
            0 <= i < j < regs.remove(k).len() ==> regs.remove(k)[i] != regs.remove(k)[j],
{
    let r = regs.remove(k);
    assert forall|t: int| 0 <= t < r.len() implies r[t] != id by {
        if t < k {
            assert(regs[t] != regs[k]);
        } else {
            assert(regs[t + 1] != regs[k]);
        }
    }
    assert(!r.contains(id));
    assert forall|j: u64| j != id && regs.contains(j) implies r.contains(j) by {
        let t = choose|t: int| 0 <= t < regs.len() && regs[t] == j;
        if t < k {
            assert(r[t] == j);
        } else {
            assert(t != k);
            assert(r[t - 1] == j);
        }
    }
    assert forall|j: u64| j != id && r.contains(j) implies regs.contains(j) by {
        let t = choose|t: int| 0 <= t < r.len() && r[t] == j;
        if t < k {
            assert(regs[t] == j);
        } else {
            assert(regs[t + 1] == j);
        }
    }
}

} // verus!
