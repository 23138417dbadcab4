//! The dispatch manager: the one actor that pairs customers with agents.
//!
//! It owns the agent pool (round robin), the waiting-customer queue
//! (first in, first out) and the room registry.  A newly announced agent
//! joins the pool; a newly announced customer is paired at once when an
//! agent is available, and queued otherwise; a periodic pass retries the
//! front of the queue.  Pairing creates a room whose id is the customer's
//! id and the agent's id joined by `-`, and asks that room to admit both
//! parties — those two join requests stand first in the room's mailbox,
//! so both join notifications precede any later message of that room.

use vstd::prelude::*;

use std::collections::VecDeque;

use crate::chat::{ConnMessage, DispatchMessage, SessionMessage};
use crate::collection::Cursor;
use crate::conn::ConnHandle;
use crate::member::UserType;
use crate::protocol::RoomId;
use crate::room::RoomHandle;

verus! {

/// What the dispatch manager asks of the outside world: start a room
/// actor for a fresh handle, or drop a request into a room's mailbox.
#[derive(Debug, Clone)]
pub enum DispatchEffect {
    CreateRoom { handle: RoomHandle },
    RoomSend { room: RoomHandle, msg: DispatchMessage },
}

/// The room id derived at pairing time: customer id, separator, agent id.
pub open spec fn derived_room_id(c: ConnHandle, cs: ConnHandle) -> Seq<char> {
    c.member.id@ + "-"@ + cs.member.id@
}

/// The requests a pairing produces, in order: start the room, admit the
/// customer, admit the agent.
pub open spec fn paired_effects(handle: RoomHandle, c: ConnHandle, cs: ConnHandle) -> Seq<
    DispatchEffect,
> {
    seq![
        DispatchEffect::CreateRoom { handle },
        DispatchEffect::RoomSend { room: handle, msg: DispatchMessage::OnJoin { conn_handle: c } },
        DispatchEffect::RoomSend { room: handle, msg: DispatchMessage::OnJoin { conn_handle: cs } },
    ]
}

/// The first index holding this room id, or the length if none does.
pub open spec fn room_index(rooms: Seq<RoomHandle>, id: Seq<char>) -> int
    decreases rooms.len(),
{
    if rooms.len() == 0 {
        0
    } else if rooms[0].room_id@ == id {
        0
    } else {
        1 + room_index(rooms.skip(1), id)
    }
}

/// The registry entry for this room id, if one exists.
pub open spec fn room_lookup(rooms: Seq<RoomHandle>, id: Seq<char>) -> Option<RoomHandle> {
    let i = room_index(rooms, id);
    if i < rooms.len() {
        Some(rooms[i])
    } else {
        None
    }
}

/// A registry after registering `h`: the entry with the same id is
/// replaced if one exists, else `h` is appended.
pub open spec fn registry_upsert(rooms: Seq<RoomHandle>, h: RoomHandle) -> Seq<RoomHandle> {
    let i = room_index(rooms, h.room_id@);
    if i < rooms.len() {
        rooms.update(i, h)
    } else {
        rooms.push(h)
    }
}

/// `room_index` is never negative and never beyond the length.
pub proof fn lemma_room_index_bounds(rooms: Seq<RoomHandle>, id: Seq<char>)
    ensures
        0 <= room_index(rooms, id) <= rooms.len(),
    decreases rooms.len(),
{
    if rooms.len() > 0 && rooms[0].room_id@ != id {
        lemma_room_index_bounds(rooms.skip(1), id);
    }
}

/// `room_index` points at a match when it is in range, and nothing before
/// it matches.
pub proof fn lemma_room_index_first(rooms: Seq<RoomHandle>, id: Seq<char>)
    ensures
        room_index(rooms, id) < rooms.len() ==> rooms[room_index(rooms, id)].room_id@ == id,
        forall|k: int| 0 <= k < room_index(rooms, id) ==> rooms[k].room_id@ != id,
    decreases rooms.len(),
{
    if rooms.len() > 0 && rooms[0].room_id@ != id {
        lemma_room_index_first(rooms.skip(1), id);
        lemma_room_index_bounds(rooms.skip(1), id);
        let sub = room_index(rooms.skip(1), id);
        if sub < rooms.skip(1).len() {
            assert(rooms.skip(1)[sub] == rooms[1 + sub]);
        }
        assert forall|k: int| 0 <= k < 1 + sub implies rooms[k].room_id@ != id by {
            if k > 0 {
                assert(rooms.skip(1)[k - 1] == rooms[k]);
                assert(rooms.skip(1)[k - 1].room_id@ != id);
            }
        }
    }
}

/// The dispatch manager's whole state: the room registry, the agent pool
/// and the waiting-customer queue, plus the next fresh room mailbox
/// address.  The mailboxes it reads from live outside the library.
#[derive(Debug)]
pub struct Manager {
    pub rooms: Vec<RoomHandle>,
    pub customer_services: Cursor<ConnHandle>,
    pub waiting_queue: VecDeque<ConnHandle>,
    pub next_room_mailbox: u64,
}

/// One pairing, as seen from outside: the effects carry a fresh room
/// handle whose id is derived from the pair, the room is registered, and
/// the room is asked to admit the customer and then the agent.
pub open spec fn spec_paired(
    pre: Manager,
    post: Manager,
    effects: Seq<DispatchEffect>,
    c: ConnHandle,
    cs: ConnHandle,
) -> bool {
    &&& effects.len() == 3
    &&& match effects[0] {
        DispatchEffect::CreateRoom { handle } => {
            &&& handle.room_id@ == derived_room_id(c, cs)
            &&& handle.mailbox == pre.next_room_mailbox
            &&& effects == paired_effects(handle, c, cs)
            &&& post.rooms@ == registry_upsert(pre.rooms@, handle)
        },
        _ => false,
    }
}

/// What `dispatch` does for a handle `c`: an agent is turned away, a
/// customer is paired with the agent under the cursor when the pool is
/// not empty, and is queued — with no notification of any kind — when it
/// is.
pub open spec fn spec_dispatched(
    pre: Manager,
    post: Manager,
    effects: Seq<DispatchEffect>,
    c: ConnHandle,
) -> bool {
    if c.member.spec_user_type() == UserType::CustomerService {
        post == pre && effects == Seq::<DispatchEffect>::empty()
    } else if pre.customer_services.items@.len() == 0 {
        &&& post.waiting_queue@ == pre.waiting_queue@.push(c)
        &&& post.customer_services == pre.customer_services
        &&& post.rooms@ == pre.rooms@
        &&& post.next_room_mailbox == pre.next_room_mailbox
        &&& effects == Seq::<DispatchEffect>::empty()
    } else {
        let cs = pre.customer_services.items@[pre.customer_services.cursor as int];
        &&& spec_paired(pre, post, effects, c, cs)
        &&& post.customer_services.items@ == pre.customer_services.items@
        &&& post.customer_services.cursor == pre.customer_services.served_index(1)
        &&& post.waiting_queue@ == pre.waiting_queue@
    }
}

impl Manager {
    /// The manager's invariant: a well-formed pool of agents only, a
    /// queue of customers only, and a registry with one entry per room
    /// id.
    pub open spec fn wf(self) -> bool {
        &&& self.customer_services.wf()
        &&& forall|i: int|
            0 <= i < self.customer_services.items@.len()
                ==> #[trigger] self.customer_services.items@[i].member.spec_user_type()
                == UserType::CustomerService
        &&& forall|i: int|
            0 <= i < self.waiting_queue@.len()
                ==> #[trigger] self.waiting_queue@[i].member.spec_user_type() == UserType::Customer
        &&& forall|i: int, j: int|
            0 <= i < j < self.rooms@.len() ==> self.rooms@[i].room_id@ != self.rooms@[j].room_id@
    }

    pub fn new() -> (r: Self)
        ensures
            r.rooms@ == Seq::<RoomHandle>::empty(),
            r.customer_services.items@ == Seq::<ConnHandle>::empty(),
            r.waiting_queue@ == Seq::<ConnHandle>::empty(),
            r.next_room_mailbox == 0,
            r.wf(),
    {
        Manager {
            rooms: Vec::new(),
            customer_services: Cursor::new(Vec::new()),
            waiting_queue: VecDeque::new(),
            next_room_mailbox: 0,
        }
    }

    /// The registry entry owning this room id, if any.
    fn find_room(&self, id: &RoomId) -> (r: Option<&RoomHandle>)
        ensures
            match r {
                Some(h) => room_lookup(self.rooms@, id@) == Some(*h),
                None => room_lookup(self.rooms@, id@) is None,
            },
    {
        let n = self.rooms.len();
        let mut i: usize = 0;
        while i < n
            invariant
                n == self.rooms@.len(),
                0 <= i <= n,
                forall|k: int| 0 <= k < i ==> self.rooms@[k].room_id@ != id@,
            decreases n - i,
        {
            if self.rooms[i].id().eq(id) {
                proof {
                    lemma_room_index_prefix(self.rooms@, id@, i as int);
                }
                return Some(&self.rooms[i]);
            }
            i = i + 1;
        }
        proof {
            lemma_room_index_at_end(self.rooms@, id@);
        }
        None
    }

    /// Derives the room id, registers a fresh room handle, and asks the
    /// new room to admit the customer and then the agent: their join
    /// notifications are the first requests that room ever receives.
    fn create_room(&mut self, c: ConnHandle, cs: ConnHandle) -> (effects: Vec<DispatchEffect>)
        requires
            old(self).wf(),
        ensures
            final(self).wf(),
            spec_paired(*old(self), *final(self), effects@, c, cs),
            final(self).customer_services == old(self).customer_services,
            final(self).waiting_queue@ == old(self).waiting_queue@,
            final(self).next_room_mailbox == if old(self).next_room_mailbox < u64::MAX {
                (old(self).next_room_mailbox + 1) as u64
            } else {
                old(self).next_room_mailbox
            },
    {
        let mut room_id = String::from_str(c.identity().id());
        room_id.append("-");
        room_id.append(cs.identity().id());

        let room_handle = RoomHandle::new(room_id, self.next_room_mailbox);
        if self.next_room_mailbox < u64::MAX {
            self.next_room_mailbox = self.next_room_mailbox + 1;
        }

        let ghost pre_rooms = self.rooms@;
        let n = self.rooms.len();
        let mut i: usize = 0;
        let mut found = false;
        while i < n && !found
            invariant
                n == self.rooms@.len(),
                self.rooms@ == pre_rooms,
                0 <= i <= n,
                !found ==> forall|k: int|
                    0 <= k < i ==> self.rooms@[k].room_id@ != room_handle.room_id@,
                found ==> i < n && self.rooms@[i as int].room_id@ == room_handle.room_id@
                    && forall|k: int|
                    0 <= k < i ==> self.rooms@[k].room_id@ != room_handle.room_id@,
            decreases n - i + (if found {
                0int
            } else {
                1int
            }),
        {
            if self.rooms[i].id().eq(room_handle.id()) {
                found = true;
            } else {
                i = i + 1;
            }
        }
        if found {
            proof {
                lemma_room_index_prefix(pre_rooms, room_handle.room_id@, i as int);
            }
            self.rooms.set(i, room_handle.clone());
        } else {
            proof {
                lemma_room_index_at_end(pre_rooms, room_handle.room_id@);
            }
            self.rooms.push(room_handle.clone());
        }
        proof {
            lemma_room_index_first(pre_rooms, room_handle.room_id@);
        }

        let mut effects: Vec<DispatchEffect> = Vec::new();
        effects.push(DispatchEffect::CreateRoom { handle: room_handle.clone() });
        effects.push(
            DispatchEffect::RoomSend {
                room: room_handle.clone(),
                msg: DispatchMessage::OnJoin { conn_handle: c },
            },
        );
        effects.push(
            DispatchEffect::RoomSend {
                room: room_handle.clone(),
                msg: DispatchMessage::OnJoin { conn_handle: cs },
            },
        );
        proof {
            assert(effects@ =~= paired_effects(
                effects@[0]->CreateRoom_handle,
                c,
                cs,
            ));
        }
        effects
    }

    /// Pairs a customer with the next agent in round-robin order, or
    /// queues the customer when no agent is available; an agent handed to
    /// this function is turned away unchanged.  A queued customer
    /// receives no notification of any kind until a later pass or
    /// announcement pairs it.
    pub fn dispatch(&mut self, customer: ConnHandle) -> (effects: Vec<DispatchEffect>)
        requires
            old(self).wf(),
        ensures
            final(self).wf(),
            spec_dispatched(*old(self), *final(self), effects@, customer),
    {
        if customer.identity().is_customer_service() {
            return Vec::new();
        }

        if self.customer_services.is_empty() {
            self.waiting_queue.push_back(customer);
            return Vec::new();
        }

        let agent = match self.customer_services.next() {
            Some(a) => a.clone(),
            None => {
                return Vec::new();  // unreachable: the pool is not empty
            },
        };
        self.create_room(customer, agent)
    }

    /// One pass of the periodic re-matching: when the pool and the queue
    /// are both non-empty, the front customer leaves the queue and is
    /// dispatched again.
    pub fn auto_dispatch(&mut self) -> (effects: Vec<DispatchEffect>)
        requires
            old(self).wf(),
        ensures
            final(self).wf(),
            old(self).customer_services.items@.len() == 0 || old(self).waiting_queue@.len() == 0
                ==> {
                &&& final(self).customer_services == old(self).customer_services
                &&& final(self).waiting_queue@ == old(self).waiting_queue@
                &&& final(self).rooms@ == old(self).rooms@
                &&& final(self).next_room_mailbox == old(self).next_room_mailbox
                &&& effects@ == Seq::<DispatchEffect>::empty()
            },
            old(self).customer_services.items@.len() > 0 && old(self).waiting_queue@.len() > 0
                ==> {
                let c = old(self).waiting_queue@[0];
                let cs = old(self).customer_services.items@[old(
                    self,
                ).customer_services.cursor as int];
                &&& spec_paired(*old(self), *final(self), effects@, c, cs)
                &&& final(self).customer_services.items@ == old(self).customer_services.items@
                &&& final(self).customer_services.cursor == old(
                    self,
                ).customer_services.served_index(1)
                &&& final(self).waiting_queue@ == old(self).waiting_queue@.skip(1)
            },
    {
        if self.customer_services.is_empty() {
            return Vec::new();
        }

        match self.waiting_queue.pop_front() {
            Some(customer) => {
                proof {
                    assert(customer.member.spec_user_type() == UserType::Customer);
                }
                self.dispatch(customer)
            },
            None => Vec::new(),
        }
    }

    /// Registers a newly accepted connection: an agent joins the pool,
    /// a customer goes through dispatch.
    pub fn add_session(&mut self, conn: ConnHandle) -> (effects: Vec<DispatchEffect>)
        requires
            old(self).wf(),
        ensures
            final(self).wf(),
            conn.member.spec_user_type() == UserType::CustomerService ==> {
                &&& final(self).customer_services.items@ == old(
                    self,
                ).customer_services.items@.push(conn)
                &&& final(self).customer_services.cursor == old(self).customer_services.cursor
                &&& final(self).waiting_queue@ == old(self).waiting_queue@
                &&& final(self).rooms@ == old(self).rooms@
                &&& final(self).next_room_mailbox == old(self).next_room_mailbox
                &&& effects@ == Seq::<DispatchEffect>::empty()
            },
            conn.member.spec_user_type() != UserType::CustomerService ==> spec_dispatched(
                *old(self),
                *final(self),
                effects@,
                conn,
            ),
    {
        if conn.identity().is_customer_service() {
            self.customer_services.push(conn);
            return Vec::new();
        }

        self.dispatch(conn)
    }

    /// Reacts to a message from the accept path.
    pub fn handle_session_message(&mut self, msg: SessionMessage) -> (effects: Vec<DispatchEffect>)
        requires
            old(self).wf(),
        ensures
            final(self).wf(),
            match msg {
                SessionMessage::OnAccept { conn } => {
                    if conn.member.spec_user_type() == UserType::CustomerService {
                        &&& final(self).customer_services.items@ == old(
                            self,
                        ).customer_services.items@.push(conn)
                        &&& final(self).customer_services.cursor == old(
                            self,
                        ).customer_services.cursor
                        &&& final(self).waiting_queue@ == old(self).waiting_queue@
                        &&& final(self).rooms@ == old(self).rooms@
                        &&& final(self).next_room_mailbox == old(self).next_room_mailbox
                        &&& effects@ == Seq::<DispatchEffect>::empty()
                    } else {
                        spec_dispatched(*old(self), *final(self), effects@, conn)
                    }
                },
            },
    {
        match msg {
            SessionMessage::OnAccept { conn } => self.add_session(conn),
        }
    }

    /// Reacts to a message from a connection actor: a leave is recorded
    /// and changes nothing — departures release no pool slot, queue place
    /// or room membership yet — and a client
    /// message is forwarded to the room owning its room id — or dropped
    /// in silence when no room owns it.
    pub fn handle_conn_message(&mut self, msg: ConnMessage) -> (effects: Vec<DispatchEffect>)
        requires
            old(self).wf(),
        ensures
            final(self).wf(),
            *final(self) == *old(self),
            match msg {
                ConnMessage::OnLeave { .. } => effects@ == Seq::<DispatchEffect>::empty(),
                ConnMessage::OnNewMessage { member, message } => {
                    match room_lookup(old(self).rooms@, message.room_id@) {
                        Some(h) => effects@ == seq![
                            DispatchEffect::RoomSend {
                                room: h,
                                msg: DispatchMessage::OnNewMessage { member, message },
                            },
                        ],
                        None => effects@ == Seq::<DispatchEffect>::empty(),
                    }
                },
            },
    {
        match msg {
            ConnMessage::OnLeave { member: _ } => Vec::new(),
            ConnMessage::OnNewMessage { member, message } => {
                let room = match self.find_room(message.room_id()) {
                    Some(h) => h.clone(),
                    None => {
                        return Vec::new();
                    },
                };
                let mut effects: Vec<DispatchEffect> = Vec::new();
                effects.push(
                    DispatchEffect::RoomSend {
                        room,
                        msg: DispatchMessage::OnNewMessage { member, message },
                    },
                );
                proof {
                    assert(effects@ =~= seq![effects@[0]]);
                }
                effects
            },
        }
    }

    /// The waiting queue holds customers only: no agent handle is ever
    /// queued, in any state the manager's operations can reach.
    pub proof fn lemma_waiting_queue_customers_only(self, i: int)
        requires
            self.wf(),
            0 <= i < self.waiting_queue@.len(),
        ensures
            self.waiting_queue@[i].member.spec_user_type() == UserType::Customer,
    {
    }
}

/// When nothing before `i` matches and `rooms[i]` does, `i` is the first
/// match.
proof fn lemma_room_index_prefix(rooms: Seq<RoomHandle>, id: Seq<char>, i: int)
    requires
        0 <= i < rooms.len(),
        rooms[i].room_id@ == id,
        forall|k: int| 0 <= k < i ==> rooms[k].room_id@ != id,
    ensures
        room_index(rooms, id) == i,
    decreases i,
{
    if i > 0 {
        lemma_room_index_prefix(rooms.skip(1), id, i - 1);
    }
}

/// When nothing matches at all, `room_index` is the length.
proof fn lemma_room_index_at_end(rooms: Seq<RoomHandle>, id: Seq<char>)
    requires
        forall|k: int| 0 <= k < rooms.len() ==> rooms[k].room_id@ != id,
    ensures
        room_index(rooms, id) == rooms.len(),
    decreases rooms.len(),
{
    if rooms.len() > 0 {
        lemma_room_index_at_end(rooms.skip(1), id);
    }
}

} // verus!
