//! The room actor: membership and broadcast for one active pairing.
//!
//! A room owns its membership privately and reacts to three requests:
//! a join (insert the member, then tell every other member), a new
//! message (deliver it to every member but its author), and a member
//! count (answer with the current size).  A broadcast never reaches the
//! members named in its exclusion list — in particular, a message is
//! never echoed back to its author.

use vstd::prelude::*;

use crate::chat::{DispatchMessage, RoomMessage};
use crate::conn::ConnHandle;
use crate::member::{Member, UserType};
use crate::protocol::RoomId;

verus! {

/// What a room actor asks of the outside world: deliver an event to a
/// member's connection mailbox, or answer a member-count request.
#[derive(Debug, Clone)]
pub enum RoomEffect {
    Deliver { to: ConnHandle, msg: RoomMessage },
    MemberCount { count: usize },
}

/// The first membership slot holding this identity, or the length if
/// none does.
pub open spec fn member_index(members: Seq<ConnHandle>, key: (UserType, Seq<char>)) -> int
    decreases members.len(),
{
    if members.len() == 0 {
        0
    } else if members[0].member.key() == key {
        0
    } else {
        1 + member_index(members.skip(1), key)
    }
}

/// When nothing before `i` holds this identity and slot `i` does, `i` is
/// the first such slot.
proof fn lemma_member_index_prefix(
    members: Seq<ConnHandle>,
    key: (UserType, Seq<char>),
    i: int,
)
    requires
        0 <= i < members.len(),
        members[i].member.key() == key,
        forall|k: int| 0 <= k < i ==> members[k].member.key() != key,
    ensures
        member_index(members, key) == i,
    decreases i,
{
    if i > 0 {
        lemma_member_index_prefix(members.skip(1), key, i - 1);
    }
}

/// Whether a member with this identity is named in the exclusion list.
pub open spec fn in_filter(filter: Seq<Member>, m: Member) -> bool {
    exists|j: int| 0 <= j < filter.len() && filter[j].key() == m.key()
}

/// The deliveries a broadcast produces: one per member, in membership
/// order, skipping the members named in the exclusion list.
pub open spec fn broadcast_effects(
    members: Seq<ConnHandle>,
    filter: Seq<Member>,
    msg: RoomMessage,
) -> Seq<RoomEffect>
    decreases members.len(),
{
    if members.len() == 0 {
        Seq::empty()
    } else {
        (if in_filter(filter, members[0].member) {
            Seq::<RoomEffect>::empty()
        } else {
            seq![RoomEffect::Deliver { to: members[0], msg }]
        }) + broadcast_effects(members.skip(1), filter, msg)
    }
}

/// A broadcast's deliveries, one more member at the end.
proof fn lemma_broadcast_push(
    members: Seq<ConnHandle>,
    filter: Seq<Member>,
    msg: RoomMessage,
    h: ConnHandle,
)
    ensures
        broadcast_effects(members.push(h), filter, msg) == broadcast_effects(members, filter, msg)
            + (if in_filter(filter, h.member) {
            Seq::<RoomEffect>::empty()
        } else {
            seq![RoomEffect::Deliver { to: h, msg }]
        }),
    decreases members.len(),
{
    let tail = if in_filter(filter, h.member) {
        Seq::<RoomEffect>::empty()
    } else {
        seq![RoomEffect::Deliver { to: h, msg }]
    };
    if members.len() == 0 {
        assert(members.push(h)[0] == h);
        assert(members.push(h).skip(1) =~= Seq::<ConnHandle>::empty());
        assert(broadcast_effects(Seq::<ConnHandle>::empty(), filter, msg)
            == Seq::<RoomEffect>::empty());
        assert(broadcast_effects(members, filter, msg) == Seq::<RoomEffect>::empty());
        assert(broadcast_effects(members.push(h), filter, msg) =~= broadcast_effects(
            members,
            filter,
            msg,
        ) + tail);
    } else {
        lemma_broadcast_push(members.skip(1), filter, msg, h);
        assert(members.push(h).skip(1) =~= members.skip(1).push(h));
        assert(members.push(h)[0] == members[0]);
        assert(broadcast_effects(members.push(h), filter, msg) =~= broadcast_effects(
            members,
            filter,
            msg,
        ) + tail);
    }
}

/// No delivery of a broadcast goes to an excluded identity: whoever is
/// named in the exclusion list receives nothing.
pub proof fn lemma_broadcast_no_echo(members: Seq<ConnHandle>, filter: Seq<Member>, msg: RoomMessage)
    ensures
        forall|k: int|
            0 <= k < broadcast_effects(members, filter, msg).len() ==> match #[trigger] broadcast_effects(
                members,
                filter,
                msg,
            )[k] {
                RoomEffect::Deliver { to, msg: m } => !in_filter(filter, to.member) && m == msg,
                RoomEffect::MemberCount { .. } => false,
            },
    decreases members.len(),
{
    if members.len() > 0 {
        lemma_broadcast_no_echo(members.skip(1), filter, msg);
    }
}

/// Every member not named in the exclusion list receives the broadcast.
pub proof fn lemma_broadcast_reaches(
    members: Seq<ConnHandle>,
    filter: Seq<Member>,
    msg: RoomMessage,
    i: int,
)
    requires
        0 <= i < members.len(),
        !in_filter(filter, members[i].member),
    ensures
        exists|k: int|
            0 <= k < broadcast_effects(members, filter, msg).len() && broadcast_effects(
                members,
                filter,
                msg,
            )[k] == (RoomEffect::Deliver { to: members[i], msg }),
    decreases members.len(),
{
    let eff = broadcast_effects(members, filter, msg);
    if i == 0 {
        assert(eff[0] == (RoomEffect::Deliver { to: members[0], msg }));
    } else {
        lemma_broadcast_reaches(members.skip(1), filter, msg, i - 1);
        let sub = broadcast_effects(members.skip(1), filter, msg);
        let k = choose|k: int|
            0 <= k < sub.len() && sub[k] == (RoomEffect::Deliver { to: members.skip(1)[i - 1], msg });
        let head = if in_filter(filter, members[0].member) {
            Seq::<RoomEffect>::empty()
        } else {
            seq![RoomEffect::Deliver { to: members[0], msg }]
        };
        assert(members.skip(1)[i - 1] == members[i]);
        assert(eff == head + sub);
        assert(eff[head.len() + k] == sub[k]);
    }
}

/// The room actor's state: its fixed id and its membership, in join
/// order, one entry per identity.
#[derive(Debug)]
pub struct ChatRoom {
    pub id: RoomId,
    pub members: Vec<ConnHandle>,
}

impl ChatRoom {
    /// One membership entry per `(role, id)` identity.
    pub open spec fn wf(self) -> bool {
        forall|i: int, j: int|
            0 <= i < j < self.members@.len() ==> self.members@[i].member.key()
                != self.members@[j].member.key()
    }

    /// Whether some entry already carries this identity.
    pub open spec fn spec_has_member(self, m: Member) -> bool {
        exists|i: int| 0 <= i < self.members@.len() && self.members@[i].member.key() == m.key()
    }

    pub fn new(id: RoomId) -> (r: Self)
        ensures
            r.id@ == id@,
            r.members@ == Seq::<ConnHandle>::empty(),
            r.wf(),
    {
        ChatRoom { id, members: Vec::new() }
    }

    /// Sends `msg` to every member whose identity is not in `filter`.
    fn broadcast(&self, msg: RoomMessage, filter: &Vec<Member>) -> (effects: Vec<RoomEffect>)
        ensures
            effects@ == broadcast_effects(self.members@, filter@, msg),
    {
        let mut effects: Vec<RoomEffect> = Vec::new();
        let mut i: usize = 0;
        let n = self.members.len();
        proof {
            assert(self.members@.subrange(0, 0) =~= Seq::<ConnHandle>::empty());
            assert(effects@ =~= broadcast_effects(self.members@.subrange(0, 0), filter@, msg));
        }
        while i < n
            invariant
                n == self.members@.len(),
                0 <= i <= n,
                effects@ == broadcast_effects(self.members@.subrange(0, i as int), filter@, msg),
            decreases n - i,
        {
            let handle = &self.members[i];
            let mut excluded = false;
            let mut j: usize = 0;
            let fl = filter.len();
            while j < fl
                invariant
                    fl == filter@.len(),
                    0 <= j <= fl,
                    i < n == self.members@.len(),
                    *handle == self.members@[i as int],
                    excluded ==> in_filter(filter@, self.members@[i as int].member),
                    !excluded ==> forall|k: int|
                        0 <= k < j ==> filter@[k].key() != self.members@[i as int].member.key(),
                decreases fl - j,
            {
                if *handle.identity() == filter[j] {
                    proof {
                        assert(0 <= j < filter@.len());
                        assert(filter@[j as int].key() == self.members@[i as int].member.key());
                        assert(in_filter(filter@, self.members@[i as int].member));
                    }
                    excluded = true;
                } else {
                    proof {
                        assert(filter@[j as int].key() != self.members@[i as int].member.key());
                    }
                }
                j = j + 1;
            }
            proof {
                if !excluded && in_filter(filter@, self.members@[i as int].member) {
                    let m = self.members@[i as int].member;
                    let k = choose|k: int| 0 <= k < filter@.len() && filter@[k].key() == m.key();
                    assert(filter@[k].key() != self.members@[i as int].member.key());
                }
                assert(excluded == in_filter(filter@, self.members@[i as int].member));
            }
            if !excluded {
                effects.push(RoomEffect::Deliver { to: handle.clone(), msg: msg.clone() });
            }
            proof {
                lemma_broadcast_push(
                    self.members@.subrange(0, i as int),
                    filter@,
                    msg,
                    self.members@[i as int],
                );
                assert(self.members@.subrange(0, i + 1 as int) =~= self.members@.subrange(
                    0,
                    i as int,
                ).push(self.members@[i as int]));
                assert(effects@ =~= broadcast_effects(
                    self.members@.subrange(0, i + 1 as int),
                    filter@,
                    msg,
                ));
            }
            i = i + 1;
        }
        proof {
            assert(self.members@.subrange(0, n as int) =~= self.members@);
        }
        effects
    }

    /// Announces a fresh member to everyone else in the room.
    fn broadcast_join(&self, from_member: Member) -> (effects: Vec<RoomEffect>)
        ensures
            effects@ == broadcast_effects(
                self.members@,
                seq![from_member],
                RoomMessage::OnJoin { room_id: self.id, member: from_member },
            ),
    {
        let chat_message = RoomMessage::OnJoin {
            room_id: self.id.clone(),
            member: from_member.clone(),
        };
        let mut filter: Vec<Member> = Vec::new();
        filter.push(from_member);
        proof {
            assert(filter@ =~= seq![filter@[0]]);
        }
        self.broadcast(chat_message, &filter)
    }

    /// Reacts to one request: a join inserts the member (replacing any
    /// entry with the same identity) and notifies everyone else; a new
    /// message is delivered to every member but its author; a count
    /// request is answered with the current membership size.
    pub fn handle_dispatch_message(&mut self, msg: DispatchMessage) -> (effects: Vec<RoomEffect>)
        requires
            old(self).wf(),
        ensures
            final(self).wf(),
            final(self).id@ == old(self).id@,
            match msg {
                DispatchMessage::OnJoin { conn_handle } => {
                    &&& final(self).spec_has_member(conn_handle.member)
                    &&& (if old(self).spec_has_member(conn_handle.member) {
                        final(self).members@ == old(self).members@.update(
                            member_index(old(self).members@, conn_handle.member.key()),
                            conn_handle,
                        )
                    } else {
                        final(self).members@ == old(self).members@.push(conn_handle)
                    })
                    &&& effects@ == broadcast_effects(
                        final(self).members@,
                        seq![conn_handle.member],
                        RoomMessage::OnJoin { room_id: old(self).id, member: conn_handle.member },
                    )
                },
                DispatchMessage::OnNewMessage { member, message } => {
                    &&& final(self).members@ == old(self).members@
                    &&& effects@ == broadcast_effects(
                        old(self).members@,
                        seq![member],
                        RoomMessage::OnNewMessage {
                            room_id: old(self).id,
                            member,
                            content: message,
                        },
                    )
                },
                DispatchMessage::GetMemberCount => {
                    &&& final(self).members@ == old(self).members@
                    &&& effects@ == seq![
                        RoomEffect::MemberCount { count: old(self).members@.len() as usize },
                    ]
                },
            },
    {
        match msg {
            DispatchMessage::OnJoin { conn_handle } => {
                let mut idx: usize = 0;
                let n = self.members.len();
                let mut found = false;
                let mut at: usize = 0;
                while idx < n
                    invariant
                        n == self.members@.len(),
                        0 <= idx <= n,
                        found ==> at < idx && self.members@[at as int].member.key()
                            == conn_handle.member.key(),
                        !found ==> forall|k: int|
                            0 <= k < idx ==> self.members@[k].member.key()
                                != conn_handle.member.key(),
                    decreases n - idx,
                {
                    if *self.members[idx].identity() == *conn_handle.identity() {
                        found = true;
                        at = idx;
                    }
                    idx = idx + 1;
                }
                if found {
                    proof {
                        let key = conn_handle.member.key();
                        let pre = self.members@;
                        assert forall|k: int| 0 <= k < at implies pre[k].member.key() != key by {
                            if pre[k].member.key() == key {
                                assert(pre[k].member.key() != pre[at as int].member.key());
                            }
                        }
                        lemma_member_index_prefix(pre, key, at as int);
                        assert(old(self).spec_has_member(conn_handle.member));
                    }
                    self.members.set(at, conn_handle.clone());
                    proof {
                        assert(self.members@[at as int].member.key() == conn_handle.member.key());
                        assert(self.spec_has_member(conn_handle.member));
                    }
                } else {
                    self.members.push(conn_handle.clone());
                    proof {
                        let last = self.members@.len() - 1;
                        assert(self.members@[last].member.key() == conn_handle.member.key());
                        assert(self.spec_has_member(conn_handle.member));
                    }
                }
                let from = conn_handle.identity().clone();
                let effects = self.broadcast_join(from);
                proof {
                    assert(seq![conn_handle.member][0].key() == conn_handle.member.key());
                }
                effects
            },
            DispatchMessage::OnNewMessage { member, message } => {
                let chat_message = RoomMessage::OnNewMessage {
                    room_id: self.id.clone(),
                    member: member.clone(),
                    content: message,
                };
                let mut filter: Vec<Member> = Vec::new();
                filter.push(member);
                proof {
                    assert(filter@ =~= seq![filter@[0]]);
                }
                self.broadcast(chat_message, &filter)
            },
            DispatchMessage::GetMemberCount => {
                let mut effects: Vec<RoomEffect> = Vec::new();
                effects.push(RoomEffect::MemberCount { count: self.members.len() });
                proof {
                    assert(effects@ =~= seq![
                        RoomEffect::MemberCount { count: self.members@.len() as usize },
                    ]);
                }
                effects
            },
        }
    }

    /// The current number of members.
    pub fn get_member_count(&self) -> (r: usize)
        ensures
            r == self.members@.len(),
    {
        self.members.len()
    }
}

/// A cloneable reference to one room: its id and the address of the room
/// actor's mailbox.
#[derive(Debug)]
pub struct RoomHandle {
    pub room_id: RoomId,
    pub mailbox: u64,
}

impl RoomHandle {
    pub fn new(room_id: RoomId, mailbox: u64) -> (r: Self)
        ensures
            r.room_id@ == room_id@,
            r.mailbox == mailbox,
    {
        RoomHandle { room_id, mailbox }
    }

    pub fn id(&self) -> (r: &RoomId)
        ensures
            r@ == self.room_id@,
    {
        &self.room_id
    }
}

impl Clone for RoomHandle {
    fn clone(&self) -> (r: Self)
        ensures
            r == *self,
    {
        RoomHandle { room_id: self.room_id.clone(), mailbox: self.mailbox }
    }
}

} // verus!
