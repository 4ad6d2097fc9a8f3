//! Message envelopes and fan-out bookkeeping.
//!
//! An `Envelope` is one wire message: which room it belongs to, who wrote
//! it, its body, and its kind.  A `Delivery` is one envelope addressed to
//! one member; broadcasting builds a sequence of deliveries, one per
//! member, which the transport layer then performs.

use vstd::prelude::*;

verus! {

/// The kind of a wire envelope.  `Notification` envelopes are synthesized
/// by the registry itself (join/leave announcements); clients only ever
/// cause `Chat` and `Typing` envelopes.
#[derive(Clone, Copy, PartialEq, Eq, Structural, Debug)]
pub enum Kind {
    Chat,
    Typing,
    Notification,
}

/// One message as it is pushed to a member.
pub struct Envelope {
    pub room_id: String,
    pub user: String,
    pub message: String,
    pub kind: Kind,
}

/// The mathematical value of an envelope.
pub ghost struct EnvelopeModel {
    pub room_id: Seq<char>,
    pub user: Seq<char>,
    pub message: Seq<char>,
    pub kind: Kind,
}

impl View for Envelope {
    type V = EnvelopeModel;

    open spec fn view(&self) -> EnvelopeModel {
        EnvelopeModel {
            room_id: self.room_id@,
            user: self.user@,
            message: self.message@,
            kind: self.kind,
        }
    }
}

impl Envelope {
    /// An identical envelope, for handing one copy to each recipient.
    pub fn duplicate(&self) -> (r: Envelope)
        ensures
            r@ == self@,
    {
        Envelope {
            room_id: self.room_id.clone(),
            user: self.user.clone(),
            message: self.message.clone(),
            kind: self.kind,
        }
    }
}

/// One pending delivery: the member it is addressed to, and the envelope.
pub struct Delivery {
    pub to: String,
    pub envelope: Envelope,
}

/// The mathematical value of a delivery.
pub ghost struct DeliveryModel {
    pub to: Seq<char>,
    pub envelope: EnvelopeModel,
}

impl View for Delivery {
    type V = DeliveryModel;

    open spec fn view(&self) -> DeliveryModel {
        DeliveryModel { to: self.to@, envelope: self.envelope@ }
    }
}

/// The deliveries a vector holds, as mathematical values.
pub open spec fn devs(v: Seq<Delivery>) -> Seq<DeliveryModel> {
    v.map_values(|d: Delivery| d@)
}

/// One delivery of `e` to each member of `members`, in membership order.
pub open spec fn fanout(members: Seq<Seq<char>>, e: EnvelopeModel) -> Seq<DeliveryModel> {
    members.map_values(|u: Seq<char>| DeliveryModel { to: u, envelope: e })
}

/// How many of the deliveries are addressed to `who`.
pub open spec fn count_to(ds: Seq<DeliveryModel>, who: Seq<char>) -> nat
    decreases ds.len(),
{
    if ds.len() == 0 {
        0
    } else {
        count_to(ds.drop_last(), who) + (if ds.last().to == who {
            1nat
        } else {
            0nat
        })
    }
}

/// Fanning an envelope out over a duplicate-free member list addresses it
/// exactly once to each member and never to anyone else.
pub proof fn lemma_fanout_count(members: Seq<Seq<char>>, e: EnvelopeModel, who: Seq<char>)
    requires
        members.no_duplicates(),
    ensures
        count_to(fanout(members, e), who) == if members.contains(who) {
            1nat
        } else {
            0nat
        },
    decreases members.len(),
{
    if members.len() == 0 {
        assert(!members.contains(who));
    } else {
        let m0 = members.drop_last();
        assert(m0.no_duplicates());
        assert(fanout(members, e).drop_last() =~= fanout(m0, e));
        lemma_fanout_count(m0, e, who);
        if members.last() == who {
            assert(members[members.len() - 1] == who);
            assert(members.contains(who));
            if m0.contains(who) {
                let i = choose|i: int| 0 <= i < m0.len() && m0[i] == who;
                assert(members[i] == who);
                assert(false);
            }
        } else {
            if members.contains(who) {
                let i = choose|i: int| 0 <= i < members.len() && members[i] == who;
                assert(i != members.len() - 1);
                assert(m0[i] == who);
                assert(m0.contains(who));
            }
            if m0.contains(who) {
                let i = choose|i: int| 0 <= i < m0.len() && m0[i] == who;
                assert(members[i] == who);
                assert(members.contains(who));
            }
        }
    }
}

} // verus!
