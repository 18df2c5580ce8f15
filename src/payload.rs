//! Packing of a device update into "set device" messages of bounded size.
//!
//! Every message starts with the interface-name record, carries device-level records and at
//! most one peer list, and stays below the transport's payload limit unless it holds a single
//! record or a single peer that alone reaches the limit: a peer is never split.
use vstd::prelude::*;
use crate::attrs::{
    device_attr_len, device_attrs_len, nla_len, nla_size, peer_attr_len, peer_attrs_len,
    peer_attrs_size, peer_list_len, DeviceAttr, PeerAttr,
};
use crate::model::InterfaceName;

verus! {

/// Least payload size that the transport allows: an 8 KiB buffer less the netlink and
/// generic-netlink headers.
pub const MIN_GENL_PAYLOAD_LENGTH: usize = 8172;

/// Relies on netlink_request::max_genl_payload_length: the larger of 8 KiB and the page size,
/// less the 16-byte netlink header and the 4-byte generic-netlink header.
#[verifier::external_body]
fn max_genl_payload_length() -> (r: usize)
    ensures
        r >= MIN_GENL_PAYLOAD_LENGTH,
{
    netlink_request::max_genl_payload_length()
}

/// A device-level record that the packer accepts on its own: anything but the name and a
/// peer list.
pub open spec fn is_scalar_attr(a: DeviceAttr) -> bool {
    !(a is IfName) && !(a is Peers)
}

/// The peers that a message carries: those of its trailing peer list, if any.
pub open spec fn msg_peers(m: Seq<DeviceAttr>) -> Seq<Seq<PeerAttr>> {
    if m.len() > 0 && m.last() is Peers {
        m.last()->Peers_0@.map_values(|p: Vec<PeerAttr>| p@)
    } else {
        seq![]
    }
}

/// The device-level records of a message: all but its leading name and trailing peer list.
pub open spec fn msg_scalars(m: Seq<DeviceAttr>) -> Seq<DeviceAttr> {
    if m.len() > 0 && m.last() is Peers {
        m.subrange(1, m.len() - 1)
    } else {
        m.subrange(1, m.len() as int)
    }
}

/// The peers of a sequence of messages, in order.
pub open spec fn msgs_peers(ms: Seq<Vec<DeviceAttr>>) -> Seq<Seq<PeerAttr>>
    decreases ms.len(),
{
    if ms.len() == 0 {
        seq![]
    } else {
        msgs_peers(ms.drop_last()) + msg_peers(ms.last()@)
    }
}

/// The device-level records of a sequence of messages, in order.
pub open spec fn msgs_scalars(ms: Seq<Vec<DeviceAttr>>) -> Seq<DeviceAttr>
    decreases ms.len(),
{
    if ms.len() == 0 {
        seq![]
    } else {
        msgs_scalars(ms.drop_last()) + msg_scalars(ms.last()@)
    }
}

/// A message that holds the name and exactly one record or one peer.
pub open spec fn single_unit(m: Seq<DeviceAttr>) -> bool {
    m.len() == 2 && (m[1] is Peers ==> m[1]->Peers_0@.len() == 1)
}

/// `m` is a well-formed "set device" message for the interface `name`: the name record first,
/// then device-level records, then at most one non-empty peer list, and something besides
/// the name.
pub open spec fn msg_well_formed(m: Seq<DeviceAttr>, name: Seq<char>) -> bool {
    &&& m.len() >= 2
    &&& m[0] is IfName && m[0]->IfName_0@ == name
    &&& forall|k: int| 1 <= k < m.len() - 1 ==> is_scalar_attr(#[trigger] m[k])
    &&& is_scalar_attr(m.last()) || (m.last() is Peers && m.last()->Peers_0@.len() > 0)
}

/// `m` is below the payload limit `max`, or is a single record or peer that alone reaches it.
pub open spec fn msg_fits(m: Seq<DeviceAttr>, max: nat) -> bool {
    device_attrs_len(m) < max || single_unit(m)
}

pub proof fn lemma_nla_len_aligned(v: nat)
    ensures
        nla_len(v) % 4 == 0,
        v % 4 == 0 ==> nla_len(v) == v + 4,
{
}

pub proof fn lemma_peer_attrs_len_aligned(s: Seq<PeerAttr>)
    ensures
        peer_attrs_len(s) % 4 == 0,
    decreases s.len(),
{
    if s.len() > 0 {
        lemma_peer_attrs_len_aligned(s.drop_last());
        match s.last() {
            PeerAttr::AllowedIps(v) => lemma_nla_len_aligned(crate::attrs::allowed_list_len(v@)),
            _ => {},
        }
        lemma_nla_len_aligned(0);
        lemma_nla_len_aligned(1);
        lemma_nla_len_aligned(2);
        lemma_nla_len_aligned(4);
        lemma_nla_len_aligned(8);
        lemma_nla_len_aligned(16);
        lemma_nla_len_aligned(28);
        lemma_nla_len_aligned(32);
    }
}

pub proof fn lemma_peer_list_len_aligned(s: Seq<Vec<PeerAttr>>)
    ensures
        peer_list_len(s) % 4 == 0,
    decreases s.len(),
{
    if s.len() > 0 {
        lemma_peer_list_len_aligned(s.drop_last());
        lemma_peer_attrs_len_aligned(s.last()@);
    }
}

pub proof fn lemma_device_attrs_len_concat(a: Seq<DeviceAttr>, b: Seq<DeviceAttr>)
    ensures
        device_attrs_len(a + b) == device_attrs_len(a) + device_attrs_len(b),
    decreases b.len(),
{
    if b.len() == 0 {
        assert(a + b =~= a);
    } else {
        assert((a + b).drop_last() =~= a + b.drop_last());
        lemma_device_attrs_len_concat(a, b.drop_last());
    }
}

/// Each peer of any message of `ms` occurs among `msgs_peers(ms)`.
pub proof fn lemma_msg_peers_listed(ms: Seq<Vec<DeviceAttr>>, k: int, i: int)
    requires
        0 <= k < ms.len(),
        0 <= i < msg_peers(ms[k]@).len(),
    ensures
        exists|j: int| 0 <= j < msgs_peers(ms).len() && #[trigger] msgs_peers(ms)[j] == msg_peers(ms[k]@)[i],
    decreases ms.len(),
{
    let prev = msgs_peers(ms.drop_last());
    if k == ms.len() - 1 {
        let j = prev.len() + i;
        assert(msgs_peers(ms)[j] == msg_peers(ms[k]@)[i]);
    } else {
        assert(ms.drop_last()[k] == ms[k]);
        lemma_msg_peers_listed(ms.drop_last(), k, i);
        let j = choose|j: int| 0 <= j < prev.len() && #[trigger] prev[j] == msg_peers(ms[k]@)[i];
        assert(msgs_peers(ms)[j] == prev[j]);
    }
}

/// Accumulates device records and peers, and cuts them into messages.
pub struct ApplyPayload {
    iface: String,
    name_len: usize,
    nlas: Vec<DeviceAttr>,
    peers: Vec<Vec<PeerAttr>>,
    has_peers: bool,
    current_buffer_len: usize,
    max_len: usize,
    messages: Vec<Vec<DeviceAttr>>,
}

impl ApplyPayload {
    /// The name of the interface that the messages address.
    pub closed spec fn name(&self) -> Seq<char> {
        self.iface@
    }

    /// The payload limit of one message.
    pub closed spec fn max_payload(&self) -> nat {
        self.max_len as nat
    }

    /// The messages completed so far.
    pub closed spec fn emitted(&self) -> Seq<Vec<DeviceAttr>> {
        self.messages@
    }

    /// The device-level records of the message being built.
    pub closed spec fn pending_attrs(&self) -> Seq<DeviceAttr> {
        self.nlas@
    }

    /// The peers of the message being built.
    pub closed spec fn pending_peers(&self) -> Seq<Seq<PeerAttr>> {
        self.peers@.map_values(|p: Vec<PeerAttr>| p@)
    }

    /// Every peer added so far, in order.
    pub open spec fn all_peers(&self) -> Seq<Seq<PeerAttr>> {
        msgs_peers(self.emitted()) + self.pending_peers()
    }

    /// Every device-level record added so far, in order.
    pub open spec fn all_attrs(&self) -> Seq<DeviceAttr> {
        msgs_scalars(self.emitted()) + self.pending_attrs()
    }

    /// Encoded size of the message being built, with its name and peer list.
    pub closed spec fn current_len(&self) -> nat {
        nla_len(self.iface@.len() + 1) + device_attrs_len(self.nlas@) + (if self.has_peers {
            nla_len(peer_list_len(self.peers@))
        } else {
            0
        })
    }

    /// Whether the message being built already holds a peer list.
    pub closed spec fn has_peer_list(&self) -> bool {
        self.has_peers
    }

    /// Number of records and peers in the message being built.
    pub closed spec fn pending_units(&self) -> nat {
        self.nlas@.len() + self.peers@.len()
    }

    pub closed spec fn wf(&self) -> bool {
        &&& self.iface@.len() <= 15
        &&& self.name_len == nla_len(self.iface@.len() + 1)
        &&& self.max_len >= MIN_GENL_PAYLOAD_LENGTH
        &&& self.current_buffer_len == self.current_len()
        &&& self.has_peers || self.peers@.len() == 0
        &&& self.current_len() < self.max_len || self.pending_units() <= 1
        &&& forall|k: int| 0 <= k < self.nlas@.len() ==> is_scalar_attr(#[trigger] self.nlas@[k])
        &&& forall|k: int| 0 <= k < self.messages@.len() ==> msg_well_formed(
            #[trigger] self.messages@[k]@,
            self.iface@,
        ) && msg_fits(self.messages@[k]@, self.max_len as nat)
    }
}


impl ApplyPayload {
    /// Starts an empty payload for the interface `iface`, with the transport's payload limit.
    pub fn new(iface: &InterfaceName) -> (r: ApplyPayload)
        ensures
            r.wf(),
            r.name() == iface.as_str_spec(),
            r.max_payload() >= MIN_GENL_PAYLOAD_LENGTH,
            r.name().len() <= 15,
            r.emitted().len() == 0,
            r.pending_attrs().len() == 0,
            r.pending_peers().len() == 0,
    {
        let name = iface.as_str();
        proof {
            assert(name@.len() == iface@.len());
        }
        let n = name.unicode_len();
        let name_len = nla_size(n + 1);
        let r = ApplyPayload {
            iface: name.to_string(),
            name_len,
            nlas: Vec::new(),
            peers: Vec::new(),
            has_peers: false,
            current_buffer_len: name_len,
            max_len: max_genl_payload_length(),
            messages: Vec::new(),
        };
        assert(r.nlas@ =~= Seq::<DeviceAttr>::empty());
        r
    }

    /// Completes the message being built, if it holds anything besides the name, and starts
    /// a new one that holds only the name.
    fn flush_nlas(&mut self)
        requires
            old(self).wf(),
        ensures
            final(self).wf(),
            final(self).name() == old(self).name(),
            final(self).max_payload() == old(self).max_payload(),
            final(self).pending_attrs().len() == 0,
            final(self).pending_peers().len() == 0,
            final(self).current_len() == nla_len(final(self).name().len() + 1),
            !final(self).has_peer_list(),
            final(self).all_peers() == old(self).all_peers(),
            final(self).all_attrs() == old(self).all_attrs(),
            old(self).pending_units() > 0 ==> final(self).emitted().len() == old(self).emitted().len() + 1
                && final(self).emitted().drop_last() == old(self).emitted(),
            old(self).pending_units() == 0 ==> final(self).emitted() == old(self).emitted(),
    {
        let ghost old_self = *self;
        if self.nlas.len() > 0 || self.peers.len() > 0 {
            let mut m: Vec<DeviceAttr> = Vec::new();
            m.push(DeviceAttr::IfName(self.iface.clone()));
            let mut nlas: Vec<DeviceAttr> = Vec::new();
            core::mem::swap(&mut nlas, &mut self.nlas);
            m.append(&mut nlas);
            let ghost head = m@;
            assert(head =~= seq![DeviceAttr::IfName(old_self.iface)] + old_self.nlas@);
            proof {
                assert(seq![DeviceAttr::IfName(old_self.iface)].drop_last() =~= Seq::<DeviceAttr>::empty());
                lemma_device_attrs_len_concat(seq![DeviceAttr::IfName(old_self.iface)], old_self.nlas@);
                let one = seq![DeviceAttr::IfName(old_self.iface)];
                assert(one.last() == DeviceAttr::IfName(old_self.iface));
                assert(device_attrs_len(one.drop_last()) == 0);
                assert(device_attrs_len(one) == nla_len(old_self.iface@.len() + 1));
                assert(device_attrs_len(head) == nla_len(old_self.iface@.len() + 1) + device_attrs_len(old_self.nlas@));
            }
            if self.peers.len() > 0 {
                let mut peers: Vec<Vec<PeerAttr>> = Vec::new();
                core::mem::swap(&mut peers, &mut self.peers);
                m.push(DeviceAttr::Peers(peers));
                assert(m@.drop_last() =~= head);
                assert(device_attrs_len(m@) == device_attrs_len(head) + nla_len(
                    peer_list_len(old_self.peers@),
                ));
                assert(m@.subrange(1, m@.len() - 1) =~= old_self.nlas@);
            } else {
                assert(m@.subrange(1, m@.len() as int) =~= old_self.nlas@);
            }
            assert(msg_peers(m@) =~= old_self.pending_peers());
            assert(msg_scalars(m@) =~= old_self.nlas@);
            assert(msg_well_formed(m@, old_self.iface@));
            assert(device_attrs_len(m@) <= old_self.current_len());
            assert(msg_fits(m@, old_self.max_len as nat));
            self.messages.push(m);
            assert(self.messages@.drop_last() =~= old_self.messages@);
        }
        self.nlas = Vec::new();
        self.peers = Vec::new();
        self.has_peers = false;
        self.current_buffer_len = self.name_len;
        assert(self.nlas@ =~= Seq::<DeviceAttr>::empty());
        assert(self.pending_peers() =~= Seq::<Seq<PeerAttr>>::empty());
        assert(self.all_peers() =~= old_self.all_peers());
        assert(self.all_attrs() =~= old_self.all_attrs());
    }
}


/// Encoded size of a device-level record other than the name and a peer list.
fn scalar_attr_size(a: &DeviceAttr) -> (r: usize)
    requires
        is_scalar_attr(*a),
    ensures
        r == device_attr_len(*a),
        r <= 36,
{
    match a {
        DeviceAttr::PrivateKey(_) => nla_size(32),
        DeviceAttr::PublicKey(_) => nla_size(32),
        DeviceAttr::ListenPort(_) => nla_size(2),
        _ => nla_size(4),
    }
}

impl ApplyPayload {
    /// Adds a device-level record. When the message being built would reach the payload
    /// limit with it, that message is completed first and the record starts the next one.
    pub fn push(&mut self, nla: DeviceAttr)
        requires
            old(self).wf(),
            is_scalar_attr(nla),
        ensures
            final(self).wf(),
            final(self).name() == old(self).name(),
            final(self).max_payload() == old(self).max_payload(),
            final(self).all_peers() == old(self).all_peers(),
            final(self).all_attrs() == old(self).all_attrs().push(nla),
            old(self).current_len() + device_attr_len(nla) >= old(self).max_payload() ==> {
                &&& final(self).emitted().len() == old(self).emitted().len() + (if old(self).pending_units() > 0 { 1int } else { 0 })
                &&& final(self).pending_attrs() == seq![nla]
                &&& final(self).pending_peers().len() == 0
            },
            old(self).current_len() + device_attr_len(nla) < old(self).max_payload() ==> {
                &&& final(self).emitted() == old(self).emitted()
                &&& final(self).pending_attrs() == old(self).pending_attrs().push(nla)
                &&& final(self).pending_peers() == old(self).pending_peers()
            },
    {
        let len = scalar_attr_size(&nla);
        let over = match self.current_buffer_len.checked_add(len) {
            Some(total) => total >= self.max_len,
            None => true,
        };
        if over {
            self.flush_nlas();
        }
        let ghost mid = *self;
        self.nlas.push(nla);
        self.current_buffer_len = self.current_buffer_len + len;
        proof {
            lemma_device_attrs_len_concat(mid.nlas@, seq![nla]);
            let one = seq![nla];
            assert(one.last() == nla);
            assert(device_attrs_len(one.drop_last()) == 0);
            assert(mid.nlas@ + one =~= self.nlas@);
            assert(self.all_attrs() =~= mid.all_attrs().push(nla));
            if over {
                assert(self.nlas@ =~= seq![nla]);
            }
        }
    }

    /// Adds the records of one peer, never splitting them across messages. When the message
    /// being built would reach the payload limit with them (and with a new peer list, if it
    /// has none yet), that message is completed first and the peer starts the next one.
    #[verifier::rlimit(40)]
    pub fn push_peer(&mut self, peer: Vec<PeerAttr>)
        requires
            old(self).wf(),
            peer_attrs_len(peer@) + 64 <= usize::MAX,
        ensures
            final(self).wf(),
            final(self).name() == old(self).name(),
            final(self).max_payload() == old(self).max_payload(),
            final(self).all_peers() == old(self).all_peers().push(peer@),
            final(self).all_attrs() == old(self).all_attrs(),
            ({
                let add = peer_attrs_len(peer@) + 4 + (if old(self).has_peer_list() { 0int } else { 4 });
                &&& old(self).current_len() + add >= old(self).max_payload() ==> {
                    &&& final(self).emitted().len() == old(self).emitted().len() + (if old(self).pending_units() > 0 { 1int } else { 0 })
                    &&& final(self).pending_attrs().len() == 0
                    &&& final(self).pending_peers() == seq![peer@]
                }
                &&& old(self).current_len() + add < old(self).max_payload() ==> {
                    &&& final(self).emitted() == old(self).emitted()
                    &&& final(self).pending_attrs() == old(self).pending_attrs()
                    &&& final(self).pending_peers() == old(self).pending_peers().push(peer@)
                }
            }),
    {
        let peer_len = peer_attrs_size(&peer) + 4;
        let add = if self.has_peers { peer_len } else { peer_len + 4 };
        let over = match self.current_buffer_len.checked_add(add) {
            Some(total) => total >= self.max_len,
            None => true,
        };
        if over {
            self.flush_nlas();
        }
        if !self.has_peers {
            self.has_peers = true;
            self.current_buffer_len = self.current_buffer_len + 4;
            proof {
                assert(self.peers@.len() == 0);
                assert(peer_list_len(self.peers@) == 0);
                lemma_nla_len_aligned(0);
            }
        }
        let ghost mid = *self;
        self.peers.push(peer);
        self.current_buffer_len = self.current_buffer_len + peer_len;
        proof {
            assert(self.peers@.drop_last() =~= mid.peers@);
            lemma_peer_list_len_aligned(mid.peers@);
            lemma_peer_attrs_len_aligned(peer@);
            lemma_nla_len_aligned(peer_list_len(mid.peers@));
            lemma_nla_len_aligned(peer_list_len(self.peers@));
            assert(peer_list_len(self.peers@) == peer_list_len(mid.peers@) + 4 + peer_attrs_len(peer@));
            assert(self.current_len() == mid.current_len() + peer_len);
            if over {
                assert(self.pending_units() == 1);
            } else {
                assert(self.current_len() < self.max_len);
            }
            assert(self.pending_peers() =~= mid.pending_peers().push(peer@));
            assert(self.all_peers() =~= mid.all_peers().push(peer@));
            if over {
                assert(self.pending_peers() =~= seq![peer@]);
            }
        }
    }

    /// Completes the message being built and returns every message, in order.
    pub fn finish(self) -> (r: Vec<Vec<DeviceAttr>>)
        requires
            self.wf(),
        ensures
            msgs_peers(r@) == self.all_peers(),
            msgs_scalars(r@) == self.all_attrs(),
            forall|k: int| 0 <= k < r@.len() ==> msg_well_formed(#[trigger] r@[k]@, self.name()),
            forall|k: int| 0 <= k < r@.len() ==> msg_fits(#[trigger] r@[k]@, self.max_payload()),
            r@.len() == 0 <==> self.all_peers().len() == 0 && self.all_attrs().len() == 0,
    {
        let mut this = self;
        this.flush_nlas();
        proof {
            assert(this.all_peers() =~= msgs_peers(this.messages@));
            assert(this.all_attrs() =~= msgs_scalars(this.messages@));
            let ms = this.messages@;
            if ms.len() > 0 {
                let m = ms.last()@;
                assert(msg_well_formed(ms[ms.len() - 1]@, this.iface@));
                if m.last() is Peers {
                    assert(msg_peers(m).len() > 0);
                } else {
                    assert(msg_scalars(m).len() > 0);
                }
            }
        }
        this.messages
    }
}

} // verus!
