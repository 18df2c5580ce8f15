//! The decisions of the interface lifecycle operations, apart from the transport.
//!
//! Each function here takes what the transport handed back as plain values and says what the
//! operation returns or sends next.
use vstd::prelude::*;
use crate::attrs::{
    device_attr_len, device_attrs_len, peer_attrs_len, peer_list_len, DeviceAttr, PeerAttr,
    WGDEVICE_F_REPLACE_PEERS,
};
use crate::codec::{
    device_decode_error, device_decoded, device_decodes, name_ok, peer_encoded,
};
use crate::model::{Device, DeviceUpdate, InterfaceName, WgError};
use crate::payload::{
    lemma_msg_peers_listed, msg_fits, msg_peers, msg_well_formed, msgs_peers, msgs_scalars,
    single_unit, ApplyPayload, MIN_GENL_PAYLOAD_LENGTH,
};

verus! {

/// The device-level records that an update asks for, in the order they are sent.
pub open spec fn update_attrs(u: DeviceUpdate) -> Seq<DeviceAttr> {
    (match u.private_key { Some(k) => seq![DeviceAttr::PrivateKey(k.0)], None => seq![] })
        + (match u.fwmark { Some(m) => seq![DeviceAttr::Fwmark(m)], None => seq![] })
        + (match u.listen_port { Some(p) => seq![DeviceAttr::ListenPort(p)], None => seq![] })
        + (if u.replace_peers { seq![DeviceAttr::Flags(WGDEVICE_F_REPLACE_PEERS)] } else { seq![] })
}

/// Whether every message of `ms` fits the payload limit `max`.
pub open spec fn all_fit(ms: Seq<Vec<DeviceAttr>>, max: nat) -> bool {
    forall|k: int| 0 <= k < ms.len() ==> msg_fits(#[trigger] ms[k]@, max)
}

/// Whether every message of `ms` is strictly below the payload limit `max`.
pub open spec fn all_below(ms: Seq<Vec<DeviceAttr>>, max: nat) -> bool {
    forall|k: int| 0 <= k < ms.len() ==> device_attrs_len(#[trigger] ms[k]@) < max
}

/// Whether the records of every peer of `u` leave room, within the least payload limit, for
/// the interface name and a peer list.
pub open spec fn update_peers_small(u: DeviceUpdate) -> bool {
    forall|i: int, s: Seq<PeerAttr>|
        0 <= i < u.peers@.len() && #[trigger] peer_encoded(u.peers@[i], s) ==> peer_attrs_len(s) + 32
            < MIN_GENL_PAYLOAD_LENGTH
}

/// Whether the records of every peer of `u` fit comfortably in a machine word.
pub open spec fn update_peers_fit(u: DeviceUpdate) -> bool {
    forall|i: int, s: Seq<PeerAttr>|
        0 <= i < u.peers@.len() && #[trigger] peer_encoded(u.peers@[i], s) ==> peer_attrs_len(s) + 64
            <= usize::MAX
}

/// The "set device" messages that apply `update` to the interface `iface`: its device-level
/// records, then the records of each of its peers, packed in order into messages that each
/// name the interface and stay below the transport's payload limit, unless one holds a
/// single record or peer that alone reaches it; when every peer is small enough to share a
/// message with the name, every message is below the limit. An update that asks for nothing
/// gives no message.
pub fn apply_messages(update: &DeviceUpdate, iface: &InterfaceName) -> (r: Vec<Vec<DeviceAttr>>)
    requires
        update_peers_fit(*update),
    ensures
        msgs_scalars(r@) == update_attrs(*update),
        msgs_peers(r@).len() == update.peers@.len(),
        forall|i: int| 0 <= i < update.peers@.len() ==> peer_encoded(update.peers@[i], #[trigger] msgs_peers(r@)[i]),
        forall|k: int| 0 <= k < r@.len() ==> msg_well_formed(#[trigger] r@[k]@, iface.as_str_spec()),
        exists|max: nat|
            max >= MIN_GENL_PAYLOAD_LENGTH && #[trigger] all_fit(r@, max) && (update_peers_small(*update)
                ==> all_below(r@, max)),
        r@.len() == 0 <==> update_attrs(*update).len() == 0 && update.peers@.len() == 0,
{
    let mut payload = ApplyPayload::new(iface);
    assert(payload.all_attrs() =~= Seq::<DeviceAttr>::empty());
    if let Some(k) = update.private_key {
        payload.push(DeviceAttr::PrivateKey(k.0));
    }
    if let Some(m) = update.fwmark {
        payload.push(DeviceAttr::Fwmark(m));
    }
    if let Some(p) = update.listen_port {
        payload.push(DeviceAttr::ListenPort(p));
    }
    if update.replace_peers {
        payload.push(DeviceAttr::Flags(WGDEVICE_F_REPLACE_PEERS));
    }
    assert(payload.all_attrs() =~= update_attrs(*update));
    assert(payload.all_peers() =~= Seq::<Seq<PeerAttr>>::empty());
    let ghost name = payload.name();
    assert(name.len() <= 15);
    let ghost max = payload.max_payload();
    let mut i: usize = 0;
    while i < update.peers.len()
        invariant
            update_peers_fit(*update),
            payload.wf(),
            payload.name() == name,
            name.len() <= 15,
            payload.max_payload() == max,
            0 <= i <= update.peers@.len(),
            payload.all_attrs() == update_attrs(*update),
            payload.all_peers().len() == i,
            forall|j: int| 0 <= j < i ==> peer_encoded(update.peers@[j], #[trigger] payload.all_peers()[j]),
        decreases update.peers@.len() - i,
    {
        let attrs = update.peers[i].to_attrs();
        assert(peer_encoded(update.peers@[i as int], attrs@));
        let ghost before = payload.all_peers();
        payload.push_peer(attrs);
        assert forall|j: int| 0 <= j < i + 1 implies peer_encoded(update.peers@[j], #[trigger] payload.all_peers()[j]) by {
            if j < i {
                assert(payload.all_peers()[j] == before[j]);
            }
        }
        i = i + 1;
    }
    let r = payload.finish();
    assert(name == iface.as_str_spec());
    assert(all_fit(r@, max));
    proof {
        if update_peers_small(*update) {
            assert forall|k: int| 0 <= k < r@.len() implies device_attrs_len(#[trigger] r@[k]@) < max by {
                lemma_small_message(*update, r@, k, name, max);
            }
        }
    }
    r
}

proof fn lemma_small_message(u: DeviceUpdate, ms: Seq<Vec<DeviceAttr>>, k: int, name: Seq<char>, max: nat)
    requires
        update_peers_small(u),
        0 <= k < ms.len(),
        name.len() <= 15,
        max >= MIN_GENL_PAYLOAD_LENGTH,
        msg_well_formed(ms[k]@, name),
        msg_fits(ms[k]@, max),
        msgs_peers(ms).len() == u.peers@.len(),
        forall|i: int| 0 <= i < u.peers@.len() ==> peer_encoded(u.peers@[i], #[trigger] msgs_peers(ms)[i]),
    ensures
        device_attrs_len(ms[k]@) < max,
{
    let m = ms[k]@;
    if device_attrs_len(m) >= max {
        assert(single_unit(m));
        let one = m.drop_last();
        assert(one.drop_last().len() == 0);
        assert(device_attrs_len(one.drop_last()) == 0);
        assert(one.last() == m[0]);
        assert(device_attrs_len(one) == device_attr_len(m[0]));
        assert(device_attr_len(m[0]) <= 20);
        if m[1] is Peers {
            let v = m[1]->Peers_0;
            lemma_msg_peers_listed(ms, k, 0);
            let j = choose|j: int| 0 <= j < msgs_peers(ms).len() && #[trigger] msgs_peers(ms)[j] == msg_peers(ms[k]@)[0];
            assert(peer_encoded(u.peers@[j], msgs_peers(ms)[j]));
            assert(msg_peers(m)[0] == v@[0]@);
            assert(v@.drop_last().len() == 0);
            assert(peer_list_len(v@.drop_last()) == 0);
            assert(v@.last() == v@[0]);
            assert(peer_list_len(v@) == 4 + peer_attrs_len(v@[0]@));
            assert(peer_attrs_len(v@[0]@) + 32 < MIN_GENL_PAYLOAD_LENGTH);
        }
    }
}

/// What creating a link amounts to, given the transport's answer: a link that already
/// exists counts as created, and any other error stands.
pub fn link_create_outcome(result: Result<(), WgError>) -> (r: Result<(), WgError>)
    ensures
        r == (match result {
            Err(WgError::AlreadyExists) => Ok(()),
            other => other,
        }),
{
    match result {
        Err(WgError::AlreadyExists) => Ok(()),
        other => other,
    }
}

/// The device that a "get device" query returned. Each response is `Some` with its records
/// when it is an inner message of the tunnel family, and `None` otherwise; the first one
/// must be such a message.
pub fn device_from_responses(responses: &Vec<Option<Vec<DeviceAttr>>>) -> (r: Result<Device, WgError>)
    ensures
        (responses@.len() == 0 || responses@[0] is None) ==> r == Err::<Device, WgError>(WgError::InvalidResponse),
        responses@.len() > 0 && responses@[0] is Some ==> {
            let s = responses@[0]->Some_0@;
            &&& r is Ok <==> device_decodes(s)
            &&& match r {
                Ok(d) => device_decoded(s, d),
                Err(e) => e == device_decode_error(s),
            }
        },
{
    if responses.len() == 0 {
        return Err(WgError::InvalidResponse);
    }
    match &responses[0] {
        Some(attrs) => Device::try_from(attrs),
        None => Err(WgError::InvalidResponse),
    }
}

/// What the link dump says of one link.
#[derive(Clone, Debug)]
pub struct LinkSummary {
    /// The response is a "new link" message.
    pub new_link: bool,
    /// The link's first info record lists the tunnel kind.
    pub wireguard: bool,
    /// The link's first name record, if any.
    pub name: Option<String>,
}

/// Whether a link enters the enumeration: a tunnel link with a valid name.
pub open spec fn listed(l: LinkSummary) -> bool {
    l.new_link && l.wireguard && l.name is Some && name_ok(l.name.unwrap())
}

/// The names of the listed links, in order.
pub open spec fn listed_names(s: Seq<LinkSummary>) -> Seq<Seq<u8>>
    decreases s.len(),
{
    if s.len() == 0 {
        seq![]
    } else {
        listed_names(s.drop_last()) + if listed(s.last()) {
            seq![s.last().name.unwrap()@.map_values(|c: char| c as u8)]
        } else {
            seq![]
        }
    }
}

/// The names of the tunnel interfaces among the links of a dump, in order. A link whose
/// name fails validation is skipped.
pub fn wireguard_names(links: &Vec<LinkSummary>) -> (r: Vec<InterfaceName>)
    ensures
        r@.len() == listed_names(links@).len(),
        forall|k: int| 0 <= k < r@.len() ==> #[trigger] r@[k]@ == listed_names(links@)[k],
{
    let mut names: Vec<InterfaceName> = Vec::new();
    let mut i: usize = 0;
    while i < links.len()
        invariant
            0 <= i <= links@.len(),
            names@.len() == listed_names(links@.take(i as int)).len(),
            forall|k: int| 0 <= k < names@.len() ==> #[trigger] names@[k]@ == listed_names(links@.take(i as int))[k],
        decreases links@.len() - i,
    {
        assert(links@.take(i + 1).drop_last() =~= links@.take(i as int));
        let link = &links[i];
        if link.new_link && link.wireguard {
            if let Some(n) = &link.name {
                if let Ok(name) = InterfaceName::from_str(n.as_str()) {
                    names.push(name);
                }
            }
        }
        i = i + 1;
    }
    assert(links@.take(i as int) =~= links@);
    names
}

} // verus!
