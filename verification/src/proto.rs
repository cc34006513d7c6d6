//! The records that travel between overlay nodes, as plain values.
use vstd::prelude::*;
use crate::rldp_node::encoder::RaptorQFecType;
use crate::utils::node_id::PUBLIC_KEY_ED25519_ID;
use crate::utils::tl::{
    tl_bytes, tl_u32, write_bytes, write_int256, write_u32, BoxedSerialize, TlError,
    MAX_TL_BYTES_LEN,
};

verus! {

/// Constructor id of the id record of a broadcast.
pub const BROADCAST_ID: u32 = 0x51fd789a;

/// Constructor id of the record that the source of a broadcast signs.
pub const BROADCAST_TO_SIGN_ID: u32 = 0xfa374e7c;

/// Constructor id of the record that a node signs to announce itself.
pub const NODE_TO_SIGN_ID: u32 = 0x03d8a8e1;

/// Constructor id of a list of nodes.
pub const NODES_ID: u32 = 0x73d3fa97;

/// Header that names the overlay a custom message is meant for.
#[derive(Clone, Copy, Debug)]
pub struct OverlayMessage {
    pub overlay: [u8; 32],
}

/// A broadcast that carries its whole payload.
#[derive(Debug)]
pub struct BroadcastSimple {
    pub src: [u8; 32],
    pub flags: i32,
    pub data: Vec<u8>,
    pub date: i32,
    pub signature: Vec<u8>,
}

/// One symbol of a broadcast whose payload travels as RaptorQ symbols.
#[derive(Debug)]
pub struct BroadcastFec {
    pub src: [u8; 32],
    pub data_hash: [u8; 32],
    pub data_size: u32,
    pub flags: i32,
    pub data: Vec<u8>,
    pub seqno: u32,
    pub fec: RaptorQFecType,
    pub date: i32,
    pub signature: Vec<u8>,
}

/// What an overlay message carries.
#[derive(Debug)]
pub enum Broadcast {
    Broadcast(BroadcastSimple),
    BroadcastFec(BroadcastFec),
    /// Any other record of the broadcast family.
    Other,
}

/// A node's signed announcement of itself in an overlay.
#[derive(Debug)]
pub struct Node {
    pub id: [u8; 32],
    pub overlay: [u8; 32],
    pub version: i32,
    pub signature: Vec<u8>,
}

/// The content of a [`Node`].
pub struct NodeView {
    pub id: Seq<u8>,
    pub overlay: Seq<u8>,
    pub version: i32,
    pub signature: Seq<u8>,
}

impl View for Node {
    type V = NodeView;

    open spec fn view(&self) -> NodeView {
        NodeView {
            id: self.id@,
            overlay: self.overlay@,
            version: self.version,
            signature: self.signature@,
        }
    }
}

impl Node {
    /// A copy of this announcement.
    pub fn duplicate(&self) -> (copy: Node)
        ensures
            copy@ == self@,
    {
        Node {
            id: self.id,
            overlay: self.overlay,
            version: self.version,
            signature: self.signature.clone(),
        }
    }
}

/// The views of a run of nodes.
pub open spec fn node_views(nodes: Seq<Node>) -> Seq<NodeView> {
    Seq::new(nodes.len(), |i: int| nodes[i]@)
}

/// A query as the overlay layer sees it.
#[derive(Debug)]
pub enum Query {
    /// Prefix that names the overlay the next query is meant for.
    Overlay { overlay: [u8; 32] },
    /// Exchange of known peers.
    GetRandomPeers { peers: Vec<Node> },
    /// Any other query, in its serialized form.
    Other(Vec<u8>),
}

/// Id record of a broadcast: who it is from, what it holds, and when it was
/// made.
pub open spec fn broadcast_id_form(
    source: Seq<u8>,
    data_hash: Seq<u8>,
    flags: i32,
    date: i32,
) -> Seq<u8> {
    tl_u32(BROADCAST_ID) + source + data_hash + tl_u32(flags as u32) + tl_u32(date as u32)
}

/// The record that the source of a broadcast signs.
pub open spec fn broadcast_to_sign_form(hash: Seq<u8>, date: i32) -> Seq<u8> {
    tl_u32(BROADCAST_TO_SIGN_ID) + hash + tl_u32(date as u32)
}

/// The record that a node signs to announce itself.
pub open spec fn node_to_sign_form(id: Seq<u8>, overlay: Seq<u8>, version: i32) -> Seq<u8> {
    tl_u32(NODE_TO_SIGN_ID) + id + overlay + tl_u32(version as u32)
}

/// Bare form of a node's announcement.
pub open spec fn node_form(node: NodeView) -> Seq<u8> {
    tl_u32(PUBLIC_KEY_ED25519_ID) + node.id + node.overlay + tl_u32(node.version as u32)
        + tl_bytes(node.signature)
}

/// Bare forms of a run of announcements, one after another.
pub open spec fn nodes_form(nodes: Seq<NodeView>) -> Seq<u8>
    decreases nodes.len(),
{
    if nodes.len() == 0 {
        Seq::empty()
    } else {
        nodes_form(nodes.drop_last()) + node_form(nodes.last())
    }
}

/// Boxed form of a list of announcements.
pub open spec fn nodes_answer_form(nodes: Seq<NodeView>) -> Seq<u8> {
    tl_u32(NODES_ID) + tl_u32(nodes.len() as u32) + nodes_form(nodes)
}

/// Whether every signature fits the format's limit for byte strings.
pub open spec fn nodes_fit(nodes: Seq<NodeView>) -> bool {
    forall|i: int| 0 <= i < nodes.len() ==> (#[trigger] nodes[i]).signature.len() <= MAX_TL_BYTES_LEN
}

/// Writes the id record of a broadcast.
pub fn write_broadcast_id(
    buffer: &mut Vec<u8>,
    source: &[u8; 32],
    data_hash: &[u8; 32],
    flags: i32,
    date: i32,
)
    ensures
        final(buffer)@ == old(buffer)@ + broadcast_id_form(source@, data_hash@, flags, date),
{
    write_u32(buffer, BROADCAST_ID);
    write_int256(buffer, source);
    write_int256(buffer, data_hash);
    write_u32(buffer, flags as u32);
    write_u32(buffer, date as u32);
    assert(buffer@ =~= old(buffer)@ + broadcast_id_form(source@, data_hash@, flags, date));
}

/// Writes the record that the source of a broadcast signs.
pub fn write_broadcast_to_sign(buffer: &mut Vec<u8>, hash: &[u8; 32], date: i32)
    ensures
        final(buffer)@ == old(buffer)@ + broadcast_to_sign_form(hash@, date),
{
    write_u32(buffer, BROADCAST_TO_SIGN_ID);
    write_int256(buffer, hash);
    write_u32(buffer, date as u32);
    assert(buffer@ =~= old(buffer)@ + broadcast_to_sign_form(hash@, date));
}

/// Writes the record that a node signs to announce itself.
pub fn write_node_to_sign(buffer: &mut Vec<u8>, id: &[u8; 32], overlay: &[u8; 32], version: i32)
    ensures
        final(buffer)@ == old(buffer)@ + node_to_sign_form(id@, overlay@, version),
{
    write_u32(buffer, NODE_TO_SIGN_ID);
    write_int256(buffer, id);
    write_int256(buffer, overlay);
    write_u32(buffer, version as u32);
    assert(buffer@ =~= old(buffer)@ + node_to_sign_form(id@, overlay@, version));
}

/// A list of announcements, the answer to an exchange of peers.
#[derive(Debug)]
pub struct Nodes {
    pub nodes: Vec<Node>,
}

impl BoxedSerialize for Nodes {
    open spec fn boxed_form(&self) -> Seq<u8> {
        nodes_answer_form(node_views(self.nodes@))
    }

    open spec fn serializable(&self) -> bool {
        &&& self.nodes@.len() <= u32::MAX
        &&& nodes_fit(node_views(self.nodes@))
    }

    fn write_boxed(&self, buffer: &mut Vec<u8>) -> (written: Result<(), TlError>) {
        if self.nodes.len() > u32::MAX as usize {
            return Err(TlError::TooLong);
        }
        let mut checked: usize = 0;
        while checked < self.nodes.len()
            invariant
                checked <= self.nodes@.len(),
                forall|i: int|
                    0 <= i < checked ==> (#[trigger] self.nodes@[i]).signature@.len()
                        <= MAX_TL_BYTES_LEN,
            decreases self.nodes@.len() - checked,
        {
            if self.nodes[checked].signature.len() > MAX_TL_BYTES_LEN {
                assert(node_views(self.nodes@)[checked as int].signature.len() > MAX_TL_BYTES_LEN);
                return Err(TlError::TooLong);
            }
            checked += 1;
        }
        assert forall|i: int| 0 <= i < self.nodes@.len() implies (#[trigger] node_views(
            self.nodes@,
        )[i]).signature.len() <= MAX_TL_BYTES_LEN by {
            assert(self.nodes@[i].signature@.len() <= MAX_TL_BYTES_LEN);
        }
        write_u32(buffer, NODES_ID);
        write_u32(buffer, self.nodes.len() as u32);
        let ghost head = buffer@;
        let mut i: usize = 0;
        assert(node_views(self.nodes@).take(0) =~= Seq::<NodeView>::empty());
        while i < self.nodes.len()
            invariant
                i <= self.nodes@.len(),
                forall|k: int|
                    0 <= k < self.nodes@.len() ==> (#[trigger] self.nodes@[k]).signature@.len()
                        <= MAX_TL_BYTES_LEN,
                buffer@ == head + nodes_form(node_views(self.nodes@).take(i as int)),
            decreases self.nodes@.len() - i,
        {
            let node = &self.nodes[i];
            let ghost before = buffer@;
            write_u32(buffer, PUBLIC_KEY_ED25519_ID);
            write_int256(buffer, &node.id);
            write_int256(buffer, &node.overlay);
            write_u32(buffer, node.version as u32);
            write_bytes(buffer, node.signature.as_slice());
            proof {
                let views = node_views(self.nodes@);
                assert(views.take(i as int + 1).drop_last() =~= views.take(i as int));
                assert(views.take(i as int + 1).last() == node@);
                assert(buffer@ =~= before + node_form(node@));
            }
            i += 1;
        }
        proof {
            assert(node_views(self.nodes@).take(i as int) =~= node_views(self.nodes@));
            assert(buffer@ =~= old(buffer)@ + self.boxed_form());
        }
        Ok(())
    }
}

} // verus!
