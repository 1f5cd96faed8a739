//! The gossip protocol's decisions: what each received message does to
//! the node's state, and which messages go out in reply. The
//! surrounding program moves the messages over TCP; everything here is
//! plain state.

use vstd::prelude::*;

use crate::block::block_wf;
use crate::block::is_block_record;
use crate::block::spec_block_bytes;
use crate::block::spec_dec_block;
use crate::block::Block;
use crate::block::BlockV;
use crate::blockchain::is_chain_from;
use crate::blockchain::spec_added_block;
use crate::blockchain::spec_mined_block;
use crate::bytesutil::clone_bytes;
use crate::config::Config;
use crate::errors::ChainError;
use crate::hexcode::hex_encode;
use crate::hexcode::spec_hex;
use crate::memory_pool::BlockInTransit;
use crate::memory_pool::MemoryPool;
use crate::node::Nodes;
use crate::transaction::spec_dec_tx;
use crate::transaction::spec_tx_bytes;
use crate::transaction::tx_costs_ok;
use crate::transaction::Transaction;
use crate::transaction::TxV;
use crate::utxoscan::spec_chain_utxo;
use crate::utxo_set::utxo_encoded_matches;
use crate::utxo_set::UTXOSet;

verus! {

/// The protocol version spoken.
pub const NODE_VERSION: usize = 1;

/// How many pending transactions make a miner build a block.
pub const TRANSACTION_THRESHOLD: usize = 2;

/// The bootstrap node every peer knows.
pub fn centeral_node() -> (r: String)
    ensures
        r@ == "127.0.0.1:2001"@,
{
    "127.0.0.1:2001".to_owned()
}

/// What a message announces or requests.
#[derive(PartialEq, Eq, Structural)]
pub enum OpType {
    Tx,
    Block,
}

impl Clone for OpType {
    fn clone(&self) -> (res: Self)
        ensures
            res == *self,
    {
        match self {
            OpType::Tx => OpType::Tx,
            OpType::Block => OpType::Block,
        }
    }
}

/// One protocol message.
pub enum Package {
    Block { addr_from: String, block: Vec<u8> },
    GetBlocks { addr_from: String },
    GetData { addr_from: String, op_type: OpType, id: Vec<u8> },
    Inv { addr_from: String, op_type: OpType, items: Vec<Vec<u8>> },
    Tx { addr_from: String, transaction: Vec<u8> },
    Version { addr_from: String, version: usize, best_height: usize },
}

/// A message to deliver: its destination address and its payload.
pub struct OutMsg {
    pub dest: String,
    pub pkg: Package,
}

/// A `Version` message for `addr`, carrying this node's height.
pub fn send_version(config: &Config, addr: &str, height: usize) -> (r: OutMsg)
    ensures
        r.dest@ == addr@,
        r.pkg matches Package::Version { addr_from, version, best_height } && addr_from@
            == config.spec_node_addr() && version == NODE_VERSION && best_height == height,
{
    OutMsg {
        dest: addr.to_owned(),
        pkg: Package::Version {
            addr_from: config.get_node_addr(),
            version: NODE_VERSION,
            best_height: height,
        },
    }
}

/// An `Inv` message for `addr`, announcing the given items.
pub fn send_inv(config: &Config, addr: &str, op_type: OpType, blocks: Vec<Vec<u8>>) -> (r: OutMsg)
    ensures
        r.dest@ == addr@,
        r.pkg matches Package::Inv { addr_from, op_type: o, items } && addr_from@
            == config.spec_node_addr() && o == op_type && items@ == blocks@,
{
    OutMsg {
        dest: addr.to_owned(),
        pkg: Package::Inv { addr_from: config.get_node_addr(), op_type, items: blocks },
    }
}

/// A `GetData` message for `addr`, requesting one object.
pub fn send_get_data(config: &Config, addr: &str, op_type: OpType, id: Vec<u8>) -> (r: OutMsg)
    ensures
        r.dest@ == addr@,
        r.pkg matches Package::GetData { addr_from, op_type: o, id: i } && addr_from@
            == config.spec_node_addr() && o == op_type && i@ == id@,
{
    OutMsg {
        dest: addr.to_owned(),
        pkg: Package::GetData { addr_from: config.get_node_addr(), op_type, id },
    }
}

/// A `GetBlocks` message for `addr`.
pub fn send_get_blocks(config: &Config, addr: &str) -> (r: OutMsg)
    ensures
        r.dest@ == addr@,
        r.pkg matches Package::GetBlocks { addr_from } && addr_from@ == config.spec_node_addr(),
{
    OutMsg { dest: addr.to_owned(), pkg: Package::GetBlocks { addr_from: config.get_node_addr() } }
}

/// A `Tx` message for `addr`, carrying a serialized transaction.
pub fn send_tx(config: &Config, addr: &str, tx: &Transaction) -> (r: Option<OutMsg>)
    ensures
        r matches Some(msg) ==> msg.dest@ == addr@ && (msg.pkg matches Package::Tx {
            addr_from,
            transaction,
        } && addr_from@ == config.spec_node_addr() && transaction@
            == crate::transaction::spec_tx_bytes(tx@)),
        r is Some <==> crate::transaction::tx_costs_ok(tx@),
{
    if !tx.costs_nonneg() {
        return None;
    }
    let data = tx.serialize();
    Some(
        OutMsg {
            dest: addr.to_owned(),
            pkg: Package::Tx { addr_from: config.get_node_addr(), transaction: data },
        },
    )
}

/// A `Block` message for `addr`, carrying a serialized block.
pub fn send_block(config: &Config, addr: &str, block: &Block) -> (r: OutMsg)
    requires
        block_wf(block@),
    ensures
        r.dest@ == addr@,
        r.pkg matches Package::Block { addr_from, block: b } && addr_from@
            == config.spec_node_addr() && b@ == crate::block::spec_block_bytes(block@),
{
    let data = block.serialize();
    OutMsg {
        dest: addr.to_owned(),
        pkg: Package::Block { addr_from: config.get_node_addr(), block: data },
    }
}

/// The peers a transaction announcement goes to: every known address
/// except the local node and the sender, in table order.
pub open spec fn spec_broadcast_targets(
    addrs: Seq<Seq<char>>,
    local: Seq<char>,
    sender: Seq<char>,
) -> Seq<Seq<char>>
    decreases addrs.len(),
{
    if addrs.len() == 0 {
        Seq::empty()
    } else {
        let rest = spec_broadcast_targets(addrs.drop_first(), local, sender);
        if addrs[0] == local || addrs[0] == sender {
            rest
        } else {
            seq![addrs[0]] + rest
        }
    }
}

/// Announcement targets filter piecewise.
pub proof fn lemma_broadcast_targets_concat(
    s1: Seq<Seq<char>>,
    s2: Seq<Seq<char>>,
    local: Seq<char>,
    sender: Seq<char>,
)
    ensures
        spec_broadcast_targets(s1 + s2, local, sender) =~= spec_broadcast_targets(
            s1,
            local,
            sender,
        ) + spec_broadcast_targets(s2, local, sender),
    decreases s1.len(),
{
    if s1.len() == 0 {
        assert(s1 + s2 =~= s2);
        assert(spec_broadcast_targets(s1, local, sender) =~= Seq::<Seq<char>>::empty());
    } else {
        assert((s1 + s2)[0] == s1[0]);
        assert((s1 + s2).drop_first() =~= s1.drop_first() + s2);
        lemma_broadcast_targets_concat(s1.drop_first(), s2, local, sender);
    }
}

/// Everything a running node holds: the chain with its unspent-output
/// index, the pending transactions, the block-download queue, the peer
/// table and the settings.
pub struct ServerState {
    pub utxo_set: UTXOSet,
    pub mempool: MemoryPool,
    pub blocks_in_transit: BlockInTransit,
    pub nodes: Nodes,
    pub config: Config,
}

impl ServerState {
    /// The state is usable.
    pub open spec fn wf(&self) -> bool {
        self.utxo_set.wf() && self.mempool.wf()
    }

    /// Applies one received message and says what to send, to whom.
    ///
    /// `Version` compares heights and replies with `GetBlocks` or
    /// `Version`; `GetBlocks` answers with an `Inv` of every block
    /// hash; `Inv` queues announced blocks and requests the first, or
    /// requests an unknown transaction; `GetData` serves a held block
    /// or pending transaction; `Block` stores the block and requests
    /// the next queued one, rebuilding the unspent-output index once
    /// none remain; `Tx` pools the transaction, the central node
    /// re-announces it, and a miner whose pool reached the threshold
    /// mines a block over it and announces that.
    #[verifier::rlimit(100)]
    #[verifier::spinoff_prover]
    pub fn handle_package(&mut self, peer_addr: &str, pkg: Package) -> (r: Result<
        Vec<OutMsg>,
        ChainError,
    >)
        requires
            old(self).wf(),
        ensures
            r is Ok ==> final(self).wf(),
            final(self).config == old(self).config,
            r matches Ok(msgs) ==> (pkg matches Package::Version { addr_from, best_height, .. }
                ==> {
                let h = old(self).utxo_set.chain().tip_block().height;
                &&& ((best_height as u64) > h ==> msgs@.len() == 1 && msgs@[0].dest@ == addr_from@
                    && (msgs@[0].pkg matches Package::GetBlocks { .. }))
                &&& ((best_height as u64) < h ==> msgs@.len() == 1 && msgs@[0].dest@ == addr_from@
                    && (msgs@[0].pkg matches Package::Version { best_height: mine, .. } && mine
                        as u64 == h))
                &&& ((best_height as u64) == h ==> msgs@.len() == 0)
                &&& final(self).mempool == old(self).mempool
                &&& final(self).blocks_in_transit == old(self).blocks_in_transit
                &&& final(self).utxo_set.contents() == old(self).utxo_set.contents()
                &&& final(self).utxo_set.chain().blocks() == old(self).utxo_set.chain().blocks()
                &&& final(self).utxo_set.chain().tip() == old(self).utxo_set.chain().tip()
            }),
            r matches Ok(msgs) ==> (pkg matches Package::GetBlocks { addr_from } ==> msgs@.len()
                == 1 && msgs@[0].dest@ == addr_from@ && (msgs@[0].pkg matches Package::Inv {
                op_type: OpType::Block,
                ..
            }) && final(self).mempool == old(self).mempool && final(self).blocks_in_transit
                == old(self).blocks_in_transit && final(self).nodes == old(self).nodes && final(self).utxo_set.contents() == old(self).utxo_set.contents() && final(self).utxo_set.chain().blocks() == old(self).utxo_set.chain().blocks() && final(self).utxo_set.chain().tip() == old(self).utxo_set.chain().tip()),
            r matches Ok(msgs) ==> (pkg matches Package::GetData { addr_from, op_type, id } ==> {
                &&& final(self).mempool == old(self).mempool
                &&& final(self).blocks_in_transit == old(self).blocks_in_transit
                &&& final(self).nodes == old(self).nodes
                &&& final(self).utxo_set.contents() == old(self).utxo_set.contents()
                &&& final(self).utxo_set.chain().blocks() == old(self).utxo_set.chain().blocks()
                &&& final(self).utxo_set.chain().tip() == old(self).utxo_set.chain().tip()
                &&& (op_type == OpType::Tx ==> {
                    &&& (!old(self).mempool.spec_contains(spec_hex(id@)) ==> msgs@.len() == 0)
                    &&& (old(self).mempool.spec_value(spec_hex(id@)) matches Some(tv) ==> {
                        &&& (tx_costs_ok(tv) ==> msgs@.len() == 1 && msgs@[0].dest@ == addr_from@
                            && (msgs@[0].pkg matches Package::Tx { transaction: tb, .. } && tb@
                                == spec_tx_bytes(tv)))
                        &&& (!tx_costs_ok(tv) ==> msgs@.len() == 0)
                    })
                })
                &&& (op_type == OpType::Block ==> {
                    let m = old(self).utxo_set.chain().blocks();
                    &&& ((m.contains_key(id@) && is_block_record(m[id@])) ==> msgs@.len() == 1
                        && msgs@[0].dest@ == addr_from@ && (msgs@[0].pkg matches Package::Block {
                        block: bb,
                        ..
                    } && bb@ == spec_block_bytes(spec_dec_block(m[id@], 0).unwrap().0)))
                    &&& (!(m.contains_key(id@) && is_block_record(m[id@])) ==> msgs@.len() == 0)
                })
            }),
            pkg matches Package::Inv { .. } ==> r is Ok,
            pkg matches Package::GetData { op_type: OpType::Tx, .. } ==> r is Ok,
            r matches Ok(msgs) ==> (pkg matches Package::Inv { addr_from, op_type, items } ==> {
                &&& final(self).mempool == old(self).mempool
                &&& final(self).nodes == old(self).nodes
                &&& final(self).utxo_set.contents() == old(self).utxo_set.contents()
                &&& final(self).utxo_set.chain().blocks() == old(self).utxo_set.chain().blocks()
                &&& final(self).utxo_set.chain().tip() == old(self).utxo_set.chain().tip()
                &&& (op_type == OpType::Tx ==> final(self).blocks_in_transit == old(self).blocks_in_transit && {
                    &&& (items@.len() == 0 ==> msgs@.len() == 0)
                    &&& (items@.len() > 0 && old(self).mempool.spec_contains(
                        spec_hex(items@[0]@),
                    ) ==> msgs@.len() == 0)
                    &&& (items@.len() > 0 && !old(self).mempool.spec_contains(
                        spec_hex(items@[0]@),
                    ) ==> msgs@.len() == 1 && msgs@[0].dest@ == addr_from@ && (msgs@[0].pkg
                        matches Package::GetData { op_type: OpType::Tx, id: rid, .. } && rid@
                        == items@[0]@))
                })
                &&& (op_type == OpType::Block ==> {
                    let queued = old(self).blocks_in_transit.view_hashes() + Seq::new(
                        items@.len(),
                        |q: int| items@[q]@,
                    );
                    &&& (items@.len() == 0 ==> msgs@.len() == 0 && final(self).blocks_in_transit.view_hashes() == queued)
                    &&& (items@.len() > 0 ==> msgs@.len() == 1 && msgs@[0].dest@ == addr_from@ && (
                    msgs@[0].pkg matches Package::GetData { op_type: OpType::Block, id: rid, .. }
                        && rid@ == items@[0]@) && exists|j: int|
                        0 <= j < queued.len() && #[trigger] queued[j] == items@[0]@ && (forall|
                            q2: int,
                        |
                            0 <= q2 < j ==> queued[q2] != items@[0]@) && final(self).blocks_in_transit.view_hashes() == queued.remove(j))
                })
            }),
            pkg matches Package::Tx { .. } && !(old(self).config.spec_mining_addr() is Some)
                ==> r is Ok,
            r matches Ok(msgs) ==> (pkg matches Package::Tx { addr_from, transaction } ==> {
                &&& final(self).nodes == old(self).nodes
                &&& final(self).blocks_in_transit == old(self).blocks_in_transit
                &&& (!(spec_dec_tx(transaction@, 0) matches Some(p2) && p2.1
                    == transaction@.len()) ==> msgs@.len() == 0 && final(self).mempool == old(self).mempool && final(self).utxo_set.contents() == old(self).utxo_set.contents()
                    && final(self).utxo_set.chain().blocks() == old(self).utxo_set.chain().blocks() && final(self).utxo_set.chain().tip() == old(self).utxo_set.chain().tip())
                &&& ((spec_dec_tx(transaction@, 0) matches Some(p2) && p2.1 == transaction@.len()
                    && !(old(self).config.spec_mining_addr() is Some)) ==> {
                    let tv = spec_dec_tx(transaction@, 0).unwrap().0;
                    &&& final(self).utxo_set.contents() == old(self).utxo_set.contents()
                    &&& final(self).utxo_set.chain().blocks() == old(self).utxo_set.chain().blocks()
                    &&& final(self).utxo_set.chain().tip() == old(self).utxo_set.chain().tip()
                    &&& final(self).mempool.spec_value(spec_hex(tv.id)) == Some(tv)
                    &&& (forall|k: Seq<char>|
                        k != spec_hex(tv.id) ==> final(self).mempool.spec_value(k) == old(self).mempool.spec_value(k))
                    &&& (old(self).config.spec_node_addr() == "127.0.0.1:2001"@ ==> {
                        let targets = spec_broadcast_targets(
                            old(self).nodes.view_addrs(),
                            old(self).config.spec_node_addr(),
                            addr_from@,
                        );
                        &&& msgs@.len() == targets.len()
                        &&& forall|q: int|
                            0 <= q < msgs@.len() ==> (#[trigger] msgs@[q]).dest@ == targets[q] && (
                            msgs@[q].pkg matches Package::Inv {
                                op_type: OpType::Tx,
                                items: its,
                                addr_from: af,
                            } && its@.len() == 1 && its@[0]@ == tv.id && af@ == old(self).config.spec_node_addr())
                    })
                    &&& (old(self).config.spec_node_addr() != "127.0.0.1:2001"@ ==> msgs@.len()
                        == 0)
                })
                &&& ((spec_dec_tx(transaction@, 0) matches Some(p2) && p2.1
                    == transaction@.len() && old(self).config.spec_mining_addr() is Some) ==> {
                    let tv = spec_dec_tx(transaction@, 0).unwrap().0;
                    ||| (final(self).utxo_set.contents() == old(self).utxo_set.contents()
                        && final(self).utxo_set.chain().blocks() == old(
                        self,
                    ).utxo_set.chain().blocks() && final(self).utxo_set.chain().tip() == old(
                        self,
                    ).utxo_set.chain().tip() && final(self).mempool.spec_value(spec_hex(tv.id))
                        == Some(tv))
                    ||| (exists|b: BlockV, mtxs: Seq<TxV>|
                        #[trigger] spec_mined_block(
                            old(self).utxo_set.chain(),
                            final(self).utxo_set.chain(),
                            b,
                            mtxs,
                        ) && (forall|ch: Seq<BlockV>|
                            #[trigger] is_chain_from(
                                final(self).utxo_set.chain().blocks(),
                                final(self).utxo_set.chain().tip(),
                                ch,
                            ) ==> utxo_encoded_matches(
                                final(self).utxo_set.contents(),
                                spec_chain_utxo(ch),
                            )))
                })
            }),
            r matches Ok(msgs) ==> (pkg matches Package::Block { addr_from, block } ==> {
                &&& final(self).mempool == old(self).mempool
                &&& final(self).nodes == old(self).nodes
                &&& (!(spec_dec_block(block@, 0) matches Some(p2) && p2.1 == block@.len())
                    ==> msgs@.len() == 0 && final(self).blocks_in_transit == old(self).blocks_in_transit && final(self).utxo_set.contents() == old(self).utxo_set.contents() && final(self).utxo_set.chain().blocks() == old(self).utxo_set.chain().blocks() && final(self).utxo_set.chain().tip() == old(self).utxo_set.chain().tip())
                &&& ((spec_dec_block(block@, 0) matches Some(p2) && p2.1 == block@.len()) ==> {
                    let bv = spec_dec_block(block@, 0).unwrap().0;
                    &&& spec_added_block(
                        old(self).utxo_set.chain(),
                        final(self).utxo_set.chain(),
                        bv,
                    )
                    &&& (old(self).blocks_in_transit.view_hashes().len() > 0 ==> final(self).utxo_set.contents() == old(self).utxo_set.contents() && msgs@.len() == 1
                        && msgs@[0].dest@ == addr_from@ && (msgs@[0].pkg
                        matches Package::GetData { op_type: OpType::Block, id: rid, .. } && rid@
                        == old(self).blocks_in_transit.view_hashes()[0]) && final(self).blocks_in_transit.view_hashes() == old(self).blocks_in_transit.view_hashes().drop_first())
                    &&& (old(self).blocks_in_transit.view_hashes().len() == 0 ==> msgs@.len() == 0
                        && final(self).blocks_in_transit == old(self).blocks_in_transit && (
                    forall|ch: Seq<BlockV>|
                        #[trigger] is_chain_from(
                            final(self).utxo_set.chain().blocks(),
                            final(self).utxo_set.chain().tip(),
                            ch,
                        ) ==> utxo_encoded_matches(
                            final(self).utxo_set.contents(),
                            spec_chain_utxo(ch),
                        )))
                })
            }),
    {
        match pkg {
            Package::Block { addr_from, block } => self.on_block(addr_from, block),
            Package::GetBlocks { addr_from } => self.on_get_blocks(addr_from),
            Package::GetData { addr_from, op_type, id } => self.on_get_data(
                addr_from,
                op_type,
                id,
            ),
            Package::Inv { addr_from, op_type, items } => self.on_inv(addr_from, op_type, items),
            Package::Tx { addr_from, transaction } => self.on_tx(addr_from, transaction),
            Package::Version { addr_from, version: _, best_height } => self.on_version(
                peer_addr,
                addr_from,
                best_height,
            ),
        }
    }

    /// One received block: store it, then request the next queued
    /// block from the sender, or rebuild the index once the queue is
    /// empty.
    #[verifier::rlimit(100)]
    #[verifier::spinoff_prover]
    fn on_block(&mut self, addr_from: String, block: Vec<u8>) -> (r: Result<
        Vec<OutMsg>,
        ChainError,
    >)
        requires
            old(self).wf(),
        ensures
            r is Ok ==> final(self).wf(),
            final(self).config == old(self).config,
            r matches Ok(msgs) ==> {
                &&& final(self).mempool == old(self).mempool
                &&& final(self).nodes == old(self).nodes
                &&& (!(spec_dec_block(block@, 0) matches Some(p2) && p2.1 == block@.len())
                    ==> msgs@.len() == 0 && final(self).blocks_in_transit == old(self).blocks_in_transit
                    && final(self).utxo_set.contents() == old(self).utxo_set.contents()
                    && final(self).utxo_set.chain().blocks() == old(self).utxo_set.chain().blocks()
                    && final(self).utxo_set.chain().tip() == old(self).utxo_set.chain().tip())
                &&& ((spec_dec_block(block@, 0) matches Some(p2) && p2.1 == block@.len()) ==> {
                    let bv = spec_dec_block(block@, 0).unwrap().0;
                    &&& spec_added_block(
                        old(self).utxo_set.chain(),
                        final(self).utxo_set.chain(),
                        bv,
                    )
                    &&& (old(self).blocks_in_transit.view_hashes().len() > 0
                        ==> final(self).utxo_set.contents() == old(self).utxo_set.contents()
                        && msgs@.len() == 1 && msgs@[0].dest@ == addr_from@
                        && (msgs@[0].pkg matches Package::GetData {
                            op_type: OpType::Block,
                            id: rid,
                            ..
                        } && rid@ == old(self).blocks_in_transit.view_hashes()[0])
                        && final(self).blocks_in_transit.view_hashes()
                        == old(self).blocks_in_transit.view_hashes().drop_first())
                    &&& (old(self).blocks_in_transit.view_hashes().len() == 0 ==> msgs@.len() == 0
                        && final(self).blocks_in_transit == old(self).blocks_in_transit
                        && (forall|ch: Seq<BlockV>|
                            #[trigger] is_chain_from(
                                final(self).utxo_set.chain().blocks(),
                                final(self).utxo_set.chain().tip(),
                                ch,
                            ) ==> utxo_encoded_matches(
                                final(self).utxo_set.contents(),
                                spec_chain_utxo(ch),
                            )))
                })
            },
    {
        let mut out: Vec<OutMsg> = Vec::new();
        let block = match Block::deserialize(block.as_slice()) {
            Some(b) => b,
            None => {
                return Ok(out);
            },
        };
        match self.utxo_set.chain_mut().add_block(&block) {
            Ok(()) => (),
            Err(e) => {
                return Err(e);
            },
        }
        if self.blocks_in_transit.len() > 0 {
            if let Some(block_hash) = self.blocks_in_transit.first() {
                let h = clone_bytes(&block_hash);
                out.push(send_get_data(&self.config, addr_from.as_str(), OpType::Block, h));
                let ghost transit_pre = self.blocks_in_transit.view_hashes();
                self.blocks_in_transit.remove(block_hash.as_slice());
                proof {
                    let j = choose|j: int|
                        0 <= j < transit_pre.len() && #[trigger] transit_pre[j] == block_hash@ && (
                        forall|q2: int| 0 <= q2 < j ==> transit_pre[q2] != block_hash@)
                            && self.blocks_in_transit.view_hashes() == transit_pre.remove(j);
                    assert(j == 0);
                    assert(transit_pre.remove(0) =~= transit_pre.drop_first());
                }
            }
        } else {
            match self.utxo_set.reindex() {
                Ok(()) => (),
                Err(e) => {
                    return Err(e);
                },
            }
        }
        Ok(out)
    }

    /// A block-list request: answer with an `Inv` of every hash.
    fn on_get_blocks(&mut self, addr_from: String) -> (r: Result<Vec<OutMsg>, ChainError>)
        requires
            old(self).wf(),
        ensures
            r is Ok ==> final(self).wf(),
            final(self).config == old(self).config,
            r matches Ok(msgs) ==> msgs@.len() == 1 && msgs@[0].dest@ == addr_from@ && (msgs@[0].pkg
                matches Package::Inv { op_type: OpType::Block, .. }) && final(self).mempool == old(self).mempool && final(self).blocks_in_transit == old(self).blocks_in_transit && final(self).nodes == old(self).nodes && final(self).utxo_set.contents() == old(self).utxo_set.contents() && final(self).utxo_set.chain().blocks() == old(self).utxo_set.chain().blocks() && final(self).utxo_set.chain().tip() == old(self).utxo_set.chain().tip(),
    {
        let mut out: Vec<OutMsg> = Vec::new();
        let blocks = match self.utxo_set.get_blockchain().get_block_hashes() {
            Ok(v) => v,
            Err(e) => {
                return Err(e);
            },
        };
        out.push(send_inv(&self.config, addr_from.as_str(), OpType::Block, blocks));
        Ok(out)
    }

    /// A data request: serve the held block or pending transaction,
    /// stay silent otherwise; the state is untouched.
    #[verifier::rlimit(100)]
    #[verifier::spinoff_prover]
    fn on_get_data(&mut self, addr_from: String, op_type: OpType, id: Vec<u8>) -> (r: Result<
        Vec<OutMsg>,
        ChainError,
    >)
        requires
            old(self).wf(),
        ensures
            r is Ok ==> final(self).wf(),
            op_type == OpType::Tx ==> r is Ok,
            final(self).config == old(self).config,
            final(self).mempool == old(self).mempool,
            final(self).blocks_in_transit == old(self).blocks_in_transit,
            final(self).nodes == old(self).nodes,
            final(self).utxo_set.contents() == old(self).utxo_set.contents(),
            final(self).utxo_set.chain().blocks() == old(self).utxo_set.chain().blocks(),
            final(self).utxo_set.chain().tip() == old(self).utxo_set.chain().tip(),
            r matches Ok(msgs) ==> (op_type == OpType::Tx ==> {
                &&& (!old(self).mempool.spec_contains(spec_hex(id@)) ==> msgs@.len() == 0)
                &&& (old(self).mempool.spec_value(spec_hex(id@)) matches Some(tv) ==> {
                    &&& (tx_costs_ok(tv) ==> msgs@.len() == 1 && msgs@[0].dest@ == addr_from@ && (
                    msgs@[0].pkg matches Package::Tx { transaction: tb, .. } && tb@
                        == spec_tx_bytes(tv)))
                    &&& (!tx_costs_ok(tv) ==> msgs@.len() == 0)
                })
            }),
            r matches Ok(msgs) ==> (op_type == OpType::Block ==> {
                let m = old(self).utxo_set.chain().blocks();
                &&& ((m.contains_key(id@) && is_block_record(m[id@])) ==> msgs@.len() == 1
                    && msgs@[0].dest@ == addr_from@ && (msgs@[0].pkg matches Package::Block {
                    block: bb,
                    ..
                } && bb@ == spec_block_bytes(spec_dec_block(m[id@], 0).unwrap().0)))
                &&& (!(m.contains_key(id@) && is_block_record(m[id@])) ==> msgs@.len() == 0)
            }),
    {
        let mut out: Vec<OutMsg> = Vec::new();
        match op_type {
            OpType::Tx => {
                let txid_hex = hex_encode(id.as_slice());
                match self.mempool.get(txid_hex.as_str()) {
                    Some(tx) => {
                        proof {
                            assert(old(self).mempool.spec_value(spec_hex(id@)) == Some(tx@));
                            assert(old(self).mempool.spec_contains(spec_hex(id@)));
                        }
                        match send_tx(&self.config, addr_from.as_str(), &tx) {
                            Some(msg) => {
                                out.push(msg);
                                proof {
                                    assert(tx_costs_ok(tx@));
                                    assert(out@.len() == 1);
                                }
                            },
                            None => {
                                proof {
                                    assert(!tx_costs_ok(tx@));
                                    assert(out@.len() == 0);
                                }
                            },
                        }
                    },
                    None => {
                        proof {
                            assert(!old(self).mempool.spec_contains(spec_hex(id@)));
                            assert(out@.len() == 0);
                        }
                    },
                }
            },
            OpType::Block => {
                return self.serve_block(addr_from, id);
            },
        }
        Ok(out)
    }

    /// Serves a stored block, staying silent when no full record is
    /// held under the requested hash.
    #[verifier::rlimit(100)]
    #[verifier::spinoff_prover]
    fn serve_block(&mut self, addr_from: String, id: Vec<u8>) -> (r: Result<
        Vec<OutMsg>,
        ChainError,
    >)
        requires
            old(self).wf(),
        ensures
            r is Ok ==> final(self).wf(),
            final(self).config == old(self).config,
            final(self).mempool == old(self).mempool,
            final(self).blocks_in_transit == old(self).blocks_in_transit,
            final(self).nodes == old(self).nodes,
            final(self).utxo_set.contents() == old(self).utxo_set.contents(),
            final(self).utxo_set.chain().blocks() == old(self).utxo_set.chain().blocks(),
            final(self).utxo_set.chain().tip() == old(self).utxo_set.chain().tip(),
            r matches Ok(msgs) ==> {
                let m = old(self).utxo_set.chain().blocks();
                &&& ((m.contains_key(id@) && is_block_record(m[id@])) ==> msgs@.len() == 1
                    && msgs@[0].dest@ == addr_from@ && (msgs@[0].pkg matches Package::Block {
                    block: bb,
                    ..
                } && bb@ == spec_block_bytes(spec_dec_block(m[id@], 0).unwrap().0)))
                &&& (!(m.contains_key(id@) && is_block_record(m[id@])) ==> msgs@.len() == 0)
            },
    {
        let mut out: Vec<OutMsg> = Vec::new();
        let found = match self.utxo_set.get_blockchain().get_block(id.as_slice()) {
            Ok(o) => o,
            Err(e) => {
                return Err(e);
            },
        };
        if let Some(block) = found {
            out.push(send_block(&self.config, addr_from.as_str(), &block));
        }
        Ok(out)
    }

    /// An announcement: queue announced blocks and request the first,
    /// or request an unknown transaction.
    #[verifier::spinoff_prover]
    fn on_inv(&mut self, addr_from: String, op_type: OpType, items: Vec<Vec<u8>>) -> (r: Result<
        Vec<OutMsg>,
        ChainError,
    >)
        requires
            old(self).wf(),
        ensures
            r is Ok,
            final(self).wf(),
            final(self).config == old(self).config,
            final(self).mempool == old(self).mempool,
            final(self).nodes == old(self).nodes,
            final(self).utxo_set.contents() == old(self).utxo_set.contents(),
            final(self).utxo_set.chain().blocks() == old(self).utxo_set.chain().blocks(),
            final(self).utxo_set.chain().tip() == old(self).utxo_set.chain().tip(),
            r matches Ok(msgs) ==> (op_type == OpType::Tx ==> final(self).blocks_in_transit
                == old(self).blocks_in_transit && {
                &&& (items@.len() == 0 ==> msgs@.len() == 0)
                &&& (items@.len() > 0 && old(self).mempool.spec_contains(spec_hex(items@[0]@))
                    ==> msgs@.len() == 0)
                &&& (items@.len() > 0 && !old(self).mempool.spec_contains(spec_hex(items@[0]@))
                    ==> msgs@.len() == 1 && msgs@[0].dest@ == addr_from@ && (msgs@[0].pkg
                    matches Package::GetData { op_type: OpType::Tx, id: rid, .. } && rid@
                    == items@[0]@))
            }),
            r matches Ok(msgs) ==> (op_type == OpType::Block ==> {
                let queued = old(self).blocks_in_transit.view_hashes() + Seq::new(
                    items@.len(),
                    |q: int| items@[q]@,
                );
                &&& (items@.len() == 0 ==> msgs@.len() == 0 && final(self).blocks_in_transit.view_hashes() == queued)
                &&& (items@.len() > 0 ==> msgs@.len() == 1 && msgs@[0].dest@ == addr_from@ && (
                msgs@[0].pkg matches Package::GetData { op_type: OpType::Block, id: rid, .. }
                    && rid@ == items@[0]@) && exists|j: int|
                    0 <= j < queued.len() && #[trigger] queued[j] == items@[0]@ && (forall|
                        q2: int,
                    |
                        0 <= q2 < j ==> queued[q2] != items@[0]@) && final(self).blocks_in_transit.view_hashes() == queued.remove(j))
            }),
    {
        let mut out: Vec<OutMsg> = Vec::new();
        match op_type {
            OpType::Block => {
                self.blocks_in_transit.add_blocks(items.as_slice());
                if items.len() > 0 {
                    let block_hash = clone_bytes(&items[0]);
                    let h = clone_bytes(&block_hash);
                    out.push(send_get_data(&self.config, addr_from.as_str(), OpType::Block, h));
                    let ghost queued = self.blocks_in_transit.view_hashes();
                    proof {
                        assert(queued[old(self).blocks_in_transit.view_hashes().len() as int]
                            == items@[0]@);
                    }
                    self.blocks_in_transit.remove(block_hash.as_slice());
                }
            },
            OpType::Tx => {
                if items.len() > 0 {
                    let txid = clone_bytes(&items[0]);
                    let txid_hex = hex_encode(txid.as_slice());
                    if !self.mempool.contains(txid_hex.as_str()) {
                        out.push(
                            send_get_data(&self.config, addr_from.as_str(), OpType::Tx, txid),
                        );
                    }
                }
            },
        }
        Ok(out)
    }

    /// A received transaction: pool it; the central node re-announces
    /// it to every other peer; a miner whose pool reached the
    /// threshold mines over the pool and announces the block.
    #[verifier::rlimit(100)]
    #[verifier::spinoff_prover]
    fn on_tx(&mut self, addr_from: String, transaction: Vec<u8>) -> (r: Result<
        Vec<OutMsg>,
        ChainError,
    >)
        requires
            old(self).wf(),
        ensures
            r is Ok ==> final(self).wf(),
            final(self).config == old(self).config,
            !(old(self).config.spec_mining_addr() is Some) ==> r is Ok,
            r matches Ok(msgs) ==> {
                &&& final(self).nodes == old(self).nodes
                &&& final(self).blocks_in_transit == old(self).blocks_in_transit
                &&& (!(spec_dec_tx(transaction@, 0) matches Some(p2) && p2.1
                    == transaction@.len()) ==> msgs@.len() == 0 && final(self).mempool == old(self).mempool && final(self).utxo_set.contents() == old(self).utxo_set.contents()
                    && final(self).utxo_set.chain().blocks() == old(self).utxo_set.chain().blocks() && final(self).utxo_set.chain().tip() == old(self).utxo_set.chain().tip())
                &&& ((spec_dec_tx(transaction@, 0) matches Some(p2) && p2.1 == transaction@.len()
                    && !(old(self).config.spec_mining_addr() is Some)) ==> {
                    let tv = spec_dec_tx(transaction@, 0).unwrap().0;
                    &&& final(self).utxo_set.contents() == old(self).utxo_set.contents()
                    &&& final(self).utxo_set.chain().blocks() == old(self).utxo_set.chain().blocks()
                    &&& final(self).utxo_set.chain().tip() == old(self).utxo_set.chain().tip()
                    &&& final(self).mempool.spec_value(spec_hex(tv.id)) == Some(tv)
                    &&& (forall|k: Seq<char>|
                        k != spec_hex(tv.id) ==> final(self).mempool.spec_value(k) == old(self).mempool.spec_value(k))
                    &&& (old(self).config.spec_node_addr() == "127.0.0.1:2001"@ ==> {
                        let targets = spec_broadcast_targets(
                            old(self).nodes.view_addrs(),
                            old(self).config.spec_node_addr(),
                            addr_from@,
                        );
                        &&& msgs@.len() == targets.len()
                        &&& forall|q: int|
                            0 <= q < msgs@.len() ==> (#[trigger] msgs@[q]).dest@ == targets[q] && (
                            msgs@[q].pkg matches Package::Inv {
                                op_type: OpType::Tx,
                                items: its,
                                addr_from: af,
                            } && its@.len() == 1 && its@[0]@ == tv.id && af@ == old(self).config.spec_node_addr())
                    })
                    &&& (old(self).config.spec_node_addr() != "127.0.0.1:2001"@ ==> msgs@.len()
                        == 0)
                })
                &&& ((spec_dec_tx(transaction@, 0) matches Some(p2) && p2.1
                    == transaction@.len() && old(self).config.spec_mining_addr() is Some) ==> {
                    let tv = spec_dec_tx(transaction@, 0).unwrap().0;
                    ||| (final(self).utxo_set.contents() == old(self).utxo_set.contents()
                        && final(self).utxo_set.chain().blocks() == old(
                        self,
                    ).utxo_set.chain().blocks() && final(self).utxo_set.chain().tip() == old(
                        self,
                    ).utxo_set.chain().tip() && final(self).mempool.spec_value(spec_hex(tv.id))
                        == Some(tv))
                    ||| (exists|b: BlockV, mtxs: Seq<TxV>|
                        #[trigger] spec_mined_block(
                            old(self).utxo_set.chain(),
                            final(self).utxo_set.chain(),
                            b,
                            mtxs,
                        ) && (forall|ch: Seq<BlockV>|
                            #[trigger] is_chain_from(
                                final(self).utxo_set.chain().blocks(),
                                final(self).utxo_set.chain().tip(),
                                ch,
                            ) ==> utxo_encoded_matches(
                                final(self).utxo_set.contents(),
                                spec_chain_utxo(ch),
                            )))
                })
            },
    {
        let mut out: Vec<OutMsg> = Vec::new();
        let tx = match Transaction::deserialize(transaction.as_slice()) {
            Some(t) => t,
            None => {
                return Ok(out);
            },
        };
        let txid = tx.get_id_bytes();
        let ghost tv = tx@;
        self.mempool.add(tx);
        let local_addr = self.config.get_node_addr();
        let central = centeral_node();
        if local_addr == central {
            let nodes = self.nodes.get_nodes();
            let ghost addrsv = self.nodes.view_addrs();
            let ghost local = self.config.spec_node_addr();
            let ghost sender = addr_from@;
            let mut i: usize = 0;
            proof {
                assert(addrsv.take(0) =~= Seq::<Seq<char>>::empty());
                assert(spec_broadcast_targets(addrsv.take(0), local, sender)
                    =~= Seq::<Seq<char>>::empty());
            }
            while i < nodes.len()
                invariant
                    self.wf(),
                    i <= nodes@.len(),
                    nodes@.len() == addrsv.len(),
                    forall|q: int|
                        0 <= q < nodes@.len() ==> (#[trigger] nodes@[q]).spec_addr() == addrsv[q],
                    local == self.config.spec_node_addr(),
                    local_addr@ == local,
                    addr_from@ == sender,
                    txid@ == tv.id,
                    out@.len() == spec_broadcast_targets(addrsv.take(i as int), local, sender).len(),
                    forall|q: int|
                        0 <= q < out@.len() ==> (#[trigger] out@[q]).dest@
                            == spec_broadcast_targets(addrsv.take(i as int), local, sender)[q] && (
                        out@[q].pkg matches Package::Inv {
                            op_type: OpType::Tx,
                            items: its,
                            addr_from: af,
                        } && its@.len() == 1 && its@[0]@ == tv.id && af@ == local),
                decreases nodes@.len() - i,
            {
                proof {
                    assert(addrsv.take(i as int + 1) =~= addrsv.take(i as int).push(
                        addrsv[i as int],
                    ));
                    lemma_broadcast_targets_concat(
                        addrsv.take(i as int),
                        seq![addrsv[i as int]],
                        local,
                        sender,
                    );
                    assert(addrsv.take(i as int) + seq![addrsv[i as int]] =~= addrsv.take(
                        i as int + 1,
                    ));
                    assert(seq![addrsv[i as int]].drop_first() =~= Seq::<Seq<char>>::empty());
                    assert(spec_broadcast_targets(Seq::<Seq<char>>::empty(), local, sender)
                        =~= Seq::<Seq<char>>::empty());
                    assert(seq![addrsv[i as int]][0] == addrsv[i as int]);
                }
                let node_addr = nodes[i].get_addr();
                proof {
                    assert(node_addr@ == addrsv[i as int]);
                }
                if !(node_addr == local_addr) && !(node_addr == addr_from) {
                    let mut items: Vec<Vec<u8>> = Vec::new();
                    items.push(clone_bytes(&txid));
                    let ghost out_pre = out@;
                    out.push(send_inv(&self.config, node_addr.as_str(), OpType::Tx, items));
                    proof {
                        assert(spec_broadcast_targets(seq![addrsv[i as int]], local, sender)
                            =~= seq![addrsv[i as int]]);
                        assert forall|q: int| 0 <= q < out@.len() implies (
                        #[trigger] out@[q]).dest@ == spec_broadcast_targets(
                            addrsv.take(i as int + 1),
                            local,
                            sender,
                        )[q] && (out@[q].pkg matches Package::Inv {
                            op_type: OpType::Tx,
                            items: its,
                            addr_from: af,
                        } && its@.len() == 1 && its@[0]@ == tv.id && af@ == local) by {
                            if q < out_pre.len() {
                                assert(out@[q] == out_pre[q]);
                            }
                        }
                    }
                } else {
                    proof {
                        assert(spec_broadcast_targets(seq![addrsv[i as int]], local, sender)
                            =~= Seq::<Seq<char>>::empty());
                    }
                }
                i = i + 1;
            }
            proof {
                assert(addrsv.take(addrsv.len() as int) =~= addrsv);
            }
        } else {
            proof {
                assert(self.config.spec_node_addr() != "127.0.0.1:2001"@);
            }
        }
        if self.config.is_miner() && self.mempool.len() >= TRANSACTION_THRESHOLD {
            match self.mine_pending() {
                Ok(mut broadcast) => {
                    out.append(&mut broadcast);
                },
                Err(e) => {
                    return Err(e);
                },
            }
        }
        Ok(out)
    }

    /// A version handshake: compare heights and reply, then learn the
    /// peer.
    fn on_version(&mut self, peer_addr: &str, addr_from: String, best_height: usize) -> (r: Result<
        Vec<OutMsg>,
        ChainError,
    >)
        requires
            old(self).wf(),
        ensures
            r is Ok ==> final(self).wf(),
            final(self).config == old(self).config,
            final(self).mempool == old(self).mempool,
            final(self).blocks_in_transit == old(self).blocks_in_transit,
            final(self).utxo_set.contents() == old(self).utxo_set.contents(),
            final(self).utxo_set.chain().blocks() == old(self).utxo_set.chain().blocks(),
            final(self).utxo_set.chain().tip() == old(self).utxo_set.chain().tip(),
            r matches Ok(msgs) ==> {
                let h = old(self).utxo_set.chain().tip_block().height;
                &&& ((best_height as u64) > h ==> msgs@.len() == 1 && msgs@[0].dest@ == addr_from@
                    && (msgs@[0].pkg matches Package::GetBlocks { .. }))
                &&& ((best_height as u64) < h ==> msgs@.len() == 1 && msgs@[0].dest@ == addr_from@
                    && (msgs@[0].pkg matches Package::Version { best_height: mine, .. } && mine
                        as u64 == h))
                &&& ((best_height as u64) == h ==> msgs@.len() == 0)
            },
    {
        let mut out: Vec<OutMsg> = Vec::new();
        let my_best_height = match self.utxo_set.get_blockchain().get_best_height() {
            Ok(h) => h,
            Err(e) => {
                return Err(e);
            },
        };
        if my_best_height < best_height {
            out.push(send_get_blocks(&self.config, addr_from.as_str()));
        }
        if my_best_height > best_height {
            out.push(send_version(&self.config, addr_from.as_str(), my_best_height));
        }
        if !self.nodes.node_is_known(peer_addr) {
            self.nodes.add_node(addr_from);
        }
        Ok(out)
    }

    /// Mines a block over the pending transactions plus a fresh
    /// coinbase to the mining address, rebuilds the index, drops the
    /// mined transactions from the pool, and announces the block.
    /// Mines a block over the given transactions.
    #[verifier::rlimit(100)]
    #[verifier::spinoff_prover]
    fn mine_over(&mut self, txs: &Vec<Transaction>) -> (r: Result<Block, ChainError>)
        requires
            old(self).wf(),
            forall|k: int|
                0 <= k < txs@.len() ==> crate::transaction::tx_costs_ok(
                    #[trigger] crate::transaction::tx_views(txs@)[k],
                ),
        ensures
            r matches Ok(b) ==> final(self).wf() && block_wf(b@)
                && crate::blockchain::spec_mined_block(
                old(self).utxo_set.chain(),
                final(self).utxo_set.chain(),
                b@,
                crate::transaction::tx_views(txs@),
            ),
            final(self).mempool == old(self).mempool,
            final(self).config == old(self).config,
            final(self).nodes == old(self).nodes,
            final(self).blocks_in_transit == old(self).blocks_in_transit,
    {
        match self.utxo_set.mine_block(txs.as_slice()) {
            Ok(b) => Ok(b),
            Err(e) => Err(e),
        }
    }

    /// Rebuilds the unspent-output index.
    #[verifier::spinoff_prover]
    fn reindex_only(&mut self) -> (r: Result<(), ChainError>)
        requires
            old(self).wf(),
        ensures
            r is Ok ==> final(self).wf(),
            final(self).utxo_set.chain() == old(self).utxo_set.chain(),
            r is Ok ==> forall|ch: Seq<BlockV>|
                #[trigger] is_chain_from(
                    final(self).utxo_set.chain().blocks(),
                    final(self).utxo_set.chain().tip(),
                    ch,
                ) ==> utxo_encoded_matches(final(self).utxo_set.contents(), spec_chain_utxo(ch)),
            final(self).mempool == old(self).mempool,
            final(self).config == old(self).config,
            final(self).nodes == old(self).nodes,
            final(self).blocks_in_transit == old(self).blocks_in_transit,
    {
        self.utxo_set.reindex()
    }

    /// Mines over the given transactions and rebuilds the index.
    fn mine_and_reindex(&mut self, txs: &Vec<Transaction>) -> (r: Result<Block, ChainError>)
        requires
            old(self).wf(),
            forall|k: int|
                0 <= k < txs@.len() ==> crate::transaction::tx_costs_ok(
                    #[trigger] crate::transaction::tx_views(txs@)[k],
                ),
        ensures
            r matches Ok(b) ==> final(self).wf() && block_wf(b@)
                && crate::blockchain::spec_mined_block(
                old(self).utxo_set.chain(),
                final(self).utxo_set.chain(),
                b@,
                crate::transaction::tx_views(txs@),
            ) && (forall|ch: Seq<BlockV>|
                #[trigger] is_chain_from(
                    final(self).utxo_set.chain().blocks(),
                    final(self).utxo_set.chain().tip(),
                    ch,
                ) ==> utxo_encoded_matches(final(self).utxo_set.contents(), spec_chain_utxo(ch))),
            final(self).mempool == old(self).mempool,
            final(self).config == old(self).config,
            final(self).nodes == old(self).nodes,
            final(self).blocks_in_transit == old(self).blocks_in_transit,
    {
        let new_block = match self.mine_over(txs) {
            Ok(b) => b,
            Err(e) => {
                return Err(e);
            },
        };
        match self.reindex_only() {
            Ok(()) => (),
            Err(e) => {
                return Err(e);
            },
        }
        Ok(new_block)
    }

    #[verifier::rlimit(100)]
    #[verifier::spinoff_prover]
    fn mine_pending(&mut self) -> (r: Result<Vec<OutMsg>, ChainError>)
        requires
            old(self).wf(),
            old(self).config.spec_mining_addr() is Some,
        ensures
            r is Ok ==> final(self).wf(),
            final(self).config == old(self).config,
            final(self).nodes == old(self).nodes,
            final(self).blocks_in_transit == old(self).blocks_in_transit,
            r is Ok ==> exists|b: BlockV, mtxs: Seq<TxV>|
                #[trigger] crate::blockchain::spec_mined_block(
                    old(self).utxo_set.chain(),
                    final(self).utxo_set.chain(),
                    b,
                    mtxs,
                ) && (forall|ch: Seq<BlockV>|
                    #[trigger] is_chain_from(
                        final(self).utxo_set.chain().blocks(),
                        final(self).utxo_set.chain().tip(),
                        ch,
                    ) ==> utxo_encoded_matches(
                        final(self).utxo_set.contents(),
                        spec_chain_utxo(ch),
                    )),
    {
        let mut out: Vec<OutMsg> = Vec::new();
        let mining_addr = match self.config.get_mining_addr() {
            Some(a) => a,
            None => {
                return Ok(out);
            },
        };
        let coinbase_tx = match Transaction::new_coinbase_tx(mining_addr.as_str()) {
            Some(t) => t,
            None => {
                return Err(ChainError::Codec);
            },
        };
        let mut txs = self.mempool.get_all();
        txs.push(coinbase_tx);
        let mut i: usize = 0;
        while i < txs.len()
            invariant
                forall|k: int|
                    0 <= k < i ==> crate::transaction::tx_costs_ok(
                        #[trigger] crate::transaction::tx_views(txs@)[k],
                    ),
                i <= txs@.len(),
                *self == *old(self),
            decreases txs@.len() - i,
        {
            proof {
                assert(crate::transaction::tx_views(txs@)[i as int] == txs@[i as int]@);
            }
            if !txs[i].costs_nonneg() {
                return Err(ChainError::InvalidTx);
            }
            i = i + 1;
        }
        let new_block = match self.mine_and_reindex(&txs) {
            Ok(b) => b,
            Err(e) => {
                return Err(e);
            },
        };
        let ghost mined_set = self.utxo_set;
        let mut j: usize = 0;
        while j < txs.len()
            invariant
                self.wf(),
                j <= txs@.len(),
                self.config == old(self).config,
                self.nodes == old(self).nodes,
                self.blocks_in_transit == old(self).blocks_in_transit,
                self.utxo_set == mined_set,
            decreases txs@.len() - j,
        {
            let txid_hex = hex_encode(txs[j].get_id());
            self.mempool.remove(txid_hex.as_str());
            j = j + 1;
        }
        let local_addr = self.config.get_node_addr();
        let nodes = self.nodes.get_nodes();
        let mut k: usize = 0;
        while k < nodes.len()
            invariant
                crate::block::block_wf(new_block@),
                k <= nodes@.len(),
                self.wf(),
                self.config == old(self).config,
                self.nodes == old(self).nodes,
                self.blocks_in_transit == old(self).blocks_in_transit,
                self.utxo_set == mined_set,
            decreases nodes@.len() - k,
        {
            let node_addr = nodes[k].get_addr();
            if !(node_addr == local_addr) {
                let mut items: Vec<Vec<u8>> = Vec::new();
                items.push(new_block.get_hash_bytes());
                out.push(send_inv(&self.config, node_addr.as_str(), OpType::Block, items));
            }
            k = k + 1;
        }
        Ok(out)
    }
}

} // verus!
