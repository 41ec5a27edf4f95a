use vstd::prelude::*;
use vstd::bytes::{spec_u32_to_le_bytes, spec_u64_to_le_bytes, u32_to_le_bytes, u64_to_le_bytes};
use vstd::string::StringSliceAdditionalSpecFns;
use vstd::string::StrSliceExecFns;
use vstd::utf8::encode_utf8;

use crate::hashing::{digest_hex, has_leading_zeros, is_hex_string, leading_zeros, sha256_hex};
use crate::strutil::{str_eq, string_eq};

verus! {

/// An unspent transaction output worth a single shot.
#[derive(Debug, Clone)]
pub struct ShotUtxo {
    /// Unique identifier for this UTXO.
    pub id: String,
    /// Owner (player id) who can spend this shot.
    pub owner: String,
    /// Index of the block in which this UTXO was created.
    pub created_in_block: u64,
    /// Whether this UTXO has been spent.
    pub spent: bool,
}

/// A transaction in the ledger: one shot fired by a player.
#[derive(Debug, Clone)]
pub struct Transaction {
    pub player_id: String,
    pub target_x: u8,
    pub target_y: u8,
    pub timestamp: i64,
    pub nonce: u64,
}

/// A block in the ledger.
#[derive(Debug, Clone)]
pub struct Block {
    pub index: u64,
    pub timestamp: i64,
    pub transactions: Vec<Transaction>,
    pub previous_hash: String,
    pub hash: String,
    pub nonce: u64,
}

/// The ledger: the chain, the mempool and the shot-credit UTXO set.
#[derive(Debug, Clone)]
pub struct Blockchain {
    pub chain: Vec<Block>,
    pub difficulty: usize,
    pub pending_transactions: Vec<Transaction>,
    pub mining_reward: u32,
    /// UTXO set representing unspent shot rewards.
    pub shot_utxos: Vec<ShotUtxo>,
}

// ---------------------------------------------------------------------------
// Canonical byte encodings hashed by the ledger.
// ---------------------------------------------------------------------------

/// A signed timestamp as nine bytes: a sign byte, then the magnitude
/// little-endian (for a negative value, the magnitude of one less than the
/// absolute value, so that the least value fits).
pub open spec fn i64_bytes(t: i64) -> Seq<u8> {
    if t >= 0 {
        seq![0u8] + spec_u64_to_le_bytes(t as u64)
    } else {
        seq![1u8] + spec_u64_to_le_bytes((-1 - t) as u64)
    }
}

/// A string as its UTF-8 bytes preceded by their count.
pub open spec fn string_block(s: Seq<char>) -> Seq<u8> {
    spec_u64_to_le_bytes(encode_utf8(s).len() as u64) + encode_utf8(s)
}

/// The canonical serialization of one transaction.
pub open spec fn tx_bytes(t: Transaction) -> Seq<u8> {
    string_block(t.player_id@) + seq![t.target_x, t.target_y] + i64_bytes(t.timestamp)
        + spec_u64_to_le_bytes(t.nonce)
}

/// The concatenated serializations of a run of transactions.
pub open spec fn txs_bytes(ts: Seq<Transaction>) -> Seq<u8>
    decreases ts.len(),
{
    if ts.len() == 0 {
        Seq::empty()
    } else {
        txs_bytes(ts.drop_last()) + tx_bytes(ts.last())
    }
}

/// The bytes a block's hash is computed over: every field but the hash
/// itself, with the transactions preceded by their count.
pub open spec fn block_bytes(b: Block) -> Seq<u8> {
    spec_u64_to_le_bytes(b.index) + i64_bytes(b.timestamp) + spec_u64_to_le_bytes(
        b.transactions@.len() as u64,
    ) + txs_bytes(b.transactions@) + string_block(b.previous_hash@) + spec_u64_to_le_bytes(b.nonce)
}

/// The hash a block must carry: the hex-encoded digest of its contents.
pub open spec fn block_hash_of(b: Block) -> Seq<char> {
    digest_hex(block_bytes(b))
}

/// The hash of a transaction on its own.
pub open spec fn tx_hash_of(t: Transaction) -> Seq<char> {
    digest_hex(tx_bytes(t))
}

// ---------------------------------------------------------------------------
// Exec builders for those encodings.
// ---------------------------------------------------------------------------

/// Append a string's UTF-8 bytes to `buf`.
fn push_str_bytes(buf: &mut Vec<u8>, s: &str)
    ensures
        final(buf)@ == old(buf)@ + encode_utf8(s@),
{
    let mut bytes = s.as_bytes_vec();
    buf.append(&mut bytes);
}

/// Append a count-prefixed string block to `buf`.
pub(crate) fn push_string_block(buf: &mut Vec<u8>, s: &str)
    ensures
        final(buf)@ == old(buf)@ + string_block(s@),
{
    let mut bytes = s.as_bytes_vec();
    let mut len_bytes = u64_to_le_bytes(bytes.len() as u64);
    buf.append(&mut len_bytes);
    buf.append(&mut bytes);
}

/// Append a little-endian `u64` to `buf`.
fn push_u64(buf: &mut Vec<u8>, x: u64)
    ensures
        final(buf)@ == old(buf)@ + spec_u64_to_le_bytes(x),
{
    let mut bytes = u64_to_le_bytes(x);
    buf.append(&mut bytes);
}

/// Append the nine-byte timestamp encoding to `buf`.
fn push_i64(buf: &mut Vec<u8>, t: i64)
    ensures
        final(buf)@ == old(buf)@ + i64_bytes(t),
{
    if t >= 0 {
        buf.push(0);
        proof {
            assert(old(buf)@.push(0u8) =~= old(buf)@ + seq![0u8]);
        }
        push_u64(buf, t as u64);
        proof {
            assert(old(buf)@ + seq![0u8] + spec_u64_to_le_bytes(t as u64) =~= old(buf)@ + i64_bytes(
                t,
            ));
        }
    } else {
        buf.push(1);
        proof {
            assert(old(buf)@.push(1u8) =~= old(buf)@ + seq![1u8]);
        }
        let magnitude = -(t + 1);
        push_u64(buf, magnitude as u64);
        proof {
            assert(old(buf)@ + seq![1u8] + spec_u64_to_le_bytes((-1 - t) as u64) =~= old(buf)@
                + i64_bytes(t));
        }
    }
}

/// Append one transaction's serialization to `buf`.
fn push_tx_bytes(buf: &mut Vec<u8>, t: &Transaction)
    ensures
        final(buf)@ == old(buf)@ + tx_bytes(*t),
{
    push_string_block(buf, t.player_id.as_str());
    buf.push(t.target_x);
    buf.push(t.target_y);
    proof {
        assert(old(buf)@ + string_block(t.player_id@) + seq![t.target_x].push(t.target_y) =~= old(buf)@ + string_block(t.player_id@) + seq![t.target_x, t.target_y]);
    }
    push_i64(buf, t.timestamp);
    push_u64(buf, t.nonce);
    proof {
        assert(old(buf)@ + string_block(t.player_id@) + seq![t.target_x, t.target_y] + i64_bytes(
            t.timestamp,
        ) + spec_u64_to_le_bytes(t.nonce) =~= old(buf)@ + tx_bytes(*t));
    }
}

impl Transaction {
    /// A freshly fired shot, stamped with the current time.
    pub fn new(player_id: String, target_x: u8, target_y: u8, nonce: u64) -> (r: Transaction)
        ensures
            r.player_id == player_id,
            r.target_x == target_x,
            r.target_y == target_y,
            r.nonce == nonce,
    {
        Transaction { player_id, target_x, target_y, timestamp: current_timestamp(), nonce }
    }

    /// The hex-encoded digest of the transaction's canonical serialization.
    pub fn hash(&self) -> (r: String)
        ensures
            r@ == tx_hash_of(*self),
            r@.len() == 64,
    {
        let mut buf: Vec<u8> = Vec::new();
        push_tx_bytes(&mut buf, self);
        proof {
            assert(buf@ =~= tx_bytes(*self));
        }
        sha256_hex(&buf)
    }
}

impl Block {
    /// A new block over the given transactions, stamped with the current
    /// time, with its hash computed and its nonce at zero.
    pub fn new(index: u64, transactions: Vec<Transaction>, previous_hash: String) -> (r: Block)
        ensures
            r.index == index,
            r.transactions == transactions,
            r.previous_hash == previous_hash,
            r.nonce == 0,
            r.hash@ == block_hash_of(r),
    {
        let timestamp = current_timestamp();
        let mut block = Block {
            index,
            timestamp,
            transactions,
            previous_hash,
            hash: String::new(),
            nonce: 0,
        };
        let h = block.calculate_hash();
        block.hash = h;
        block
    }

    /// Recompute the hash over the block's current contents.
    pub fn calculate_hash(&self) -> (r: String)
        ensures
            r@ == block_hash_of(*self),
            r@.len() == 64,
            is_hex_string(r@),
    {
        let mut buf: Vec<u8> = Vec::new();
        push_u64(&mut buf, self.index);
        push_i64(&mut buf, self.timestamp);
        push_u64(&mut buf, self.transactions.len() as u64);
        let n = self.transactions.len();
        let ghost prefix = buf@;
        let mut i: usize = 0;
        proof {
            assert(txs_bytes(self.transactions@.subrange(0, 0)) =~= Seq::<u8>::empty());
            assert(buf@ =~= prefix + txs_bytes(self.transactions@.subrange(0, 0)));
        }
        while i < n
            invariant
                i <= n,
                n == self.transactions@.len(),
                buf@ == prefix + txs_bytes(self.transactions@.subrange(0, i as int)),
            decreases n - i,
        {
            push_tx_bytes(&mut buf, &self.transactions[i]);
            proof {
                let upto = self.transactions@.subrange(0, i as int + 1);
                assert(upto.drop_last() =~= self.transactions@.subrange(0, i as int));
                assert(buf@ =~= prefix + txs_bytes(upto));
            }
            i += 1;
        }
        proof {
            assert(self.transactions@.subrange(0, n as int) =~= self.transactions@);
        }
        push_string_block(&mut buf, self.previous_hash.as_str());
        push_u64(&mut buf, self.nonce);
        proof {
            assert(buf@ =~= block_bytes(*self));
        }
        sha256_hex(&buf)
    }

    /// Search nonces upward from the current one until the hash of the block
    /// meets the difficulty: `count` leading zero hex digits. Unbounded in
    /// practice; the search gives up only if the whole remaining nonce space
    /// is exhausted, which the result reports.
    pub fn mine(&mut self, difficulty: usize) -> (found: bool)
        ensures
            final(self).index == old(self).index,
            final(self).timestamp == old(self).timestamp,
            final(self).transactions == old(self).transactions,
            final(self).previous_hash == old(self).previous_hash,
            final(self).hash@ == block_hash_of(*final(self)),
            found == leading_zeros(final(self).hash@, difficulty as nat),
            !found ==> final(self).nonce == u64::MAX,
            difficulty == 0 ==> found,
    {
        let h = self.calculate_hash();
        self.hash = h;
        loop
            invariant
                self.index == old(self).index,
                self.timestamp == old(self).timestamp,
                self.transactions == old(self).transactions,
                self.previous_hash == old(self).previous_hash,
                self.hash@ == block_hash_of(*self),
            decreases u64::MAX - self.nonce,
        {
            if has_leading_zeros(self.hash.as_str(), difficulty) {
                return true;
            }
            if self.nonce == u64::MAX {
                return false;
            }
            self.nonce = self.nonce + 1;
            let h = self.calculate_hash();
            self.hash = h;
        }
    }
}

/// Relies on `chrono::Utc::now`: the current Unix timestamp in seconds;
/// nothing is known of its value.
#[verifier::external_body]
fn current_timestamp() -> i64 {
    chrono::Utc::now().timestamp()
}

// ---------------------------------------------------------------------------
// Chain validity and the UTXO set, in specification.
// ---------------------------------------------------------------------------

/// What validation asks of a non-genesis block against its predecessor: the
/// stored hash is the recomputed one, it points at the predecessor's hash,
/// and it meets the difficulty.
pub open spec fn valid_link(prev: Block, cur: Block, difficulty: nat) -> bool {
    &&& cur.hash@ == block_hash_of(cur)
    &&& cur.previous_hash@ == prev.hash@
    &&& leading_zeros(cur.hash@, difficulty)
}

/// Validity of a whole chain: every block from the second onward forms a
/// valid link. The genesis block is exempt.
pub open spec fn chain_valid(chain: Seq<Block>, difficulty: nat) -> bool {
    forall|i: int| 1 <= i < chain.len() ==> valid_link(chain[i - 1], #[trigger] chain[i], difficulty)
}

/// An unspent credit belonging to `owner`.
pub open spec fn owns_unspent(u: ShotUtxo, owner: Seq<char>) -> bool {
    u.owner@ == owner && !u.spent
}

pub open spec fn has_unspent(utxos: Seq<ShotUtxo>, owner: Seq<char>) -> bool {
    exists|i: int| 0 <= i < utxos.len() && owns_unspent(#[trigger] utxos[i], owner)
}

/// The number of unspent credits `owner` holds.
pub open spec fn count_unspent(utxos: Seq<ShotUtxo>, owner: Seq<char>) -> nat
    decreases utxos.len(),
{
    if utxos.len() == 0 {
        0
    } else {
        count_unspent(utxos.drop_last(), owner) + if owns_unspent(utxos.last(), owner) {
            1nat
        } else {
            0nat
        }
    }
}

/// `i` points at the first unspent credit of `owner`.
pub open spec fn first_unspent_at(utxos: Seq<ShotUtxo>, owner: Seq<char>, i: int) -> bool {
    &&& 0 <= i < utxos.len()
    &&& owns_unspent(utxos[i], owner)
    &&& forall|j: int| 0 <= j < i ==> !owns_unspent(#[trigger] utxos[j], owner)
}

/// The same credit, spent.
pub open spec fn mark_spent(u: ShotUtxo) -> ShotUtxo {
    ShotUtxo { spent: true, ..u }
}

/// The total number of transactions sealed into the chain.
pub open spec fn total_transactions(chain: Seq<Block>) -> nat
    decreases chain.len(),
{
    if chain.len() == 0 {
        0
    } else {
        total_transactions(chain.drop_last()) + chain.last().transactions@.len()
    }
}

/// The bytes a minted credit's id is hashed over: owner, block hash and a
/// per-issuance tail, separated by colons.
pub open spec fn utxo_mint_bytes(owner: Seq<char>, block_hash: Seq<char>, tail: Seq<u8>) -> Seq<
    u8,
> {
    encode_utf8(owner) + seq![58u8] + encode_utf8(block_hash) + seq![58u8] + tail
}

/// The id of the `sequence`-th credit minted for a mined block.
pub open spec fn utxo_seq_id(owner: Seq<char>, block_hash: Seq<char>, sequence: u32) -> Seq<char> {
    digest_hex(utxo_mint_bytes(owner, block_hash, spec_u32_to_le_bytes(sequence)))
}

/// The id of the single credit granted at registration.
pub open spec fn utxo_reg_id(owner: Seq<char>, block_hash: Seq<char>) -> Seq<char> {
    digest_hex(utxo_mint_bytes(owner, block_hash, encode_utf8("registration"@)))
}

/// A credit as minting leaves it.
pub open spec fn minted_utxo(
    u: ShotUtxo,
    owner: Seq<char>,
    block_hash: Seq<char>,
    sequence: u32,
    created: u64,
) -> bool {
    &&& u.id@ == utxo_seq_id(owner, block_hash, sequence)
    &&& u.owner@ == owner
    &&& u.created_in_block == created
    &&& !u.spent
}

fn mint_id_bytes(owner: &str, block_hash: &str) -> (r: Vec<u8>)
    ensures
        r@ == encode_utf8(owner@) + seq![58u8] + encode_utf8(block_hash@) + seq![58u8],
{
    let mut buf: Vec<u8> = Vec::new();
    push_str_bytes(&mut buf, owner);
    buf.push(58);
    proof {
        assert((encode_utf8(owner@)).push(58u8) =~= encode_utf8(owner@) + seq![58u8]);
    }
    push_str_bytes(&mut buf, block_hash);
    buf.push(58);
    proof {
        assert((encode_utf8(owner@) + seq![58u8] + encode_utf8(block_hash@)).push(58u8) =~= encode_utf8(
            owner@,
        ) + seq![58u8] + encode_utf8(block_hash@) + seq![58u8]);
    }
    buf
}

fn utxo_id_for_sequence(owner: &str, block_hash: &str, sequence: u32) -> (r: String)
    ensures
        r@ == utxo_seq_id(owner@, block_hash@, sequence),
{
    let mut buf = mint_id_bytes(owner, block_hash);
    let mut tail = u32_to_le_bytes(sequence);
    buf.append(&mut tail);
    proof {
        assert(buf@ =~= utxo_mint_bytes(owner@, block_hash@, spec_u32_to_le_bytes(sequence)));
    }
    sha256_hex(&buf)
}

fn utxo_id_for_registration(owner: &str, block_hash: &str) -> (r: String)
    ensures
        r@ == utxo_reg_id(owner@, block_hash@),
{
    let mut buf = mint_id_bytes(owner, block_hash);
    push_str_bytes(&mut buf, "registration");
    proof {
        assert(buf@ =~= utxo_mint_bytes(owner@, block_hash@, encode_utf8("registration"@)));
    }
    sha256_hex(&buf)
}

impl Blockchain {
    /// A fresh ledger: a genesis block mined to the given difficulty, an
    /// empty mempool, an empty credit set, and a reward of one credit per
    /// mined block.
    pub fn new(difficulty: usize) -> (r: Blockchain)
        ensures
            r.difficulty == difficulty,
            r.mining_reward == 1,
            r.pending_transactions@.len() == 0,
            r.shot_utxos@.len() == 0,
            r.chain@.len() == 1,
            r.chain@[0].index == 0,
            r.chain@[0].transactions@.len() == 0,
            r.chain@[0].previous_hash@ == "0"@,
            r.chain@[0].hash@ == block_hash_of(r.chain@[0]),
            leading_zeros(r.chain@[0].hash@, difficulty as nat) || r.chain@[0].nonce == u64::MAX,
            chain_valid(r.chain@, difficulty as nat),
    {
        let mut blockchain = Blockchain {
            chain: Vec::new(),
            difficulty,
            pending_transactions: Vec::new(),
            mining_reward: 1,
            shot_utxos: Vec::new(),
        };
        blockchain.create_genesis_block();
        blockchain
    }

    /// Mine and append the genesis block, whose previous hash is `"0"`.
    fn create_genesis_block(&mut self)
        requires
            old(self).chain@.len() == 0,
        ensures
            final(self).difficulty == old(self).difficulty,
            final(self).mining_reward == old(self).mining_reward,
            final(self).pending_transactions == old(self).pending_transactions,
            final(self).shot_utxos == old(self).shot_utxos,
            final(self).chain@.len() == 1,
            final(self).chain@[0].index == 0,
            final(self).chain@[0].transactions@.len() == 0,
            final(self).chain@[0].previous_hash@ == "0"@,
            final(self).chain@[0].hash@ == block_hash_of(final(self).chain@[0]),
            leading_zeros(final(self).chain@[0].hash@, old(self).difficulty as nat) || final(self).chain@[0].nonce == u64::MAX,
    {
        let mut genesis = Block::new(0, Vec::new(), "0".to_owned());
        genesis.mine(self.difficulty);
        self.chain.push(genesis);
    }

    /// The head of the chain.
    pub fn get_latest_block(&self) -> (r: &Block)
        requires
            self.chain@.len() > 0,
        ensures
            *r == self.chain@.last(),
    {
        let n = self.chain.len();
        &self.chain[n - 1]
    }

    /// Append a transaction to the mempool. No validation happens here; the
    /// coordinator is responsible for the game rules.
    pub fn add_transaction(&mut self, transaction: Transaction)
        ensures
            final(self).pending_transactions@ == old(self).pending_transactions@.push(transaction),
            final(self).chain == old(self).chain,
            final(self).difficulty == old(self).difficulty,
            final(self).mining_reward == old(self).mining_reward,
            final(self).shot_utxos == old(self).shot_utxos,
    {
        self.pending_transactions.push(transaction);
    }

    /// Seal the whole mempool into one new block mined onto the head of the
    /// chain, then mint `mining_reward` fresh credits for the miner. Returns
    /// the number of credits minted.
    pub fn mine_pending_transactions(&mut self, miner_address: &str) -> (r: u32)
        requires
            old(self).chain@.len() > 0,
        ensures
            r == old(self).mining_reward,
            final(self).difficulty == old(self).difficulty,
            final(self).mining_reward == old(self).mining_reward,
            final(self).pending_transactions@.len() == 0,
            final(self).chain@.len() == old(self).chain@.len() + 1,
            final(self).chain@.drop_last() == old(self).chain@,
            ({
                let sealed = final(self).chain@.last();
                &&& sealed.transactions@ == old(self).pending_transactions@
                &&& sealed.index == old(self).chain@.len()
                &&& sealed.previous_hash@ == old(self).chain@.last().hash@
                &&& sealed.hash@ == block_hash_of(sealed)
                &&& (leading_zeros(sealed.hash@, old(self).difficulty as nat) || sealed.nonce
                    == u64::MAX)
            }),
            final(self).shot_utxos@.len() == old(self).shot_utxos@.len() + r,
            forall|i: int|
                0 <= i < old(self).shot_utxos@.len() ==> final(self).shot_utxos@[i] == old(self).shot_utxos@[i],
            forall|k: int|
                0 <= k < r ==> minted_utxo(
                    #[trigger] final(self).shot_utxos@[old(self).shot_utxos@.len() + k],
                    miner_address@,
                    final(self).chain@.last().hash@,
                    k as u32,
                    old(self).chain@.len() as u64,
                ),
    {
        let next_index = self.chain.len() as u64;
        let mut txs: Vec<Transaction> = Vec::new();
        core::mem::swap(&mut txs, &mut self.pending_transactions);
        let prev_hash = self.get_latest_block().hash.clone();
        let mut block = Block::new(next_index, txs, prev_hash);

        block.mine(self.difficulty);
        let block_hash = block.hash.clone();
        let ghost sealed = block;
        self.chain.push(block);

        let reward = self.mining_reward;
        let ghost base = old(self).shot_utxos@.len() as int;
        let mut k: u32 = 0;
        while k < reward
            invariant
                k <= reward,
                reward == old(self).mining_reward,
                self.chain@ == old(self).chain@.push(sealed),
                self.difficulty == old(self).difficulty,
                self.mining_reward == old(self).mining_reward,
                self.pending_transactions@.len() == 0,
                block_hash@ == sealed.hash@,
                next_index == old(self).chain@.len(),
                base == old(self).shot_utxos@.len(),
                self.shot_utxos@.len() == base + k,
                forall|i: int| 0 <= i < base ==> self.shot_utxos@[i] == old(self).shot_utxos@[i],
                forall|j: int|
                    0 <= j < k ==> minted_utxo(
                        #[trigger] self.shot_utxos@[base + j],
                        miner_address@,
                        block_hash@,
                        j as u32,
                        next_index,
                    ),
            decreases reward - k,
        {
            let ghost pre = self.shot_utxos@;
            let id = utxo_id_for_sequence(miner_address, block_hash.as_str(), k);
            let new_utxo = ShotUtxo {
                id,
                owner: miner_address.to_owned(),
                created_in_block: next_index,
                spent: false,
            };
            let ghost added = new_utxo;
            self.shot_utxos.push(new_utxo);
            proof {
                assert(self.shot_utxos@ == pre.push(added));
                assert forall|j: int| 0 <= j < k + 1 implies minted_utxo(
                    #[trigger] self.shot_utxos@[base + j],
                    miner_address@,
                    block_hash@,
                    j as u32,
                    next_index,
                ) by {
                    if j < k {
                        assert(pre.push(added)[base + j] == pre[base + j]);
                        assert(self.shot_utxos@[base + j] == pre[base + j]);
                        assert(minted_utxo(
                            pre[base + j],
                            miner_address@,
                            block_hash@,
                            j as u32,
                            next_index,
                        ));
                    } else {
                        assert(self.shot_utxos@[base + j].id@ == utxo_seq_id(
                            miner_address@,
                            block_hash@,
                            k,
                        ));
                    }
                }
            }
            k += 1;
        }
        reward
    }

    /// Check the whole chain: every block from the second onward must carry
    /// its recomputed hash, point at its predecessor and meet the difficulty.
    pub fn is_chain_valid(&self) -> (r: bool)
        ensures
            r == chain_valid(self.chain@, self.difficulty as nat),
    {
        let n = self.chain.len();
        let mut i: usize = 1;
        while i < n
            invariant
                1 <= i,
                n == self.chain@.len(),
                forall|j: int|
                    1 <= j < i ==> valid_link(
                        self.chain@[j - 1],
                        #[trigger] self.chain@[j],
                        self.difficulty as nat,
                    ),
            decreases n - i,
        {
            let recomputed = self.chain[i].calculate_hash();
            if !string_eq(&recomputed, &self.chain[i].hash) {
                return false;
            }
            if !str_eq(self.chain[i].previous_hash.as_str(), self.chain[i - 1].hash.as_str()) {
                return false;
            }
            if !has_leading_zeros(self.chain[i].hash.as_str(), self.difficulty) {
                return false;
            }
            i += 1;
        }
        true
    }

    /// The total number of transactions sealed into the chain, capped at
    /// `usize::MAX` should the sum not fit.
    pub fn get_transaction_count(&self) -> (r: usize)
        ensures
            total_transactions(self.chain@) <= usize::MAX ==> r == total_transactions(self.chain@),
            total_transactions(self.chain@) > usize::MAX ==> r == usize::MAX,
    {
        let n = self.chain.len();
        let mut count: usize = 0;
        let mut i: usize = 0;
        proof {
            assert(self.chain@.subrange(0, 0) =~= Seq::<Block>::empty());
        }
        while i < n
            invariant
                i <= n,
                n == self.chain@.len(),
                total_transactions(self.chain@.subrange(0, i as int)) <= usize::MAX ==> count
                    == total_transactions(self.chain@.subrange(0, i as int)),
                total_transactions(self.chain@.subrange(0, i as int)) > usize::MAX ==> count
                    == usize::MAX,
            decreases n - i,
        {
            let len = self.chain[i].transactions.len();
            proof {
                let upto = self.chain@.subrange(0, i as int + 1);
                assert(upto.drop_last() =~= self.chain@.subrange(0, i as int));
            }
            if count > usize::MAX - len {
                count = usize::MAX;
            } else {
                count = count + len;
            }
            i += 1;
        }
        proof {
            assert(self.chain@.subrange(0, n as int) =~= self.chain@);
        }
        count
    }

    /// How many unspent credits the player holds.
    pub fn get_unspent_shots(&self, player_id: &str) -> (r: usize)
        ensures
            r == count_unspent(self.shot_utxos@, player_id@),
    {
        let n = self.shot_utxos.len();
        let mut count: usize = 0;
        let mut i: usize = 0;
        proof {
            assert(self.shot_utxos@.subrange(0, 0) =~= Seq::<ShotUtxo>::empty());
        }
        while i < n
            invariant
                i <= n,
                n == self.shot_utxos@.len(),
                count <= i,
                count == count_unspent(self.shot_utxos@.subrange(0, i as int), player_id@),
            decreases n - i,
        {
            proof {
                let upto = self.shot_utxos@.subrange(0, i as int + 1);
                assert(upto.drop_last() =~= self.shot_utxos@.subrange(0, i as int));
            }
            if !self.shot_utxos[i].spent && str_eq(
                self.shot_utxos[i].owner.as_str(),
                player_id,
            ) {
                count = count + 1;
            }
            i += 1;
        }
        proof {
            assert(self.shot_utxos@.subrange(0, n as int) =~= self.shot_utxos@);
        }
        count
    }

    /// Spend the player's first unspent credit. Fails, changing nothing, when
    /// the player holds none.
    pub fn consume_shot(&mut self, player_id: &str) -> (r: Result<(), String>)
        ensures
            r is Ok <==> has_unspent(old(self).shot_utxos@, player_id@),
            r is Ok ==> exists|i: int|
                first_unspent_at(old(self).shot_utxos@, player_id@, i) && final(self).shot_utxos@
                    == old(self).shot_utxos@.update(i, mark_spent(old(self).shot_utxos@[i])),
            r is Err ==> final(self).shot_utxos == old(self).shot_utxos,
            r matches Err(e) ==> e@ == "No unspent shot UTXOs available"@,
            final(self).chain == old(self).chain,
            final(self).difficulty == old(self).difficulty,
            final(self).mining_reward == old(self).mining_reward,
            final(self).pending_transactions == old(self).pending_transactions,
    {
        let n = self.shot_utxos.len();
        let mut i: usize = 0;
        while i < n
            invariant
                i <= n,
                n == self.shot_utxos@.len(),
                *self == *old(self),
                forall|j: int|
                    0 <= j < i ==> !owns_unspent(#[trigger] self.shot_utxos@[j], player_id@),
            decreases n - i,
        {
            if !self.shot_utxos[i].spent && str_eq(
                self.shot_utxos[i].owner.as_str(),
                player_id,
            ) {
                let slot = &mut self.shot_utxos[i];
                slot.spent = true;
                proof {
                    assert(first_unspent_at(old(self).shot_utxos@, player_id@, i as int));
                    assert(final(self).shot_utxos@ =~= old(self).shot_utxos@.update(
                        i as int,
                        mark_spent(old(self).shot_utxos@[i as int]),
                    ));
                }
                return Ok(());
            }
            i += 1;
        }
        Err("No unspent shot UTXOs available".to_owned())
    }

    /// Mint the single registration credit, keyed off the current chain head.
    pub fn award_registration_shot(&mut self, player_id: &str)
        requires
            old(self).chain@.len() > 0,
        ensures
            final(self).shot_utxos@.len() == old(self).shot_utxos@.len() + 1,
            final(self).shot_utxos@.drop_last() == old(self).shot_utxos@,
            ({
                let minted = final(self).shot_utxos@.last();
                &&& minted.id@ == utxo_reg_id(player_id@, old(self).chain@.last().hash@)
                &&& minted.owner@ == player_id@
                &&& minted.created_in_block == old(self).chain@.last().index
                &&& !minted.spent
            }),
            final(self).chain == old(self).chain,
            final(self).difficulty == old(self).difficulty,
            final(self).mining_reward == old(self).mining_reward,
            final(self).pending_transactions == old(self).pending_transactions,
    {
        let n = self.chain.len();
        let latest_index = self.chain[n - 1].index;
        let id = utxo_id_for_registration(player_id, self.chain[n - 1].hash.as_str());
        self.shot_utxos.push(
            ShotUtxo {
                id,
                owner: player_id.to_owned(),
                created_in_block: latest_index,
                spent: false,
            },
        );
        proof {
            assert(final(self).shot_utxos@.drop_last() =~= old(self).shot_utxos@);
        }
    }

    /// Accept a block announced by a peer: it must carry the next index,
    /// point at the current head, and meet the difficulty. Its stored hash is
    /// not recomputed here; acceptance mirrors announcement, not validation
    /// of the whole chain. On acceptance the mempool is cleared.
    pub fn receive_block(&mut self, block: Block) -> (r: Result<(), String>)
        requires
            old(self).chain@.len() > 0,
        ensures
            r is Ok <==> {
                &&& block.index == old(self).chain@.len()
                &&& block.previous_hash@ == old(self).chain@.last().hash@
                &&& leading_zeros(block.hash@, old(self).difficulty as nat)
            },
            r is Ok ==> final(self).chain@ == old(self).chain@.push(block),
            r is Ok ==> final(self).pending_transactions@.len() == 0,
            r is Err ==> *final(self) == *old(self),
            block.index != old(self).chain@.len() ==> (r matches Err(e) && e@
                == "Invalid block index"@),
            block.index == old(self).chain@.len() && block.previous_hash@ != old(
                self,
            ).chain@.last().hash@ ==> (r matches Err(e) && e@ == "Invalid previous hash"@),
            block.index == old(self).chain@.len() && block.previous_hash@ == old(
                self,
            ).chain@.last().hash@ && !leading_zeros(block.hash@, old(self).difficulty as nat) ==> (
            r matches Err(e) && e@ == "Invalid proof of work"@),
            final(self).difficulty == old(self).difficulty,
            final(self).mining_reward == old(self).mining_reward,
            final(self).shot_utxos == old(self).shot_utxos,
    {
        let n = self.chain.len();
        if !(block.index == n as u64) {
            return Err("Invalid block index".to_owned());
        }
        if !str_eq(block.previous_hash.as_str(), self.chain[n - 1].hash.as_str()) {
            return Err("Invalid previous hash".to_owned());
        }
        if !has_leading_zeros(block.hash.as_str(), self.difficulty) {
            return Err("Invalid proof of work".to_owned());
        }
        self.chain.push(block);
        self.pending_transactions = Vec::new();
        Ok(())
    }

    /// The fork choice used for peer synchronization: adopt a candidate
    /// ledger wholesale exactly when its chain is strictly longer than ours
    /// and valid under its own difficulty.
    pub fn try_replace_chain(&mut self, candidate: Blockchain) -> (replaced: bool)
        ensures
            replaced <==> candidate.chain@.len() > old(self).chain@.len() && chain_valid(
                candidate.chain@,
                candidate.difficulty as nat,
            ),
            replaced ==> *final(self) == candidate,
            !replaced ==> *final(self) == *old(self),
    {
        if candidate.chain.len() > self.chain.len() && candidate.is_chain_valid() {
            *self = candidate;
            true
        } else {
            false
        }
    }
}

/// A valid chain stays valid under extension by one block that carries its
/// recomputed hash, points at the old head, and meets the difficulty: the
/// global chain invariant is preserved by sealing a new block.
pub proof fn lemma_chain_extension_preserves_validity(
    chain: Seq<Block>,
    difficulty: nat,
    b: Block,
)
    requires
        chain.len() > 0,
        chain_valid(chain, difficulty),
        valid_link(chain.last(), b, difficulty),
    ensures
        chain_valid(chain.push(b), difficulty),
{
    let extended = chain.push(b);
    assert forall|i: int| 1 <= i < extended.len() implies valid_link(
        extended[i - 1],
        #[trigger] extended[i],
        difficulty,
    ) by {
        if i < chain.len() {
            assert(extended[i] == chain[i] && extended[i - 1] == chain[i - 1]);
        } else {
            assert(extended[i] == b && extended[i - 1] == chain.last());
        }
    }
}

/// Replacing any non-genesis block with one whose stored hash is not the
/// recomputed hash of its contents, or that does not point at its
/// predecessor's hash, or that misses the difficulty, makes the chain
/// invalid.
pub proof fn lemma_tampered_block_invalidates(
    chain: Seq<Block>,
    difficulty: nat,
    i: int,
    b: Block,
)
    requires
        1 <= i < chain.len(),
        b.hash@ != block_hash_of(b) || b.previous_hash@ != chain[i - 1].hash@ || !leading_zeros(
            b.hash@,
            difficulty,
        ),
    ensures
        !chain_valid(chain.update(i, b), difficulty),
{
    let tampered = chain.update(i, b);
    assert(tampered[i] == b);
    assert(tampered[i - 1] == chain[i - 1]);
    assert(!valid_link(tampered[i - 1], tampered[i], difficulty));
}

} // verus!
