use vstd::prelude::*;

use crate::blockchain::{
    chain_valid, minted_utxo, total_transactions, Blockchain, Transaction,
};
use crate::crypto::{canonical, commitment_matches, commitment_of, verify_commitment, HitProof};
use crate::game::{
    all_in_bounds, all_sunk, count_pos, fleet_contains, fleet_positions, first_ship_with, out_of_bounds_msg,
    owners_view, repeated_id, ship_after_hit, ships_wf, views_of, Grid, HitReport, Player, Ship,
};
use crate::proof_codec::{parse_proof, ProofFields};
use crate::strutil::str_eq;

verus! {

// ---------------------------------------------------------------------------
// The player table.
// ---------------------------------------------------------------------------

/// Some entry carries this player id.
pub open spec fn map_has(entries: Seq<Player>, id: Seq<char>) -> bool {
    exists|i: int| 0 <= i < entries.len() && entries[i].id@ == id
}

/// `i` is the first entry carrying this player id.
pub open spec fn first_player_at(entries: Seq<Player>, id: Seq<char>, i: int) -> bool {
    &&& 0 <= i < entries.len()
    &&& entries[i].id@ == id
    &&& forall|j: int| 0 <= j < i ==> (#[trigger] entries[j]).id@ != id
}

/// What inserting a player does to the table: the first entry under the same
/// id is replaced, or the player is appended.
pub open spec fn map_insert_post(before: Seq<Player>, after: Seq<Player>, p: Player) -> bool {
    if map_has(before, p.id@) {
        exists|i: int| first_player_at(before, p.id@, i) && after == before.update(i, p)
    } else {
        after == before.push(p)
    }
}

/// The players whose fleet still has an unsunk ship, in table order.
pub open spec fn active_ids(entries: Seq<Player>) -> Seq<Seq<char>>
    decreases entries.len(),
{
    if entries.len() == 0 {
        Seq::empty()
    } else {
        active_ids(entries.drop_last()) + if all_sunk(entries.last().ships@) {
            Seq::empty()
        } else {
            seq![entries.last().id@]
        }
    }
}

/// The registered players, one entry per id, looked up by the first entry
/// carrying the id.
#[derive(Debug)]
pub struct PlayerMap {
    pub entries: Vec<Player>,
}

impl PlayerMap {
    /// An empty table.
    pub fn new() -> (r: PlayerMap)
        ensures
            r.entries@.len() == 0,
    {
        PlayerMap { entries: Vec::new() }
    }

    /// The number of registered players.
    pub fn len(&self) -> (r: usize)
        ensures
            r == self.entries@.len(),
    {
        self.entries.len()
    }

    /// The index of the first entry under this id.
    fn index_of(&self, id: &str) -> (r: Option<usize>)
        ensures
            match r {
                Some(i) => first_player_at(self.entries@, id@, i as int),
                None => !map_has(self.entries@, id@),
            },
    {
        let n = self.entries.len();
        let mut i: usize = 0;
        while i < n
            invariant
                i <= n,
                n == self.entries@.len(),
                forall|j: int| 0 <= j < i ==> (#[trigger] self.entries@[j]).id@ != id@,
            decreases n - i,
        {
            if str_eq(self.entries[i].id.as_str(), id) {
                return Some(i);
            }
            i += 1;
        }
        None
    }

    /// The first player registered under this id.
    pub fn get(&self, id: &str) -> (r: Option<&Player>)
        ensures
            match r {
                Some(p) => exists|i: int|
                    first_player_at(self.entries@, id@, i) && *p == self.entries@[i],
                None => !map_has(self.entries@, id@),
            },
    {
        match self.index_of(id) {
            Some(i) => Some(&self.entries[i]),
            None => None,
        }
    }

    /// Whether this id is registered.
    pub fn contains_key(&self, id: &str) -> (r: bool)
        ensures
            r == map_has(self.entries@, id@),
    {
        match self.index_of(id) {
            Some(_) => true,
            None => false,
        }
    }

    /// Store a player: replaces the first entry under the same id, or
    /// appends.
    fn insert(&mut self, p: Player)
        ensures
            map_insert_post(old(self).entries@, final(self).entries@, p),
    {
        match self.index_of(p.id.as_str()) {
            Some(i) => {
                self.entries[i] = p;
            },
            None => {
                self.entries.push(p);
            },
        }
    }
}

// ---------------------------------------------------------------------------
// Fleet validation.
// ---------------------------------------------------------------------------

/// The number of ships of the run whose cell count is `k`.
pub open spec fn count_size(ships: Seq<Ship>, k: nat) -> nat
    decreases ships.len(),
{
    if ships.len() == 0 {
        0
    } else {
        count_size(ships.drop_last(), k) + if ships.last().positions@.len() == k {
            1nat
        } else {
            0nat
        }
    }
}

/// A legal fleet: exactly four ships, one each of sizes one to four.
pub open spec fn fleet_sizes_ok(ships: Seq<Ship>) -> bool {
    &&& ships.len() == 4
    &&& count_size(ships, 1) == 1
    &&& count_size(ships, 2) == 1
    &&& count_size(ships, 3) == 1
    &&& count_size(ships, 4) == 1
}

/// In canonical order, the cells sit in one row with consecutive columns.
pub open spec fn run_across_rows(sorted: Seq<(u8, u8)>) -> bool {
    &&& forall|i: int| 0 <= i < sorted.len() ==> (#[trigger] sorted[i]).1 == sorted[0].1
    &&& forall|i: int| 1 <= i < sorted.len() ==> (#[trigger] sorted[i]).0 == sorted[i - 1].0 + 1
}

/// In canonical order, the cells sit in one column with consecutive rows.
pub open spec fn run_down_columns(sorted: Seq<(u8, u8)>) -> bool {
    &&& forall|i: int| 0 <= i < sorted.len() ==> (#[trigger] sorted[i]).0 == sorted[0].0
    &&& forall|i: int| 1 <= i < sorted.len() ==> (#[trigger] sorted[i]).1 == sorted[i - 1].1 + 1
}

/// A legal ship: at least one cell and, once sorted, a contiguous run along
/// exactly one axis.
pub open spec fn ship_placement_ok(positions: Seq<(u8, u8)>) -> bool {
    &&& positions.len() > 0
    &&& (run_across_rows(canonical(positions)) || run_down_columns(canonical(positions)))
}

/// The rejection for a fleet of the wrong ship count.
pub open spec fn fleet_count_msg() -> Seq<char> {
    "Fleet must contain exactly 4 ships"@
}

/// The rejection for a fleet of the wrong ship sizes.
pub open spec fn fleet_sizes_msg() -> Seq<char> {
    "Fleet must contain: 1 Carrier (4 cells), 1 Cruiser (3 cells), 1 Submarine (2 cells), 1 Destroyer (1 cell)"@
}

/// The rejection for a misplaced ship.
pub open spec fn placement_msg(ship_id: Seq<char>) -> Seq<char> {
    "Ship '"@ + ship_id + "' must be placed horizontally or vertically in a continuous line"@
}

/// The rejection for a commitment that does not match the fleet.
pub open spec fn commitment_msg() -> Seq<char> {
    "Invalid board commitment"@
}

// ---------------------------------------------------------------------------
// Game statistics.
// ---------------------------------------------------------------------------

/// A pure aggregate view of the game.
#[derive(Debug, Clone)]
pub struct GameStats {
    pub round: u32,
    pub total_players: usize,
    pub active_players: usize,
    pub total_shots: usize,
    pub blockchain_length: usize,
}

// ---------------------------------------------------------------------------
// The coordinator.
// ---------------------------------------------------------------------------

/// The well-formedness every coordinator keeps: the chain holds at least the
/// genesis block, and every registered ship has one hit flag per cell.
pub open spec fn coordinator_wf(c: GameCoordinator) -> bool {
    &&& c.blockchain.chain@.len() > 0
    &&& forall|i: int|
        0 <= i < c.players.entries@.len() ==> ships_wf(
            (#[trigger] c.players.entries@[i]).ships@,
        )
}

/// Whether the player registered under `id` is defeated; an unknown player is
/// not.
pub open spec fn player_defeated(entries: Seq<Player>, id: Seq<char>) -> bool {
    exists|i: int| first_player_at(entries, id, i) && all_sunk(entries[i].ships@)
}

/// What a valid claim looks like against the claimant's stored commitment.
pub open spec fn claim_accepted(
    fields: ProofFields,
    is_hit: bool,
    x: u8,
    y: u8,
    board_commitment: Seq<char>,
) -> bool {
    if is_hit {
        fields.0 == Some((x, y)) && fields.1 == commitment_of(seq![(x, y)], fields.2)
    } else {
        fields.0 is None && fields.1 == board_commitment
    }
}

/// How mining pay changes a player: the credits land on the balance, capped
/// at its ceiling; everything else stays.
pub open spec fn player_credited(before: Player, after: Player, count: u32) -> bool {
    &&& after.id == before.id
    &&& after.ships == before.ships
    &&& after.board_commitment == before.board_commitment
    &&& after.salt == before.salt
    &&& after.shots_fired == before.shots_fired
    &&& after.shots_available == if before.shots_available + count <= u32::MAX {
        before.shots_available + count
    } else {
        u32::MAX as int
    }
}

/// How firing changes a player: one credit is spent and the shot is logged;
/// everything else stays.
pub open spec fn player_fired(before: Player, after: Player, x: u8, y: u8) -> bool {
    &&& after.id == before.id
    &&& after.ships == before.ships
    &&& after.board_commitment == before.board_commitment
    &&& after.salt == before.salt
    &&& after.shots_available == before.shots_available - 1
    &&& after.shots_fired@ == before.shots_fired@.push((x, y))
}

/// How a hit report changes a player: the first ship holding the cell takes
/// the hit; a player holding no such cell is unchanged.
pub open spec fn player_after_check_hit(before: Player, after: Player, x: u8, y: u8) -> bool {
    &&& after.id == before.id
    &&& after.board_commitment == before.board_commitment
    &&& after.salt == before.salt
    &&& after.shots_available == before.shots_available
    &&& after.shots_fired == before.shots_fired
    &&& if fleet_contains(before.ships@, x, y) {
        exists|j: int|
            first_ship_with(before.ships@, x, y, j) && ship_after_hit(
                before.ships@[j],
                after.ships@[j],
                x,
                y,
            ) && after.ships@ == before.ships@.update(j, after.ships@[j])
    } else {
        after.ships@ == before.ships@
    }
}

/// The coordinator: the one owner of the ledger, the grid and the player
/// table, and the only place where game rules are enforced.
pub struct GameCoordinator {
    pub blockchain: Blockchain,
    pub grid: Grid,
    pub players: PlayerMap,
    pub round: u32,
}

impl GameCoordinator {
    /// A fresh game: a ledger with a mined genesis block, an empty grid of
    /// the given size, no players, round zero.
    pub fn new(grid_size: u8, mining_difficulty: usize) -> (r: GameCoordinator)
        ensures
            coordinator_wf(r),
            r.blockchain.difficulty == mining_difficulty,
            r.blockchain.chain@.len() == 1,
            r.blockchain.pending_transactions@.len() == 0,
            r.blockchain.shot_utxos@.len() == 0,
            r.blockchain.mining_reward == 1,
            r.grid.size == grid_size,
            r.grid.cells.entries@.len() == 0,
            r.players.entries@.len() == 0,
            r.round == 0,
    {
        GameCoordinator {
            blockchain: Blockchain::new(mining_difficulty),
            grid: Grid::new(grid_size),
            players: PlayerMap::new(),
            round: 0,
        }
    }

    /// Register a player's fleet. All of the checks run, in order, before any
    /// state changes: ship count, ship sizes, placement of each ship, the
    /// board commitment, and bounds. On success every ship is recorded on the
    /// shared grid and the player is stored with an empty shot account.
    pub fn register_player(
        &mut self,
        player_id: String,
        ships: Vec<Ship>,
        board_commitment: String,
        salt: String,
    ) -> (r: Result<(), String>)
        requires
            coordinator_wf(*old(self)),
            ships_wf(ships@),
        ensures
            coordinator_wf(*final(self)),
            r is Ok <==> {
                &&& fleet_sizes_ok(ships@)
                &&& (forall|i: int|
                    0 <= i < ships@.len() ==> ship_placement_ok(
                        (#[trigger] ships@[i]).positions@,
                    ))
                &&& commitment_matches(board_commitment@, fleet_positions(ships@), salt@)
                &&& all_in_bounds(fleet_positions(ships@), old(self).grid.size)
            },
            r is Err ==> *final(self) == *old(self),
            r is Ok ==> exists|p: Player|
                {
                    &&& p.id == player_id
                    &&& p.ships == ships
                    &&& p.board_commitment == board_commitment
                    &&& p.salt == salt
                    &&& p.shots_available == 0
                    &&& p.shots_fired@.len() == 0
                    &&& map_insert_post(old(self).players.entries@, final(self).players.entries@, p)
                },
            r is Ok ==> forall|c: (u8, u8)|
                owners_view(final(self).grid.cells.entries@, c) == owners_view(
                    #[trigger] old(self).grid.cells.entries@,
                    c,
                ) + repeated_id(player_id@, count_pos(fleet_positions(ships@), c)),
            r is Ok ==> final(self).blockchain == old(self).blockchain && final(self).round == old(self).round && final(self).grid.size == old(self).grid.size,
            ships@.len() != 4 ==> (r matches Err(e) && e@ == fleet_count_msg()),
            ships@.len() == 4 && !fleet_sizes_ok(ships@) ==> (r matches Err(e) && e@
                == fleet_sizes_msg()),
            fleet_sizes_ok(ships@) ==> forall|i: int|
                {
                    &&& 0 <= i < ships@.len()
                    &&& !ship_placement_ok((#[trigger] ships@[i]).positions@)
                    &&& (forall|j: int|
                        0 <= j < i ==> ship_placement_ok((#[trigger] ships@[j]).positions@))
                } ==> (r matches Err(e) && e@ == placement_msg(ships@[i].id@)),
            fleet_sizes_ok(ships@) && (forall|i: int|
                0 <= i < ships@.len() ==> ship_placement_ok((#[trigger] ships@[i]).positions@))
                && !commitment_matches(board_commitment@, fleet_positions(ships@), salt@) ==> (
            r matches Err(e) && e@ == commitment_msg()),
            fleet_sizes_ok(ships@) && (forall|i: int|
                0 <= i < ships@.len() ==> ship_placement_ok((#[trigger] ships@[i]).positions@))
                && commitment_matches(board_commitment@, fleet_positions(ships@), salt@)
                && !all_in_bounds(fleet_positions(ships@), old(self).grid.size) ==> (r matches Err(
            e) && exists|k: int|
                {
                    &&& 0 <= k < fleet_positions(ships@).len()
                    &&& !((#[trigger] fleet_positions(ships@)[k]).0 < old(self).grid.size
                        && fleet_positions(ships@)[k].1 < old(self).grid.size)
                    &&& e@ == out_of_bounds_msg(fleet_positions(ships@)[k])
                }),
    {
        if ships.len() != 4 {
            return Err("Fleet must contain exactly 4 ships".to_owned());
        }

        let ones = count_ships_of_size(&ships, 1);
        let twos = count_ships_of_size(&ships, 2);
        let threes = count_ships_of_size(&ships, 3);
        let fours = count_ships_of_size(&ships, 4);
        if !(ones == 1 && twos == 1 && threes == 1 && fours == 1) {
            return Err(
                "Fleet must contain: 1 Carrier (4 cells), 1 Cruiser (3 cells), 1 Submarine (2 cells), 1 Destroyer (1 cell)".to_owned(),
            );
        }

        let ship_count = ships.len();
        let mut i: usize = 0;
        while i < ship_count
            invariant
                i <= ship_count,
                ship_count == ships@.len() == 4,
                *self == *old(self),
                coordinator_wf(*old(self)),
                fleet_sizes_ok(ships@),
                forall|j: int|
                    0 <= j < i ==> ship_placement_ok((#[trigger] ships@[j]).positions@),
            decreases ship_count - i,
        {
            if !Self::is_valid_ship_placement(ships[i].positions.as_slice()) {
                let mut msg = String::new();
                msg.append("Ship '");
                msg.append(ships[i].id.as_str());
                msg.append("' must be placed horizontally or vertically in a continuous line");
                proof {
                    assert(msg@ =~= placement_msg(ships@[i as int].id@));
                }
                return Err(msg);
            }
            i += 1;
        }

        let all_positions = collect_positions(&ships);
        if !verify_commitment(board_commitment.as_str(), all_positions.as_slice(), salt.as_str()) {
            return Err("Invalid board commitment".to_owned());
        }

        // Bounds of every cell, checked ship by ship before any placement, so
        // that a rejection leaves the grid untouched.
        let mut i: usize = 0;
        while i < ship_count
            invariant
                i <= ship_count,
                ship_count == ships@.len() == 4,
                *self == *old(self),
                coordinator_wf(*old(self)),
                fleet_sizes_ok(ships@),
                forall|j: int|
                    0 <= j < ships@.len() ==> ship_placement_ok((#[trigger] ships@[j]).positions@),
                commitment_matches(board_commitment@, fleet_positions(ships@), salt@),
                forall|j: int|
                    0 <= j < i ==> all_in_bounds((#[trigger] ships@[j]).positions@, self.grid.size),
            decreases ship_count - i,
        {
            let m = ships[i].positions.len();
            let mut j: usize = 0;
            while j < m
                invariant
                    j <= m,
                    i < ship_count == ships@.len() == 4,
                    *self == *old(self),
                    coordinator_wf(*old(self)),
                    fleet_sizes_ok(ships@),
                    forall|u: int|
                        0 <= u < ships@.len() ==> ship_placement_ok(
                            (#[trigger] ships@[u]).positions@,
                        ),
                    commitment_matches(board_commitment@, fleet_positions(ships@), salt@),
                    m == ships@[i as int].positions@.len(),
                    forall|u: int|
                        0 <= u < j ==> (#[trigger] ships@[i as int].positions@[u]).0
                            < self.grid.size && ships@[i as int].positions@[u].1 < self.grid.size,
                decreases m - j,
            {
                let p = ships[i].positions[j];
                if p.0 >= self.grid.size || p.1 >= self.grid.size {
                    let mut msg = String::new();
                    msg.append("Position (");
                    crate::strutil::push_decimal(&mut msg, p.0 as u64);
                    msg.append(", ");
                    crate::strutil::push_decimal(&mut msg, p.1 as u64);
                    msg.append(") is out of bounds");
                    proof {
                        lemma_fleet_oob_witness(ships@, i as int, j as int, self.grid.size);
                        let k = lemma_fleet_positions_contains(ships@, i as int, j as int);
                        assert(fleet_positions(ships@)[k] == p);
                        assert(msg@ =~= out_of_bounds_msg(fleet_positions(ships@)[k]));
                    }
                    return Err(msg);
                }
                j += 1;
            }
            i += 1;
        }
        proof {
            lemma_fleet_in_bounds(ships@, self.grid.size);
        }

        // All checks passed: record every ship on the shared grid.
        let mut i: usize = 0;
        proof {
            assert forall|c: (u8, u8)| owners_view(self.grid.cells.entries@, c) =~= owners_view(
                #[trigger] old(self).grid.cells.entries@,
                c,
            ) + repeated_id(player_id@, count_pos(fleet_positions(ships@.subrange(0, 0)), c)) by {
                assert(fleet_positions(ships@.subrange(0, 0)) =~= Seq::<(u8, u8)>::empty());
            }
        }
        while i < ship_count
            invariant
                i <= ship_count,
                ship_count == ships@.len() == 4,
                coordinator_wf(*old(self)),
                ships_wf(ships@),
                fleet_sizes_ok(ships@),
                forall|j: int|
                    0 <= j < ships@.len() ==> ship_placement_ok((#[trigger] ships@[j]).positions@),
                commitment_matches(board_commitment@, fleet_positions(ships@), salt@),
                self.grid.size == old(self).grid.size,
                self.blockchain == old(self).blockchain,
                self.players == old(self).players,
                self.round == old(self).round,
                forall|j: int|
                    0 <= j < ships@.len() ==> all_in_bounds(
                        (#[trigger] ships@[j]).positions@,
                        self.grid.size,
                    ),
                forall|c: (u8, u8)|
                    owners_view(self.grid.cells.entries@, c) == owners_view(
                        #[trigger] old(self).grid.cells.entries@,
                        c,
                    ) + repeated_id(
                        player_id@,
                        count_pos(fleet_positions(ships@.subrange(0, i as int)), c),
                    ),
            decreases ship_count - i,
        {
            let ghost mid = self.grid.cells.entries@;
            let res = self.grid.place_ship(player_id.as_str(), ships[i].positions.as_slice());
            match res {
                Ok(_) => {},
                Err(e) => {
                    proof {
                        assert(false);
                    }
                    return Err(e);
                },
            }
            proof {
                let upto = ships@.subrange(0, i as int + 1);
                assert(upto.drop_last() =~= ships@.subrange(0, i as int));
                assert(fleet_positions(upto) =~= fleet_positions(ships@.subrange(0, i as int))
                    + ships@[i as int].positions@);
                assert forall|c: (u8, u8)| owners_view(self.grid.cells.entries@, c)
                    == owners_view(#[trigger] old(self).grid.cells.entries@, c) + repeated_id(
                    player_id@,
                    count_pos(fleet_positions(upto), c),
                ) by {
                    lemma_count_pos_concat(
                        fleet_positions(ships@.subrange(0, i as int)),
                        ships@[i as int].positions@,
                        c,
                    );
                    let n1 = count_pos(fleet_positions(ships@.subrange(0, i as int)), c);
                    let n2 = count_pos(ships@[i as int].positions@, c);
                    assert(repeated_id(player_id@, n1) + repeated_id(player_id@, n2)
                        =~= repeated_id(player_id@, n1 + n2));
                    assert(owners_view(old(self).grid.cells.entries@, c) + repeated_id(
                        player_id@,
                        n1,
                    ) + repeated_id(player_id@, n2) =~= owners_view(
                        old(self).grid.cells.entries@,
                        c,
                    ) + (repeated_id(player_id@, n1) + repeated_id(player_id@, n2)));
                }
            }
            i += 1;
        }
        proof {
            assert(ships@.subrange(0, ship_count as int) =~= ships@);
        }

        let player = Player::new(player_id, ships, board_commitment, salt);
        let ghost gp = player;
        let ghost pre = self.players.entries@;
        self.players.insert(player);
        proof {
            assert(map_insert_post(pre, self.players.entries@, gp));
            let entries = self.players.entries@;
            if map_has(pre, gp.id@) {
                let w = choose|w: int| first_player_at(pre, gp.id@, w) && entries == pre.update(
                    w,
                    gp,
                );
                assert forall|k: int| 0 <= k < entries.len() implies ships_wf(
                    (#[trigger] entries[k]).ships@,
                ) by {
                    if k != w {
                        assert(entries[k] == pre[k]);
                    }
                }
            } else {
                assert forall|k: int| 0 <= k < entries.len() implies ships_wf(
                    (#[trigger] entries[k]).ships@,
                ) by {
                    if k < pre.len() {
                        assert(entries[k] == pre[k]);
                    } else {
                        assert(entries[k] == gp);
                    }
                }
            }
        }
        Ok(())
    }

    /// Mine the mempool into a new block on behalf of a registered,
    /// non-defeated player, and credit the minted shots onto their balance.
    pub fn mine_for_shots(&mut self, player_id: &str) -> (r: Result<u32, String>)
        requires
            coordinator_wf(*old(self)),
        ensures
            coordinator_wf(*final(self)),
            r is Ok <==> map_has(old(self).players.entries@, player_id@) && !player_defeated(
                old(self).players.entries@,
                player_id@,
            ),
            !map_has(old(self).players.entries@, player_id@) ==> (r matches Err(e) && e@
                == "Player not found"@),
            map_has(old(self).players.entries@, player_id@) && player_defeated(
                old(self).players.entries@,
                player_id@,
            ) ==> (r matches Err(e) && e@ == "Defeated players cannot mine"@),
            r is Err ==> *final(self) == *old(self),
            r matches Ok(shots) ==> {
                &&& shots == old(self).blockchain.mining_reward
                &&& final(self).blockchain.pending_transactions@.len() == 0
                &&& final(self).blockchain.chain@.len() == old(self).blockchain.chain@.len() + 1
                &&& final(self).blockchain.chain@.drop_last() == old(self).blockchain.chain@
                &&& final(self).blockchain.chain@.last().transactions@ == old(self).blockchain.pending_transactions@
                &&& final(self).blockchain.chain@.last().previous_hash@ == old(self).blockchain.chain@.last().hash@
                &&& final(self).blockchain.shot_utxos@.len() == old(self).blockchain.shot_utxos@.len() + shots
                &&& (forall|i: int|
                    0 <= i < old(self).blockchain.shot_utxos@.len() ==> final(self).blockchain.shot_utxos@[i] == old(self).blockchain.shot_utxos@[i])
                &&& (forall|k: int|
                    0 <= k < shots ==> minted_utxo(
                        #[trigger] final(self).blockchain.shot_utxos@[old(self).blockchain.shot_utxos@.len() + k],
                        player_id@,
                        final(self).blockchain.chain@.last().hash@,
                        k as u32,
                        old(self).blockchain.chain@.len() as u64,
                    ))
                &&& final(self).blockchain.difficulty == old(self).blockchain.difficulty
                &&& final(self).blockchain.mining_reward == old(self).blockchain.mining_reward
                &&& final(self).grid == old(self).grid
                &&& final(self).round == old(self).round
                &&& exists|i: int|
                    {
                        &&& first_player_at(old(self).players.entries@, player_id@, i)
                        &&& final(self).players.entries@ == old(self).players.entries@.update(
                            i,
                            final(self).players.entries@[i],
                        )
                        &&& player_credited(
                            old(self).players.entries@[i],
                            final(self).players.entries@[i],
                            shots,
                        )
                    }
            },
    {
        let idx = match self.players.index_of(player_id) {
            Some(i) => i,
            None => {
                return Err("Player not found".to_owned());
            },
        };
        if self.players.entries[idx].is_defeated() {
            return Err("Defeated players cannot mine".to_owned());
        }

        let shots_earned = self.blockchain.mine_pending_transactions(player_id);

        let p = &mut self.players.entries[idx];
        p.add_shots(shots_earned);
        proof {
            assert(final(self).players.entries@ =~= old(self).players.entries@.update(
                idx as int,
                final(self).players.entries@[idx as int],
            ));
            assert forall|k: int| 0 <= k < final(self).players.entries@.len() implies ships_wf(
                (#[trigger] final(self).players.entries@[k]).ships@,
            ) by {
                if k != idx {
                    assert(final(self).players.entries@[k] == old(self).players.entries@[k]);
                }
            }
        }
        Ok(shots_earned)
    }

    /// Spend one of the player's credits on a shot at `(target_x, target_y)`:
    /// the shot becomes a transaction in the mempool, sealed by whoever mines
    /// next.
    pub fn fire_shot(&mut self, player_id: String, target_x: u8, target_y: u8) -> (r: Result<
        (),
        String,
    >)
        requires
            coordinator_wf(*old(self)),
        ensures
            coordinator_wf(*final(self)),
            r is Ok <==> exists|i: int|
                first_player_at(old(self).players.entries@, player_id@, i) && old(self).players.entries@[i].shots_available > 0,
            !map_has(old(self).players.entries@, player_id@) ==> (r matches Err(e) && e@
                == "Player not found"@),
            forall|i: int|
                first_player_at(old(self).players.entries@, player_id@, i) && old(
                    self,
                ).players.entries@[i].shots_available == 0 ==> (r matches Err(e) && e@
                    == "No shots available"@),
            r is Err ==> *final(self) == *old(self),
            r is Ok ==> {
                &&& exists|i: int|
                    {
                        &&& first_player_at(old(self).players.entries@, player_id@, i)
                        &&& final(self).players.entries@ == old(self).players.entries@.update(
                            i,
                            final(self).players.entries@[i],
                        )
                        &&& player_fired(
                            old(self).players.entries@[i],
                            final(self).players.entries@[i],
                            target_x,
                            target_y,
                        )
                    }
                &&& final(self).blockchain.pending_transactions@.len() == old(self).blockchain.pending_transactions@.len() + 1
                &&& final(self).blockchain.pending_transactions@.drop_last() == old(self).blockchain.pending_transactions@
                &&& ({
                    let tx = final(self).blockchain.pending_transactions@.last();
                    &&& tx.player_id@ == player_id@
                    &&& tx.target_x == target_x
                    &&& tx.target_y == target_y
                    &&& tx.nonce == 0
                })
                &&& final(self).blockchain.chain == old(self).blockchain.chain
                &&& final(self).blockchain.shot_utxos == old(self).blockchain.shot_utxos
                &&& final(self).blockchain.difficulty == old(self).blockchain.difficulty
                &&& final(self).blockchain.mining_reward == old(self).blockchain.mining_reward
                &&& final(self).grid == old(self).grid
                &&& final(self).round == old(self).round
            },
    {
        let idx = match self.players.index_of(player_id.as_str()) {
            Some(i) => i,
            None => {
                return Err("Player not found".to_owned());
            },
        };
        if self.players.entries[idx].shots_available == 0 {
            return Err("No shots available".to_owned());
        }

        let p = &mut self.players.entries[idx];
        let fired = p.fire_shot(target_x, target_y);
        proof {
            assert(fired is Ok);
            assert(self.players.entries@ =~= old(self).players.entries@.update(
                idx as int,
                self.players.entries@[idx as int],
            ));
        }

        let transaction = Transaction::new(player_id, target_x, target_y, 0);
        self.blockchain.add_transaction(transaction);
        proof {
            assert(final(self).blockchain.pending_transactions@.drop_last() =~= old(self).blockchain.pending_transactions@);
            assert forall|k: int| 0 <= k < final(self).players.entries@.len() implies ships_wf(
                (#[trigger] final(self).players.entries@[k]).ships@,
            ) by {
                if k != idx {
                    assert(final(self).players.entries@[k] == old(self).players.entries@[k]);
                }
            }
        }
        Ok(())
    }

    /// Check a reported shot outcome against the claimant's stored board
    /// commitment, and on a proven hit mark the cell on the claimant's fleet.
    /// Succeeds only on a decodable claim that passes verification.
    pub fn report_hit(&mut self, report: HitReport) -> (r: Result<bool, String>)
        requires
            coordinator_wf(*old(self)),
        ensures
            coordinator_wf(*final(self)),
            r is Err ==> *final(self) == *old(self),
            !map_has(old(self).players.entries@, report.player_id@) ==> (r matches Err(e) && e@
                == "Player not found"@),
            forall|i: int|
                first_player_at(old(self).players.entries@, report.player_id@, i) ==> {
                    let board = old(self).players.entries@[i].board_commitment@;
                    match parse_proof(report.proof_data@) {
                        Option::None => r matches Err(e) && e@ == "Invalid proof format"@,
                        Option::Some(fields) => {
                            if claim_accepted(
                                fields,
                                report.is_hit,
                                report.shot_x,
                                report.shot_y,
                                board,
                            ) {
                                &&& r matches Ok(accepted) && accepted == true
                                &&& (!report.is_hit ==> *final(self) == *old(self))
                                &&& (report.is_hit ==> final(self).players.entries@ == old(self).players.entries@.update(
                                    i,
                                    final(self).players.entries@[i],
                                ) && player_after_check_hit(
                                    old(self).players.entries@[i],
                                    final(self).players.entries@[i],
                                    report.shot_x,
                                    report.shot_y,
                                ) && final(self).blockchain == old(self).blockchain && final(self).grid == old(self).grid && final(self).round == old(self).round)
                            } else {
                                r matches Err(e) && e@ == "Invalid proof"@
                            }
                        },
                    }
                },
    {
        let idx = match self.players.index_of(report.player_id.as_str()) {
            Some(i) => i,
            None => {
                return Err("Player not found".to_owned());
            },
        };

        let hit_proof = match HitProof::deserialize(report.proof_data.as_slice()) {
            Some(p) => p,
            None => {
                return Err("Invalid proof format".to_owned());
            },
        };

        let is_valid = if report.is_hit {
            hit_proof.verify_hit(
                (report.shot_x, report.shot_y),
                self.players.entries[idx].board_commitment.as_str(),
            )
        } else {
            hit_proof.verify_miss(
                (report.shot_x, report.shot_y),
                self.players.entries[idx].board_commitment.as_str(),
            )
        };

        if !is_valid {
            return Err("Invalid proof".to_owned());
        }

        if report.is_hit {
            let p = &mut self.players.entries[idx];
            let _landed = p.check_hit(report.shot_x, report.shot_y);
            proof {
                assert(final(self).players.entries@ =~= old(self).players.entries@.update(
                    idx as int,
                    final(self).players.entries@[idx as int],
                ));
                assert forall|k: int| 0 <= k < final(self).players.entries@.len() implies ships_wf(
                    (#[trigger] final(self).players.entries@[k]).ships@,
                ) by {
                    if k != idx {
                        assert(final(self).players.entries@[k] == old(self).players.entries@[k]);
                    }
                }
            }
        }

        Ok(is_valid)
    }

    /// Whether the player registered under this id has every ship sunk; an
    /// unknown id is not defeated.
    pub fn is_player_defeated(&self, player_id: &str) -> (r: bool)
        ensures
            r == player_defeated(self.players.entries@, player_id@),
    {
        match self.players.get(player_id) {
            Some(player) => player.is_defeated(),
            None => false,
        }
    }

    /// The ids of all players that still have an unsunk ship, in table order.
    pub fn get_active_players(&self) -> (r: Vec<String>)
        ensures
            views_of(r@) == active_ids(self.players.entries@),
    {
        let n = self.players.entries.len();
        let mut r: Vec<String> = Vec::new();
        let mut i: usize = 0;
        proof {
            assert(views_of(r@) =~= active_ids(self.players.entries@.subrange(0, 0)));
        }
        while i < n
            invariant
                i <= n,
                n == self.players.entries@.len(),
                views_of(r@) == active_ids(self.players.entries@.subrange(0, i as int)),
            decreases n - i,
        {
            proof {
                let upto = self.players.entries@.subrange(0, i as int + 1);
                assert(upto.drop_last() =~= self.players.entries@.subrange(0, i as int));
            }
            let ghost before = r@;
            if !self.players.entries[i].is_defeated() {
                r.push(self.players.entries[i].id.clone());
                proof {
                    assert(views_of(r@) =~= views_of(before) + seq![
                        self.players.entries@[i as int].id@,
                    ]);
                }
            } else {
                proof {
                    assert(views_of(r@) =~= views_of(before) + Seq::<Seq<char>>::empty());
                }
            }
            i += 1;
        }
        proof {
            assert(self.players.entries@.subrange(0, n as int) =~= self.players.entries@);
        }
        r
    }

    /// Advance to the next round.
    pub fn next_round(&mut self)
        requires
            old(self).round < u32::MAX,
        ensures
            final(self).round == old(self).round + 1,
            final(self).blockchain == old(self).blockchain,
            final(self).grid == old(self).grid,
            final(self).players == old(self).players,
    {
        self.round = self.round + 1;
    }

    /// The aggregate view of the game: round, player counts, total sealed
    /// shots and chain length.
    pub fn get_stats(&self) -> (r: GameStats)
        ensures
            r.round == self.round,
            r.total_players == self.players.entries@.len(),
            r.active_players == active_ids(self.players.entries@).len(),
            total_transactions(self.blockchain.chain@) <= usize::MAX ==> r.total_shots
                == total_transactions(self.blockchain.chain@),
            r.blockchain_length == self.blockchain.chain@.len(),
    {
        let active = self.get_active_players();
        GameStats {
            round: self.round,
            total_players: self.players.len(),
            active_players: active.len(),
            total_shots: self.blockchain.get_transaction_count(),
            blockchain_length: self.blockchain.chain.len(),
        }
    }

    /// Whether the whole chain withstands validation.
    pub fn verify_blockchain(&self) -> (r: bool)
        ensures
            r == chain_valid(self.blockchain.chain@, self.blockchain.difficulty as nat),
    {
        self.blockchain.is_chain_valid()
    }


    /// A ship is legally placed when its cells, sorted into canonical order,
    /// run along one row or one column with no gap.
    fn is_valid_ship_placement(positions: &[(u8, u8)]) -> (r: bool)
        ensures
            r == ship_placement_ok(positions@),
    {
        if positions.len() == 0 {
            return false;
        }
        let sorted = crate::crypto::sort_positions(positions);
        let n = sorted.len();

        let mut across = true;
        let mut i: usize = 0;
        while i < n
            invariant
                i <= n,
                n == sorted@.len() > 0,
                across == (forall|j: int|
                    0 <= j < i ==> (#[trigger] sorted@[j]).1 == sorted@[0].1 && (j >= 1
                        ==> sorted@[j].0 == sorted@[j - 1].0 + 1)),
            decreases n - i,
        {
            if sorted[i].1 != sorted[0].1 {
                across = false;
            }
            if i >= 1 && !(sorted[i - 1].0 < u8::MAX && sorted[i].0 == sorted[i - 1].0 + 1) {
                across = false;
            }
            i += 1;
        }
        if across {
            return true;
        }

        let mut down = true;
        let mut i: usize = 0;
        while i < n
            invariant
                i <= n,
                n == sorted@.len() > 0,
                down == (forall|j: int|
                    0 <= j < i ==> (#[trigger] sorted@[j]).0 == sorted@[0].0 && (j >= 1
                        ==> sorted@[j].1 == sorted@[j - 1].1 + 1)),
            decreases n - i,
        {
            if sorted[i].0 != sorted[0].0 {
                down = false;
            }
            if i >= 1 && !(sorted[i - 1].1 < u8::MAX && sorted[i].1 == sorted[i - 1].1 + 1) {
                down = false;
            }
            i += 1;
        }
        down
    }
}

/// Every ship of a fully bounds-checked fleet keeps the whole flattened run
/// in bounds.
proof fn lemma_fleet_in_bounds(ships: Seq<Ship>, size: u8)
    requires
        forall|j: int| 0 <= j < ships.len() ==> all_in_bounds((#[trigger] ships[j]).positions@, size),
    ensures
        all_in_bounds(fleet_positions(ships), size),
    decreases ships.len(),
{
    if ships.len() > 0 {
        lemma_fleet_in_bounds(ships.drop_last(), size);
    }
}

/// Every cell of every ship appears in the flattened run; the returned index
/// points at it.
proof fn lemma_fleet_positions_contains(ships: Seq<Ship>, i: int, j: int) -> (k: int)
    requires
        0 <= i < ships.len(),
        0 <= j < ships[i].positions@.len(),
    ensures
        0 <= k < fleet_positions(ships).len(),
        fleet_positions(ships)[k] == ships[i].positions@[j],
    decreases ships.len(),
{
    if i == ships.len() - 1 {
        fleet_positions(ships.drop_last()).len() + j
    } else {
        let k = lemma_fleet_positions_contains(ships.drop_last(), i, j);
        assert(fleet_positions(ships)[k] == fleet_positions(ships.drop_last())[k]);
        k
    }
}

/// A cell of some ship that lies out of bounds puts the flattened run out of
/// bounds.
proof fn lemma_fleet_oob_witness(ships: Seq<Ship>, i: int, j: int, size: u8)
    requires
        0 <= i < ships.len(),
        0 <= j < ships[i].positions@.len(),
        !(ships[i].positions@[j].0 < size && ships[i].positions@[j].1 < size),
    ensures
        !all_in_bounds(fleet_positions(ships), size),
    decreases ships.len(),
{
    if i == ships.len() - 1 {
        let flat = fleet_positions(ships);
        let prefix = fleet_positions(ships.drop_last());
        assert(flat[prefix.len() + j] == ships[i].positions@[j]);
    } else {
        lemma_fleet_oob_witness(ships.drop_last(), i, j, size);
        let flat = fleet_positions(ships);
        let prefix = fleet_positions(ships.drop_last());
        let w = choose|w: int| 0 <= w < prefix.len() && !((#[trigger] prefix[w]).0 < size
            && prefix[w].1 < size);
        assert(flat[w] == prefix[w]);
    }
}

/// Occurrence counts add up over concatenation.
proof fn lemma_count_pos_concat(a: Seq<(u8, u8)>, b: Seq<(u8, u8)>, c: (u8, u8))
    ensures
        count_pos(a + b, c) == count_pos(a, c) + count_pos(b, c),
    decreases b.len(),
{
    if b.len() == 0 {
        assert(a + b =~= a);
    } else {
        assert((a + b).drop_last() =~= a + b.drop_last());
        lemma_count_pos_concat(a, b.drop_last(), c);
    }
}

/// The number of ships in the run whose cell count is `size`.
fn count_ships_of_size(ships: &Vec<Ship>, size: usize) -> (r: usize)
    ensures
        r == count_size(ships@, size as nat),
{
    let n = ships.len();
    let mut count: usize = 0;
    let mut i: usize = 0;
    proof {
        assert(ships@.subrange(0, 0) =~= Seq::<Ship>::empty());
    }
    while i < n
        invariant
            i <= n,
            n == ships@.len(),
            count <= i,
            count == count_size(ships@.subrange(0, i as int), size as nat),
        decreases n - i,
    {
        proof {
            let upto = ships@.subrange(0, i as int + 1);
            assert(upto.drop_last() =~= ships@.subrange(0, i as int));
        }
        if ships[i].positions.len() == size {
            count = count + 1;
        }
        i += 1;
    }
    proof {
        assert(ships@.subrange(0, n as int) =~= ships@);
    }
    count
}

/// The cells of all ships, flattened in ship order.
fn collect_positions(ships: &Vec<Ship>) -> (r: Vec<(u8, u8)>)
    ensures
        r@ == fleet_positions(ships@),
{
    let mut r: Vec<(u8, u8)> = Vec::new();
    let n = ships.len();
    let mut i: usize = 0;
    proof {
        assert(r@ =~= fleet_positions(ships@.subrange(0, 0)));
    }
    while i < n
        invariant
            i <= n,
            n == ships@.len(),
            r@ == fleet_positions(ships@.subrange(0, i as int)),
        decreases n - i,
    {
        let m = ships[i].positions.len();
        let mut j: usize = 0;
        while j < m
            invariant
                j <= m,
                i < n == ships@.len(),
                m == ships@[i as int].positions@.len(),
                r@ == fleet_positions(ships@.subrange(0, i as int))
                    + ships@[i as int].positions@.subrange(0, j as int),
            decreases m - j,
        {
            r.push(ships[i].positions[j]);
            proof {
                assert(fleet_positions(ships@.subrange(0, i as int))
                    + ships@[i as int].positions@.subrange(0, j as int + 1) =~= (fleet_positions(
                    ships@.subrange(0, i as int),
                ) + ships@[i as int].positions@.subrange(0, j as int)).push(
                    ships@[i as int].positions@[j as int],
                ));
            }
            j += 1;
        }
        proof {
            let upto = ships@.subrange(0, i as int + 1);
            assert(upto.drop_last() =~= ships@.subrange(0, i as int));
            assert(ships@[i as int].positions@.subrange(0, m as int) =~= ships@[i as int].positions@);
            assert(r@ =~= fleet_positions(upto));
        }
        i += 1;
    }
    proof {
        assert(ships@.subrange(0, n as int) =~= ships@);
    }
    r
}

} // verus!
