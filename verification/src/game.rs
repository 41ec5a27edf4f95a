use vstd::prelude::*;

use crate::strutil::{dec_of, push_decimal};

verus! {

// ---------------------------------------------------------------------------
// Ships.
// ---------------------------------------------------------------------------

/// A ship on the grid, with one hit flag per cell.
#[derive(Debug, Clone, PartialEq)]
pub struct Ship {
    pub id: String,
    pub positions: Vec<(u8, u8)>,
    pub hits: Vec<bool>,
}

/// The permanent shape of a ship: one hit flag per cell.
pub open spec fn ship_wf(s: Ship) -> bool {
    s.positions@.len() == s.hits@.len()
}

/// Some cell of the run equals `(x, y)`.
pub open spec fn positions_contain(positions: Seq<(u8, u8)>, x: u8, y: u8) -> bool {
    exists|i: int| 0 <= i < positions.len() && positions[i] == (x, y)
}

/// `i` is the first index whose cell equals `(x, y)`.
pub open spec fn first_match_at(positions: Seq<(u8, u8)>, x: u8, y: u8, i: int) -> bool {
    &&& 0 <= i < positions.len()
    &&& positions[i] == (x, y)
    &&& forall|j: int| 0 <= j < i ==> positions[j] != (x, y)
}

/// Every hit flag is set.
pub open spec fn all_hit(hits: Seq<bool>) -> bool {
    forall|i: int| 0 <= i < hits.len() ==> hits[i]
}

/// How `register_hit` changes a ship: the first matching cell's flag is set,
/// everything else stays.
pub open spec fn ship_after_hit(before: Ship, after: Ship, x: u8, y: u8) -> bool {
    &&& after.id == before.id
    &&& after.positions == before.positions
    &&& exists|k: int|
        first_match_at(before.positions@, x, y, k) && after.hits@ == before.hits@.update(k, true)
}

impl Ship {
    /// A new ship over the given run of cells, none of them hit yet.
    pub fn new(id: String, positions: Vec<(u8, u8)>) -> (r: Ship)
        ensures
            r.id == id,
            r.positions == positions,
            r.hits@.len() == positions@.len(),
            forall|i: int| 0 <= i < r.hits@.len() ==> !r.hits@[i],
            ship_wf(r),
    {
        let n = positions.len();
        let mut hits: Vec<bool> = Vec::new();
        let mut i: usize = 0;
        while i < n
            invariant
                i <= n,
                hits@.len() == i,
                forall|j: int| 0 <= j < i ==> !hits@[j],
            decreases n - i,
        {
            hits.push(false);
            i += 1;
        }
        Ship { id, positions, hits }
    }

    /// Whether the ship's first cell equal to `(x, y)`, if any, is hit.
    pub fn is_hit_at(&self, x: u8, y: u8) -> (r: bool)
        requires
            ship_wf(*self),
        ensures
            r == exists|i: int| first_match_at(self.positions@, x, y, i) && self.hits@[i],
    {
        let n = self.positions.len();
        let mut i: usize = 0;
        while i < n
            invariant
                i <= n,
                ship_wf(*self),
                n == self.positions@.len(),
                forall|j: int| 0 <= j < i ==> self.positions@[j] != (x, y),
            decreases n - i,
        {
            let p = self.positions[i];
            if p.0 == x && p.1 == y {
                proof {
                    assert(first_match_at(self.positions@, x, y, i as int));
                }
                return self.hits[i];
            }
            i += 1;
        }
        false
    }

    /// Mark the first cell equal to `(x, y)` as hit, if the ship holds one.
    /// Returns whether the cell belonged to this ship. Hitting an already-hit
    /// cell is permitted and changes nothing.
    pub fn register_hit(&mut self, x: u8, y: u8) -> (r: bool)
        requires
            ship_wf(*old(self)),
        ensures
            r == positions_contain(old(self).positions@, x, y),
            r ==> ship_after_hit(*old(self), *final(self), x, y),
            !r ==> *final(self) == *old(self),
            ship_wf(*final(self)),
    {
        let n = self.positions.len();
        let mut i: usize = 0;
        while i < n
            invariant
                i <= n,
                *self == *old(self),
                ship_wf(*self),
                n == self.positions@.len(),
                forall|j: int| 0 <= j < i ==> self.positions@[j] != (x, y),
            decreases n - i,
        {
            let p = self.positions[i];
            if p.0 == x && p.1 == y {
                proof {
                    assert(first_match_at(self.positions@, x, y, i as int));
                }
                let slot = &mut self.hits[i];
                *slot = true;
                return true;
            }
            i += 1;
        }
        false
    }

    /// True exactly when every cell of the ship has been hit.
    pub fn is_sunk(&self) -> (r: bool)
        ensures
            r == all_hit(self.hits@),
    {
        let n = self.hits.len();
        let mut i: usize = 0;
        while i < n
            invariant
                i <= n,
                n == self.hits@.len(),
                forall|j: int| 0 <= j < i ==> self.hits@[j],
            decreases n - i,
        {
            if !self.hits[i] {
                return false;
            }
            i += 1;
        }
        true
    }
}

// ---------------------------------------------------------------------------
// The shared grid.
// ---------------------------------------------------------------------------

/// One grid cell and the players that own a ship part there.
#[derive(Debug)]
pub struct CellEntry {
    pub pos: (u8, u8),
    pub owners: Vec<String>,
}

/// The views of a run of owner ids.
pub open spec fn views_of(owners: Seq<String>) -> Seq<Seq<char>> {
    owners.map_values(|s: String| s@)
}

/// Some entry carries this cell.
pub open spec fn has_key(entries: Seq<CellEntry>, pos: (u8, u8)) -> bool {
    exists|i: int| 0 <= i < entries.len() && entries[i].pos == pos
}

/// The owners recorded at a cell, by the first entry that carries it; an
/// absent cell has no owners.
pub open spec fn owners_view(entries: Seq<CellEntry>, pos: (u8, u8)) -> Seq<Seq<char>>
    decreases entries.len(),
{
    if entries.len() == 0 {
        Seq::empty()
    } else if entries[0].pos == pos {
        views_of(entries[0].owners@)
    } else {
        owners_view(entries.drop_first(), pos)
    }
}

/// The cell-to-owners association of the shared grid, kept as a list of
/// entries with one entry per distinct cell.
#[derive(Debug)]
pub struct CellGrid {
    pub entries: Vec<CellEntry>,
}

impl CellGrid {
    /// An empty association.
    pub fn new() -> (r: CellGrid)
        ensures
            r.entries@.len() == 0,
    {
        CellGrid { entries: Vec::new() }
    }

    /// The number of cells that carry at least one recorded owner.
    pub fn len(&self) -> (r: usize)
        ensures
            r == self.entries@.len(),
    {
        self.entries.len()
    }

    /// The owners recorded at a cell, or `None` when the cell was never
    /// written.
    pub fn get(&self, pos: &(u8, u8)) -> (r: Option<&Vec<String>>)
        ensures
            match r {
                Some(v) => has_key(self.entries@, *pos) && views_of(v@) == owners_view(
                    self.entries@,
                    *pos,
                ),
                None => !has_key(self.entries@, *pos),
            },
    {
        let n = self.entries.len();
        let mut i: usize = 0;
        while i < n
            invariant
                i <= n,
                n == self.entries@.len(),
                forall|j: int| 0 <= j < i ==> self.entries@[j].pos != *pos,
            decreases n - i,
        {
            let e = &self.entries[i];
            if e.pos.0 == pos.0 && e.pos.1 == pos.1 {
                proof {
                    lemma_owners_view_first_match(self.entries@, *pos, i as int);
                }
                return Some(&self.entries[i].owners);
            }
            i += 1;
        }
        proof {
            lemma_owners_view_no_match(self.entries@, *pos);
        }
        None
    }

    /// Record `player_id` as one more owner of `pos`.
    fn add_owner(&mut self, pos: (u8, u8), player_id: &str)
        ensures
            owners_view(final(self).entries@, pos) == owners_view(
                old(self).entries@,
                pos,
            ).push(player_id@),
            forall|c: (u8, u8)|
                c != pos ==> owners_view(final(self).entries@, c) == owners_view(
                    #[trigger] old(self).entries@,
                    c,
                ),
    {
        let n = self.entries.len();
        let mut i: usize = 0;
        while i < n
            invariant
                i <= n,
                *self == *old(self),
                n == self.entries@.len(),
                forall|j: int| 0 <= j < i ==> self.entries@[j].pos != pos,
            decreases n - i,
        {
            let e = &self.entries[i];
            if e.pos.0 == pos.0 && e.pos.1 == pos.1 {
                let ghost before = self.entries@;
                let slot = &mut self.entries[i];
                slot.owners.push(player_id.to_owned());
                proof {
                    let after = final(self).entries@;
                    assert(after == before.update(i as int, after[i as int]));
                    assert(after[i as int].pos == pos);
                    assert(views_of(after[i as int].owners@) =~= views_of(
                        before[i as int].owners@,
                    ).push(player_id@));
                    lemma_owners_view_update_first(before, pos, i as int, after[i as int]);
                    lemma_owners_view_first_match(before, pos, i as int);
                    assert forall|c: (u8, u8)| c != pos implies owners_view(after, c)
                        == owners_view(before, c) by {
                        lemma_owners_view_update_other(before, pos, i as int, after[i as int], c);
                    }
                }
                return ;
            }
            i += 1;
        }
        let mut owners: Vec<String> = Vec::new();
        owners.push(player_id.to_owned());
        let ghost before = self.entries@;
        let entry = CellEntry { pos, owners };
        let ghost added = entry;
        self.entries.push(entry);
        proof {
            assert(views_of(added.owners@) =~= Seq::<Seq<char>>::empty().push(player_id@));
            lemma_owners_view_push(before, added, pos);
            lemma_owners_view_no_match(before, pos);
            assert forall|c: (u8, u8)| c != pos implies owners_view(final(self).entries@, c)
                == owners_view(before, c) by {
                lemma_owners_view_push(before, added, c);
                if !has_key(before, c) {
                    lemma_owners_view_no_match(before, c);
                }
            }
        }
    }
}

/// When `i` is the first entry carrying `pos`, the owners at `pos` are that
/// entry's.
proof fn lemma_owners_view_first_match(entries: Seq<CellEntry>, pos: (u8, u8), i: int)
    requires
        0 <= i < entries.len(),
        entries[i].pos == pos,
        forall|j: int| 0 <= j < i ==> entries[j].pos != pos,
    ensures
        owners_view(entries, pos) == views_of(entries[i].owners@),
    decreases entries.len(),
{
    if i > 0 {
        lemma_owners_view_first_match(entries.drop_first(), pos, i - 1);
    }
}

/// A cell carried by no entry has no owners.
proof fn lemma_owners_view_no_match(entries: Seq<CellEntry>, pos: (u8, u8))
    requires
        forall|j: int| 0 <= j < entries.len() ==> entries[j].pos != pos,
    ensures
        owners_view(entries, pos) == Seq::<Seq<char>>::empty(),
    decreases entries.len(),
{
    if entries.len() > 0 {
        lemma_owners_view_no_match(entries.drop_first(), pos);
    }
}

/// Updating the first entry carrying `pos` with another entry for the same
/// cell updates the owners at `pos` to the new entry's.
proof fn lemma_owners_view_update_first(entries: Seq<CellEntry>, pos: (u8, u8), i: int, e: CellEntry)
    requires
        0 <= i < entries.len(),
        entries[i].pos == pos,
        e.pos == pos,
        forall|j: int| 0 <= j < i ==> entries[j].pos != pos,
    ensures
        owners_view(entries.update(i, e), pos) == views_of(e.owners@),
    decreases entries.len(),
{
    if i == 0 {
    } else {
        assert(entries.update(i, e).drop_first() =~= entries.drop_first().update(i - 1, e));
        lemma_owners_view_update_first(entries.drop_first(), pos, i - 1, e);
    }
}

/// Updating an entry for `pos` leaves the owners of every other cell alone.
proof fn lemma_owners_view_update_other(
    entries: Seq<CellEntry>,
    pos: (u8, u8),
    i: int,
    e: CellEntry,
    c: (u8, u8),
)
    requires
        0 <= i < entries.len(),
        entries[i].pos == pos,
        e.pos == pos,
        c != pos,
    ensures
        owners_view(entries.update(i, e), c) == owners_view(entries, c),
    decreases entries.len(),
{
    if i == 0 {
        assert(entries.update(i, e).drop_first() =~= entries.drop_first());
    } else {
        assert(entries.update(i, e).drop_first() =~= entries.drop_first().update(i - 1, e));
        lemma_owners_view_update_other(entries.drop_first(), pos, i - 1, e, c);
    }
}

/// Appending an entry changes the owners only of a cell that no earlier entry
/// carried.
proof fn lemma_owners_view_push(entries: Seq<CellEntry>, e: CellEntry, c: (u8, u8))
    ensures
        owners_view(entries.push(e), c) == if has_key(entries, c) {
            owners_view(entries, c)
        } else if e.pos == c {
            views_of(e.owners@)
        } else {
            Seq::<Seq<char>>::empty()
        },
    decreases entries.len(),
{
    if entries.len() == 0 {
        assert(entries.push(e)[0] == e);
        assert(entries.push(e).drop_first() =~= Seq::<CellEntry>::empty());
        assert(owners_view(Seq::<CellEntry>::empty(), c) == Seq::<Seq<char>>::empty());
    } else {
        let rest = entries.drop_first();
        assert(entries.push(e)[0] == entries[0]);
        assert(entries.push(e).drop_first() =~= rest.push(e));
        lemma_owners_view_push(rest, e, c);
        if entries[0].pos == c {
            assert(has_key(entries, c));
            assert(owners_view(entries.push(e), c) == views_of(entries[0].owners@));
        }
        if has_key(entries, c) && entries[0].pos != c {
            let w = choose|i: int| 0 <= i < entries.len() && entries[i].pos == c;
            assert(rest[w - 1].pos == c);
            assert(has_key(rest, c));
        }
        if !has_key(entries, c) {
            assert forall|i: int| 0 <= i < rest.len() implies (#[trigger] rest[i]).pos != c by {
                assert(rest[i] == entries[i + 1]);
            }
            assert(!has_key(rest, c));
        }
    }
    if has_key(entries, c) {
        assert(owners_view(entries.push(e), c) == owners_view(entries, c));
    } else if e.pos == c {
        assert(owners_view(entries.push(e), c) == views_of(e.owners@));
    } else {
        assert(owners_view(entries.push(e), c) == Seq::<Seq<char>>::empty());
    }
}

/// The number of times `c` occurs in a run of positions.
pub open spec fn count_pos(positions: Seq<(u8, u8)>, c: (u8, u8)) -> nat
    decreases positions.len(),
{
    if positions.len() == 0 {
        0
    } else {
        count_pos(positions.drop_last(), c) + if positions.last() == c {
            1nat
        } else {
            0nat
        }
    }
}

/// `n` copies of one owner id.
pub open spec fn repeated_id(id: Seq<char>, n: nat) -> Seq<Seq<char>> {
    Seq::new(n, |i: int| id)
}

/// Every cell lies on the square grid of the given size.
pub open spec fn all_in_bounds(positions: Seq<(u8, u8)>, size: u8) -> bool {
    forall|i: int| 0 <= i < positions.len() ==> (#[trigger] positions[i]).0 < size
        && positions[i].1 < size
}

/// The out-of-bounds rejection for a cell.
pub open spec fn out_of_bounds_msg(p: (u8, u8)) -> Seq<char> {
    "Position ("@ + dec_of(p.0 as nat) + ", "@ + dec_of(p.1 as nat) + ") is out of bounds"@
}

/// The game grid: a shared coordinate space in which several players may own
/// the same cell. Privacy rests on the commitments, not on isolation.
#[derive(Debug)]
pub struct Grid {
    pub size: u8,
    pub cells: CellGrid,
}

impl Grid {
    /// An empty grid of the given side length.
    pub fn new(size: u8) -> (r: Grid)
        ensures
            r.size == size,
            r.cells.entries@.len() == 0,
    {
        Grid { size, cells: CellGrid::new() }
    }

    /// Record a player's ship cells on the grid. Every cell is bounds-checked
    /// before any is recorded, so a rejection changes nothing. Each occurrence
    /// of a cell appends the player once more to that cell's owners.
    pub fn place_ship(&mut self, player_id: &str, positions: &[(u8, u8)]) -> (r: Result<
        (),
        String,
    >)
        ensures
            r is Ok <==> all_in_bounds(positions@, old(self).size),
            r is Ok ==> forall|c: (u8, u8)|
                owners_view(final(self).cells.entries@, c) == owners_view(
                    #[trigger] old(self).cells.entries@,
                    c,
                ) + repeated_id(player_id@, count_pos(positions@, c)),
            r is Err ==> *final(self) == *old(self),
            r matches Err(e) ==> exists|i: int|
                {
                    &&& 0 <= i < positions@.len()
                    &&& !((#[trigger] positions@[i]).0 < old(self).size && positions@[i].1 < old(self).size)
                    &&& forall|j: int|
                        0 <= j < i ==> (#[trigger] positions@[j]).0 < old(self).size
                            && positions@[j].1 < old(self).size
                    &&& e@ == out_of_bounds_msg(positions@[i])
                },
            final(self).size == old(self).size,
    {
        let n = positions.len();
        let mut i: usize = 0;
        while i < n
            invariant
                i <= n,
                *self == *old(self),
                n == positions@.len(),
                forall|j: int|
                    0 <= j < i ==> (#[trigger] positions@[j]).0 < self.size && positions@[j].1
                        < self.size,
            decreases n - i,
        {
            let p = positions[i];
            if p.0 >= self.size || p.1 >= self.size {
                let mut msg = String::new();
                msg.append("Position (");
                push_decimal(&mut msg, p.0 as u64);
                msg.append(", ");
                push_decimal(&mut msg, p.1 as u64);
                msg.append(") is out of bounds");
                proof {
                    assert(msg@ =~= out_of_bounds_msg(positions@[i as int]));
                }
                return Err(msg);
            }
            i += 1;
        }

        let mut i: usize = 0;
        proof {
            assert forall|c: (u8, u8)| owners_view(self.cells.entries@, c) =~= owners_view(
                #[trigger] old(self).cells.entries@,
                c,
            ) + repeated_id(player_id@, count_pos(positions@.subrange(0, 0), c)) by {
                assert(count_pos(positions@.subrange(0, 0), c) == 0);
            }
        }
        while i < n
            invariant
                i <= n,
                n == positions@.len(),
                self.size == old(self).size,
                forall|c: (u8, u8)|
                    owners_view(self.cells.entries@, c) == owners_view(
                        #[trigger] old(self).cells.entries@,
                        c,
                    ) + repeated_id(player_id@, count_pos(positions@.subrange(0, i as int), c)),
            decreases n - i,
        {
            let ghost mid = self.cells.entries@;
            let p = positions[i];
            self.cells.add_owner(p, player_id);
            proof {
                let upto = positions@.subrange(0, i as int + 1);
                assert(upto.drop_last() =~= positions@.subrange(0, i as int));
                assert(upto.last() == p);
                assert forall|c: (u8, u8)| owners_view(self.cells.entries@, c) == owners_view(
                    #[trigger] old(self).cells.entries@,
                    c,
                ) + repeated_id(player_id@, count_pos(upto, c)) by {
                    let prior = owners_view(old(self).cells.entries@, c);
                    if c == p {
                        assert(owners_view(self.cells.entries@, c) == owners_view(mid, c).push(
                            player_id@,
                        ));
                        assert(count_pos(upto, c) == count_pos(upto.drop_last(), c) + 1);
                        assert(prior + repeated_id(player_id@, count_pos(upto.drop_last(), c)).push(
                            player_id@,
                        ) =~= prior + repeated_id(player_id@, count_pos(upto, c)));
                        assert((prior + repeated_id(
                            player_id@,
                            count_pos(upto.drop_last(), c),
                        )).push(player_id@) =~= prior + repeated_id(
                            player_id@,
                            count_pos(upto.drop_last(), c),
                        ).push(player_id@));
                    } else {
                        assert(owners_view(self.cells.entries@, c) == owners_view(mid, c));
                        assert(count_pos(upto, c) == count_pos(upto.drop_last(), c));
                    }
                }
            }
            i += 1;
        }
        proof {
            assert(positions@.subrange(0, n as int) =~= positions@);
        }
        Ok(())
    }

    /// The players owning a ship part at a cell; empty when nobody does.
    pub fn get_players_at(&self, x: u8, y: u8) -> (r: Vec<String>)
        ensures
            views_of(r@) == owners_view(self.cells.entries@, (x, y)),
    {
        match self.cells.get(&(x, y)) {
            Some(owners) => clone_owners(owners),
            None => {
                let r: Vec<String> = Vec::new();
                proof {
                    lemma_owners_view_no_match(self.cells.entries@, (x, y));
                    assert(views_of(r@) =~= Seq::<Seq<char>>::empty());
                }
                r
            },
        }
    }
}

// ---------------------------------------------------------------------------
// Players.
// ---------------------------------------------------------------------------

/// Every ship of the run keeps one hit flag per cell.
pub open spec fn ships_wf(ships: Seq<Ship>) -> bool {
    forall|i: int| 0 <= i < ships.len() ==> ship_wf(#[trigger] ships[i])
}

/// Some ship holds the cell.
pub open spec fn fleet_contains(ships: Seq<Ship>, x: u8, y: u8) -> bool {
    exists|i: int| 0 <= i < ships.len() && positions_contain(#[trigger] ships[i].positions@, x, y)
}

/// `i` is the first ship holding the cell.
pub open spec fn first_ship_with(ships: Seq<Ship>, x: u8, y: u8, i: int) -> bool {
    &&& 0 <= i < ships.len()
    &&& positions_contain(ships[i].positions@, x, y)
    &&& forall|j: int| 0 <= j < i ==> !positions_contain(#[trigger] ships[j].positions@, x, y)
}

/// Every ship of the run is sunk.
pub open spec fn all_sunk(ships: Seq<Ship>) -> bool {
    forall|i: int| 0 <= i < ships.len() ==> all_hit(#[trigger] ships[i].hits@)
}

/// The cells of all ships of the run, in ship order.
pub open spec fn fleet_positions(ships: Seq<Ship>) -> Seq<(u8, u8)>
    decreases ships.len(),
{
    if ships.len() == 0 {
        Seq::empty()
    } else {
        fleet_positions(ships.drop_last()) + ships.last().positions@
    }
}

/// A player: the fleet, the commitment fixed at registration, and the shot
/// economy. The commitment and salt never change after registration.
#[derive(Debug, Clone)]
pub struct Player {
    pub id: String,
    pub ships: Vec<Ship>,
    pub board_commitment: String,
    pub salt: String,
    /// Credits available to spend on shots.
    pub shots_available: u32,
    /// Local log of the shots this player fired.
    pub shots_fired: Vec<(u8, u8)>,
}

impl Player {
    /// A freshly registered player: no credits, nothing fired yet.
    pub fn new(id: String, ships: Vec<Ship>, board_commitment: String, salt: String) -> (r: Player)
        ensures
            r.id == id,
            r.ships == ships,
            r.board_commitment == board_commitment,
            r.salt == salt,
            r.shots_available == 0,
            r.shots_fired@.len() == 0,
    {
        Player { id, ships, board_commitment, salt, shots_available: 0, shots_fired: Vec::new() }
    }

    /// Credit earned shots onto the balance; a balance at its ceiling stays
    /// there.
    pub fn add_shots(&mut self, count: u32)
        ensures
            final(self).shots_available == if old(self).shots_available + count <= u32::MAX {
                old(self).shots_available + count
            } else {
                u32::MAX as int
            },
            final(self).id == old(self).id,
            final(self).ships == old(self).ships,
            final(self).board_commitment == old(self).board_commitment,
            final(self).salt == old(self).salt,
            final(self).shots_fired == old(self).shots_fired,
    {
        if self.shots_available > u32::MAX - count {
            self.shots_available = u32::MAX;
        } else {
            self.shots_available = self.shots_available + count;
        }
    }

    /// Spend one credit and log the shot. Fails, changing nothing, when no
    /// credit is available. Firing twice at one cell is permitted and costs
    /// two credits.
    pub fn fire_shot(&mut self, x: u8, y: u8) -> (r: Result<(), String>)
        ensures
            r is Ok <==> old(self).shots_available > 0,
            r is Ok ==> final(self).shots_available == old(self).shots_available - 1,
            r is Ok ==> final(self).shots_fired@ == old(self).shots_fired@.push((x, y)),
            r is Err ==> *final(self) == *old(self),
            r matches Err(e) ==> e@ == "No shots available"@,
            final(self).id == old(self).id,
            final(self).ships == old(self).ships,
            final(self).board_commitment == old(self).board_commitment,
            final(self).salt == old(self).salt,
    {
        if self.shots_available == 0 {
            return Err("No shots available".to_owned());
        }
        self.shots_available = self.shots_available - 1;
        self.shots_fired.push((x, y));
        Ok(())
    }

    /// Register a hit against the first ship holding the cell. Returns
    /// whether any ship held it.
    pub fn check_hit(&mut self, x: u8, y: u8) -> (r: bool)
        requires
            ships_wf(old(self).ships@),
        ensures
            r == fleet_contains(old(self).ships@, x, y),
            r ==> exists|i: int|
                first_ship_with(old(self).ships@, x, y, i) && ship_after_hit(
                    old(self).ships@[i],
                    final(self).ships@[i],
                    x,
                    y,
                ) && final(self).ships@ == old(self).ships@.update(i, final(self).ships@[i]),
            !r ==> *final(self) == *old(self),
            final(self).id == old(self).id,
            final(self).board_commitment == old(self).board_commitment,
            final(self).salt == old(self).salt,
            final(self).shots_available == old(self).shots_available,
            final(self).shots_fired == old(self).shots_fired,
            ships_wf(final(self).ships@),
    {
        let n = self.ships.len();
        let mut i: usize = 0;
        while i < n
            invariant
                i <= n,
                *self == *old(self),
                ships_wf(self.ships@),
                n == self.ships@.len(),
                forall|j: int|
                    0 <= j < i ==> !positions_contain(#[trigger] self.ships@[j].positions@, x, y),
            decreases n - i,
        {
            if ship_holds_cell(&self.ships[i], x, y) {
                proof {
                    assert(first_ship_with(old(self).ships@, x, y, i as int));
                }
                let ship = &mut self.ships[i];
                let landed = ship.register_hit(x, y);
                proof {
                    assert(landed);
                    assert(final(self).ships@ =~= old(self).ships@.update(
                        i as int,
                        final(self).ships@[i as int],
                    ));
                }
                return true;
            }
            i += 1;
        }
        false
    }

    /// A player is defeated exactly when every ship is sunk.
    pub fn is_defeated(&self) -> (r: bool)
        ensures
            r == all_sunk(self.ships@),
    {
        let n = self.ships.len();
        let mut i: usize = 0;
        while i < n
            invariant
                i <= n,
                n == self.ships@.len(),
                forall|j: int| 0 <= j < i ==> all_hit(#[trigger] self.ships@[j].hits@),
            decreases n - i,
        {
            if !self.ships[i].is_sunk() {
                return false;
            }
            i += 1;
        }
        true
    }

    /// All cells of the player's fleet, in ship order.
    pub fn get_all_ship_positions(&self) -> (r: Vec<(u8, u8)>)
        ensures
            r@ == fleet_positions(self.ships@),
    {
        let mut r: Vec<(u8, u8)> = Vec::new();
        let n = self.ships.len();
        let mut i: usize = 0;
        proof {
            assert(fleet_positions(self.ships@.subrange(0, 0)) =~= Seq::<(u8, u8)>::empty());
            assert(r@ =~= fleet_positions(self.ships@.subrange(0, 0)));
        }
        while i < n
            invariant
                i <= n,
                n == self.ships@.len(),
                r@ == fleet_positions(self.ships@.subrange(0, i as int)),
            decreases n - i,
        {
            let m = self.ships[i].positions.len();
            let mut j: usize = 0;
            while j < m
                invariant
                    j <= m,
                    i < n == self.ships@.len(),
                    m == self.ships@[i as int].positions@.len(),
                    r@ == fleet_positions(self.ships@.subrange(0, i as int))
                        + self.ships@[i as int].positions@.subrange(0, j as int),
                decreases m - j,
            {
                r.push(self.ships[i].positions[j]);
                proof {
                    assert(fleet_positions(self.ships@.subrange(0, i as int))
                        + self.ships@[i as int].positions@.subrange(0, j as int + 1) =~= (
                    fleet_positions(self.ships@.subrange(0, i as int))
                        + self.ships@[i as int].positions@.subrange(0, j as int)).push(
                        self.ships@[i as int].positions@[j as int],
                    ));
                }
                j += 1;
            }
            proof {
                let upto = self.ships@.subrange(0, i as int + 1);
                assert(upto.drop_last() =~= self.ships@.subrange(0, i as int));
                assert(self.ships@[i as int].positions@.subrange(
                    0,
                    m as int,
                ) =~= self.ships@[i as int].positions@);
                assert(r@ =~= fleet_positions(upto));
            }
            i += 1;
        }
        proof {
            assert(self.ships@.subrange(0, n as int) =~= self.ships@);
        }
        r
    }
}

/// Whether the ship holds the cell, without touching it.
fn ship_holds_cell(ship: &Ship, x: u8, y: u8) -> (r: bool)
    ensures
        r == positions_contain(ship.positions@, x, y),
{
    let n = ship.positions.len();
    let mut i: usize = 0;
    while i < n
        invariant
            i <= n,
            n == ship.positions@.len(),
            forall|j: int| 0 <= j < i ==> ship.positions@[j] != (x, y),
        decreases n - i,
    {
        let p = ship.positions[i];
        if p.0 == x && p.1 == y {
            return true;
        }
        i += 1;
    }
    false
}

/// A claimed shot outcome together with the serialized proof backing it.
#[derive(Debug, Clone)]
pub struct HitReport {
    pub player_id: String,
    pub shot_x: u8,
    pub shot_y: u8,
    pub is_hit: bool,
    /// The serialized claim, decoded and checked by the coordinator.
    pub proof_data: Vec<u8>,
}

impl HitReport {
    pub fn new(player_id: String, shot_x: u8, shot_y: u8, is_hit: bool, proof_data: Vec<u8>) -> (r:
        HitReport)
        ensures
            r.player_id == player_id,
            r.shot_x == shot_x,
            r.shot_y == shot_y,
            r.is_hit == is_hit,
            r.proof_data == proof_data,
    {
        HitReport { player_id, shot_x, shot_y, is_hit, proof_data }
    }
}

/// A copy of an owner list whose views are the originals'.
fn clone_owners(owners: &Vec<String>) -> (r: Vec<String>)
    ensures
        views_of(r@) == views_of(owners@),
{
    let n = owners.len();
    let mut r: Vec<String> = Vec::new();
    let mut i: usize = 0;
    while i < n
        invariant
            i <= n,
            n == owners@.len(),
            r@.len() == i,
            forall|j: int| 0 <= j < i ==> r@[j]@ == owners@[j]@,
        decreases n - i,
    {
        r.push(owners[i].clone());
        i += 1;
    }
    proof {
        assert(views_of(r@) =~= views_of(owners@));
    }
    r
}

} // verus!
