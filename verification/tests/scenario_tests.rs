use fleetchain::blockchain::{Block, Blockchain, Transaction};
use fleetchain::coordinator::GameCoordinator;
use fleetchain::crypto::{create_commitment, generate_salt, HitProof};
use fleetchain::game::{Grid, HitReport, Ship};
use fleetchain::network::{ApiResponse, Peer};

fn valid_fleet() -> Vec<Ship> {
    vec![
        Ship::new("Carrier".to_string(), vec![(0, 0), (0, 1), (0, 2), (0, 3)]),
        Ship::new("Cruiser".to_string(), vec![(2, 0), (2, 1), (2, 2)]),
        Ship::new("Submarine".to_string(), vec![(4, 0), (4, 1)]),
        Ship::new("Destroyer".to_string(), vec![(6, 0)]),
    ]
}

fn register(coordinator: &mut GameCoordinator, id: &str, ships: Vec<Ship>) -> String {
    let positions: Vec<(u8, u8)> = ships.iter().flat_map(|s| s.positions.clone()).collect();
    let salt = generate_salt();
    let commitment = create_commitment(&positions, &salt);
    coordinator
        .register_player(id.to_string(), ships, commitment.clone(), salt)
        .unwrap();
    commitment
}

#[test]
fn test_new_chain_has_mined_genesis() {
    let blockchain = Blockchain::new(2);
    assert_eq!(blockchain.chain.len(), 1);
    assert_eq!(blockchain.chain[0].previous_hash, "0");
    assert!(blockchain.chain[0].hash.starts_with("00"));
}

#[test]
fn test_mining_meets_each_difficulty() {
    for difficulty in 0..=4usize {
        let mut block = Block::new(1, vec![], "prev".to_string());
        let found = block.mine(difficulty);
        assert!(found);
        assert!(block.hash.starts_with(&"0".repeat(difficulty)));
        assert_eq!(block.hash.len(), 64);
    }
}

#[test]
fn test_head_hash_matches_difficulty_three_and_one() {
    let mut hard = Blockchain::new(3);
    hard.add_transaction(Transaction::new("player1".to_string(), 1, 2, 0));
    hard.add_transaction(Transaction::new("player2".to_string(), 3, 4, 0));
    hard.mine_pending_transactions("miner1");
    assert!(hard.get_latest_block().hash.starts_with("000"));

    let mut easy = Blockchain::new(1);
    easy.add_transaction(Transaction::new("player1".to_string(), 1, 2, 0));
    easy.mine_pending_transactions("miner1");
    assert!(easy.get_latest_block().hash.starts_with("0"));
}

#[test]
fn test_register_with_commitment_over_wrong_positions_rejected() {
    let mut coordinator = GameCoordinator::new(10, 2);
    let ships = valid_fleet();

    // Commit over a different position set than the fleet actually occupies.
    let wrong_positions = vec![(9, 9), (9, 8), (9, 7)];
    let salt = generate_salt();
    let commitment = create_commitment(&wrong_positions, &salt);

    let result = coordinator.register_player("player1".to_string(), ships, commitment, salt);
    assert!(result.is_err());
    assert_eq!(result.unwrap_err(), "Invalid board commitment");
    assert_eq!(coordinator.players.len(), 0);
}

#[test]
fn test_one_credit_buys_exactly_one_shot() {
    let mut coordinator = GameCoordinator::new(10, 2);
    register(&mut coordinator, "player1", valid_fleet());

    assert!(coordinator.fire_shot("player1".to_string(), 3, 3).is_err());

    let shots = coordinator.mine_for_shots("player1").unwrap();
    assert_eq!(shots, 1);

    assert!(coordinator.fire_shot("player1".to_string(), 3, 3).is_ok());
    let second = coordinator.fire_shot("player1".to_string(), 4, 4);
    assert!(second.is_err());
    assert_eq!(second.unwrap_err(), "No shots available");
}

#[test]
fn test_report_hit_accepts_valid_hit_and_marks_ship() {
    let mut coordinator = GameCoordinator::new(10, 2);
    register(&mut coordinator, "player1", valid_fleet());

    let board_salt = generate_salt();
    let proof = HitProof::prove_hit((2, 1), &[(2, 0), (2, 1), (2, 2)], &board_salt);
    let report = HitReport::new("player1".to_string(), 2, 1, true, proof.serialize());

    let accepted = coordinator.report_hit(report).unwrap();
    assert!(accepted);

    let player = coordinator.players.get("player1").unwrap();
    let cruiser = &player.ships[1];
    assert_eq!(cruiser.id, "Cruiser");
    assert!(cruiser.is_hit_at(2, 1));
    assert!(!cruiser.is_hit_at(2, 0));
}

#[test]
fn test_report_hit_rejects_mismatched_cell() {
    let mut coordinator = GameCoordinator::new(10, 2);
    register(&mut coordinator, "player1", valid_fleet());

    let board_salt = generate_salt();
    // Proof for one cell, claim for another.
    let proof = HitProof::prove_hit((2, 1), &[(2, 0), (2, 1), (2, 2)], &board_salt);
    let report = HitReport::new("player1".to_string(), 2, 2, true, proof.serialize());

    let result = coordinator.report_hit(report);
    assert_eq!(result.unwrap_err(), "Invalid proof");
}

#[test]
fn test_report_miss_checks_board_commitment() {
    let mut coordinator = GameCoordinator::new(10, 2);
    let ships = valid_fleet();
    let positions: Vec<(u8, u8)> = ships.iter().flat_map(|s| s.positions.clone()).collect();
    let salt = generate_salt();
    let commitment = create_commitment(&positions, &salt);
    coordinator
        .register_player("player1".to_string(), ships, commitment, salt.clone())
        .unwrap();

    // A miss proof built from the same board and salt verifies.
    let good = HitProof::prove_miss((9, 9), &positions, &salt);
    let report = HitReport::new("player1".to_string(), 9, 9, false, good.serialize());
    assert!(coordinator.report_hit(report).unwrap());

    // One built from a different board does not.
    let other_salt = generate_salt();
    let bad = HitProof::prove_miss((9, 9), &[(1, 1)], &other_salt);
    let report = HitReport::new("player1".to_string(), 9, 9, false, bad.serialize());
    assert_eq!(coordinator.report_hit(report).unwrap_err(), "Invalid proof");
}

#[test]
fn test_report_hit_rejects_malformed_proof_bytes() {
    let mut coordinator = GameCoordinator::new(10, 2);
    register(&mut coordinator, "player1", valid_fleet());

    let report = HitReport::new("player1".to_string(), 0, 0, true, vec![9, 9, 9]);
    assert_eq!(coordinator.report_hit(report).unwrap_err(), "Invalid proof format");

    let report = HitReport::new("ghost".to_string(), 0, 0, true, vec![]);
    assert_eq!(coordinator.report_hit(report).unwrap_err(), "Player not found");
}

#[test]
fn test_proof_serialization_round_trip() {
    let hit = HitProof::prove_hit((3, 7), &[(3, 7)], &generate_salt());
    let bytes = hit.serialize();
    let decoded = HitProof::deserialize(&bytes).unwrap();
    assert_eq!(decoded.commitment, hit.commitment);
    assert_eq!(decoded.revealed_position, Some((3, 7)));
    assert_eq!(decoded.position_salt, hit.position_salt);

    let miss = HitProof::prove_miss((1, 1), &[(0, 0), (2, 2)], "board_salt_value");
    let bytes = miss.serialize();
    let decoded = HitProof::deserialize(&bytes).unwrap();
    assert_eq!(decoded.commitment, miss.commitment);
    assert_eq!(decoded.revealed_position, None);
    assert_eq!(decoded.position_salt, "board_salt_value");
}

#[test]
fn test_proof_deserialize_rejects_garbage() {
    assert!(HitProof::deserialize(&[]).is_none());
    assert!(HitProof::deserialize(&[2]).is_none());
    assert!(HitProof::deserialize(&[0, 1, 2, 3]).is_none());

    // A valid encoding with trailing bytes is rejected.
    let proof = HitProof::prove_miss((0, 0), &[(0, 0)], "salt");
    let mut bytes = proof.serialize();
    bytes.push(0);
    assert!(HitProof::deserialize(&bytes).is_none());

    // A length prefix pointing at invalid UTF-8 is rejected.
    let mut bad = vec![0u8];
    bad.extend_from_slice(&2u64.to_le_bytes());
    bad.extend_from_slice(&[0xff, 0xfe]);
    bad.extend_from_slice(&0u64.to_le_bytes());
    assert!(HitProof::deserialize(&bad).is_none());
}

#[test]
fn test_transaction_hash_is_hex_and_deterministic() {
    let tx = Transaction::new("player1".to_string(), 5, 5, 42);
    let h1 = tx.hash();
    let h2 = tx.hash();
    assert_eq!(h1, h2);
    assert_eq!(h1.len(), 64);
    assert!(h1.chars().all(|c| c.is_ascii_hexdigit()));

    let other = Transaction::new("player2".to_string(), 5, 5, 42);
    assert_ne!(other.hash(), h1);
}

#[test]
fn test_transaction_carries_current_time() {
    let tx = Transaction::new("player1".to_string(), 0, 0, 0);
    assert!(tx.timestamp > 0);
}

#[test]
fn test_registration_shot_economy() {
    let mut blockchain = Blockchain::new(1);
    assert_eq!(blockchain.get_unspent_shots("player1"), 0);

    blockchain.award_registration_shot("player1");
    assert_eq!(blockchain.get_unspent_shots("player1"), 1);
    assert_eq!(blockchain.get_unspent_shots("player2"), 0);

    let utxo = &blockchain.shot_utxos[0];
    assert_eq!(utxo.owner, "player1");
    assert_eq!(utxo.created_in_block, 0);
    assert!(!utxo.spent);
    assert_eq!(utxo.id.len(), 64);

    assert!(blockchain.consume_shot("player1").is_ok());
    assert_eq!(blockchain.get_unspent_shots("player1"), 0);
    assert!(blockchain.shot_utxos[0].spent);

    let denied = blockchain.consume_shot("player1");
    assert_eq!(denied.unwrap_err(), "No unspent shot UTXOs available");
}

#[test]
fn test_mining_mints_reward_utxos() {
    let mut blockchain = Blockchain::new(1);
    let reward = blockchain.mine_pending_transactions("miner1");
    assert_eq!(reward, blockchain.mining_reward);
    assert_eq!(blockchain.shot_utxos.len(), reward as usize);
    assert_eq!(blockchain.get_unspent_shots("miner1"), reward as usize);

    let head_index = blockchain.chain.len() as u64 - 1;
    for utxo in &blockchain.shot_utxos {
        assert_eq!(utxo.owner, "miner1");
        assert_eq!(utxo.created_in_block, head_index);
        assert!(!utxo.spent);
    }
}

#[test]
fn test_receive_block_accepts_only_the_next_link() {
    let mut blockchain = Blockchain::new(1);

    let mut good = Block::new(1, vec![], blockchain.get_latest_block().hash.clone());
    good.mine(1);
    assert!(blockchain.receive_block(good).is_ok());
    assert_eq!(blockchain.chain.len(), 2);

    // Wrong index.
    let mut stale = Block::new(1, vec![], blockchain.get_latest_block().hash.clone());
    stale.mine(1);
    assert_eq!(blockchain.receive_block(stale).unwrap_err(), "Invalid block index");

    // Wrong predecessor.
    let mut orphan = Block::new(2, vec![], "somewhere_else".to_string());
    orphan.mine(1);
    assert_eq!(blockchain.receive_block(orphan).unwrap_err(), "Invalid previous hash");

    // Missing proof of work: an unmined block almost surely misses four zeros.
    let mut heavy = Blockchain::new(4);
    let lazy = Block::new(1, vec![], heavy.get_latest_block().hash.clone());
    if !lazy.hash.starts_with("0000") {
        assert_eq!(heavy.receive_block(lazy).unwrap_err(), "Invalid proof of work");
    }
}

#[test]
fn test_fork_choice_takes_longer_valid_chain_only() {
    let mut ours = Blockchain::new(1);
    let mut theirs = Blockchain::new(1);
    theirs.mine_pending_transactions("peer");
    theirs.mine_pending_transactions("peer");

    // A longer valid chain replaces ours wholesale.
    assert!(ours.try_replace_chain(theirs.clone()));
    assert_eq!(ours.chain.len(), 3);

    // An equal-length chain does not.
    assert!(!ours.try_replace_chain(theirs.clone()));

    // A longer but tampered chain does not.
    let mut forged = theirs.clone();
    forged.mine_pending_transactions("peer");
    forged.chain[1].nonce += 1;
    let before = ours.chain.len();
    assert!(!ours.try_replace_chain(forged));
    assert_eq!(ours.chain.len(), before);
}

#[test]
fn test_out_of_bounds_message_names_the_cell() {
    let mut grid = Grid::new(10);
    let result = grid.place_ship("player1", &[(3, 3), (10, 12)]);
    assert_eq!(result.unwrap_err(), "Position (10, 12) is out of bounds");
    // Nothing was recorded.
    assert!(grid.cells.get(&(3, 3)).is_none());
}

#[test]
fn test_get_players_at_lists_cell_owners() {
    let mut grid = Grid::new(10);
    grid.place_ship("player1", &[(4, 4), (4, 5)]).unwrap();
    grid.place_ship("player2", &[(4, 4)]).unwrap();

    let owners = grid.get_players_at(4, 4);
    assert_eq!(owners, vec!["player1".to_string(), "player2".to_string()]);
    assert!(grid.get_players_at(9, 9).is_empty());
}

#[test]
fn test_ship_is_hit_at_tracks_first_matching_cell() {
    let mut ship = Ship::new("carrier".to_string(), vec![(1, 1), (1, 2)]);
    assert!(!ship.is_hit_at(1, 1));
    ship.register_hit(1, 1);
    assert!(ship.is_hit_at(1, 1));
    assert!(!ship.is_hit_at(1, 2));
    assert!(!ship.is_hit_at(8, 8));
}

#[test]
fn test_mine_errors_name_the_reason() {
    let mut coordinator = GameCoordinator::new(10, 2);
    assert_eq!(coordinator.mine_for_shots("nobody").unwrap_err(), "Player not found");

    register(&mut coordinator, "player1", valid_fleet());
    for player in &mut coordinator.players.entries {
        for ship in &mut player.ships {
            for i in 0..ship.positions.len() {
                ship.hits[i] = true;
            }
        }
    }
    assert_eq!(
        coordinator.mine_for_shots("player1").unwrap_err(),
        "Defeated players cannot mine"
    );
}

#[test]
fn test_fire_shot_unknown_player() {
    let mut coordinator = GameCoordinator::new(10, 2);
    assert_eq!(
        coordinator.fire_shot("nobody".to_string(), 0, 0).unwrap_err(),
        "Player not found"
    );
}

#[test]
fn test_next_round_advances_counter() {
    let mut coordinator = GameCoordinator::new(10, 2);
    coordinator.next_round();
    coordinator.next_round();
    assert_eq!(coordinator.round, 2);
}

#[test]
fn test_peer_url_format() {
    let peer = Peer::new("localhost".to_string(), 8080);
    assert_eq!(peer.url(), "http://localhost:8080");

    let peer = Peer::new("10.0.0.7".to_string(), 65535);
    assert_eq!(peer.url(), "http://10.0.0.7:65535");

    let peer = Peer::new("node".to_string(), 0);
    assert_eq!(peer.url(), "http://node:0");
}

#[test]
fn test_api_response_envelopes() {
    let ok: ApiResponse<u32> = ApiResponse::success(7);
    assert!(ok.success);
    assert_eq!(ok.data, Some(7));
    assert!(ok.error.is_none());

    let err: ApiResponse<u32> = ApiResponse::error("broken".to_string());
    assert!(!err.success);
    assert!(err.data.is_none());
    assert_eq!(err.error, Some("broken".to_string()));
}

#[test]
fn test_defeated_players_leave_active_list() {
    let mut coordinator = GameCoordinator::new(10, 2);
    register(&mut coordinator, "player1", valid_fleet());
    register(&mut coordinator, "player2", valid_fleet());
    assert_eq!(coordinator.get_active_players(), vec!["player1", "player2"]);

    for player in &mut coordinator.players.entries {
        if player.id == "player2" {
            for ship in &mut player.ships {
                for i in 0..ship.positions.len() {
                    ship.hits[i] = true;
                }
            }
        }
    }
    assert_eq!(coordinator.get_active_players(), vec!["player1"]);
    let stats = coordinator.get_stats();
    assert_eq!(stats.total_players, 2);
    assert_eq!(stats.active_players, 1);
}
