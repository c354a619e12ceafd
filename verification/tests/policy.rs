use ml_battle_snake::game::MoveAction;
use ml_battle_snake::logic::{choose_action, choose_move, get_move, GameInfo};
use ml_battle_snake::neural_network::{
    Connection, Input, NeuralNetwork, NeuralNetworkManager, Output,
};
use ml_battle_snake::utils::build_neural_network;
use ml_battle_snake::{Battlesnake, Board, Coord, Game};

fn mk_game() -> Game {
    Game { id: String::from("0"), ruleset: Vec::new(), timeout: 1000 }
}

fn mk_board(width: i32, height: u32, snakes: Vec<Battlesnake>, food: Vec<Coord>) -> Board {
    Board { height, width, food, snakes, hazards: Vec::new() }
}

fn mk_snake(id: u32, head: (i32, i32)) -> Battlesnake {
    Battlesnake {
        id,
        name: format!("snake_{}", id),
        health: 100,
        body: Vec::new(),
        head: Coord { x: head.0, y: head.1 },
        length: 3,
    }
}

#[test]
fn manager_hands_out_sequential_ids() {
    let mut manager = NeuralNetworkManager::new();
    assert_eq!(manager.take_id(), 0);
    assert_eq!(manager.take_id(), 1);
    assert_eq!(manager.take_id(), 2);
}

#[test]
fn build_wires_every_input_to_every_output() {
    let mut manager = NeuralNetworkManager::new();
    let mut net = NeuralNetwork::new(&mut manager);
    let inputs = vec![
        Input::new(String::from("a"), vec![1, 2], vec![String::from("a0"), String::from("a1")]),
        Input::new(String::from("b"), vec![3], vec![String::from("b0")]),
    ];
    net.build(&inputs, 4, &mut manager);
    assert_eq!(net.input_count, 3);
    assert_eq!(net.output_count, 4);
    assert_eq!(net.connections.len(), 12);
    for (k, c) in net.connections.iter().enumerate() {
        assert_eq!(c.from, k / 4);
        assert_eq!(c.to, k % 4);
        assert_eq!(c.weight, 1);
    }
}

#[test]
fn evaluate_computes_weighted_sums() {
    let mut manager = NeuralNetworkManager::new();
    let mut net = NeuralNetwork::new(&mut manager);
    let inputs = vec![Input::new(
        String::from("pair"),
        vec![0, 0],
        vec![String::from("p0"), String::from("p1")],
    )];
    net.build(&inputs, 4, &mut manager);
    // unit weights: every output is the plain sum of the inputs
    let out = net.evaluate(&vec![5, 7]);
    assert_eq!(out, vec![12, 12, 12, 12]);
}

#[test]
fn evaluate_is_deterministic() {
    let mut manager = NeuralNetworkManager::new();
    let mut net = NeuralNetwork::new(&mut manager);
    build_neural_network(&mut net, 3, 3, &mut manager);
    for _ in 0..5 {
        net.mutate(&mut manager);
    }
    let values: Vec<i64> = (0..net.input_count).map(|i| (i as i64) % 13).collect();
    let first = net.evaluate(&values);
    let second = net.evaluate(&values);
    let third = net.evaluate(&values);
    assert_eq!(first, second);
    assert_eq!(first, third);
}

#[test]
fn clone_matches_source_topology() {
    let mut manager = NeuralNetworkManager::new();
    let mut net = NeuralNetwork::new(&mut manager);
    build_neural_network(&mut net, 3, 3, &mut manager);
    for _ in 0..5 {
        net.mutate(&mut manager);
    }
    let cloned = net.clone(&mut manager);
    assert_eq!(cloned.input_count, net.input_count);
    assert_eq!(cloned.output_count, net.output_count);
    assert_eq!(cloned.connections, net.connections);
    let values: Vec<i64> = (0..net.input_count).map(|i| (i as i64) % 7).collect();
    assert_eq!(cloned.evaluate(&values), net.evaluate(&values));
}

#[test]
fn mutating_a_clone_leaves_the_source_alone() {
    let mut manager = NeuralNetworkManager::new();
    let mut net = NeuralNetwork::new(&mut manager);
    build_neural_network(&mut net, 3, 3, &mut manager);
    let values: Vec<i64> = (0..net.input_count).map(|i| (i as i64) % 5).collect();
    let before = net.evaluate(&values);
    let mut cloned = net.clone(&mut manager);
    for _ in 0..25 {
        cloned.mutate(&mut manager);
    }
    let after = net.evaluate(&values);
    assert_eq!(before, after);
}

#[test]
fn mutate_keeps_arity_and_weight_bounds() {
    let mut manager = NeuralNetworkManager::new();
    let mut net = NeuralNetwork::new(&mut manager);
    build_neural_network(&mut net, 2, 2, &mut manager);
    let input_count = net.input_count;
    let base_connections = net.connections.len();
    for _ in 0..100 {
        net.mutate(&mut manager);
    }
    assert_eq!(net.input_count, input_count);
    assert_eq!(net.output_count, 4);
    assert!(net.connections.len() <= base_connections + 100);
    for c in &net.connections {
        assert!(c.weight >= -1000 && c.weight <= 1000);
        assert!(c.from < net.input_count);
        assert!(c.to < net.output_count);
    }
}

#[test]
fn build_neural_network_sizes_to_the_grid() {
    let mut manager = NeuralNetworkManager::new();
    let mut net = NeuralNetwork::new(&mut manager);
    build_neural_network(&mut net, 3, 3, &mut manager);
    assert_eq!(net.input_count, 4 + 7 * 9);
    assert_eq!(net.output_count, 4);
    assert_eq!(net.connections.len(), (4 + 7 * 9) * 4);
}

#[test]
fn fresh_policy_breaks_ties_with_up() {
    let mut manager = NeuralNetworkManager::new();
    let mut net = NeuralNetwork::new(&mut manager);
    build_neural_network(&mut net, 4, 4, &mut manager);
    let me = mk_snake(0, (1, 1));
    let board = mk_board(4, 4, vec![me.clone()], Vec::new());
    let chosen = choose_move(&mk_game(), &0, &board, &board.snakes[0], &mut net);
    assert_eq!(chosen, "up");
}

#[test]
fn crafted_weights_select_the_highest_scoring_action() {
    // one connection into the "left" output from the y-coordinate of cell
    // (0,1); that feature is 1, so "left" scores highest
    let net = NeuralNetwork {
        id: 0,
        input_count: (4 + 7 * 4) as usize,
        output_count: 4,
        connections: vec![Connection { id: 0, from: 12, to: 2, weight: 5 }],
    };
    let me = mk_snake(0, (1, 1));
    let board = mk_board(2, 2, vec![me], Vec::new());
    let a = choose_action(&board, &board.snakes[0], &net);
    assert_eq!(a, MoveAction::Left);
}

#[test]
fn all_negative_scores_still_pick_the_maximum() {
    // even with every score negative, the strictly highest one wins
    let net = NeuralNetwork {
        id: 0,
        input_count: (4 + 7 * 4) as usize,
        output_count: 4,
        connections: vec![
            Connection { id: 0, from: 12, to: 0, weight: -45 },
            Connection { id: 1, from: 12, to: 1, weight: -10 },
            Connection { id: 2, from: 12, to: 2, weight: -15 },
            Connection { id: 3, from: 12, to: 3, weight: -20 },
        ],
    };
    let me = mk_snake(0, (1, 1));
    let board = mk_board(2, 2, vec![me], Vec::new());
    let a = choose_action(&board, &board.snakes[0], &net);
    assert_eq!(a, MoveAction::Down);
}

#[test]
fn get_move_returns_a_wire_name() {
    let me = mk_snake(0, (1, 1));
    let board = mk_board(4, 4, vec![me.clone()], vec![Coord { x: 2, y: 2 }]);
    for _ in 0..10 {
        let m = get_move(&mk_game(), &0, &board, &board.snakes[0]);
        assert!(m == "up" || m == "down" || m == "left" || m == "right");
    }
}

#[test]
fn gather_reports_every_agent() {
    let board = mk_board(
        5,
        5,
        vec![mk_snake(0, (1, 1)), mk_snake(1, (3, 3))],
        Vec::new(),
    );
    let info = GameInfo::gather(&board, &board.snakes[1]);
    assert_eq!(info.my_health, 100);
    assert_eq!(info.my_length, 3);
    assert_eq!(info.opponent_healths, vec![100, 100]);
    assert_eq!(info.opponent_lengths, vec![3, 3]);
}

#[test]
fn schema_constructors_keep_their_fields() {
    let input = Input::new(String::from("game"), vec![1, 2, 3], vec![String::from("g0")]);
    assert_eq!(input.name, "game");
    assert_eq!(input.values, vec![1, 2, 3]);
    assert_eq!(input.labels, vec![String::from("g0")]);
    let output = Output::new(String::from("up"));
    assert_eq!(output.name, "up");
}
