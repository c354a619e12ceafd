use ml_battle_snake::game::{GameStepOutcome, GameWrapper, MoveAction};
use ml_battle_snake::neural_network::{NeuralNetwork, NeuralNetworkManager};
use ml_battle_snake::utils::build_neural_network;
use ml_battle_snake::{Battlesnake, Board, Coord, Game};

fn mk_game() -> Game {
    Game { id: String::from("0"), ruleset: Vec::new(), timeout: 1000 }
}

fn mk_snake(id: u32, head: (i32, i32), health: i32, length: i32, body: &[(i32, i32)]) -> Battlesnake {
    Battlesnake {
        id,
        name: format!("snake_{}", id),
        health,
        body: body.iter().map(|&(x, y)| Coord { x, y }).collect(),
        head: Coord { x: head.0, y: head.1 },
        length,
    }
}

fn mk_wrapper(width: i32, height: u32, snakes: Vec<Battlesnake>, food: Vec<Coord>) -> GameWrapper {
    GameWrapper {
        turn: 0,
        game: mk_game(),
        board: Board { height, width, food, snakes, hazards: Vec::new() },
    }
}

#[test]
fn age_decrements_every_health_by_one() {
    let mut gw = mk_wrapper(
        5,
        5,
        vec![mk_snake(0, (1, 1), 5, 3, &[]), mk_snake(1, (3, 3), 42, 3, &[])],
        Vec::new(),
    );
    gw.age_snakes();
    assert_eq!(gw.board.snakes.len(), 2);
    assert_eq!(gw.board.snakes[0].health, 4);
    assert_eq!(gw.board.snakes[1].health, 41);
}

#[test]
fn age_removes_starved_agent() {
    let mut gw = mk_wrapper(
        5,
        5,
        vec![mk_snake(0, (1, 1), 1, 3, &[]), mk_snake(1, (3, 3), 10, 3, &[])],
        Vec::new(),
    );
    gw.age_snakes();
    assert_eq!(gw.board.snakes.len(), 1);
    assert_eq!(gw.board.snakes[0].id, 1);
}

#[test]
fn feed_increases_target_length() {
    let mut gw = mk_wrapper(
        5,
        5,
        vec![mk_snake(0, (2, 2), 50, 3, &[])],
        vec![Coord { x: 2, y: 2 }],
    );
    gw.feed_snakes();
    assert_eq!(gw.board.snakes[0].length, 4);
    // food is not consumed
    assert_eq!(gw.board.food.len(), 1);
}

#[test]
fn feed_counts_each_food_item() {
    let mut gw = mk_wrapper(
        5,
        5,
        vec![mk_snake(0, (2, 2), 50, 3, &[])],
        vec![Coord { x: 2, y: 2 }, Coord { x: 2, y: 2 }, Coord { x: 0, y: 0 }],
    );
    gw.feed_snakes();
    assert_eq!(gw.board.snakes[0].length, 5);
}

#[test]
fn feed_credits_the_last_agent_on_a_shared_cell() {
    // transiently coinciding heads: only the later agent in board order is
    // credited with the food on that cell
    let mut gw = mk_wrapper(
        5,
        5,
        vec![mk_snake(0, (3, 3), 50, 3, &[]), mk_snake(1, (3, 3), 50, 3, &[])],
        vec![Coord { x: 3, y: 3 }],
    );
    gw.feed_snakes();
    assert_eq!(gw.board.snakes[0].length, 3);
    assert_eq!(gw.board.snakes[1].length, 4);
}

#[test]
fn feed_stops_at_the_length_ceiling() {
    let mut gw = mk_wrapper(
        5,
        5,
        vec![mk_snake(0, (2, 2), 50, i32::MAX, &[])],
        vec![Coord { x: 2, y: 2 }],
    );
    gw.feed_snakes();
    assert_eq!(gw.board.snakes[0].length, i32::MAX);
}

#[test]
fn feed_leaves_other_agents_alone() {
    let mut gw = mk_wrapper(
        5,
        5,
        vec![mk_snake(0, (2, 2), 50, 3, &[]), mk_snake(1, (4, 4), 50, 3, &[])],
        vec![Coord { x: 2, y: 2 }],
    );
    gw.feed_snakes();
    assert_eq!(gw.board.snakes[0].length, 4);
    assert_eq!(gw.board.snakes[1].length, 3);
}

#[test]
fn apply_up_decreases_y_and_down_increases_y() {
    let mut gw = mk_wrapper(7, 7, vec![mk_snake(0, (2, 2), 50, 1, &[])], Vec::new());
    gw.apply_actions(&vec![MoveAction::Up]);
    assert_eq!(gw.board.snakes[0].head, Coord { x: 2, y: 1 });

    let mut gw = mk_wrapper(7, 7, vec![mk_snake(0, (2, 2), 50, 1, &[])], Vec::new());
    gw.apply_actions(&vec![MoveAction::Down]);
    assert_eq!(gw.board.snakes[0].head, Coord { x: 2, y: 3 });

    let mut gw = mk_wrapper(7, 7, vec![mk_snake(0, (2, 2), 50, 1, &[])], Vec::new());
    gw.apply_actions(&vec![MoveAction::Left]);
    assert_eq!(gw.board.snakes[0].head, Coord { x: 1, y: 2 });

    let mut gw = mk_wrapper(7, 7, vec![mk_snake(0, (2, 2), 50, 1, &[])], Vec::new());
    gw.apply_actions(&vec![MoveAction::Right]);
    assert_eq!(gw.board.snakes[0].head, Coord { x: 3, y: 2 });
}

#[test]
fn body_grows_by_one_per_move_until_bound() {
    // target length 3, empty body: lengths 1, 2, then stuck at 2
    let mut gw = mk_wrapper(9, 9, vec![mk_snake(0, (4, 4), 50, 3, &[])], Vec::new());
    gw.apply_actions(&vec![MoveAction::Right]);
    assert_eq!(gw.board.snakes[0].body.len(), 1);
    gw.apply_actions(&vec![MoveAction::Right]);
    assert_eq!(gw.board.snakes[0].body.len(), 2);
    gw.apply_actions(&vec![MoveAction::Right]);
    assert_eq!(gw.board.snakes[0].body.len(), 2);
    // the body trails the head
    assert_eq!(gw.board.snakes[0].head, Coord { x: 7, y: 4 });
    assert_eq!(gw.board.snakes[0].body[0], Coord { x: 6, y: 4 });
    assert_eq!(gw.board.snakes[0].body[1], Coord { x: 5, y: 4 });
}

#[test]
fn head_to_head_collision_removes_both() {
    // both post-move heads land on (3,3): mutual elimination, a tie
    let mut gw = mk_wrapper(
        7,
        7,
        vec![mk_snake(0, (3, 2), 50, 1, &[]), mk_snake(1, (3, 4), 50, 1, &[])],
        Vec::new(),
    );
    gw.age_snakes();
    gw.feed_snakes();
    gw.apply_actions(&vec![MoveAction::Down, MoveAction::Up]);
    assert_eq!(gw.board.snakes[0].head, Coord { x: 3, y: 3 });
    assert_eq!(gw.board.snakes[1].head, Coord { x: 3, y: 3 });
    gw.kill_snakes();
    assert_eq!(gw.board.snakes.len(), 0);
    assert_eq!(gw.outcome(), GameStepOutcome::Tie);
}

#[test]
fn body_collision_removes_only_the_walker() {
    // agent 0 walks into agent 1's body; agent 1 survives and wins
    let mut gw = mk_wrapper(
        7,
        7,
        vec![
            mk_snake(0, (2, 3), 50, 1, &[]),
            mk_snake(1, (3, 4), 50, 4, &[(3, 3), (3, 2)]),
        ],
        Vec::new(),
    );
    gw.age_snakes();
    gw.feed_snakes();
    gw.apply_actions(&vec![MoveAction::Right, MoveAction::Down]);
    gw.kill_snakes();
    assert_eq!(gw.board.snakes.len(), 1);
    assert_eq!(gw.board.snakes[0].id, 1);
    assert_eq!(gw.outcome(), GameStepOutcome::Winner(1));
}

#[test]
fn out_of_bounds_head_is_removed() {
    let mut gw = mk_wrapper(5, 5, vec![mk_snake(0, (0, 0), 50, 1, &[])], Vec::new());
    gw.apply_actions(&vec![MoveAction::Up]);
    gw.kill_snakes();
    assert_eq!(gw.board.snakes.len(), 0);
}

#[test]
fn own_body_counts_for_collision() {
    // the head turns back into the agent's own body
    let mut gw = mk_wrapper(
        7,
        7,
        vec![mk_snake(0, (3, 3), 50, 9, &[(2, 3), (2, 4), (3, 4), (4, 4)])],
        Vec::new(),
    );
    gw.apply_actions(&vec![MoveAction::Down]);
    assert_eq!(gw.board.snakes[0].head, Coord { x: 3, y: 4 });
    gw.kill_snakes();
    assert_eq!(gw.board.snakes.len(), 0);
}

#[test]
fn starvation_after_exactly_one_hundred_turns() {
    // a lone agent circling a 5x5 grid with no food starves on turn 100
    let mut gw = mk_wrapper(5, 5, vec![mk_snake(0, (1, 1), 100, 3, &[])], Vec::new());
    let cycle = [MoveAction::Right, MoveAction::Down, MoveAction::Left, MoveAction::Up];
    for turn in 1..=100 {
        gw.age_snakes();
        gw.feed_snakes();
        let actions: Vec<MoveAction> = gw
            .board
            .snakes
            .iter()
            .map(|_| cycle[(turn - 1) % 4])
            .collect();
        gw.apply_actions(&actions);
        gw.kill_snakes();
        gw.turn += 1;
        if turn < 100 {
            assert_eq!(gw.board.snakes.len(), 1, "died early at turn {}", turn);
            assert_eq!(gw.board.snakes[0].health, 100 - turn as i32);
        }
    }
    assert_eq!(gw.board.snakes.len(), 0);
    assert_eq!(gw.outcome(), GameStepOutcome::Tie);
}

#[test]
fn outcome_classification() {
    let gw = mk_wrapper(5, 5, Vec::new(), Vec::new());
    assert_eq!(gw.outcome(), GameStepOutcome::Tie);
    let gw = mk_wrapper(5, 5, vec![mk_snake(7, (1, 1), 50, 3, &[])], Vec::new());
    assert_eq!(gw.outcome(), GameStepOutcome::Winner(7));
    let gw = mk_wrapper(
        5,
        5,
        vec![mk_snake(0, (1, 1), 50, 3, &[]), mk_snake(1, (3, 3), 50, 3, &[])],
        Vec::new(),
    );
    assert_eq!(gw.outcome(), GameStepOutcome::Ongoing);
}

#[test]
fn new_wrapper_satisfies_schema() {
    let gw = GameWrapper::new(11, 11, 2);
    assert_eq!(gw.turn, 0);
    assert_eq!(gw.board.width, 11);
    assert_eq!(gw.board.height, 11);
    assert_eq!(gw.board.snakes.len(), 2);
    for (i, s) in gw.board.snakes.iter().enumerate() {
        assert_eq!(s.id, i as u32);
        assert_eq!(s.health, 100);
        assert_eq!(s.length, 3);
        assert!(s.body.is_empty());
        assert!(s.head.x >= 0 && s.head.x < 11);
        assert!(s.head.y >= 0 && s.head.y < 11);
    }
    assert_eq!(gw.board.food.len(), 3);
    for f in &gw.board.food {
        assert!(f.x >= 0 && f.x < 11 && f.y >= 0 && f.y < 11);
    }
    assert!(gw.board.hazards.is_empty());
}

#[test]
fn turn_step_moves_fresh_policy_up() {
    // a freshly built policy scores every action equally, so the fixed
    // tie-break order picks "up"
    let mut manager = NeuralNetworkManager::new();
    let mut net = NeuralNetwork::new(&mut manager);
    build_neural_network(&mut net, 5, 5, &mut manager);
    let networks = vec![net];
    let mut gw = mk_wrapper(5, 5, vec![mk_snake(0, (2, 2), 100, 3, &[])], Vec::new());
    let outcome = gw.turn_step(&networks, 0).unwrap();
    assert_eq!(outcome, GameStepOutcome::Winner(0));
    assert_eq!(gw.turn, 1);
    assert_eq!(gw.board.snakes[0].head, Coord { x: 2, y: 1 });
    assert_eq!(gw.board.snakes[0].health, 99);
}

#[test]
fn propagate_moves_all_agents_at_once() {
    // two fresh policies both pick "up"; both agents move simultaneously
    let mut manager = NeuralNetworkManager::new();
    let mut networks = Vec::new();
    for _ in 0..2 {
        let mut net = NeuralNetwork::new(&mut manager);
        build_neural_network(&mut net, 5, 5, &mut manager);
        networks.push(net);
    }
    let mut gw = mk_wrapper(
        5,
        5,
        vec![mk_snake(0, (1, 2), 100, 3, &[]), mk_snake(1, (3, 4), 100, 3, &[])],
        Vec::new(),
    );
    gw.propagate_snakes(&networks, 0);
    assert_eq!(gw.board.snakes[0].head, Coord { x: 1, y: 1 });
    assert_eq!(gw.board.snakes[1].head, Coord { x: 3, y: 3 });
    assert_eq!(gw.board.snakes[0].body, vec![Coord { x: 1, y: 2 }]);
    assert_eq!(gw.board.snakes[1].body, vec![Coord { x: 3, y: 4 }]);
}

#[test]
fn turn_step_rejects_unknown_agent_id() {
    let mut manager = NeuralNetworkManager::new();
    let mut net = NeuralNetwork::new(&mut manager);
    build_neural_network(&mut net, 5, 5, &mut manager);
    let networks = vec![net];
    let mut gw = mk_wrapper(5, 5, vec![mk_snake(7, (2, 2), 100, 3, &[])], Vec::new());
    let r = gw.turn_step(&networks, 0);
    assert_eq!(r, Err(ml_battle_snake::SimulationError::UnknownAgentId));
    // the board is untouched
    assert_eq!(gw.turn, 0);
    assert_eq!(gw.board.snakes[0].health, 100);
}

#[test]
fn play_for_outcome_single_agent_wins_at_once() {
    let mut manager = NeuralNetworkManager::new();
    let mut net = NeuralNetwork::new(&mut manager);
    build_neural_network(&mut net, 5, 5, &mut manager);
    let networks = vec![net];
    let mut gw = mk_wrapper(5, 5, vec![mk_snake(0, (2, 2), 100, 3, &[])], Vec::new());
    let outcome = gw.play_for_outcome(&networks, 0).unwrap();
    assert_eq!(outcome, GameStepOutcome::Winner(0));
}
