use ml_battle_snake::game::GameStepOutcome;
use ml_battle_snake::neural_network::{NeuralNetwork, NeuralNetworkManager};
use ml_battle_snake::simulation::Simulation;
use ml_battle_snake::utils::build_neural_network;
use ml_battle_snake::SimulationError;

fn built_networks(count: usize, width: i32, height: u32, manager: &mut NeuralNetworkManager) -> Vec<
    NeuralNetwork,
> {
    let mut networks = Vec::new();
    for _ in 0..count {
        let mut net = NeuralNetwork::new(manager);
        build_neural_network(&mut net, width, height, manager);
        networks.push(net);
    }
    networks
}

#[test]
fn reproduce_refills_to_the_target_size() {
    // two survivors, two games of two agents: back to four policies
    let mut manager = NeuralNetworkManager::new();
    let mut networks = built_networks(2, 3, 3, &mut manager);
    let sim = Simulation::new();
    let r = sim.reproduce_networks(&mut manager, &mut networks, 2, 2);
    assert_eq!(r, Ok(()));
    assert_eq!(networks.len(), 4);
}

#[test]
fn reproduce_cycles_round_robin_over_survivors() {
    let mut manager = NeuralNetworkManager::new();
    let mut networks = built_networks(2, 3, 3, &mut manager);
    let sim = Simulation::new();
    let r = sim.reproduce_networks(&mut manager, &mut networks, 3, 2);
    assert_eq!(r, Ok(()));
    assert_eq!(networks.len(), 6);
    // every policy still has the grid shape the survivors had
    for n in &networks {
        assert_eq!(n.input_count, 4 + 7 * 9);
        assert_eq!(n.output_count, 4);
    }
}

#[test]
fn reproduce_keeps_survivors_and_clones_each_round_robin() {
    let mut manager = NeuralNetworkManager::new();
    let mut networks = built_networks(2, 2, 2, &mut manager);
    // make the two survivors' topologies distinguishable
    networks[0].connections[0].weight = 7;
    networks[1].connections[0].weight = -7;
    let a_id = networks[0].id;
    let b_id = networks[1].id;
    let a_conns = networks[0].connections.clone();
    let b_conns = networks[1].connections.clone();
    let fresh_floor = manager.next_id;
    let sim = Simulation::new();
    sim.reproduce_networks(&mut manager, &mut networks, 2, 2).unwrap();
    assert_eq!(networks.len(), 4);
    // both survivors are retained as themselves
    assert_eq!(networks.iter().filter(|n| n.id == a_id).count(), 1);
    assert_eq!(networks.iter().filter(|n| n.id == b_id).count(), 1);
    // the two clones carry fresh identifiers and, round-robin, one copies
    // each survivor's exact topology
    let clones: Vec<_> = networks.iter().filter(|n| n.id >= fresh_floor).collect();
    assert_eq!(clones.len(), 2);
    assert_eq!(clones.iter().filter(|n| n.connections == a_conns).count(), 1);
    assert_eq!(clones.iter().filter(|n| n.connections == b_conns).count(), 1);
}

#[test]
fn reproduce_without_survivors_is_an_error() {
    let mut manager = NeuralNetworkManager::new();
    let mut networks: Vec<NeuralNetwork> = Vec::new();
    let sim = Simulation::new();
    let r = sim.reproduce_networks(&mut manager, &mut networks, 2, 2);
    assert_eq!(r, Err(SimulationError::PopulationIndexOutOfRange));
    assert!(networks.is_empty());
}

#[test]
fn reproduce_with_zero_target_is_fine() {
    let mut manager = NeuralNetworkManager::new();
    let mut networks: Vec<NeuralNetwork> = Vec::new();
    let sim = Simulation::new();
    let r = sim.reproduce_networks(&mut manager, &mut networks, 0, 2);
    assert_eq!(r, Ok(()));
    assert!(networks.is_empty());
}

#[test]
fn train_mutates_every_policy_in_place() {
    let mut manager = NeuralNetworkManager::new();
    let mut networks = built_networks(3, 2, 2, &mut manager);
    let sim = Simulation::new();
    sim.train_networks(&mut manager, &mut networks);
    assert_eq!(networks.len(), 3);
    for n in &networks {
        assert_eq!(n.input_count, 4 + 7 * 4);
        assert_eq!(n.output_count, 4);
        for c in &n.connections {
            assert!(c.weight >= -1000 && c.weight <= 1000);
        }
    }
}

#[test]
fn run_games_refuses_a_short_population() {
    let mut manager = NeuralNetworkManager::new();
    let mut networks = built_networks(3, 5, 5, &mut manager);
    let mut sim = Simulation::new();
    let r = sim.run_games(2, 5, 5, 2, 0, &mut networks);
    assert_eq!(r, Err(SimulationError::PopulationIndexOutOfRange));
    assert_eq!(networks.len(), 3);
}

#[test]
fn run_games_keeps_at_most_one_policy_per_game() {
    let mut manager = NeuralNetworkManager::new();
    let mut networks = built_networks(2, 5, 5, &mut manager);
    let mut sim = Simulation::new();
    let r = sim.run_games(2, 5, 5, 1, 0, &mut networks);
    assert_eq!(r, Ok(()));
    // single-agent games end at once, with the agent either the winner or
    // gone off the grid; either way at most one survivor per game
    assert!(networks.len() <= 2);
}

#[test]
fn selection_keeps_exactly_the_winning_policy() {
    let mut manager = NeuralNetworkManager::new();
    let mut networks = built_networks(4, 2, 2, &mut manager);
    for n in networks.iter_mut() {
        n.mutate(&mut manager);
    }
    let sim = Simulation::new();
    // winner with agent id 1 in the window starting at 2: policy index 3
    let r = sim.select_survivor(&GameStepOutcome::Winner(1), &networks, 2);
    let survivor = r.unwrap().unwrap();
    assert_eq!(survivor.id, networks[3].id);
    assert_eq!(survivor.connections, networks[3].connections);
}

#[test]
fn selection_eliminates_the_window_on_a_tie() {
    let mut manager = NeuralNetworkManager::new();
    let networks = built_networks(2, 2, 2, &mut manager);
    let sim = Simulation::new();
    let r = sim.select_survivor(&GameStepOutcome::Tie, &networks, 0);
    assert!(matches!(r, Ok(None)));
}

#[test]
fn selection_refuses_an_undecided_game() {
    let mut manager = NeuralNetworkManager::new();
    let networks = built_networks(2, 2, 2, &mut manager);
    let sim = Simulation::new();
    let r = sim.select_survivor(&GameStepOutcome::Ongoing, &networks, 0);
    assert!(matches!(r, Err(SimulationError::NonterminalGameResult)));
}

#[test]
fn tournament_with_zero_rounds_returns_the_initial_population() {
    let mut sim = Simulation::new();
    let networks = sim.run_tournament(2, 3, 3, 1, 0).unwrap();
    assert_eq!(networks.len(), 2);
    for n in &networks {
        assert_eq!(n.input_count, 4 + 7 * 9);
        assert_eq!(n.output_count, 4);
        for c in &n.connections {
            assert_eq!(c.weight, 1);
        }
    }
}

#[test]
fn tournament_population_size_is_kept() {
    let mut sim = Simulation::new();
    match sim.run_tournament(2, 4, 4, 1, 2) {
        Ok(networks) => assert_eq!(networks.len(), 2),
        // a round where every game tied leaves nothing to clone from
        Err(e) => assert_eq!(e, SimulationError::PopulationIndexOutOfRange),
    }
}
