use vstd::prelude::*;
use crate::game::{networks_ready, GameStepOutcome, GameWrapper};
use crate::neural_network::{wf_network, NeuralNetwork, NeuralNetworkManager};
use crate::{wf_dims, SimulationError};

verus! {

/// The evolutionary orchestrator: runs a batch of independent games per
/// round, keeps the winners, refills the population by round-robin
/// cloning, shuffles, and mutates every policy.
pub struct Simulation {}

/// Two policies with the same topology and weights; everything evaluation
/// depends on is equal.
pub open spec fn same_shape(a: NeuralNetwork, b: NeuralNetwork) -> bool {
    &&& a.input_count == b.input_count
    &&& a.output_count == b.output_count
    &&& a.connections@ == b.connections@
}

/// The policy has the shape of some policy in `pre`.
pub open spec fn from_some(n: NeuralNetwork, pre: Seq<NeuralNetwork>) -> bool {
    exists|j: int| 0 <= j < pre.len() && same_shape(n, #[trigger] pre[j])
}

/// The policy is one of the values in `s`.
pub open spec fn appears_in(n: NeuralNetwork, s: Seq<NeuralNetwork>) -> bool {
    exists|j: int| 0 <= j < s.len() && n == #[trigger] s[j]
}

/// Every policy of `post` has the shape of some policy of `pre`.
pub open spec fn all_from(post: Seq<NeuralNetwork>, pre: Seq<NeuralNetwork>) -> bool {
    forall|k: int| 0 <= k < post.len() ==> from_some(#[trigger] post[k], pre)
}

/// The refilled population as it stands before the shuffle: every
/// survivor retained at its own position, then clones drawn round-robin
/// over the survivors in index order — the clone at position `k` carries
/// the exact topology of survivor `k` modulo the survivor count — up to
/// the target size.
pub open spec fn refill_of(pre: Seq<NeuralNetwork>, target: int, mid: Seq<NeuralNetwork>) -> bool {
    &&& mid.len() == target
    &&& forall|k: int| 0 <= k < pre.len() ==> #[trigger] mid[k] == pre[k]
    &&& forall|k: int|
        pre.len() <= k < target ==> same_shape(#[trigger] mid[k], pre[k % pre.len() as int])
}

/// A freshly built starting population: one policy per slot, each wired
/// for the grid, with the initial unit weights everywhere.
pub open spec fn initial_population(
    init: Seq<NeuralNetwork>,
    width: i32,
    height: u32,
    target: int,
) -> bool {
    &&& init.len() == target
    &&& forall|i: int|
        0 <= i < init.len() ==> crate::logic::network_ready(#[trigger] init[i], width, height)
    &&& forall|i: int, k: int|
        0 <= i < init.len() && 0 <= k < init[i].connections@.len() ==> (
        #[trigger] init[i].connections@[k]).weight == 1
}

/// One full round rewrites the population in this order: a set of
/// survivors shaped from the previous population, the round-robin refill
/// and shuffle back to the target size, then one mutation applied to
/// every policy.
pub open spec fn spec_round(
    pre: Seq<NeuralNetwork>,
    post: Seq<NeuralNetwork>,
    target: int,
) -> bool {
    exists|survivors: Seq<NeuralNetwork>, refilled: Seq<NeuralNetwork>|
        {
            &&& #[trigger] all_from(survivors, pre)
            &&& survivors.len() <= target
            &&& (exists|mid: Seq<NeuralNetwork>|
                #[trigger] refill_of(survivors, target, mid) && refilled.to_multiset()
                    == mid.to_multiset())
            &&& #[trigger] refilled.len() == target
            &&& post.len() == target
            &&& forall|i: int|
                0 <= i < post.len() ==> crate::neural_network::mutated_from(
                    #[trigger] post[i],
                    refilled[i],
                )
        }
}

/// The population `post` arises from `init` by exactly `n` full rounds.
pub open spec fn rounds_reachable(
    init: Seq<NeuralNetwork>,
    post: Seq<NeuralNetwork>,
    target: int,
    n: nat,
) -> bool
    decreases n,
{
    if n == 0 {
        post == init
    } else {
        exists|mid: Seq<NeuralNetwork>|
            rounds_reachable(init, mid, target, (n - 1) as nat) && #[trigger] spec_round(
                mid,
                post,
                target,
            )
    }
}

/// Relies on rand's `SliceRandom::shuffle`: an in-place Fisher–Yates
/// permutation, so the length and the multiset of elements are kept and
/// every element of the result was in the input; the order is whatever
/// the thread-local generator produced.
#[verifier::external_body]
fn shuffle_networks(networks: &mut Vec<NeuralNetwork>)
    ensures
        final(networks)@.len() == old(networks)@.len(),
        final(networks)@.to_multiset() == old(networks)@.to_multiset(),
        forall|k: int|
            0 <= k < final(networks)@.len() ==> appears_in(
                #[trigger] final(networks)@[k],
                old(networks)@,
            ),
{
    rand::seq::SliceRandom::shuffle(networks.as_mut_slice(), &mut rand::thread_rng());
}

impl Simulation {
    pub fn new() -> (r: Self) {
        Simulation {}
    }

    /// The selection rule, applied to one game's outcome: a winner keeps
    /// exactly the policy its agent identity names inside the game's
    /// population window, a tie eliminates the whole window, and a game
    /// that ended in neither is an invariant violation.
    pub fn select_survivor(
        &self,
        outcome: &GameStepOutcome,
        networks: &Vec<NeuralNetwork>,
        base: usize,
    ) -> (r: Result<Option<NeuralNetwork>, SimulationError>)
        requires
            outcome matches GameStepOutcome::Winner(id) ==> base as int + (id as int)
                < networks@.len() as int,
        ensures
            outcome matches GameStepOutcome::Winner(id) ==> (r matches Ok(s) && s matches Some(n)
                && n.id == networks@[base as int + id as int].id && same_shape(
                n,
                networks@[base as int + id as int],
            )),
            outcome is Tie ==> r == Ok::<Option<NeuralNetwork>, SimulationError>(None),
            outcome is Ongoing ==> r == Err::<Option<NeuralNetwork>, SimulationError>(
                SimulationError::NonterminalGameResult,
            ),
    {
        match outcome {
            GameStepOutcome::Winner(snake_id) => {
                let count = networks.len();
                proof {
                    assert(base as int + (*snake_id as int) < count as int);
                }
                let idx = base + *snake_id as usize;
                Ok(Some(networks[idx].duplicate()))
            },
            GameStepOutcome::Tie => Ok(None),
            GameStepOutcome::Ongoing => Err(SimulationError::NonterminalGameResult),
        }
    }

    /// One round of games: partitions the population into contiguous
    /// windows of `snakes_count` policies, plays one fresh game per
    /// window, and keeps exactly the policies whose agent won their game.
    /// A population too small for the requested windows is refused with
    /// the population untouched.
    pub fn run_games(
        &mut self,
        games_count: u32,
        width: i32,
        height: u32,
        snakes_count: u32,
        _round: u32,
        networks: &mut Vec<NeuralNetwork>,
    ) -> (r: Result<(), SimulationError>)
        requires
            wf_dims(width, height),
            snakes_count < u32::MAX,
            networks_ready(old(networks)@, width, height),
            games_count as int * snakes_count as int <= usize::MAX as int,
        ensures
            r == Err::<(), SimulationError>(SimulationError::PopulationIndexOutOfRange)
                <==> old(networks)@.len() < games_count as int * snakes_count as int,
            games_count as int * snakes_count as int == 0 ==> r is Ok,
            r matches Err(e) ==> (e == SimulationError::PopulationIndexOutOfRange || e
                == SimulationError::NonterminalGameResult) && final(networks)@ == old(networks)@,
            r is Ok ==> {
                &&& final(networks)@.len() <= games_count as int * snakes_count as int
                &&& final(networks)@.len() <= games_count as int
                &&& networks_ready(final(networks)@, width, height)
                &&& all_from(final(networks)@, old(networks)@)
            },
    {
        let target: usize = (games_count as usize) * (snakes_count as usize);
        if networks.len() < target {
            return Err(SimulationError::PopulationIndexOutOfRange);
        }
        let count = networks.len();
        let mut survivors: Vec<NeuralNetwork> = Vec::new();
        let mut i: u32 = 0;
        while i < games_count
            invariant
                i <= games_count,
                wf_dims(width, height),
                snakes_count < u32::MAX,
                networks@ == old(networks)@,
                networks@.len() == count as int,
                networks_ready(networks@, width, height),
                games_count as int * snakes_count as int <= usize::MAX as int,
                target as int == games_count as int * snakes_count as int,
                count as int >= target as int,
                survivors@.len() <= i as int * snakes_count as int,
                survivors@.len() <= i as int,
                networks_ready(survivors@, width, height),
                all_from(survivors@, networks@),
            decreases games_count as int - i as int,
        {
            proof {
                assert((i as int) * (snakes_count as int) + snakes_count as int == (i as int + 1)
                    * (snakes_count as int) && 0 <= (i as int) * (snakes_count as int) && (i
                    as int + 1) * (snakes_count as int) <= games_count as int * snakes_count
                    as int) by (nonlinear_arith)
                    requires
                        0 <= (i as int) < (games_count as int),
                        0 <= snakes_count as int,
                ;
            }
            let base: usize = (i as usize) * (snakes_count as usize);
            let mut game_wrapper = GameWrapper::new(width, height, snakes_count);
            proof {
                assert forall|k: int| 0 <= k < game_wrapper.board.snakes@.len() implies base
                    as int + ((#[trigger] game_wrapper.board.snakes@[k]).id as int) < networks@.len()
                    as int by {
                    assert(game_wrapper.board.snakes@[k].id == k as u32);
                }
            }
            let game_outcome = match game_wrapper.play_for_outcome(networks, base) {
                Ok(o) => o,
                Err(e) => {
                    return Err(SimulationError::NonterminalGameResult);
                },
            };
            let selected = match self.select_survivor(&game_outcome, networks, base) {
                Ok(s) => s,
                Err(_) => {
                    proof {
                        assert(false);
                    }
                    return Err(SimulationError::NonterminalGameResult);
                },
            };
            match selected {
                Some(winner) => {
                    let ghost pre_survivors = survivors@;
                    let ghost idx = base as int + (match game_outcome {
                        GameStepOutcome::Winner(id) => id as int,
                        _ => 0,
                    });
                    survivors.push(winner);
                    proof {
                        // a winner means the window held at least one agent
                        assert(snakes_count >= 1);
                        assert forall|k: int| 0 <= k < survivors@.len() implies from_some(
                            #[trigger] survivors@[k],
                            networks@,
                        ) by {
                            if k < pre_survivors.len() {
                                assert(survivors@[k] == pre_survivors[k]);
                            } else {
                                assert(same_shape(survivors@[k], networks@[idx]));
                            }
                        }
                    }
                },
                None => {
                },
            }
            i = i + 1;
        }
        *networks = survivors;
        Ok(())
    }

    /// Refills the surviving population back to `games_count` times
    /// `snakes_count` policies by cloning survivors in round-robin order
    /// through the shared registry, then shuffles the whole population so
    /// next round's grouping is uncorrelated with this one's. After a
    /// round that left no survivor at all there is nothing to clone from.
    pub fn reproduce_networks(
        &self,
        network_manager: &mut NeuralNetworkManager,
        networks: &mut Vec<NeuralNetwork>,
        games_count: u32,
        snakes_count: u32,
    ) -> (r: Result<(), SimulationError>)
        requires
            games_count as int * snakes_count as int <= usize::MAX as int,
            old(networks)@.len() <= games_count as int * snakes_count as int,
        ensures
            r is Ok <==> (old(networks)@.len() > 0 || games_count as int * snakes_count as int
                == 0),
            r matches Err(e) ==> e == SimulationError::PopulationIndexOutOfRange
                && final(networks)@ == old(networks)@,
            r is Ok ==> {
                &&& final(networks)@.len() == games_count as int * snakes_count as int
                &&& all_from(final(networks)@, old(networks)@)
            },
            r is Ok ==> exists|mid: Seq<NeuralNetwork>|
                #[trigger] refill_of(
                    old(networks)@,
                    games_count as int * snakes_count as int,
                    mid,
                ) && final(networks)@.to_multiset() == mid.to_multiset(),
            final(network_manager).next_id >= old(network_manager).next_id,
    {
        let target: usize = (games_count as usize) * (snakes_count as usize);
        let original_count = networks.len();
        if original_count == 0 && target > 0 {
            return Err(SimulationError::PopulationIndexOutOfRange);
        }
        proof {
            assert forall|k: int| 0 <= k < networks@.len() implies from_some(
                #[trigger] networks@[k],
                old(networks)@,
            ) by {
                assert(same_shape(networks@[k], old(networks)@[k]));
            }
        }
        while networks.len() < target
            invariant
                original_count as int == old(networks)@.len(),
                target as int == games_count as int * snakes_count as int,
                original_count as int <= networks@.len(),
                networks@.len() <= target as int || networks@.len() == original_count as int,
                target > 0 ==> original_count > 0,
                all_from(networks@, old(networks)@),
                forall|k: int|
                    0 <= k < original_count as int ==> #[trigger] networks@[k] == old(
                        networks,
                    )@[k],
                forall|k: int|
                    original_count as int <= k < networks@.len() ==> same_shape(
                        #[trigger] networks@[k],
                        old(networks)@[k % (original_count as int)],
                    ),
                network_manager.next_id >= old(network_manager).next_id,
            decreases target as int - networks@.len(),
        {
            let index = networks.len() % original_count;
            let ghost pre = networks@;
            let fresh = networks[index].clone(network_manager);
            let ghost j0 = choose|j: int|
                0 <= j < old(networks)@.len() && same_shape(pre[index as int], #[trigger] old(
                    networks,
                )@[j]);
            networks.push(fresh);
            proof {
                assert(same_shape(pre[index as int], old(networks)@[j0]));
                assert(same_shape(fresh, old(networks)@[j0]));
                assert forall|k: int| 0 <= k < networks@.len() implies from_some(
                    #[trigger] networks@[k],
                    old(networks)@,
                ) by {
                    if k < pre.len() {
                        assert(networks@[k] == pre[k]);
                    } else {
                        assert(networks@[k] == fresh);
                        assert(same_shape(networks@[k], old(networks)@[j0]));
                    }
                }
                assert forall|k: int|
                    original_count as int <= k < networks@.len() implies same_shape(
                    #[trigger] networks@[k],
                    old(networks)@[k % (original_count as int)],
                ) by {
                    if k < pre.len() {
                        assert(networks@[k] == pre[k]);
                    } else {
                        assert(k == pre.len());
                        assert(networks@[k] == fresh);
                        assert(index as int == k % (original_count as int));
                        assert(pre[index as int] == old(networks)@[index as int]);
                        assert(same_shape(networks@[k], old(networks)@[index as int]));
                    }
                }
            }
        }
        let ghost before_shuffle = networks@;
        proof {
            assert(refill_of(old(networks)@, target as int, before_shuffle));
        }
        shuffle_networks(networks);
        proof {
            assert forall|k: int| 0 <= k < networks@.len() implies from_some(
                #[trigger] networks@[k],
                old(networks)@,
            ) by {
                assert(appears_in(networks@[k], before_shuffle));
                let j2 = choose|j2: int|
                    0 <= j2 < before_shuffle.len() && networks@[k] == #[trigger] before_shuffle[j2];
                assert(from_some(before_shuffle[j2], old(networks)@));
                let j = choose|j: int|
                    0 <= j < old(networks)@.len() && same_shape(
                        before_shuffle[j2],
                        #[trigger] old(networks)@[j],
                    );
                assert(same_shape(networks@[k], old(networks)@[j]));
            }
            assert(refill_of(
                old(networks)@,
                games_count as int * snakes_count as int,
                before_shuffle,
            ));
            assert(networks@.to_multiset() == before_shuffle.to_multiset());
        }
        Ok(())
    }

    /// Applies one mutation to every policy in the population, survivors
    /// and clones alike.
    pub fn train_networks(
        &self,
        network_manager: &mut NeuralNetworkManager,
        networks: &mut Vec<NeuralNetwork>,
    )
        requires
            forall|i: int|
                0 <= i < old(networks)@.len() ==> wf_network(#[trigger] old(networks)@[i]),
        ensures
            final(networks)@.len() == old(networks)@.len(),
            forall|i: int|
                0 <= i < final(networks)@.len() ==> {
                    let n = #[trigger] final(networks)@[i];
                    &&& wf_network(n)
                    &&& crate::neural_network::mutated_from(n, old(networks)@[i])
                },
            final(network_manager).next_id >= old(network_manager).next_id,
    {
        let mut work: Vec<NeuralNetwork> = Vec::new();
        core::mem::swap(&mut work, networks);
        let ghost orig = work@;
        let total: usize = work.len();
        let mut result: Vec<NeuralNetwork> = Vec::new();
        let mut i: usize = 0;
        while work.len() > 0
            invariant
                orig.len() == total as int,
                i + work@.len() == orig.len(),
                work@ == orig.skip(i as int),
                forall|k: int| 0 <= k < orig.len() ==> wf_network(#[trigger] orig[k]),
                result@.len() == i as int,
                network_manager.next_id >= old(network_manager).next_id,
                forall|k: int|
                    0 <= k < i as int ==> {
                        let n = #[trigger] result@[k];
                        &&& wf_network(n)
                        &&& crate::neural_network::mutated_from(n, orig[k])
                    },
            decreases work@.len(),
        {
            proof {
                assert(orig.skip(i as int)[0] == orig[i as int]);
            }
            let mut network = work.remove(0);
            proof {
                assert(work@ =~= orig.skip(i as int + 1));
            }
            network.mutate(network_manager);
            result.push(network);
            i = i + 1;
        }
        *networks = result;
    }

    /// The whole tournament: build the starting population, then repeat —
    /// one game per population window, selection of the winners, refill by
    /// cloning, shuffle, and a mutation for everyone — for the configured
    /// number of rounds, returning the final population.
    pub fn run_tournament(
        &mut self,
        games_count: u32,
        width: i32,
        height: u32,
        snakes_count: u32,
        rounds_count: u32,
    ) -> (r: Result<Vec<NeuralNetwork>, SimulationError>)
        requires
            wf_dims(width, height),
            snakes_count < u32::MAX,
            games_count as int * snakes_count as int <= usize::MAX as int,
        ensures
            r matches Ok(v) ==> v@.len() == games_count as int * snakes_count as int,
            r matches Ok(v) ==> networks_ready(v@, width, height),
            r matches Ok(v) ==> exists|init: Seq<NeuralNetwork>|
                #[trigger] initial_population(
                    init,
                    width,
                    height,
                    games_count as int * snakes_count as int,
                ) && rounds_reachable(
                    init,
                    v@,
                    games_count as int * snakes_count as int,
                    rounds_count as nat,
                ),
            rounds_count == 0 ==> r is Ok,
            games_count as int * snakes_count as int == 0 ==> r is Ok,
            r matches Err(e) ==> (e == SimulationError::PopulationIndexOutOfRange || e
                == SimulationError::NonterminalGameResult),
    {
        let mut network_manager = NeuralNetworkManager::new();
        let mut networks: Vec<NeuralNetwork> = Vec::new();
        let target: usize = (games_count as usize) * (snakes_count as usize);
        let mut g: u32 = 0;
        while g < games_count
            invariant
                g <= games_count,
                wf_dims(width, height),
                games_count as int * snakes_count as int <= usize::MAX as int,
                networks@.len() == g as int * snakes_count as int,
                networks_ready(networks@, width, height),
                forall|i: int, k: int|
                    0 <= i < networks@.len() && 0 <= k < networks@[i].connections@.len() ==> (
                    #[trigger] networks@[i].connections@[k]).weight == 1,
            decreases games_count as int - g as int,
        {
            proof {
                assert((g as int + 1) * (snakes_count as int) <= games_count as int
                    * snakes_count as int && (g as int + 1) * (snakes_count as int) == g as int
                    * snakes_count as int + snakes_count as int) by (nonlinear_arith)
                    requires
                        0 <= (g as int) < (games_count as int),
                        0 <= snakes_count as int,
                ;
            }
            let mut s: u32 = 0;
            while s < snakes_count
                invariant
                    s <= snakes_count,
                    g < games_count,
                    wf_dims(width, height),
                    games_count as int * snakes_count as int <= usize::MAX as int,
                    networks@.len() == g as int * snakes_count as int + s as int,
                    (g as int + 1) * (snakes_count as int) <= games_count as int * snakes_count
                        as int,
                    networks_ready(networks@, width, height),
                    forall|i: int, k: int|
                        0 <= i < networks@.len() && 0 <= k < networks@[i].connections@.len()
                            ==> (#[trigger] networks@[i].connections@[k]).weight == 1,
                decreases snakes_count as int - s as int,
            {
                let mut network = NeuralNetwork::new(&mut network_manager);
                crate::utils::build_neural_network(
                    &mut network,
                    width,
                    height,
                    &mut network_manager,
                );
                networks.push(network);
                s = s + 1;
            }
            proof {
                assert((g as int + 1) * (snakes_count as int) == g as int * snakes_count as int
                    + snakes_count as int) by (nonlinear_arith);
            }
            g = g + 1;
        }
        proof {
            assert((g as int) * (snakes_count as int) == games_count as int * snakes_count
                as int);
        }
        let ghost init = networks@;
        proof {
            assert(initial_population(
                init,
                width,
                height,
                games_count as int * snakes_count as int,
            ));
            assert(rounds_reachable(
                init,
                networks@,
                games_count as int * snakes_count as int,
                0,
            ));
        }
        let mut round: u32 = 0;
        while round < rounds_count
            invariant
                round <= rounds_count,
                wf_dims(width, height),
                snakes_count < u32::MAX,
                games_count as int * snakes_count as int <= usize::MAX as int,
                networks@.len() == games_count as int * snakes_count as int,
                networks_ready(networks@, width, height),
                initial_population(
                    init,
                    width,
                    height,
                    games_count as int * snakes_count as int,
                ),
                rounds_reachable(
                    init,
                    networks@,
                    games_count as int * snakes_count as int,
                    round as nat,
                ),
            decreases rounds_count as int - round as int,
        {
            let ghost before = networks@;
            match self.run_games(games_count, width, height, snakes_count, round, &mut networks) {
                Ok(()) => {
                },
                Err(e) => {
                    return Err(e);
                },
            }
            let ghost after_games = networks@;
            match self.reproduce_networks(
                &mut network_manager,
                &mut networks,
                games_count,
                snakes_count,
            ) {
                Ok(()) => {
                },
                Err(e) => {
                    return Err(e);
                },
            }
            let ghost after_refill = networks@;
            proof {
                assert forall|i: int| 0 <= i < networks@.len() implies crate::logic::network_ready(
                    #[trigger] networks@[i],
                    width,
                    height,
                ) by {
                    assert(from_some(networks@[i], after_games));
                    let j = choose|j: int|
                        0 <= j < after_games.len() && same_shape(
                            networks@[i],
                            #[trigger] after_games[j],
                        );
                    assert(crate::logic::network_ready(after_games[j], width, height));
                }
            }
            self.train_networks(&mut network_manager, &mut networks);
            proof {
                let t = games_count as int * snakes_count as int;
                assert forall|i: int| 0 <= i < networks@.len() implies crate::logic::network_ready(
                    #[trigger] networks@[i],
                    width,
                    height,
                ) by {
                    assert(crate::neural_network::mutated_from(networks@[i], after_refill[i]));
                    assert(crate::logic::network_ready(after_refill[i], width, height));
                }
                assert(all_from(after_games, before));
                assert(after_games.len() <= t);
                assert(exists|mid: Seq<NeuralNetwork>|
                    #[trigger] refill_of(after_games, t, mid) && after_refill.to_multiset()
                        == mid.to_multiset());
                assert(after_refill.len() == t);
                assert(networks@.len() == t);
                assert(forall|i: int|
                    0 <= i < networks@.len() ==> crate::neural_network::mutated_from(
                        #[trigger] networks@[i],
                        after_refill[i],
                    ));
                assert(spec_round(before, networks@, t));
                assert(rounds_reachable(init, networks@, t, (round + 1) as nat));
            }
            round = round + 1;
        }
        Ok(networks)
    }
}

} // verus!
