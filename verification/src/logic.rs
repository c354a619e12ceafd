use vstd::prelude::*;
use crate::game::{lemma_take_succ, MoveAction};
use crate::neural_network::{
    spec_eval, values_bounded, wf_network, NeuralNetwork, NeuralNetworkManager, MAX_CONNECTIONS,
    MAX_INPUT_VALUE,
};
use crate::{wf_dims, Battlesnake, Board, Coord, Game};

verus! {

/// Called when a game begins; the turn rules take nothing from it.
pub fn start(_game: &Game, _turn: &i32, _board: &Board, _you: &Battlesnake) {
}

/// Called when a game finishes; the turn rules take nothing from it.
pub fn end(_game: &Game, _turn: &i32, _board: &Board, _you: &Battlesnake) {
}

/// The global summary gathered each turn: the asking agent's health and
/// target length beside those of every agent on the board, in board order.
pub struct GameInfo {
    pub my_health: i32,
    pub opponent_healths: Vec<i32>,
    pub my_length: i32,
    pub opponent_lengths: Vec<i32>,
}

impl GameInfo {
    pub fn gather(board: &Board, me: &Battlesnake) -> (r: GameInfo)
        ensures
            r.my_health == me.health,
            r.my_length == me.length,
            r.opponent_healths@.len() == board.snakes@.len(),
            r.opponent_lengths@.len() == board.snakes@.len(),
            forall|i: int|
                0 <= i < board.snakes@.len() ==> #[trigger] r.opponent_healths@[i]
                    == board.snakes@[i].health && r.opponent_lengths@[i]
                    == board.snakes@[i].length,
    {
        let mut healths: Vec<i32> = Vec::new();
        let mut lengths: Vec<i32> = Vec::new();
        let mut i: usize = 0;
        while i < board.snakes.len()
            invariant
                i <= board.snakes@.len(),
                healths@.len() == i as int,
                lengths@.len() == i as int,
                forall|k: int|
                    0 <= k < i as int ==> #[trigger] healths@[k] == board.snakes@[k].health
                        && lengths@[k] == board.snakes@[k].length,
            decreases board.snakes@.len() - i,
        {
            healths.push(board.snakes[i].health);
            lengths.push(board.snakes[i].length);
            i = i + 1;
        }
        GameInfo {
            my_health: me.health,
            opponent_healths: healths,
            my_length: me.length,
            opponent_lengths: lengths,
        }
    }
}

/// The per-cell feature record: the cell's coordinates and what stands on
/// it, from the asking agent's point of view.
#[derive(Clone, Copy, PartialEq, Eq, Structural, Debug)]
pub struct CoordInfo {
    pub x: i32,
    pub y: i32,
    pub food: bool,
    pub my_head: bool,
    pub my_body: bool,
    pub opponent_head: bool,
    pub opponent_body: bool,
}

// ---------------------------------------------------------------------------
// Feature-vector specification
// ---------------------------------------------------------------------------

/// The number of scalar inputs a policy wired to a grid takes: one global
/// block of four values plus seven features per cell.
pub open spec fn grid_input_count(width: i32, height: u32) -> int {
    4 + 7 * ((width as int) * (height as int))
}

pub open spec fn b2i(b: bool) -> int {
    if b {
        1
    } else {
        0
    }
}

pub open spec fn food_at(food: Seq<Coord>, x: int, y: int) -> bool {
    exists|i: int| 0 <= i < food.len() && (#[trigger] food[i]).x as int == x && food[i].y as int == y
}

pub open spec fn own_head_at(s: Seq<Battlesnake>, me_id: u32, x: int, y: int) -> bool {
    exists|j: int|
        0 <= j < s.len() && (#[trigger] s[j]).id == me_id && s[j].head.x as int == x
            && s[j].head.y as int == y
}

pub open spec fn opp_head_at(s: Seq<Battlesnake>, me_id: u32, x: int, y: int) -> bool {
    exists|j: int|
        0 <= j < s.len() && (#[trigger] s[j]).id != me_id && s[j].head.x as int == x
            && s[j].head.y as int == y
}

pub open spec fn own_body_at(s: Seq<Battlesnake>, me_id: u32, x: int, y: int) -> bool {
    exists|j: int, k: int|
        0 <= j < s.len() && 0 <= k < s[j].body@.len() && (#[trigger] s[j]).id == me_id && (
        #[trigger] s[j].body@[k]).x as int == x && s[j].body@[k].y as int == y
}

pub open spec fn opp_body_at(s: Seq<Battlesnake>, me_id: u32, x: int, y: int) -> bool {
    exists|j: int, k: int|
        0 <= j < s.len() && 0 <= k < s[j].body@.len() && (#[trigger] s[j]).id != me_id && (
        #[trigger] s[j].body@[k]).x as int == x && s[j].body@[k].y as int == y
}

/// The scalar at position `idx` of the feature vector: four zeros of the
/// global block, then per cell — in column-major cell order — the cell's
/// coordinates, a food flag, own-head, own-body, opponent-head and
/// opponent-body flags.
pub open spec fn feature_value(
    width: i32,
    height: u32,
    food: Seq<Coord>,
    snakes: Seq<Battlesnake>,
    me_id: u32,
    idx: int,
) -> int {
    if idx < 4 {
        0
    } else {
        let cell = (idx - 4) / 7;
        let r = (idx - 4) % 7;
        let x = cell / (height as int);
        let y = cell % (height as int);
        if r == 0 {
            x
        } else if r == 1 {
            y
        } else if r == 2 {
            b2i(food_at(food, x, y))
        } else if r == 3 {
            b2i(own_head_at(snakes, me_id, x, y))
        } else if r == 4 {
            b2i(own_body_at(snakes, me_id, x, y))
        } else if r == 5 {
            b2i(opp_head_at(snakes, me_id, x, y))
        } else {
            b2i(opp_body_at(snakes, me_id, x, y))
        }
    }
}

pub open spec fn spec_features(
    width: i32,
    height: u32,
    food: Seq<Coord>,
    snakes: Seq<Battlesnake>,
    me_id: u32,
) -> Seq<i64> {
    Seq::new(
        grid_input_count(width, height) as nat,
        |idx: int| feature_value(width, height, food, snakes, me_id, idx) as i64,
    )
}

// ---------------------------------------------------------------------------
// Action-selection specification
// ---------------------------------------------------------------------------

pub open spec fn max2(a: int, b: int) -> int {
    if a >= b {
        a
    } else {
        b
    }
}

/// The index of the selected action given the four scores: the first index
/// attaining the strictly highest score, in the fixed order up, down,
/// left, right — a later action displaces the current best only when its
/// score is strictly greater.
pub open spec fn spec_best_index(s0: int, s1: int, s2: int, s3: int) -> int {
    let m = max2(max2(s0, s1), max2(s2, s3));
    if s0 == m {
        0
    } else if s1 == m {
        1
    } else if s2 == m {
        2
    } else {
        3
    }
}

pub open spec fn index_action(i: int) -> MoveAction {
    if i == 0 {
        MoveAction::Up
    } else if i == 1 {
        MoveAction::Down
    } else if i == 2 {
        MoveAction::Left
    } else {
        MoveAction::Right
    }
}

/// The action a policy picks on a given board: evaluate the feature vector
/// and take the best-scoring action.
pub open spec fn spec_choose_action(
    net: NeuralNetwork,
    width: i32,
    height: u32,
    food: Seq<Coord>,
    snakes: Seq<Battlesnake>,
    me_id: u32,
) -> MoveAction {
    let feats = spec_features(width, height, food, snakes, me_id);
    index_action(
        spec_best_index(
            spec_eval(net.connections@, feats, 0),
            spec_eval(net.connections@, feats, 1),
            spec_eval(net.connections@, feats, 2),
            spec_eval(net.connections@, feats, 3),
        ),
    )
}

pub open spec fn action_str(a: MoveAction) -> Seq<char> {
    match a {
        MoveAction::Up => "up"@,
        MoveAction::Down => "down"@,
        MoveAction::Left => "left"@,
        MoveAction::Right => "right"@,
    }
}

/// A policy wired for this grid: well-formed, with one input per feature
/// and one output per cardinal action.
pub open spec fn network_ready(net: NeuralNetwork, width: i32, height: u32) -> bool {
    &&& wf_network(net)
    &&& net.input_count as int == grid_input_count(width, height)
    &&& net.output_count == 4
}

// ---------------------------------------------------------------------------
// Feature-vector construction
// ---------------------------------------------------------------------------

fn food_at_cell(food: &Vec<Coord>, x: i32, y: i32) -> (r: bool)
    ensures
        r == food_at(food@, x as int, y as int),
{
    let mut found = false;
    let mut i: usize = 0;
    while i < food.len()
        invariant
            i <= food@.len(),
            found == exists|k: int|
                0 <= k < i as int && (#[trigger] food@[k]).x as int == x as int && food@[k].y
                    as int == y as int,
        decreases food@.len() - i,
    {
        if food[i].x == x && food[i].y == y {
            found = true;
        }
        i = i + 1;
    }
    found
}

fn head_at_cell(snakes: &Vec<Battlesnake>, me_id: u32, own: bool, x: i32, y: i32) -> (r: bool)
    ensures
        own ==> r == own_head_at(snakes@, me_id, x as int, y as int),
        !own ==> r == opp_head_at(snakes@, me_id, x as int, y as int),
{
    let mut found = false;
    let mut j: usize = 0;
    while j < snakes.len()
        invariant
            j <= snakes@.len(),
            own ==> found == exists|k: int|
                0 <= k < j as int && (#[trigger] snakes@[k]).id == me_id && snakes@[k].head.x
                    as int == x as int && snakes@[k].head.y as int == y as int,
            !own ==> found == exists|k: int|
                0 <= k < j as int && (#[trigger] snakes@[k]).id != me_id && snakes@[k].head.x
                    as int == x as int && snakes@[k].head.y as int == y as int,
        decreases snakes@.len() - j,
    {
        let s = &snakes[j];
        if (s.id == me_id) == own && s.head.x == x && s.head.y == y {
            found = true;
        }
        j = j + 1;
    }
    found
}

fn body_at_cell(snakes: &Vec<Battlesnake>, me_id: u32, own: bool, x: i32, y: i32) -> (r: bool)
    ensures
        own ==> r == own_body_at(snakes@, me_id, x as int, y as int),
        !own ==> r == opp_body_at(snakes@, me_id, x as int, y as int),
{
    let ghost sv = snakes@;
    let mut found = false;
    let mut j: usize = 0;
    while j < snakes.len()
        invariant
            j <= sv.len(),
            snakes@ == sv,
            found == exists|jj: int, kk: int|
                0 <= jj < j as int && 0 <= kk < sv[jj].body@.len() && ((#[trigger] sv[jj]).id
                    == me_id) == own && (#[trigger] sv[jj].body@[kk]).x as int == x as int
                    && sv[jj].body@[kk].y as int == y as int,
        decreases sv.len() - j,
    {
        if (snakes[j].id == me_id) == own {
            let mut k: usize = 0;
            while k < snakes[j].body.len()
                invariant
                    k <= sv[j as int].body@.len(),
                    snakes@ == sv,
                    j < sv.len(),
                    (sv[j as int].id == me_id) == own,
                    found == ((exists|jj: int, kk: int|
                        0 <= jj < j as int && 0 <= kk < sv[jj].body@.len() && ((
                        #[trigger] sv[jj]).id == me_id) == own && (#[trigger] sv[jj].body@[kk]).x
                            as int == x as int && sv[jj].body@[kk].y as int == y as int) || (
                    exists|kk: int|
                        0 <= kk < k as int && (#[trigger] sv[j as int].body@[kk]).x as int == x
                            as int && sv[j as int].body@[kk].y as int == y as int)),
                decreases sv[j as int].body@.len() - k,
            {
                let b = snakes[j].body[k];
                if b.x == x && b.y == y {
                    found = true;
                }
                k = k + 1;
            }
            proof {
                let jn = j as int;
                if found {
                    if exists|jj: int, kk: int|
                        0 <= jj < jn && 0 <= kk < sv[jj].body@.len() && ((#[trigger] sv[jj]).id
                            == me_id) == own && (#[trigger] sv[jj].body@[kk]).x as int == x as int
                            && sv[jj].body@[kk].y as int == y as int {
                    } else {
                        let kk = choose|kk: int|
                            0 <= kk < k as int && (#[trigger] sv[j as int].body@[kk]).x as int == x
                                as int && sv[j as int].body@[kk].y as int == y as int;
                        assert(0 <= jn < jn + 1 && 0 <= kk < sv[jn].body@.len() && (sv[jn].id
                            == me_id) == own && sv[jn].body@[kk].x as int == x as int
                            && sv[jn].body@[kk].y as int == y as int);
                    }
                } else {
                    assert forall|jj: int, kk: int|
                        0 <= jj < jn + 1 && 0 <= kk < sv[jj].body@.len() && ((
                        #[trigger] sv[jj]).id == me_id) == own implies !((
                    #[trigger] sv[jj].body@[kk]).x as int == x as int && sv[jj].body@[kk].y
                        as int == y as int) by {
                        if jj < jn {
                        } else {
                            assert(k as int == sv[jn].body@.len());
                        }
                    }
                }
            }
        } else {
            proof {
                let jn = j as int;
                assert forall|jj: int, kk: int|
                    0 <= jj < jn + 1 && 0 <= kk < sv[jj].body@.len() && ((#[trigger] sv[jj]).id
                        == me_id) == own implies !((#[trigger] sv[jj].body@[kk]).x as int == x
                    as int && sv[jj].body@[kk].y as int == y as int) || found by {}
            }
        }
        j = j + 1;
    }
    found
}

proof fn lemma_div7(c: int, r: int)
    requires
        0 <= c,
        0 <= r < 7,
    ensures
        (7 * c + r) / 7 == c,
        (7 * c + r) % 7 == r,
{
    assert((7 * c + r) / 7 == c && (7 * c + r) % 7 == r) by (nonlinear_arith)
        requires
            0 <= c,
            0 <= r < 7,
    ;
}

proof fn lemma_divmod(x: int, y: int, h: int)
    requires
        0 <= x,
        0 <= y < h,
    ensures
        (x * h + y) / h == x,
        (x * h + y) % h == y,
{
    assert((x * h + y) / h == x && (x * h + y) % h == y) by (nonlinear_arith)
        requires
            0 <= x,
            0 <= y < h,
    ;
}

/// Builds the feature vector the policy evaluates: the four-value global
/// block, then the seven per-cell features for every grid cell.
pub fn build_features(board: &Board, me: &Battlesnake) -> (r: Vec<i64>)
    requires
        wf_dims(board.width, board.height),
    ensures
        r@ == spec_features(board.width, board.height, board.food@, board.snakes@, me.id),
        r@.len() == grid_input_count(board.width, board.height),
        values_bounded(r@),
{
    let ghost width = board.width;
    let ghost height = board.height;
    let ghost foodv = board.food@;
    let ghost snakesv = board.snakes@;
    let ghost me_id = me.id;
    proof {
        crate::game::lemma_dims_bound(width, height);
    }
    let mut feats: Vec<i64> = Vec::new();
    feats.push(0);
    feats.push(0);
    feats.push(0);
    feats.push(0);
    let mut x: i32 = 0;
    while x < board.width
        invariant
            0 <= x <= board.width,
            board.width == width,
            board.height == height,
            board.food@ == foodv,
            board.snakes@ == snakesv,
            me.id == me_id,
            wf_dims(width, height),
            width as int <= crate::constants::MAX_BOARD_CELLS as int,
            height as int <= crate::constants::MAX_BOARD_CELLS as int,
            feats@.len() == 4 + 7 * ((x as int) * (height as int)),
            forall|idx: int|
                0 <= idx < feats@.len() ==> #[trigger] feats@[idx] as int == feature_value(
                    width,
                    height,
                    foodv,
                    snakesv,
                    me_id,
                    idx,
                ),
            values_bounded(feats@),
        decreases width as int - x as int,
    {
        let mut y: u32 = 0;
        while y < board.height
            invariant
                0 <= y as int <= height as int,
                0 <= x < board.width,
                board.width == width,
                board.height == height,
                board.food@ == foodv,
                board.snakes@ == snakesv,
                me.id == me_id,
                wf_dims(width, height),
                width as int <= crate::constants::MAX_BOARD_CELLS as int,
                height as int <= crate::constants::MAX_BOARD_CELLS as int,
                feats@.len() == 4 + 7 * ((x as int) * (height as int) + (y as int)),
                forall|idx: int|
                    0 <= idx < feats@.len() ==> #[trigger] feats@[idx] as int == feature_value(
                        width,
                        height,
                        foodv,
                        snakesv,
                        me_id,
                        idx,
                    ),
                values_bounded(feats@),
            decreases height as int - y as int,
        {
            let ghost cell = (x as int) * (height as int) + (y as int);
            let ghost base = 4 + 7 * cell;
            proof {
                assert(0 <= (x as int) * (height as int) + (y as int)) by (nonlinear_arith)
                    requires
                        0 <= x as int,
                        0 <= y as int,
                        0 <= height as int,
                ;
                lemma_divmod(x as int, y as int, height as int);
            }
            let ci = CoordInfo {
                x,
                y: y as i32,
                food: food_at_cell(&board.food, x, y as i32),
                my_head: head_at_cell(&board.snakes, me.id, true, x, y as i32),
                my_body: body_at_cell(&board.snakes, me.id, true, x, y as i32),
                opponent_head: head_at_cell(&board.snakes, me.id, false, x, y as i32),
                opponent_body: body_at_cell(&board.snakes, me.id, false, x, y as i32),
            };
            feats.push(ci.x as i64);
            feats.push(ci.y as i64);
            feats.push(if ci.food { 1 } else { 0 });
            feats.push(if ci.my_head { 1 } else { 0 });
            feats.push(if ci.my_body { 1 } else { 0 });
            feats.push(if ci.opponent_head { 1 } else { 0 });
            feats.push(if ci.opponent_body { 1 } else { 0 });
            proof {
                lemma_div7(cell, 0);
                lemma_div7(cell, 1);
                lemma_div7(cell, 2);
                lemma_div7(cell, 3);
                lemma_div7(cell, 4);
                lemma_div7(cell, 5);
                lemma_div7(cell, 6);
                assert forall|idx: int| 0 <= idx < feats@.len() implies #[trigger] feats@[idx]
                    as int == feature_value(width, height, foodv, snakesv, me_id, idx) by {
                    if idx >= base {
                        let r = idx - base;
                        assert((idx - 4) == 7 * cell + r);
                    }
                }
            }
            y = y + 1;
        }
        proof {
            assert((x as int + 1) * (height as int) == (x as int) * (height as int) + (height
                as int)) by (nonlinear_arith);
        }
        x = x + 1;
    }
    proof {
        assert((x as int) * (height as int) == (width as int) * (height as int));
        assert(feats@ =~= spec_features(width, height, foodv, snakesv, me_id));
    }
    feats
}

// ---------------------------------------------------------------------------
// Move selection
// ---------------------------------------------------------------------------

/// Picks the action with the strictly highest score, ties resolved by the
/// fixed order up, down, left, right; the fallback to up is dead defence,
/// since the first action is always selected.
pub fn choose_action(board: &Board, me: &Battlesnake, net: &NeuralNetwork) -> (r: MoveAction)
    requires
        wf_dims(board.width, board.height),
        network_ready(*net, board.width, board.height),
    ensures
        r == spec_choose_action(
            *net,
            board.width,
            board.height,
            board.food@,
            board.snakes@,
            me.id,
        ),
{
    let feats = build_features(board, me);
    let scores = net.evaluate(&feats);
    let s0 = scores[0];
    let s1 = scores[1];
    let s2 = scores[2];
    let s3 = scores[3];
    // the first action is always selected; later ones displace it only
    // with a strictly greater score
    let mut chosen: Option<usize> = None;
    let mut best: i64 = 0;
    if chosen.is_none() || s0 > best {
        chosen = Some(0);
        best = s0;
    }
    if chosen.is_none() || s1 > best {
        chosen = Some(1);
        best = s1;
    }
    if chosen.is_none() || s2 > best {
        chosen = Some(2);
        best = s2;
    }
    if chosen.is_none() || s3 > best {
        chosen = Some(3);
        best = s3;
    }
    // dead defence: without a selection the move defaults to up
    let chosen: usize = match chosen {
        Some(i) => i,
        None => 0,
    };
    proof {
        assert(chosen as int == spec_best_index(s0 as int, s1 as int, s2 as int, s3 as int));
    }
    if chosen == 0 {
        MoveAction::Up
    } else if chosen == 1 {
        MoveAction::Down
    } else if chosen == 2 {
        MoveAction::Left
    } else {
        MoveAction::Right
    }
}

/// Returns the chosen move as its wire name. The gathered summary mirrors
/// what a remote host would be shown; selection itself depends only on the
/// policy and the feature vector.
pub fn choose_move<'a>(
    _game: &Game,
    _turn: &i32,
    board: &Board,
    me: &Battlesnake,
    neural_network: &mut NeuralNetwork,
) -> (r: &'a str)
    requires
        wf_dims(board.width, board.height),
        network_ready(*old(neural_network), board.width, board.height),
    ensures
        *final(neural_network) == *old(neural_network),
        r@ == action_str(
            spec_choose_action(
                *old(neural_network),
                board.width,
                board.height,
                board.food@,
                board.snakes@,
                me.id,
            ),
        ),
{
    let _game_info = GameInfo::gather(board, me);
    let action = choose_action(board, me, neural_network);
    match action {
        MoveAction::Up => "up",
        MoveAction::Down => "down",
        MoveAction::Left => "left",
        MoveAction::Right => "right",
    }
}

/// Builds a fresh policy for the grid, mutates it once, and asks it for a
/// move; the result is always one of the four wire names.
pub fn get_move<'a>(game: &Game, turn: &i32, board: &Board, me: &Battlesnake) -> (r: &'a str)
    requires
        wf_dims(board.width, board.height),
    ensures
        r@ == "up"@ || r@ == "down"@ || r@ == "left"@ || r@ == "right"@,
{
    let mut neural_network_manager = NeuralNetworkManager::new();
    let mut neural_network = NeuralNetwork::new(&mut neural_network_manager);
    crate::utils::build_neural_network(
        &mut neural_network,
        board.width,
        board.height,
        &mut neural_network_manager,
    );
    neural_network.mutate(&mut neural_network_manager);
    let r = choose_move(game, turn, board, me, &mut neural_network);
    proof {
        let a = spec_choose_action(
            neural_network,
            board.width,
            board.height,
            board.food@,
            board.snakes@,
            me.id,
        );
        assert(r@ == action_str(a));
        assert(action_str(a) == "up"@ || action_str(a) == "down"@ || action_str(a) == "left"@
            || action_str(a) == "right"@);
    }
    r
}

} // verus!
