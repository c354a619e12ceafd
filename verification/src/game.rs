use vstd::prelude::*;
use vstd::string::StringExecFns;
use crate::constants::{SNAKE_STARTING_LENGTH, STARTING_HEALTH};
use crate::logic::{choose_action, network_ready, spec_choose_action};
use crate::neural_network::NeuralNetwork;
use crate::utils::random_coord;
use crate::{
    all_snakes_wf, coord_in_bounds, heads_in_bounds, ids_distinct, wf_dims, wf_snake,
    Battlesnake, Board, Coord, Game, SimulationError,
};

verus! {

/// One independent match: a board, its metadata, and a turn counter.
pub struct GameWrapper {
    pub turn: i32,
    pub game: Game,
    pub board: Board,
}

/// Terminal classification of a single game, `Ongoing` while undecided.
#[derive(Debug, PartialEq, Eq, Structural, Clone, Copy)]
pub enum GameStepOutcome {
    Winner(u32),
    Tie,
    Ongoing,
}

/// What a grid cell holds, for the rendering path.
#[derive(Debug, Clone, Copy, PartialEq, Eq, Structural)]
pub enum CoordType {
    Head,
    BodyUp,
    BodyDown,
    BodyLeft,
    BodyRight,
    Food,
    Hazard,
    Empty,
}

/// One of the four cardinal actions an agent can take in a turn.
#[derive(Debug, Clone, Copy, PartialEq, Eq, Structural)]
pub enum MoveAction {
    Up,
    Down,
    Left,
    Right,
}

// ---------------------------------------------------------------------------
// Turn-step specifications
// ---------------------------------------------------------------------------

/// One agent after the age step: health down by one.
pub open spec fn age_one(s: Battlesnake) -> Battlesnake {
    Battlesnake { health: (s.health - 1) as i32, ..s }
}

/// The age step: every agent loses one health; agents at zero or below are
/// removed before anything else happens this turn.
pub open spec fn spec_age(s: Seq<Battlesnake>) -> Seq<Battlesnake>
    decreases s.len(),
{
    if s.len() == 0 {
        Seq::empty()
    } else {
        let rest = spec_age(s.drop_last());
        let a = age_one(s.last());
        if a.health > 0 {
            rest.push(a)
        } else {
            rest
        }
    }
}

/// How many food items sit on cell `c` (a food list may repeat a cell).
pub open spec fn count_food_at(food: Seq<Coord>, c: Coord) -> int
    decreases food.len(),
{
    if food.len() == 0 {
        0
    } else {
        count_food_at(food.drop_last(), c) + if food.last() == c {
            1int
        } else {
            0int
        }
    }
}

/// Whether no later agent shares agent `i`'s head cell; when heads collide
/// transiently, only the last agent on the cell is credited with the food.
pub open spec fn last_with_head(s: Seq<Battlesnake>, i: int) -> bool {
    forall|j: int| i < j < s.len() ==> (#[trigger] s[j]).head != s[i].head
}

/// Addition on a target length, stopping at the type's ceiling.
pub open spec fn sat_add_length(a: int, b: int) -> i32 {
    if a + b > i32::MAX as int {
        i32::MAX
    } else {
        (a + b) as i32
    }
}

/// One agent after the feed step.
pub open spec fn feed_one(s: Seq<Battlesnake>, food: Seq<Coord>, i: int) -> Battlesnake {
    let sn = s[i];
    if last_with_head(s, i) {
        Battlesnake { length: sat_add_length(sn.length as int, count_food_at(food, sn.head)), ..sn }
    } else {
        sn
    }
}

/// The feed step: every food cell that coincides with an agent's head
/// raises that agent's target length by one per food item; food itself is
/// not consumed.
pub open spec fn spec_feed(s: Seq<Battlesnake>, food: Seq<Coord>) -> Seq<Battlesnake> {
    Seq::new(s.len(), |i: int| feed_one(s, food, i))
}

/// The unit offset of an action; `up` decreases y, `down` increases it.
pub open spec fn action_dx(a: MoveAction) -> int {
    match a {
        MoveAction::Up => 0,
        MoveAction::Down => 0,
        MoveAction::Left => -1,
        MoveAction::Right => 1,
    }
}

pub open spec fn action_dy(a: MoveAction) -> int {
    match a {
        MoveAction::Up => -1,
        MoveAction::Down => 1,
        MoveAction::Left => 0,
        MoveAction::Right => 0,
    }
}

pub open spec fn moved_head(head: Coord, a: MoveAction) -> Coord {
    Coord { x: (head.x + action_dx(a)) as i32, y: (head.y + action_dy(a)) as i32 }
}

/// An agent keeps growing while its body is still more than one segment
/// short of the target length.
pub open spec fn grows(s: Battlesnake) -> bool {
    s.body@.len() as int + 1 < s.length as int
}

/// The body after a move: every segment shifts to the cell of the segment
/// (or head) ahead of it, and the vacated tail cell stays occupied exactly
/// while the agent is growing.
pub open spec fn moved_body_view(s: Battlesnake) -> Seq<Coord> {
    let full = seq![s.head] + s.body@;
    if grows(s) {
        full
    } else {
        full.drop_last()
    }
}

/// Relates one agent before and after the simultaneous move step.
pub open spec fn moved_snake(pre: Battlesnake, a: MoveAction, post: Battlesnake) -> bool {
    &&& post.id == pre.id
    &&& post.name == pre.name
    &&& post.health == pre.health
    &&& post.length == pre.length
    &&& post.head == moved_head(pre.head, a)
    &&& post.body@ == moved_body_view(pre)
}

/// Relates the whole agent list before and after the move step: all moves
/// are computed from the pre-move board, so they apply simultaneously.
pub open spec fn moves_applied(
    pre: Seq<Battlesnake>,
    actions: Seq<MoveAction>,
    post: Seq<Battlesnake>,
) -> bool {
    &&& post.len() == pre.len()
    &&& actions.len() == pre.len()
    &&& forall|i: int|
        0 <= i < pre.len() ==> #[trigger] moved_snake(pre[i], actions[i], post[i])
}

/// Whether another agent in `s` now shares agent `i`'s head cell.
pub open spec fn head_clash(s: Seq<Battlesnake>, i: int) -> bool {
    exists|j: int| 0 <= j < s.len() && j != i && (#[trigger] s[j]).head == s[i].head
}

pub open spec fn clash_marks(s: Seq<Battlesnake>) -> Seq<bool> {
    Seq::new(s.len(), |i: int| head_clash(s, i))
}

/// Whether agent `i`'s head sits on any body segment of any agent in `s`,
/// its own body included.
pub open spec fn body_hit(s: Seq<Battlesnake>, i: int) -> bool {
    exists|j: int, k: int|
        0 <= j < s.len() && 0 <= k < s[j].body@.len() && (#[trigger] s[j].body@[k]) == s[i].head
}

pub open spec fn body_marks(s: Seq<Battlesnake>) -> Seq<bool> {
    Seq::new(s.len(), |i: int| body_hit(s, i))
}

/// Keeps the agents whose heads lie inside the grid.
pub open spec fn spec_filter_in_bounds(s: Seq<Battlesnake>, width: i32, height: u32) -> Seq<
    Battlesnake,
>
    decreases s.len(),
{
    if s.len() == 0 {
        Seq::empty()
    } else {
        let rest = spec_filter_in_bounds(s.drop_last(), width, height);
        if coord_in_bounds(s.last().head, width, height) {
            rest.push(s.last())
        } else {
            rest
        }
    }
}

/// Keeps the agents whose mark is false; marks align by index.
pub open spec fn spec_filter_unmarked(s: Seq<Battlesnake>, m: Seq<bool>) -> Seq<Battlesnake>
    decreases s.len(),
{
    if s.len() == 0 {
        Seq::empty()
    } else {
        let rest = spec_filter_unmarked(s.drop_last(), m.drop_last());
        if m.len() == s.len() && m.last() {
            rest
        } else {
            rest.push(s.last())
        }
    }
}

/// The kill step, three passes in order: out-of-bounds heads leave first;
/// then every agent in any head-to-head coincidence leaves; then every
/// agent whose head sits on a remaining agent's body leaves.
pub open spec fn spec_kill(s: Seq<Battlesnake>, width: i32, height: u32) -> Seq<Battlesnake> {
    let s1 = spec_filter_in_bounds(s, width, height);
    let s2 = spec_filter_unmarked(s1, clash_marks(s1));
    spec_filter_unmarked(s2, body_marks(s2))
}

/// Outcome derived from the live-agent count after a turn.
pub open spec fn spec_outcome(s: Seq<Battlesnake>) -> GameStepOutcome {
    if s.len() == 1 {
        GameStepOutcome::Winner(s[0].id)
    } else if s.len() == 0 {
        GameStepOutcome::Tie
    } else {
        GameStepOutcome::Ongoing
    }
}

/// A step only rewrites the agent list; grid, food, hazards and metadata
/// stay as they were.
pub open spec fn same_except_snakes(pre: GameWrapper, post: GameWrapper) -> bool {
    &&& post.turn == pre.turn
    &&& post.game == pre.game
    &&& post.board.width == pre.board.width
    &&& post.board.height == pre.board.height
    &&& post.board.food == pre.board.food
    &&& post.board.hazards == pre.board.hazards
}

/// Every agent's identity resolves to a policy inside the population
/// window that starts at `base`.
pub open spec fn ids_in_range(s: Seq<Battlesnake>, base: int, count: int) -> bool {
    forall|i: int| 0 <= i < s.len() ==> base + ((#[trigger] s[i]).id as int) < count
}

/// Every policy in the population is wired for this grid.
pub open spec fn networks_ready(networks: Seq<NeuralNetwork>, width: i32, height: u32) -> bool {
    forall|i: int| 0 <= i < networks.len() ==> network_ready(#[trigger] networks[i], width, height)
}

/// The action each agent's own policy picks on the given board, in agent
/// order; selection is deterministic in the policy and the board.
pub open spec fn chosen_actions(
    networks: Seq<NeuralNetwork>,
    base: int,
    width: i32,
    height: u32,
    food: Seq<Coord>,
    snakes: Seq<Battlesnake>,
) -> Seq<MoveAction> {
    Seq::new(
        snakes.len(),
        |i: int| spec_choose_action(
            networks[base + snakes[i].id as int],
            width,
            height,
            food,
            snakes,
            snakes[i].id,
        ),
    )
}

/// How one full turn rewrites a match: age, feed, a simultaneous move by
/// each agent's chosen action, then the kill passes, and the turn counter
/// advances by one. Everything but the agents and the counter stays.
pub open spec fn spec_turn_result(
    pre: GameWrapper,
    networks: Seq<NeuralNetwork>,
    base: int,
    post: GameWrapper,
) -> bool {
    let aged = spec_age(pre.board.snakes@);
    let fed = spec_feed(aged, pre.board.food@);
    let actions = chosen_actions(
        networks,
        base,
        pre.board.width,
        pre.board.height,
        pre.board.food@,
        fed,
    );
    &&& post.game == pre.game
    &&& post.board.width == pre.board.width
    &&& post.board.height == pre.board.height
    &&& post.board.food == pre.board.food
    &&& post.board.hazards == pre.board.hazards
    &&& post.turn == pre.turn + 1
    &&& exists|moved: Seq<Battlesnake>|
        #[trigger] moves_applied(fed, actions, moved) && post.board.snakes@ == spec_kill(
            moved,
            pre.board.width,
            pre.board.height,
        )
}

/// The match `post` arises from `pre` by exactly `n` full turns, each of
/// them the spec'd turn rewrite against this population window.
pub open spec fn turns_reachable(
    pre: GameWrapper,
    networks: Seq<NeuralNetwork>,
    base: int,
    post: GameWrapper,
    n: nat,
) -> bool
    decreases n,
{
    if n == 0 {
        post == pre
    } else {
        exists|mid: GameWrapper|
            turns_reachable(pre, networks, base, mid, (n - 1) as nat)
                && #[trigger] spec_turn_result(mid, networks, base, post)
    }
}

/// What holds of a match between turns.
pub open spec fn wf_wrapper(g: GameWrapper) -> bool {
    &&& wf_dims(g.board.width, g.board.height)
    &&& all_snakes_wf(g.board.snakes@)
    &&& ids_distinct(g.board.snakes@)
    &&& heads_in_bounds(g.board.snakes@, g.board.width, g.board.height)
    &&& 0 <= g.turn
}

// ---------------------------------------------------------------------------
// Small sequence facts the loop proofs lean on
// ---------------------------------------------------------------------------

pub proof fn lemma_take_succ<A>(s: Seq<A>, i: int)
    requires
        0 <= i < s.len(),
    ensures
        s.take(i + 1).drop_last() == s.take(i),
        s.take(i + 1).last() == s[i],
{
    assert(s.take(i + 1).drop_last() =~= s.take(i));
}

pub proof fn lemma_dims_bound(width: i32, height: u32)
    requires
        wf_dims(width, height),
    ensures
        width as int <= crate::constants::MAX_BOARD_CELLS as int,
        height as int <= crate::constants::MAX_BOARD_CELLS as int,
{
    let w = width as int;
    let h = height as int;
    let m = crate::constants::MAX_BOARD_CELLS as int;
    assert(w <= m && h <= m) by (nonlinear_arith)
        requires
            1 <= w,
            1 <= h,
            w * h <= m,
    ;
}

impl GameWrapper {
    /// A fresh match: agents with empty bodies on random in-bounds cells,
    /// one food item more than there are agents, turn counter at zero.
    pub fn new(width: i32, height: u32, snakes_count: u32) -> (r: Self)
        requires
            wf_dims(width, height),
            snakes_count < u32::MAX,
        ensures
            r.turn == 0,
            r.board.width == width,
            r.board.height == height,
            r.board.snakes@.len() == snakes_count as int,
            forall|i: int|
                0 <= i < r.board.snakes@.len() ==> {
                    let s = #[trigger] r.board.snakes@[i];
                    &&& s.id == i as u32
                    &&& s.health == STARTING_HEALTH
                    &&& s.body@.len() == 0
                    &&& s.length == SNAKE_STARTING_LENGTH
                },
            r.board.food@.len() == snakes_count as int + 1,
            forall|i: int|
                0 <= i < r.board.food@.len() ==> coord_in_bounds(
                    #[trigger] r.board.food@[i],
                    width,
                    height,
                ),
            r.board.hazards@.len() == 0,
            wf_wrapper(r),
    {
        proof {
            lemma_dims_bound(width, height);
        }
        let mut snakes: Vec<Battlesnake> = Vec::new();
        let mut i: u32 = 0;
        while i < snakes_count
            invariant
                i <= snakes_count,
                wf_dims(width, height),
                height as int <= i32::MAX as int,
                snakes@.len() == i as int,
                forall|k: int|
                    0 <= k < snakes@.len() ==> {
                        let s = #[trigger] snakes@[k];
                        &&& s.id == k as u32
                        &&& s.health == STARTING_HEALTH
                        &&& s.body@.len() == 0
                        &&& s.length == SNAKE_STARTING_LENGTH
                        &&& coord_in_bounds(s.head, width, height)
                    },
            decreases snakes_count - i,
        {
            let head = random_coord(width, height);
            snakes.push(
                Battlesnake {
                    id: i,
                    name: String::from_str("snake"),
                    health: STARTING_HEALTH,
                    body: Vec::new(),
                    head,
                    length: SNAKE_STARTING_LENGTH,
                },
            );
            i = i + 1;
        }
        let mut food: Vec<Coord> = Vec::new();
        let mut f: u32 = 0;
        while f < snakes_count + 1
            invariant
                f <= snakes_count + 1,
                snakes_count < u32::MAX,
                wf_dims(width, height),
                height as int <= i32::MAX as int,
                food@.len() == f as int,
                forall|k: int|
                    0 <= k < food@.len() ==> coord_in_bounds(#[trigger] food@[k], width, height),
            decreases snakes_count + 1 - f,
        {
            food.push(random_coord(width, height));
            f = f + 1;
        }
        GameWrapper {
            turn: 0,
            game: Game { id: String::from_str("0"), ruleset: Vec::new(), timeout: 1000 },
            board: Board { height, width, food, snakes, hazards: Vec::new() },
        }
    }

    /// The age step: every live agent's health drops by exactly one, and
    /// agents whose health reaches zero or below starve off the board.
    pub fn age_snakes(&mut self)
        requires
            all_snakes_wf(old(self).board.snakes@),
        ensures
            final(self).board.snakes@ == spec_age(old(self).board.snakes@),
            same_except_snakes(*old(self), *final(self)),
    {
        let mut work: Vec<Battlesnake> = Vec::new();
        core::mem::swap(&mut work, &mut self.board.snakes);
        let ghost orig = work@;
        let total: usize = work.len();
        let mut result: Vec<Battlesnake> = Vec::new();
        let mut i: usize = 0;
        while work.len() > 0
            invariant
                orig.len() == total as int,
                i + work@.len() == orig.len(),
                work@ == orig.skip(i as int),
                result@ == spec_age(orig.take(i as int)),
                all_snakes_wf(orig),
            decreases work@.len(),
        {
            proof {
                lemma_take_succ(orig, i as int);
                assert(orig.skip(i as int)[0] == orig[i as int]);
            }
            let mut s = work.remove(0);
            proof {
                assert(wf_snake(orig[i as int]));
                assert(work@ =~= orig.skip(i as int + 1));
            }
            s.health = s.health - 1;
            if s.health > 0 {
                result.push(s);
            }
            i = i + 1;
        }
        proof {
            assert(orig.take(orig.len() as int) =~= orig);
        }
        self.board.snakes = result;
    }

    /// The feed step: each food item on an agent's head cell raises that
    /// agent's target length by one (stopping only at the type's ceiling);
    /// food stays on the board.
    pub fn feed_snakes(&mut self)
        ensures
            final(self).board.snakes@ == spec_feed(
                old(self).board.snakes@,
                old(self).board.food@,
            ),
            same_except_snakes(*old(self), *final(self)),
    {
        let mut work: Vec<Battlesnake> = Vec::new();
        core::mem::swap(&mut work, &mut self.board.snakes);
        let ghost orig = work@;
        let ghost foodv = self.board.food@;
        let total: usize = work.len();
        let mut result: Vec<Battlesnake> = Vec::new();
        let mut i: usize = 0;
        while work.len() > 0
            invariant
                orig.len() == total as int,
                i + work@.len() == orig.len(),
                work@ == orig.skip(i as int),
                self.board.food@ == foodv,
                result@ == spec_feed(orig, foodv).take(i as int),
                same_except_snakes(*old(self), *self),
                self.board.snakes@.len() == 0,
            decreases work@.len(),
        {
            proof {
                assert(orig.skip(i as int)[0] == orig[i as int]);
            }
            let mut s = work.remove(0);
            proof {
                assert(work@ =~= orig.skip(i as int + 1));
            }
            // An agent is credited only if no later agent shares its head.
            let mut is_last = true;
            let mut j: usize = 0;
            while j < work.len()
                invariant
                    j <= work@.len(),
                    (i as int) < orig.len(),
                    work@ == orig.skip(i as int + 1),
                    i + 1 + work@.len() == orig.len(),
                    s == orig[i as int],
                    is_last == forall|jj: int|
                        0 <= jj < j as int ==> (#[trigger] work@[jj]).head != orig[i as int].head,
                decreases work@.len() - j,
            {
                if work[j].head.x == s.head.x && work[j].head.y == s.head.y {
                    is_last = false;
                }
                j = j + 1;
            }
            proof {
                if is_last {
                    assert forall|jj: int| (i as int) < jj < orig.len() implies (
                    #[trigger] orig[jj]).head != orig[i as int].head by {
                        let m = jj - (i as int) - 1;
                        assert(work@[m] == orig.skip(i as int + 1)[m]);
                        assert(work@[m] == orig[jj]);
                    }
                    assert(last_with_head(orig, i as int));
                } else {
                    let m = choose|m: int|
                        0 <= m < work@.len() && (#[trigger] work@[m]).head == orig[i as int].head;
                    assert(orig.skip(i as int + 1)[m] == orig[m + i as int + 1]);
                    assert((orig[m + i as int + 1]).head == orig[i as int].head);
                    assert(!last_with_head(orig, i as int));
                }
                assert(is_last == last_with_head(orig, i as int));
            }
            if is_last {
                let ghost pre_length = s.length;
                let mut k: usize = 0;
                while k < self.board.food.len()
                    invariant
                        k <= self.board.food@.len(),
                        (i as int) < orig.len(),
                        self.board.food@ == foodv,
                        s.head == orig[i as int].head,
                        s.id == orig[i as int].id,
                        s.name == orig[i as int].name,
                        s.health == orig[i as int].health,
                        s.body == orig[i as int].body,
                        pre_length == orig[i as int].length,
                        s.length == sat_add_length(
                            pre_length as int,
                            count_food_at(foodv.take(k as int), orig[i as int].head),
                        ),
                    decreases self.board.food@.len() - k,
                {
                    proof {
                        lemma_take_succ(foodv, k as int);
                        lemma_count_food_nonneg(foodv.take(k as int), orig[i as int].head);
                    }
                    let fc = self.board.food[k];
                    if fc.x == s.head.x && fc.y == s.head.y {
                        if s.length < i32::MAX {
                            s.length = s.length + 1;
                        }
                    }
                    k = k + 1;
                }
                proof {
                    assert(foodv.take(foodv.len() as int) =~= foodv);
                }
            }
            proof {
                assert(s == feed_one(orig, foodv, i as int));
                lemma_take_succ(spec_feed(orig, foodv), i as int);
            }
            result.push(s);
            i = i + 1;
        }
        proof {
            assert(spec_feed(orig, foodv).take(orig.len() as int) =~= spec_feed(orig, foodv));
        }
        self.board.snakes = result;
    }

    /// The move step: all offsets are applied against the pre-move board,
    /// so every agent moves simultaneously; each body shifts forward and
    /// the vacated tail cell stays occupied only while the agent grows.
    pub fn apply_actions(&mut self, actions: &Vec<MoveAction>)
        requires
            actions@.len() == old(self).board.snakes@.len(),
            all_snakes_wf(old(self).board.snakes@),
            heads_in_bounds(
                old(self).board.snakes@,
                old(self).board.width,
                old(self).board.height,
            ),
            wf_dims(old(self).board.width, old(self).board.height),
        ensures
            moves_applied(old(self).board.snakes@, actions@, final(self).board.snakes@),
            same_except_snakes(*old(self), *final(self)),
    {
        proof {
            lemma_dims_bound(self.board.width, self.board.height);
        }
        let ghost width = self.board.width;
        let ghost height = self.board.height;
        let mut work: Vec<Battlesnake> = Vec::new();
        core::mem::swap(&mut work, &mut self.board.snakes);
        let ghost orig = work@;
        let total: usize = work.len();
        let mut result: Vec<Battlesnake> = Vec::new();
        let mut i: usize = 0;
        while work.len() > 0
            invariant
                orig.len() == total as int,
                i + work@.len() == orig.len(),
                work@ == orig.skip(i as int),
                actions@.len() == orig.len(),
                all_snakes_wf(orig),
                heads_in_bounds(orig, width, height),
                width as int <= crate::constants::MAX_BOARD_CELLS as int,
                height as int <= crate::constants::MAX_BOARD_CELLS as int,
                result@.len() == i as int,
                forall|k: int|
                    0 <= k < i as int ==> #[trigger] moved_snake(
                        orig[k],
                        actions@[k],
                        result@[k],
                    ),
            decreases work@.len(),
        {
            proof {
                assert(orig.skip(i as int)[0] == orig[i as int]);
                assert(wf_snake(orig[i as int]));
                assert(coord_in_bounds(orig[i as int].head, width, height));
            }
            let mut s = work.remove(0);
            proof {
                assert(work@ =~= orig.skip(i as int + 1));
            }
            let a = actions[i];
            let (dx, dy): (i32, i32) = match a {
                MoveAction::Up => (0, -1),
                MoveAction::Down => (0, 1),
                MoveAction::Left => (-1, 0),
                MoveAction::Right => (1, 0),
            };
            let old_head = s.head;
            s.head = Coord { x: old_head.x + dx, y: old_head.y + dy };
            let mut new_body: Vec<Coord> = Vec::new();
            new_body.push(old_head);
            let mut k: usize = 0;
            while k < s.body.len()
                invariant
                    k <= s.body@.len(),
                    s.body == orig[i as int].body,
                    new_body@ == seq![orig[i as int].head] + s.body@.take(k as int),
                decreases s.body@.len() - k,
            {
                let c = s.body[k];
                new_body.push(c);
                proof {
                    assert(s.body@.take(k as int + 1) =~= s.body@.take(k as int).push(
                        s.body@[k as int],
                    ));
                    assert(new_body@ =~= seq![orig[i as int].head] + s.body@.take(k as int + 1));
                }
                k = k + 1;
            }
            proof {
                assert(s.body@.take(s.body@.len() as int) =~= s.body@);
            }
            let growing = (s.body.len() as i32 + 1) < s.length;
            if !growing {
                new_body.pop();
                proof {
                    assert(new_body@ =~= (seq![orig[i as int].head] + orig[i as int].body@)
                        .drop_last());
                }
            }
            s.body = new_body;
            proof {
                assert(moved_snake(orig[i as int], actions@[i as int], s));
            }
            result.push(s);
            i = i + 1;
        }
        self.board.snakes = result;
    }

    /// The kill step: three passes over the post-move board, in order —
    /// out-of-bounds heads, mutual head-to-head coincidences, then heads on
    /// any remaining agent's body (their own included).
    pub fn kill_snakes(&mut self)
        requires
            wf_dims(old(self).board.width, old(self).board.height),
        ensures
            final(self).board.snakes@ == spec_kill(
                old(self).board.snakes@,
                old(self).board.width,
                old(self).board.height,
            ),
            same_except_snakes(*old(self), *final(self)),
    {
        proof {
            lemma_dims_bound(self.board.width, self.board.height);
        }
        let ghost width = self.board.width;
        let ghost height = self.board.height;

        // Pass a: out-of-bounds heads.
        let mut work: Vec<Battlesnake> = Vec::new();
        core::mem::swap(&mut work, &mut self.board.snakes);
        let ghost orig = work@;
        let total: usize = work.len();
        let mut kept: Vec<Battlesnake> = Vec::new();
        let mut i: usize = 0;
        while work.len() > 0
            invariant
                orig.len() == total as int,
                i + work@.len() == orig.len(),
                work@ == orig.skip(i as int),
                kept@ == spec_filter_in_bounds(orig.take(i as int), width, height),
                self.board.width == width,
                self.board.height == height,
                wf_dims(width, height),
                height as int <= i32::MAX as int,
            decreases work@.len(),
        {
            proof {
                lemma_take_succ(orig, i as int);
                assert(orig.skip(i as int)[0] == orig[i as int]);
            }
            let s = work.remove(0);
            proof {
                assert(work@ =~= orig.skip(i as int + 1));
            }
            if !crate::utils::is_out_of_bounds(s.head.x, s.head.y, self.board.width, self.board.height) {
                kept.push(s);
            }
            i = i + 1;
        }
        proof {
            assert(orig.take(orig.len() as int) =~= orig);
        }
        let s1 = kept;
        let ghost s1v = s1@;

        // Pass b: mutual head-to-head coincidences.
        let mut marks: Vec<bool> = Vec::new();
        let mut i: usize = 0;
        while i < s1.len()
            invariant
                i <= s1@.len(),
                s1@ == s1v,
                marks@.len() == i as int,
                forall|k: int| 0 <= k < i as int ==> marks@[k] == head_clash(s1v, k),
            decreases s1@.len() - i,
        {
            let mut found = false;
            let mut j: usize = 0;
            while j < s1.len()
                invariant
                    j <= s1@.len(),
                    s1@ == s1v,
                    i < s1v.len(),
                    found == exists|jj: int|
                        0 <= jj < j as int && jj != i as int && (#[trigger] s1v[jj]).head
                            == s1v[i as int].head,
                decreases s1@.len() - j,
            {
                if j != i && s1[j].head.x == s1[i].head.x && s1[j].head.y == s1[i].head.y {
                    found = true;
                }
                j = j + 1;
            }
            marks.push(found);
            i = i + 1;
        }
        proof {
            assert(marks@ =~= clash_marks(s1v));
        }
        let s2 = filter_by_marks(s1, &marks);
        let ghost s2v = s2@;

        // Pass c: heads on any remaining agent's body.
        let mut marks2: Vec<bool> = Vec::new();
        let mut i: usize = 0;
        while i < s2.len()
            invariant
                i <= s2@.len(),
                s2@ == s2v,
                marks2@.len() == i as int,
                forall|k: int| 0 <= k < i as int ==> marks2@[k] == body_hit(s2v, k),
            decreases s2@.len() - i,
        {
            let mut found = false;
            let mut j: usize = 0;
            while j < s2.len()
                invariant
                    j <= s2@.len(),
                    s2@ == s2v,
                    i < s2v.len(),
                    found == exists|jj: int, kk: int|
                        0 <= jj < j as int && 0 <= kk < s2v[jj].body@.len()
                            && (#[trigger] s2v[jj].body@[kk]) == s2v[i as int].head,
                decreases s2@.len() - j,
            {
                let mut k: usize = 0;
                while k < s2[j].body.len()
                    invariant
                        k <= s2v[j as int].body@.len(),
                        s2@ == s2v,
                        i < s2v.len(),
                        j < s2v.len(),
                        found == ((exists|jj: int, kk: int|
                            0 <= jj < j as int && 0 <= kk < s2v[jj].body@.len()
                                && (#[trigger] s2v[jj].body@[kk]) == s2v[i as int].head) || (
                        exists|kk: int|
                            0 <= kk < k as int && (#[trigger] s2v[j as int].body@[kk])
                                == s2v[i as int].head)),
                    decreases s2v[j as int].body@.len() - k,
                {
                    let b = s2[j].body[k];
                    if b.x == s2[i].head.x && b.y == s2[i].head.y {
                        found = true;
                    }
                    k = k + 1;
                }
                proof {
                    let jn = j as int;
                    if found {
                        if exists|jj: int, kk: int|
                            0 <= jj < jn && 0 <= kk < s2v[jj].body@.len() && (
                            #[trigger] s2v[jj].body@[kk]) == s2v[i as int].head {
                            let (jj, kk): (int, int) = choose|jj: int, kk: int|
                                0 <= jj < jn && 0 <= kk < s2v[jj].body@.len() && (
                                #[trigger] s2v[jj].body@[kk]) == s2v[i as int].head;
                            assert(0 <= jj < jn + 1 && 0 <= kk < s2v[jj].body@.len()
                                && s2v[jj].body@[kk] == s2v[i as int].head);
                        } else {
                            let kk = choose|kk: int|
                                0 <= kk < k as int && (#[trigger] s2v[j as int].body@[kk])
                                    == s2v[i as int].head;
                            assert(0 <= jn < jn + 1 && 0 <= kk < s2v[jn].body@.len()
                                && s2v[jn].body@[kk] == s2v[i as int].head);
                        }
                        assert(exists|jj: int, kk: int|
                            0 <= jj < jn + 1 && 0 <= kk < s2v[jj].body@.len() && (
                            #[trigger] s2v[jj].body@[kk]) == s2v[i as int].head);
                    } else {
                        assert forall|jj: int, kk: int|
                            0 <= jj < jn + 1 && 0 <= kk < s2v[jj].body@.len() implies (
                        #[trigger] s2v[jj].body@[kk]) != s2v[i as int].head by {
                            if jj < jn {
                                assert(!(exists|jj2: int, kk2: int|
                                    0 <= jj2 < jn && 0 <= kk2 < s2v[jj2].body@.len() && (
                                    #[trigger] s2v[jj2].body@[kk2]) == s2v[i as int].head));
                            } else {
                                assert(jj == j as int);
                                assert(k as int == s2v[j as int].body@.len());
                                assert(!(exists|kk2: int|
                                    0 <= kk2 < k as int && (#[trigger] s2v[j as int].body@[kk2])
                                        == s2v[i as int].head));
                                assert(s2v[jj].body@[kk] == s2v[j as int].body@[kk]);
                            }
                        }
                    }
                }
                j = j + 1;
            }
            marks2.push(found);
            i = i + 1;
        }
        proof {
            assert(marks2@ =~= body_marks(s2v));
        }
        let s3 = filter_by_marks(s2, &marks2);
        self.board.snakes = s3;
    }

    /// The terminal classification after a turn: one agent left is a win,
    /// none is a tie, more keeps the game ongoing.
    pub fn outcome(&self) -> (r: GameStepOutcome)
        ensures
            r == spec_outcome(self.board.snakes@),
    {
        if self.board.snakes.len() == 1 {
            GameStepOutcome::Winner(self.board.snakes[0].id)
        } else if self.board.snakes.len() == 0 {
            GameStepOutcome::Tie
        } else {
            GameStepOutcome::Ongoing
        }
    }

    /// Whether every agent on the board maps to a policy inside the
    /// population window starting at `base`.
    fn validate_ids(&self, count: usize, base: usize) -> (r: bool)
        ensures
            r == ids_in_range(self.board.snakes@, base as int, count as int),
    {
        let mut ok = true;
        let mut i: usize = 0;
        while i < self.board.snakes.len()
            invariant
                i <= self.board.snakes@.len(),
                ok == forall|k: int|
                    0 <= k < i as int ==> base as int + ((#[trigger] self.board.snakes@[k]).id
                        as int) < count as int,
            decreases self.board.snakes@.len() - i,
        {
            let id = self.board.snakes[i].id;
            if base >= count || !((id as u64) < ((count - base) as u64)) {
                ok = false;
            }
            i = i + 1;
        }
        ok
    }

    /// Asks each agent's own policy for its action on the current board;
    /// all actions are gathered before any of them is applied.
    pub fn choose_actions(&self, networks: &Vec<NeuralNetwork>, base: usize) -> (r: Vec<
        MoveAction,
    >)
        requires
            wf_dims(self.board.width, self.board.height),
            networks_ready(networks@, self.board.width, self.board.height),
            ids_in_range(self.board.snakes@, base as int, networks@.len() as int),
        ensures
            r@ == chosen_actions(
                networks@,
                base as int,
                self.board.width,
                self.board.height,
                self.board.food@,
                self.board.snakes@,
            ),
    {
        let ghost expect = chosen_actions(
            networks@,
            base as int,
            self.board.width,
            self.board.height,
            self.board.food@,
            self.board.snakes@,
        );
        let mut actions: Vec<MoveAction> = Vec::new();
        let mut i: usize = 0;
        while i < self.board.snakes.len()
            invariant
                i <= self.board.snakes@.len(),
                wf_dims(self.board.width, self.board.height),
                networks_ready(networks@, self.board.width, self.board.height),
                ids_in_range(self.board.snakes@, base as int, networks@.len() as int),
                expect == chosen_actions(
                    networks@,
                    base as int,
                    self.board.width,
                    self.board.height,
                    self.board.food@,
                    self.board.snakes@,
                ),
                actions@.len() == i as int,
                forall|k: int| 0 <= k < i as int ==> #[trigger] actions@[k] == expect[k],
            decreases self.board.snakes@.len() - i,
        {
            let count = networks.len();
            let id = self.board.snakes[i].id;
            proof {
                assert(base as int + (id as int) < count as int);
            }
            let idx = base + id as usize;
            let a = choose_action(&self.board, &self.board.snakes[i], &networks[idx]);
            actions.push(a);
            i = i + 1;
        }
        proof {
            assert(actions@ =~= expect);
        }
        actions
    }

    /// The propagate step: every remaining agent's policy is asked for its
    /// action against the same pre-move board, and only then are all the
    /// offsets applied, so the moves are simultaneous.
    pub fn propagate_snakes(&mut self, networks: &Vec<NeuralNetwork>, base: usize)
        requires
            wf_dims(old(self).board.width, old(self).board.height),
            all_snakes_wf(old(self).board.snakes@),
            heads_in_bounds(
                old(self).board.snakes@,
                old(self).board.width,
                old(self).board.height,
            ),
            networks_ready(networks@, old(self).board.width, old(self).board.height),
            ids_in_range(old(self).board.snakes@, base as int, networks@.len() as int),
        ensures
            moves_applied(
                old(self).board.snakes@,
                chosen_actions(
                    networks@,
                    base as int,
                    old(self).board.width,
                    old(self).board.height,
                    old(self).board.food@,
                    old(self).board.snakes@,
                ),
                final(self).board.snakes@,
            ),
            same_except_snakes(*old(self), *final(self)),
    {
        let actions = self.choose_actions(networks, base);
        self.apply_actions(&actions);
    }

    /// One full turn in the required order: age, feed, choose and apply all
    /// moves simultaneously, run the kill passes, advance the counter, and
    /// classify the result. If some agent's identity maps to no policy the
    /// board is left untouched and the error says so.
    pub fn turn_step(&mut self, networks: &Vec<NeuralNetwork>, base: usize) -> (r: Result<
        GameStepOutcome,
        SimulationError,
    >)
        requires
            wf_wrapper(*old(self)),
            networks_ready(networks@, old(self).board.width, old(self).board.height),
            old(self).turn < i32::MAX,
        ensures
            r is Ok <==> ids_in_range(
                old(self).board.snakes@,
                base as int,
                networks@.len() as int,
            ),
            r matches Ok(o) ==> {
                &&& spec_turn_result(*old(self), networks@, base as int, *final(self))
                &&& o == spec_outcome(final(self).board.snakes@)
                &&& wf_wrapper(*final(self))
                &&& forall|i: int|
                    0 <= i < final(self).board.snakes@.len() ==> has_id(
                        old(self).board.snakes@,
                        (#[trigger] final(self).board.snakes@[i]).id,
                    )
            },
            r matches Err(e) ==> e == SimulationError::UnknownAgentId && *final(self) == *old(
                self,
            ),
    {
        if !self.validate_ids(networks.len(), base) {
            return Err(SimulationError::UnknownAgentId);
        }
        let ghost orig = self.board.snakes@;
        let ghost foodv = self.board.food@;
        let ghost width = self.board.width;
        let ghost height = self.board.height;
        proof {
            lemma_age_preserves(orig, width, height);
            lemma_feed_preserves(spec_age(orig), foodv, width, height);
        }
        self.age_snakes();
        self.feed_snakes();
        let ghost fed = self.board.snakes@;
        proof {
            assert forall|i: int| 0 <= i < fed.len() implies base as int + ((
            #[trigger] fed[i]).id as int) < networks@.len() as int by {
                assert(fed[i].id == spec_age(orig)[i].id);
                lemma_age_index(orig, i);
                let j = choose|j: int|
                    0 <= j < orig.len() && #[trigger] orig[j] == orig[j] && spec_age(orig)[i]
                        == age_one(orig[j]) && age_one(orig[j]).health > 0;
                assert(base as int + (orig[j].id as int) < networks@.len() as int);
            }
        }
        self.propagate_snakes(networks, base);
        let ghost actions = chosen_actions(
            networks@,
            base as int,
            width,
            height,
            foodv,
            fed,
        );
        let ghost moved = self.board.snakes@;
        proof {
            lemma_moves_preserve(fed, actions, moved);
        }
        self.kill_snakes();
        proof {
            lemma_kill_preserves(moved, width, height);
        }
        self.turn = self.turn + 1;
        proof {
            assert(moves_applied(fed, actions, moved) && self.board.snakes@ == spec_kill(
                moved,
                width,
                height,
            ));
            assert forall|i: int| 0 <= i < self.board.snakes@.len() implies has_id(
                orig,
                (#[trigger] self.board.snakes@[i]).id,
            ) by {
                assert(has_id(moved, self.board.snakes@[i].id));
                let j = choose|j: int|
                    0 <= j < moved.len() && (#[trigger] moved[j]).id == self.board.snakes@[i].id;
                assert(moved[j].id == fed[j].id);
                assert(fed[j].id == spec_age(orig)[j].id);
                lemma_age_index(orig, j);
                let j2 = choose|j2: int|
                    0 <= j2 < orig.len() && #[trigger] orig[j2] == orig[j2] && spec_age(orig)[j]
                        == age_one(orig[j2]) && age_one(orig[j2]).health > 0;
                assert(orig[j2].id == self.board.snakes@[i].id);
            }
        }
        Ok(self.outcome())
    }

    /// Drives the match turn by turn until a winner or a tie comes out. A
    /// match that is still undecided when the turn counter reaches its
    /// ceiling stops with a distinct error instead of silent truncation.
    pub fn play_for_outcome(&mut self, networks: &Vec<NeuralNetwork>, base: usize) -> (r: Result<
        GameStepOutcome,
        SimulationError,
    >)
        requires
            wf_wrapper(*old(self)),
            networks_ready(networks@, old(self).board.width, old(self).board.height),
            ids_in_range(old(self).board.snakes@, base as int, networks@.len() as int),
        ensures
            r matches Ok(o) ==> (o is Winner || o is Tie),
            r matches Ok(o) ==> o == spec_outcome(final(self).board.snakes@),
            r matches Ok(o) ==> (o matches GameStepOutcome::Winner(id) ==> base as int + (id
                as int) < networks@.len() as int),
            r matches Ok(o) ==> (o is Winner ==> old(self).board.snakes@.len() > 0),
            r is Ok ==> exists|n: nat|
                #[trigger] turns_reachable(*old(self), networks@, base as int, *final(self), n),
            r matches Err(e) ==> e == SimulationError::NonterminalGameResult && final(self).turn
                == i32::MAX,
            old(self).board.snakes@.len() == 0 && old(self).turn < i32::MAX ==> r == Ok::<
                GameStepOutcome,
                SimulationError,
            >(GameStepOutcome::Tie),
    {
        proof {
            assert(turns_reachable(*old(self), networks@, base as int, *self, 0));
        }
        loop
            invariant
                wf_wrapper(*self),
                self.board.width == old(self).board.width,
                self.board.height == old(self).board.height,
                networks_ready(networks@, self.board.width, self.board.height),
                ids_in_range(self.board.snakes@, base as int, networks@.len() as int),
                old(self).board.snakes@.len() == 0 ==> (self.board.snakes@.len() == 0
                    && self.turn == old(self).turn),
                exists|n: nat|
                    #[trigger] turns_reachable(*old(self), networks@, base as int, *self, n),
            decreases i32::MAX as int - self.turn as int,
        {
            if self.turn == i32::MAX {
                return Err(SimulationError::NonterminalGameResult);
            }
            let ghost prev = *self;
            let ghost pre = self.board.snakes@;
            let step = self.turn_step(networks, base);
            let outcome = match step {
                Ok(o) => o,
                Err(_) => {
                    proof {
                        assert(false);
                    }
                    return Err(SimulationError::NonterminalGameResult);
                },
            };
            proof {
                assert forall|i: int| 0 <= i < self.board.snakes@.len() implies base as int + ((
                #[trigger] self.board.snakes@[i]).id as int) < networks@.len() as int by {
                    assert(has_id(pre, self.board.snakes@[i].id));
                    let j = choose|j: int|
                        0 <= j < pre.len() && (#[trigger] pre[j]).id == self.board.snakes@[i].id;
                }
                if pre.len() == 0 && self.board.snakes@.len() > 0 {
                    assert(has_id(pre, self.board.snakes@[0].id));
                    let j = choose|j: int|
                        0 <= j < pre.len() && (#[trigger] pre[j]).id == self.board.snakes@[0].id;
                    assert(false);
                }
                let n = choose|n: nat|
                    #[trigger] turns_reachable(*old(self), networks@, base as int, prev, n);
                assert(spec_turn_result(prev, networks@, base as int, *self));
                assert(turns_reachable(*old(self), networks@, base as int, *self, n + 1));
            }
            match outcome {
                GameStepOutcome::Ongoing => {
                    proof {
                        if old(self).board.snakes@.len() == 0 {
                            assert(self.board.snakes@.len() == 0);
                            assert(outcome == spec_outcome(self.board.snakes@));
                            assert(false);
                        }
                    }
                },
                GameStepOutcome::Winner(id) => {
                    proof {
                        assert(self.board.snakes@.len() == 1);
                        assert(id == self.board.snakes@[0].id);
                    }
                    return Ok(GameStepOutcome::Winner(id));
                },
                GameStepOutcome::Tie => {
                    return Ok(GameStepOutcome::Tie);
                },
            }
        }
    }
}

/// Keeps the agents whose mark is false.
fn filter_by_marks(v: Vec<Battlesnake>, marks: &Vec<bool>) -> (r: Vec<Battlesnake>)
    requires
        v@.len() == marks@.len(),
    ensures
        r@ == spec_filter_unmarked(v@, marks@),
{
    let ghost orig = v@;
    let ghost omarks = marks@;
    let mut work = v;
    let total: usize = work.len();
    let mut out: Vec<Battlesnake> = Vec::new();
    let mut i: usize = 0;
    while work.len() > 0
        invariant
            orig.len() == total as int,
            i + work@.len() == orig.len(),
            work@ == orig.skip(i as int),
            marks@ == omarks,
            omarks.len() == orig.len(),
            out@ == spec_filter_unmarked(orig.take(i as int), omarks.take(i as int)),
        decreases work@.len(),
    {
        proof {
            lemma_take_succ(orig, i as int);
            lemma_take_succ(omarks, i as int);
            assert(orig.skip(i as int)[0] == orig[i as int]);
        }
        let s = work.remove(0);
        proof {
            assert(work@ =~= orig.skip(i as int + 1));
        }
        if !marks[i] {
            out.push(s);
        }
        i = i + 1;
    }
    proof {
        assert(orig.take(orig.len() as int) =~= orig);
        assert(omarks.take(omarks.len() as int) =~= omarks);
    }
    out
}

proof fn lemma_count_food_nonneg(food: Seq<Coord>, c: Coord)
    ensures
        0 <= count_food_at(food, c) <= food.len(),
    decreases food.len(),
{
    if food.len() > 0 {
        lemma_count_food_nonneg(food.drop_last(), c);
    }
}

// ---------------------------------------------------------------------------
// Facts about the filtering steps
// ---------------------------------------------------------------------------

/// Whether some agent in `s` carries identity `id`.
pub open spec fn has_id(s: Seq<Battlesnake>, id: u32) -> bool {
    exists|i: int| 0 <= i < s.len() && (#[trigger] s[i]).id == id
}

pub proof fn lemma_age_index(s: Seq<Battlesnake>, i: int)
    requires
        0 <= i < spec_age(s).len(),
    ensures
        exists|j: int|
            0 <= j < s.len() && #[trigger] s[j] == s[j] && spec_age(s)[i] == age_one(s[j])
                && age_one(s[j]).health > 0,
    decreases s.len(),
{
    let res = spec_age(s);
    let rest = spec_age(s.drop_last());
    let a = age_one(s.last());
    if a.health > 0 && i == res.len() - 1 {
        assert(s[s.len() - 1] == s.last());
        assert(res[i] == a);
    } else {
        lemma_age_index(s.drop_last(), i);
        let j = choose|j: int|
            0 <= j < s.drop_last().len() && #[trigger] s.drop_last()[j] == s.drop_last()[j]
                && rest[i] == age_one(s.drop_last()[j]) && age_one(s.drop_last()[j]).health > 0;
        assert(s.drop_last()[j] == s[j]);
        assert(res[i] == rest[i]);
    }
}

pub proof fn lemma_age_has_id(s: Seq<Battlesnake>, id: u32)
    requires
        has_id(spec_age(s), id),
    ensures
        has_id(s, id),
{
    let i = choose|i: int| 0 <= i < spec_age(s).len() && (#[trigger] spec_age(s)[i]).id == id;
    lemma_age_index(s, i);
}

pub proof fn lemma_age_preserves(s: Seq<Battlesnake>, width: i32, height: u32)
    requires
        all_snakes_wf(s),
        ids_distinct(s),
        heads_in_bounds(s, width, height),
    ensures
        all_snakes_wf(spec_age(s)),
        ids_distinct(spec_age(s)),
        heads_in_bounds(spec_age(s), width, height),
    decreases s.len(),
{
    if s.len() > 0 {
        let pre = s.drop_last();
        lemma_age_preserves(pre, width, height);
        let rest = spec_age(pre);
        let a = age_one(s.last());
        if a.health > 0 {
            assert(wf_snake(s[s.len() - 1]));
            assert(coord_in_bounds(s[s.len() - 1].head, width, height));
            if has_id(rest, a.id) {
                lemma_age_has_id(pre, a.id);
                let j = choose|j: int| 0 <= j < pre.len() && (#[trigger] pre[j]).id == a.id;
                assert(s[j].id == s[s.len() - 1].id);
                assert(false);
            }
            let res = rest.push(a);
            assert forall|i: int, j: int| 0 <= i < j < res.len() implies (#[trigger] res[i].id)
                != (#[trigger] res[j].id) by {
                if j < res.len() - 1 {
                } else {
                    assert(res[i] == rest[i]);
                }
            }
            assert forall|i: int| 0 <= i < res.len() implies wf_snake(#[trigger] res[i])
                && coord_in_bounds(res[i].head, width, height) by {
                if i < res.len() - 1 {
                    assert(res[i] == rest[i]);
                }
            }
        }
    }
}

pub proof fn lemma_feed_preserves(s: Seq<Battlesnake>, food: Seq<Coord>, width: i32, height: u32)
    requires
        all_snakes_wf(s),
        ids_distinct(s),
        heads_in_bounds(s, width, height),
    ensures
        all_snakes_wf(spec_feed(s, food)),
        ids_distinct(spec_feed(s, food)),
        heads_in_bounds(spec_feed(s, food), width, height),
        spec_feed(s, food).len() == s.len(),
        forall|i: int|
            0 <= i < s.len() ==> (#[trigger] spec_feed(s, food)[i]).id == s[i].id
                && spec_feed(s, food)[i].head == s[i].head && spec_feed(s, food)[i].health
                == s[i].health && spec_feed(s, food)[i].body == s[i].body
                && s[i].length as int <= spec_feed(s, food)[i].length as int,
{
    assert forall|i: int| 0 <= i < s.len() implies {
        let f = #[trigger] spec_feed(s, food)[i];
        &&& f.id == s[i].id
        &&& f.head == s[i].head
        &&& f.health == s[i].health
        &&& f.body == s[i].body
        &&& s[i].length as int <= f.length as int
        &&& wf_snake(f)
        &&& coord_in_bounds(f.head, width, height)
    } by {
        lemma_count_food_nonneg(food, s[i].head);
        assert(wf_snake(s[i]));
        assert(coord_in_bounds(s[i].head, width, height));
    }
}

pub proof fn lemma_moves_preserve(
    pre: Seq<Battlesnake>,
    actions: Seq<MoveAction>,
    post: Seq<Battlesnake>,
)
    requires
        moves_applied(pre, actions, post),
        all_snakes_wf(pre),
        ids_distinct(pre),
    ensures
        all_snakes_wf(post),
        ids_distinct(post),
        forall|i: int| 0 <= i < post.len() ==> (#[trigger] post[i]).id == pre[i].id,
{
    assert forall|i: int| 0 <= i < post.len() implies wf_snake(#[trigger] post[i]) by {
        assert(moved_snake(pre[i], actions[i], post[i]));
        assert(wf_snake(pre[i]));
        lemma_body_growth(pre[i], actions[i], post[i]);
    }
    assert forall|i: int| 0 <= i < post.len() implies (#[trigger] post[i]).id == pre[i].id by {
        assert(moved_snake(pre[i], actions[i], post[i]));
    }
}

pub proof fn lemma_filter_in_bounds_index(s: Seq<Battlesnake>, width: i32, height: u32, i: int)
    requires
        0 <= i < spec_filter_in_bounds(s, width, height).len(),
    ensures
        exists|j: int|
            0 <= j < s.len() && spec_filter_in_bounds(s, width, height)[i] == #[trigger] s[j],
        coord_in_bounds(spec_filter_in_bounds(s, width, height)[i].head, width, height),
    decreases s.len(),
{
    let res = spec_filter_in_bounds(s, width, height);
    let rest = spec_filter_in_bounds(s.drop_last(), width, height);
    if coord_in_bounds(s.last().head, width, height) && i == res.len() - 1 {
        assert(res[i] == s[s.len() - 1]);
    } else {
        lemma_filter_in_bounds_index(s.drop_last(), width, height, i);
        let j = choose|j: int| 0 <= j < s.drop_last().len() && rest[i] == #[trigger] s.drop_last()[j];
        assert(res[i] == rest[i]);
        assert(res[i] == s[j]);
    }
}

pub proof fn lemma_filter_unmarked_index(s: Seq<Battlesnake>, m: Seq<bool>, i: int)
    requires
        m.len() == s.len(),
        0 <= i < spec_filter_unmarked(s, m).len(),
    ensures
        exists|j: int| 0 <= j < s.len() && spec_filter_unmarked(s, m)[i] == #[trigger] s[j],
    decreases s.len(),
{
    let res = spec_filter_unmarked(s, m);
    let rest = spec_filter_unmarked(s.drop_last(), m.drop_last());
    if !m.last() && i == res.len() - 1 {
        assert(res[i] == s[s.len() - 1]);
    } else {
        lemma_filter_unmarked_index(s.drop_last(), m.drop_last(), i);
        let j = choose|j: int| 0 <= j < s.drop_last().len() && rest[i] == #[trigger] s.drop_last()[j];
        assert(res[i] == rest[i]);
        assert(res[i] == s[j]);
    }
}

pub proof fn lemma_filter_in_bounds_has_id(s: Seq<Battlesnake>, width: i32, height: u32, id: u32)
    requires
        has_id(spec_filter_in_bounds(s, width, height), id),
    ensures
        has_id(s, id),
{
    let res = spec_filter_in_bounds(s, width, height);
    let i = choose|i: int| 0 <= i < res.len() && (#[trigger] res[i]).id == id;
    lemma_filter_in_bounds_index(s, width, height, i);
}

pub proof fn lemma_filter_unmarked_has_id(s: Seq<Battlesnake>, m: Seq<bool>, id: u32)
    requires
        m.len() == s.len(),
        has_id(spec_filter_unmarked(s, m), id),
    ensures
        has_id(s, id),
{
    let res = spec_filter_unmarked(s, m);
    let i = choose|i: int| 0 <= i < res.len() && (#[trigger] res[i]).id == id;
    lemma_filter_unmarked_index(s, m, i);
}

pub proof fn lemma_filter_in_bounds_distinct(s: Seq<Battlesnake>, width: i32, height: u32)
    requires
        ids_distinct(s),
    ensures
        ids_distinct(spec_filter_in_bounds(s, width, height)),
    decreases s.len(),
{
    if s.len() > 0 {
        let pre = s.drop_last();
        lemma_filter_in_bounds_distinct(pre, width, height);
        let rest = spec_filter_in_bounds(pre, width, height);
        if coord_in_bounds(s.last().head, width, height) {
            if has_id(rest, s.last().id) {
                lemma_filter_in_bounds_has_id(pre, width, height, s.last().id);
                let j = choose|j: int| 0 <= j < pre.len() && (#[trigger] pre[j]).id == s.last().id;
                assert(s[j].id == s[s.len() - 1].id);
                assert(false);
            }
            let res = rest.push(s.last());
            assert forall|i: int, j: int| 0 <= i < j < res.len() implies (#[trigger] res[i].id)
                != (#[trigger] res[j].id) by {
                if j < res.len() - 1 {
                } else {
                    assert(res[i] == rest[i]);
                }
            }
        }
    }
}

pub proof fn lemma_filter_unmarked_distinct(s: Seq<Battlesnake>, m: Seq<bool>)
    requires
        ids_distinct(s),
        m.len() == s.len(),
    ensures
        ids_distinct(spec_filter_unmarked(s, m)),
    decreases s.len(),
{
    if s.len() > 0 {
        let pre = s.drop_last();
        lemma_filter_unmarked_distinct(pre, m.drop_last());
        let rest = spec_filter_unmarked(pre, m.drop_last());
        if !m.last() {
            if has_id(rest, s.last().id) {
                lemma_filter_unmarked_has_id(pre, m.drop_last(), s.last().id);
                let j = choose|j: int| 0 <= j < pre.len() && (#[trigger] pre[j]).id == s.last().id;
                assert(s[j].id == s[s.len() - 1].id);
                assert(false);
            }
            let res = rest.push(s.last());
            assert forall|i: int, j: int| 0 <= i < j < res.len() implies (#[trigger] res[i].id)
                != (#[trigger] res[j].id) by {
                if j < res.len() - 1 {
                } else {
                    assert(res[i] == rest[i]);
                }
            }
        }
    }
}

/// A marked agent leaves in the marked pass and, its identity being unique,
/// no agent with its identity remains.
pub proof fn lemma_filter_unmarked_excludes(s: Seq<Battlesnake>, m: Seq<bool>, i: int)
    requires
        ids_distinct(s),
        m.len() == s.len(),
        0 <= i < s.len(),
        m[i],
    ensures
        !has_id(spec_filter_unmarked(s, m), s[i].id),
    decreases s.len(),
{
    let pre = s.drop_last();
    let rest = spec_filter_unmarked(pre, m.drop_last());
    if i == s.len() - 1 {
        // the marked agent is the last one: the pass drops it, and no
        // earlier agent shares its identity
        if has_id(rest, s[i].id) {
            lemma_filter_unmarked_has_id(pre, m.drop_last(), s[i].id);
            let j = choose|j: int| 0 <= j < pre.len() && (#[trigger] pre[j]).id == s[i].id;
            assert(s[j].id == s[i].id);
            assert(false);
        }
    } else {
        lemma_filter_unmarked_excludes(pre, m.drop_last(), i);
        assert(pre[i] == s[i]);
        if !m.last() {
            let res = rest.push(s.last());
            if has_id(res, s[i].id) {
                let j = choose|j: int| 0 <= j < res.len() && (#[trigger] res[j]).id == s[i].id;
                if j == res.len() - 1 {
                    assert(s.last().id == s[i].id);
                    assert(s[s.len() - 1].id == s[i].id);
                    assert(false);
                } else {
                    assert(res[j] == rest[j]);
                    assert(false);
                }
            }
        }
    }
}

/// Composite facts about the kill step that every caller of a full turn
/// needs: the survivors are well-formed, keep distinct identities drawn
/// from the pre-kill agents, and their heads lie inside the grid.
pub proof fn lemma_kill_preserves(s: Seq<Battlesnake>, width: i32, height: u32)
    requires
        all_snakes_wf(s),
        ids_distinct(s),
    ensures
        all_snakes_wf(spec_kill(s, width, height)),
        ids_distinct(spec_kill(s, width, height)),
        heads_in_bounds(spec_kill(s, width, height), width, height),
        forall|i: int|
            0 <= i < spec_kill(s, width, height).len() ==> has_id(
                s,
                (#[trigger] spec_kill(s, width, height)[i]).id,
            ),
{
    let s1 = spec_filter_in_bounds(s, width, height);
    let s2 = spec_filter_unmarked(s1, clash_marks(s1));
    let s3 = spec_filter_unmarked(s2, body_marks(s2));
    lemma_filter_in_bounds_distinct(s, width, height);
    lemma_filter_unmarked_distinct(s1, clash_marks(s1));
    lemma_filter_unmarked_distinct(s2, body_marks(s2));
    assert forall|i: int| 0 <= i < s3.len() implies wf_snake(#[trigger] s3[i])
        && coord_in_bounds(s3[i].head, width, height) && has_id(s, s3[i].id) by {
        lemma_filter_unmarked_index(s2, body_marks(s2), i);
        let j2 = choose|j: int| 0 <= j < s2.len() && s3[i] == #[trigger] s2[j];
        lemma_filter_unmarked_index(s1, clash_marks(s1), j2);
        let j1 = choose|j: int| 0 <= j < s1.len() && s2[j2] == #[trigger] s1[j];
        lemma_filter_in_bounds_index(s, width, height, j1);
        let j0 = choose|j: int| 0 <= j < s.len() && s1[j1] == #[trigger] s[j];
        assert(wf_snake(s[j0]));
        assert(s3[i] == s[j0]);
        assert(coord_in_bounds(s1[j1].head, width, height));
    }
}

// ---------------------------------------------------------------------------
// Laws of the turn step
// ---------------------------------------------------------------------------

/// Every agent that survives the age step has exactly its previous health
/// minus one — the step makes no other adjustment.
pub proof fn lemma_age_health(s: Seq<Battlesnake>, i: int)
    requires
        all_snakes_wf(s),
        0 <= i < spec_age(s).len(),
    ensures
        exists|j: int|
            0 <= j < s.len() && (#[trigger] s[j]).id == spec_age(s)[i].id && spec_age(s)[i].health
                as int == s[j].health as int - 1 && spec_age(s)[i].body == s[j].body
                && spec_age(s)[i].length == s[j].length,
        spec_age(s)[i].health > 0,
{
    lemma_age_index(s, i);
    let j = choose|j: int|
        0 <= j < s.len() && #[trigger] s[j] == s[j] && spec_age(s)[i] == age_one(s[j])
            && age_one(s[j]).health > 0;
    assert(wf_snake(s[j]));
    assert(0 <= j < s.len() && s[j].id == spec_age(s)[i].id && spec_age(s)[i].health as int
        == s[j].health as int - 1 && spec_age(s)[i].body == s[j].body && spec_age(s)[i].length
        == s[j].length);
}

/// While the body is more than one segment short of the target length it
/// grows by exactly one segment per move, and it always stays strictly
/// below the target length.
pub proof fn lemma_body_growth(pre: Battlesnake, a: MoveAction, post: Battlesnake)
    requires
        wf_snake(pre),
        moved_snake(pre, a, post),
    ensures
        post.body@.len() as int == if grows(pre) {
            pre.body@.len() as int + 1
        } else {
            pre.body@.len() as int
        },
        post.body@.len() as int + 1 <= post.length as int,
{
    assert(post.body@ == moved_body_view(pre));
}

/// Two agents whose post-move heads coincide are both removed in the same
/// kill step: head-to-head elimination is mutual, never one-sided.
pub proof fn lemma_head_collision_removes_both(
    s: Seq<Battlesnake>,
    width: i32,
    height: u32,
    i: int,
    j: int,
)
    requires
        ids_distinct(s),
        0 <= i < spec_filter_in_bounds(s, width, height).len(),
        0 <= j < spec_filter_in_bounds(s, width, height).len(),
        i != j,
        spec_filter_in_bounds(s, width, height)[i].head == spec_filter_in_bounds(
            s,
            width,
            height,
        )[j].head,
    ensures
        !has_id(spec_kill(s, width, height), spec_filter_in_bounds(s, width, height)[i].id),
        !has_id(spec_kill(s, width, height), spec_filter_in_bounds(s, width, height)[j].id),
{
    let s1 = spec_filter_in_bounds(s, width, height);
    let s2 = spec_filter_unmarked(s1, clash_marks(s1));
    lemma_filter_in_bounds_distinct(s, width, height);
    assert(head_clash(s1, i)) by {
        assert(0 <= j < s1.len() && j != i && s1[j].head == s1[i].head);
    }
    assert(head_clash(s1, j)) by {
        assert(0 <= i < s1.len() && i != j && s1[i].head == s1[j].head);
    }
    lemma_filter_unmarked_excludes(s1, clash_marks(s1), i);
    lemma_filter_unmarked_excludes(s1, clash_marks(s1), j);
    if has_id(spec_kill(s, width, height), s1[i].id) {
        lemma_filter_unmarked_has_id(s2, body_marks(s2), s1[i].id);
    }
    if has_id(spec_kill(s, width, height), s1[j].id) {
        lemma_filter_unmarked_has_id(s2, body_marks(s2), s1[j].id);
    }
}

/// An agent whose post-move head sits on any remaining agent's body — its
/// own included — is removed in the same kill step.
pub proof fn lemma_body_collision_removes(
    s: Seq<Battlesnake>,
    width: i32,
    height: u32,
    i: int,
    j: int,
    k: int,
)
    requires
        ids_distinct(s),
        ({
            let s2 = spec_filter_unmarked(
                spec_filter_in_bounds(s, width, height),
                clash_marks(spec_filter_in_bounds(s, width, height)),
            );
            &&& 0 <= i < s2.len()
            &&& 0 <= j < s2.len()
            &&& 0 <= k < s2[j].body@.len()
            &&& s2[j].body@[k] == s2[i].head
        }),
    ensures
        !has_id(
            spec_kill(s, width, height),
            spec_filter_unmarked(
                spec_filter_in_bounds(s, width, height),
                clash_marks(spec_filter_in_bounds(s, width, height)),
            )[i].id,
        ),
{
    let s1 = spec_filter_in_bounds(s, width, height);
    let s2 = spec_filter_unmarked(s1, clash_marks(s1));
    lemma_filter_in_bounds_distinct(s, width, height);
    lemma_filter_unmarked_distinct(s1, clash_marks(s1));
    assert(body_hit(s2, i)) by {
        assert(0 <= j < s2.len() && 0 <= k < s2[j].body@.len() && s2[j].body@[k] == s2[i].head);
    }
    lemma_filter_unmarked_excludes(s2, body_marks(s2), i);
}

} // verus!
