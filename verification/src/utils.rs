use vstd::prelude::*;
use vstd::string::StringExecFns;
use crate::neural_network::{
    total_values, Input, NeuralNetwork, NeuralNetworkManager, Output,
};
use crate::Coord;

verus! {

/// Packs a 2-D cell into a 1-D index, row-major: `y * width + x`. With
/// `0 <= x < width` the encoding is bijective on every grid, whatever its
/// height.
pub fn pack_xy(x: i32, y: u32, width: i32) -> (r: i32)
    requires
        0 <= y as int <= i32::MAX as int,
        0 <= x,
        y as int * width as int + x as int <= i32::MAX as int,
        0 <= y as int * width as int,
    ensures
        r as int == y as int * width as int + x as int,
{
    let yy: i32 = y as i32;
    yy * width + x
}

/// Packs a coordinate into a 1-D index, row-major: `y * width + x`.
pub fn pack_coord(coord: &Coord, width: i32) -> (r: i32)
    requires
        0 <= coord.x,
        0 <= coord.y as int * width as int,
        coord.y as int * width as int + coord.x as int <= i32::MAX as int,
    ensures
        r as int == coord.y as int * width as int + coord.x as int,
{
    coord.y * width + coord.x
}

/// Inverse of `pack_coord` for indices produced from in-range coordinates.
pub fn unpack_coord(packed_coord: i32, width: i32) -> (r: Coord)
    requires
        0 <= packed_coord,
        1 <= width,
    ensures
        r.x as int == packed_coord as int % width as int,
        r.y as int == packed_coord as int / width as int,
{
    Coord { x: packed_coord % width, y: packed_coord / width }
}

/// Packing then unpacking returns the original coordinate, for every
/// in-range coordinate of any grid of this width whose index fits the
/// type: the encoding is a bijection between cells and indices.
pub proof fn lemma_pack_unpack_roundtrip(c: Coord, width: i32)
    requires
        1 <= width,
        0 <= c.x < width,
        0 <= c.y,
        c.y as int * width as int + c.x as int <= i32::MAX as int,
    ensures
        (c.y as int * width as int + c.x as int) % (width as int) == c.x as int,
        (c.y as int * width as int + c.x as int) / (width as int) == c.y as int,
{
    let x = c.x as int;
    let y = c.y as int;
    let w = width as int;
    assert((y * w + x) % w == x && (y * w + x) / w == y) by (nonlinear_arith)
        requires
            1 <= w,
            0 <= y,
            0 <= x < w,
    ;
}

/// Whether the cell lies outside the `width` by `height` grid.
pub fn is_out_of_bounds(x: i32, y: i32, width: i32, height: u32) -> (r: bool)
    requires
        height as int <= i32::MAX as int,
    ensures
        r == !crate::coord_in_bounds(Coord { x, y }, width, height),
{
    x < 0 || x >= width || y < 0 || y >= height as i32
}

/// Infers the unit-step direction that moved `back` to `front`; `"unknown"`
/// when the two cells are not adjacent (equal coordinates included), which
/// callers on the rendering path must tolerate.
pub fn get_direction(front: Coord, back: Coord) -> (r: &'static str)
    ensures
        ({
            let dx = front.x as int - back.x as int;
            let dy = front.y as int - back.y as int;
            &&& (dx == 0 && dy == -1 ==> r@ == "up"@)
            &&& (dx == 0 && dy == 1 ==> r@ == "down"@)
            &&& (dx == -1 && dy == 0 ==> r@ == "left"@)
            &&& (dx == 1 && dy == 0 ==> r@ == "right"@)
            &&& (!(dx == 0 && dy == -1) && !(dx == 0 && dy == 1) && !(dx == -1 && dy == 0)
                && !(dx == 1 && dy == 0) ==> r@ == "unknown"@)
        }),
{
    let dx: i64 = front.x as i64 - back.x as i64;
    let dy: i64 = front.y as i64 - back.y as i64;
    if dx == 0 && dy == -1 {
        "up"
    } else if dx == 0 && dy == 1 {
        "down"
    } else if dx == -1 && dy == 0 {
        "left"
    } else if dx == 1 && dy == 0 {
        "right"
    } else {
        "unknown"
    }
}

/// Relies on `rand::Rng::gen_range` over `0..bound`: a uniform value in the
/// half-open range. It panics only on an empty range, which the
/// precondition rules out; nothing more is assumed of the outcome.
#[verifier::external_body]
pub(crate) fn random_below(bound: i64) -> (r: i64)
    requires
        1 <= bound,
    ensures
        0 <= r < bound,
{
    rand::Rng::gen_range(&mut rand::thread_rng(), 0..bound)
}

/// Wires an input/output schema sized to the grid into a fresh policy: one
/// global slot of four values, one seven-value slot per grid cell, and the
/// four cardinal outputs, all registered with the shared registry.
pub fn build_neural_network(
    neural_network: &mut NeuralNetwork,
    width: i32,
    height: u32,
    manager: &mut NeuralNetworkManager,
)
    requires
        crate::wf_dims(width, height),
    ensures
        final(neural_network).id == old(neural_network).id,
        crate::logic::network_ready(*final(neural_network), width, height),
        final(neural_network).connections@.len() == crate::logic::grid_input_count(width, height)
            * 4,
        forall|k: int|
            0 <= k < final(neural_network).connections@.len() ==> {
                let c = #[trigger] final(neural_network).connections@[k];
                &&& c.from as int == k / 4
                &&& c.to as int == k % 4
                &&& c.weight == 1
            },
        final(manager).next_id >= old(manager).next_id,
{
    proof {
        crate::game::lemma_dims_bound(width, height);
    }
    let mut inputs: Vec<Input> = Vec::new();
    let mut game_values: Vec<i64> = Vec::new();
    game_values.push(0);
    game_values.push(0);
    game_values.push(0);
    game_values.push(0);
    let game_labels: Vec<String> = vec![
        String::from_str("g0"),
        String::from_str("g1"),
        String::from_str("g2"),
        String::from_str("g3"),
    ];
    inputs.push(Input::new(String::from_str("game"), game_values, game_labels));
    proof {
        assert(inputs@.drop_last() =~= Seq::<Input>::empty());
        assert(total_values(Seq::<Input>::empty()) == 0);
        assert(total_values(inputs@) == 4);
    }
    let mut x: i32 = 0;
    while x < width
        invariant
            0 <= x <= width,
            crate::wf_dims(width, height),
            height as int <= crate::constants::MAX_BOARD_CELLS as int,
            total_values(inputs@) == 4 + 7 * ((x as int) * (height as int)),
        decreases width as int - x as int,
    {
        let mut y: u32 = 0;
        while y < height
            invariant
                0 <= y as int <= height as int,
                0 <= x < width,
                crate::wf_dims(width, height),
                height as int <= crate::constants::MAX_BOARD_CELLS as int,
                total_values(inputs@) == 4 + 7 * ((x as int) * (height as int) + (y as int)),
            decreases height as int - y as int,
        {
            let ghost pre = inputs@;
            let mut coord_values: Vec<i64> = Vec::new();
            coord_values.push(x as i64);
            coord_values.push(y as i64);
            coord_values.push(0);
            coord_values.push(0);
            coord_values.push(0);
            coord_values.push(0);
            coord_values.push(0);
            let coord_labels: Vec<String> = vec![
                String::from_str("c0"),
                String::from_str("c1"),
                String::from_str("c2"),
                String::from_str("c3"),
                String::from_str("c4"),
                String::from_str("c5"),
                String::from_str("c6"),
            ];
            inputs.push(Input::new(String::from_str("coord"), coord_values, coord_labels));
            proof {
                assert(inputs@.drop_last() =~= pre);
                assert(total_values(inputs@) == total_values(pre) + 7);
            }
            y = y + 1;
        }
        proof {
            assert((x as int + 1) * (height as int) == (x as int) * (height as int) + (height
                as int)) by (nonlinear_arith);
        }
        x = x + 1;
    }
    let mut outputs: Vec<Output> = Vec::new();
    outputs.push(Output::new(String::from_str("up")));
    outputs.push(Output::new(String::from_str("down")));
    outputs.push(Output::new(String::from_str("left")));
    outputs.push(Output::new(String::from_str("right")));
    proof {
        assert((x as int) * (height as int) == (width as int) * (height as int));
        assert(total_values(inputs@) * 4 <= 1000000int) by (nonlinear_arith)
            requires
                total_values(inputs@) == 4 + 7 * ((width as int) * (height as int)),
                (width as int) * (height as int) <= crate::constants::MAX_BOARD_CELLS as int,
                crate::constants::MAX_BOARD_CELLS as int == 35000,
        ;
    }
    neural_network.build(&inputs, outputs.len(), manager);
}

/// A uniformly placed coordinate inside the grid.
pub fn random_coord(width: i32, height: u32) -> (r: Coord)
    requires
        1 <= width,
        1 <= height,
        height as int <= i32::MAX as int,
    ensures
        crate::coord_in_bounds(r, width, height),
{
    let x = random_below(width as i64);
    let y = random_below(height as i64);
    Coord { x: x as i32, y: y as i32 }
}

} // verus!
