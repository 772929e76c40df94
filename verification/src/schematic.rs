//! Where the pins of a block sit on the schematic grid.
use vstd::prelude::*;
use crate::sim_state::{ComponentKind, Position, Rotation, next_rotation, pins_of};

verus! {

/// `v` turned by `r`: a quarter turn maps `(x, y)` to `(y, -x)`.
pub open spec fn rotated(v: (int, int), r: Rotation) -> (int, int) {
    match r {
        Rotation::Deg0 => v,
        Rotation::Deg90 => (v.1, -v.0),
        Rotation::Deg180 => (-v.0, -v.1),
        Rotation::Deg270 => (-v.1, v.0),
    }
}

/// Turning `v` by `r` fits in `i32`: no coordinate that gets negated is `i32::MIN`.
pub open spec fn turn_fits(v: (i32, i32), r: Rotation) -> bool {
    match r {
        Rotation::Deg0 => true,
        Rotation::Deg90 => v.0 != i32::MIN,
        Rotation::Deg180 => v.0 != i32::MIN && v.1 != i32::MIN,
        Rotation::Deg270 => v.1 != i32::MIN,
    }
}

/// The offset of pin `pin_index` from the centre of an unrotated block of
/// kind `kind`; an index past the last pin sits at the centre.
pub open spec fn base_offset(kind: ComponentKind, pin_index: int) -> (int, int) {
    match kind {
        ComponentKind::Ground => (0, 0),
        _ => if pin_index == 0 {
            (-1, 0)
        } else if pin_index == 1 {
            (1, 0)
        } else {
            (0, 0)
        },
    }
}

/// The offset of pin `pin_index` from the centre of a block of kind `kind` turned by `r`.
pub open spec fn pin_offset_spec(kind: ComponentKind, r: Rotation, pin_index: int) -> (int, int) {
    rotated(base_offset(kind, pin_index), r)
}

/// Turning one step further is turning once more by a quarter.
pub proof fn lemma_rotation_step(v: (int, int), r: Rotation)
    ensures
        rotated(v, next_rotation(r)) == rotated(rotated(v, r), Rotation::Deg90),
{
}

/// Four quarter turns leave every offset where it was.
pub proof fn lemma_rotation_four_quarters(v: (int, int))
    ensures
        rotated(rotated(rotated(rotated(v, Rotation::Deg90), Rotation::Deg90), Rotation::Deg90), Rotation::Deg90) == v,
{
}

/// The two pins of a two-pin block sit opposite each other about its centre,
/// however it is turned.
pub proof fn lemma_pins_opposite(kind: ComponentKind, r: Rotation)
    requires
        pins_of(kind) == 2,
    ensures
        pin_offset_spec(kind, r, 1).0 == -pin_offset_spec(kind, r, 0).0,
        pin_offset_spec(kind, r, 1).1 == -pin_offset_spec(kind, r, 0).1,
{
}

/// Unturned, every block but ground has its first pin one step left of its
/// centre and its second one step right; ground's one pin is its centre.
pub proof fn lemma_unturned_pins(kind: ComponentKind)
    ensures
        kind != ComponentKind::Ground ==> pin_offset_spec(kind, Rotation::Deg0, 0) == (-1int, 0int),
        kind != ComponentKind::Ground ==> pin_offset_spec(kind, Rotation::Deg0, 1) == (1int, 0int),
        pin_offset_spec(ComponentKind::Ground, Rotation::Deg0, 0) == (0int, 0int),
{
}

/// Where the pins sit depends on the kind of block only through whether it
/// is ground: any two blocks other than ground, turned alike, have their
/// pins at the same offsets.
pub proof fn lemma_offsets_same_for_two_pin_blocks(k1: ComponentKind, k2: ComponentKind, r: Rotation, p: int)
    requires
        k1 != ComponentKind::Ground,
        k2 != ComponentKind::Ground,
    ensures
        pin_offset_spec(k1, r, p) == pin_offset_spec(k2, r, p),
{
}

pub fn rotate_grid(v: (i32, i32), rotation: Rotation) -> (r: (i32, i32))
    requires
        turn_fits(v, rotation),
    ensures
        (r.0 as int, r.1 as int) == rotated((v.0 as int, v.1 as int), rotation),
{
    match rotation {
        Rotation::Deg0 => v,
        Rotation::Deg90 => (v.1, -v.0),
        Rotation::Deg180 => (-v.0, -v.1),
        Rotation::Deg270 => (-v.1, v.0),
    }
}

pub fn pin_offset(kind: ComponentKind, rotation: Rotation, pin_index: usize) -> (r: (i32, i32))
    ensures
        (r.0 as int, r.1 as int) == pin_offset_spec(kind, rotation, pin_index as int),
{
    let raw: (i32, i32) = match kind {
        ComponentKind::Ground => (0, 0),
        _ => if pin_index == 0 {
            (-1, 0)
        } else if pin_index == 1 {
            (1, 0)
        } else {
            (0, 0)
        },
    };
    rotate_grid(raw, rotation)
}

/// Every pin of the block lands on a grid point that fits in `i32`.
pub open spec fn pins_fit(kind: ComponentKind, rotation: Rotation, pos: Position) -> bool {
    forall|p: int|
        0 <= p < pins_of(kind) ==> {
            let o = #[trigger] pin_offset_spec(kind, rotation, p);
            &&& i32::MIN <= pos.x + o.0 <= i32::MAX
            &&& i32::MIN <= pos.y + o.1 <= i32::MAX
        }
}

/// The grid points of the pins of a block of kind `kind` centred at `pos`
/// and turned by `rotation`, in pin order.
pub fn component_pin_positions_world(kind: ComponentKind, rotation: Rotation, pos: Position) -> (r:
    Vec<Position>)
    requires
        pins_fit(kind, rotation, pos),
    ensures
        r.len() == pins_of(kind),
        forall|p: int|
            0 <= p < r.len() ==> {
                let o = #[trigger] pin_offset_spec(kind, rotation, p);
                &&& r[p].x == pos.x + o.0
                &&& r[p].y == pos.y + o.1
            },
{
    let n = kind.pin_count();
    let mut out: Vec<Position> = Vec::new();
    for i in 0..n
        invariant
            n == pins_of(kind),
            pins_fit(kind, rotation, pos),
            out.len() == i,
            forall|p: int|
                0 <= p < i ==> {
                    let o = #[trigger] pin_offset_spec(kind, rotation, p);
                    &&& out[p].x == pos.x + o.0
                    &&& out[p].y == pos.y + o.1
                },
    {
        let o = pin_offset(kind, rotation, i);
        proof {
            let oo = pin_offset_spec(kind, rotation, i as int);
            assert(i32::MIN <= pos.x + oo.0 <= i32::MAX);
        }
        out.push(Position::new(pos.x + o.0, pos.y + o.1));
    }
    out
}

} // verus!
