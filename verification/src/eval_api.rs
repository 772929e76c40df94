//! What a script run hands back: the layout of its components and its errors.
use vstd::prelude::*;
use crate::ast::CompCtorType;
use crate::nodes::NodeId;
use crate::text::{decimal, push_decimal, same_text};

verus! {

/// Layout metadata for a single component (produced by `.pos()` / `.rot()` chains).
#[derive(Debug, Clone)]
pub struct LayoutEntry {
    pub name: String,
    pub comp_type: CompCtorType,
    pub nodes: Vec<NodeId>,
    pub x: i32,
    pub y: i32,
    pub rotation: i32,
}

impl LayoutEntry {
    /// The entry of a freshly created component: at the origin, unrotated.
    pub fn placed_at_origin(name: String, comp_type: CompCtorType, nodes: Vec<NodeId>) -> (e:
        LayoutEntry)
        ensures
            e.name == name,
            e.comp_type == comp_type,
            e.nodes == nodes,
            e.x == 0,
            e.y == 0,
            e.rotation == 0,
    {
        LayoutEntry { name, comp_type, nodes, x: 0, y: 0, rotation: 0 }
    }
}

/// The position of the first entry named `name`, or -1.
pub open spec fn first_named(layout: Seq<LayoutEntry>, name: Seq<char>) -> int
    decreases layout.len(),
{
    if layout.len() == 0 {
        -1
    } else if layout[0].name@ == name {
        0
    } else {
        let r = first_named(layout.skip(1), name);
        if r < 0 {
            -1
        } else {
            r + 1
        }
    }
}

proof fn lemma_first_named(layout: Seq<LayoutEntry>, name: Seq<char>)
    ensures
        -1 <= first_named(layout, name) < layout.len(),
        first_named(layout, name) >= 0 ==> layout[first_named(layout, name)].name@ == name,
        forall|j: int|
            0 <= j < layout.len() && (first_named(layout, name) < 0 || j < first_named(layout, name))
                ==> layout[j].name@ != name,
    decreases layout.len(),
{
    if layout.len() > 0 && layout[0].name@ != name {
        lemma_first_named(layout.skip(1), name);
        assert forall|j: int|
            0 <= j < layout.len() && (first_named(layout, name) < 0 || j < first_named(layout, name))
                implies layout[j].name@ != name by {
            if j > 0 {
                assert(layout[j] == layout.skip(1)[j - 1]);
            }
        }
    }
}

fn find_named(layout: &Vec<LayoutEntry>, name: &str) -> (r: Option<usize>)
    ensures
        r matches Some(i) ==> i == first_named(layout@, name@),
        r is None ==> first_named(layout@, name@) == -1,
{
    proof {
        lemma_first_named(layout@, name@);
    }
    let mut i: usize = 0;
    while i < layout.len()
        invariant
            i <= layout.len(),
            forall|j: int| 0 <= j < i ==> layout@[j].name@ != name@,
            -1 <= first_named(layout@, name@) < layout@.len(),
            first_named(layout@, name@) >= 0 ==> layout@[first_named(layout@, name@)].name@ == name@,
            forall|j: int|
                0 <= j < layout.len() && (first_named(layout@, name@) < 0 || j < first_named(
                    layout@,
                    name@,
                )) ==> layout@[j].name@ != name@,
        decreases layout.len() - i,
    {
        if same_text(layout[i].name.as_str(), name) {
            return Some(i);
        }
        i = i + 1;
    }
    None
}

/// `after` is `before` with the entry at `k` (if `k >= 0`) replaced by `e`.
pub open spec fn replaced_at(before: Seq<LayoutEntry>, after: Seq<LayoutEntry>, k: int, e: LayoutEntry) -> bool {
    &&& after.len() == before.len()
    &&& forall|j: int| 0 <= j < before.len() && j != k ==> after[j] == before[j]
    &&& 0 <= k < before.len() ==> after[k] == e
}

/// `.pos(x, y)`: moves the first entry named `name` to `(x, y)`.
pub fn set_layout_position(layout: &mut Vec<LayoutEntry>, name: &str, x: i32, y: i32)
    ensures
        ({
            let k = first_named(old(layout)@, name@);
            &&& k < 0 ==> final(layout)@ == old(layout)@
            &&& k >= 0 ==> replaced_at(
                old(layout)@,
                final(layout)@,
                k,
                LayoutEntry { x: x, y: y, ..old(layout)@[k] },
            )
        }),
{
    match find_named(layout, name) {
        Some(i) => {
            proof {
                lemma_first_named(layout@, name@);
            }
            let mut e = layout.remove(i);
            e.x = x;
            e.y = y;
            layout.insert(i, e);
        },
        None => {},
    }
}

/// `.rot(deg)`: turns the first entry named `name` to `rotation` degrees.
pub fn set_layout_rotation(layout: &mut Vec<LayoutEntry>, name: &str, rotation: i32)
    ensures
        ({
            let k = first_named(old(layout)@, name@);
            &&& k < 0 ==> final(layout)@ == old(layout)@
            &&& k >= 0 ==> replaced_at(
                old(layout)@,
                final(layout)@,
                k,
                LayoutEntry { rotation: rotation, ..old(layout)@[k] },
            )
        }),
{
    match find_named(layout, name) {
        Some(i) => {
            proof {
                lemma_first_named(layout@, name@);
            }
            let mut e = layout.remove(i);
            e.rotation = rotation;
            layout.insert(i, e);
        },
        None => {},
    }
}

/// Error from parsing or evaluating a script.
#[derive(Debug)]
pub struct ScriptError {
    pub message: String,
    pub line: Option<usize>,
    pub column: Option<usize>,
}

/// How an error reads: `[line:column] message` when both are known, else the message.
pub open spec fn error_text(e: ScriptError) -> Seq<char> {
    match (e.line, e.column) {
        (Some(l), Some(c)) => "["@ + decimal(l as nat) + ":"@ + decimal(c as nat) + "] "@ + e.message@,
        _ => e.message@,
    }
}

impl ScriptError {
    /// The error as it is shown to the user.
    pub fn render(&self) -> (r: String)
        ensures
            r@ == error_text(*self),
    {
        match (self.line, self.column) {
            (Some(line), Some(col)) => {
                let mut out = String::from_str("[");
                push_decimal(&mut out, line as u64);
                out.append(":");
                push_decimal(&mut out, col as u64);
                out.append("] ");
                out.append(self.message.as_str());
                out
            },
            _ => self.message.clone(),
        }
    }
}

} // verus!
