//! Editing the schematic: naming a new block, drawing wires by clicking
//! pins, and removing the wires of a deleted block.
use vstd::prelude::*;
use crate::sim_state::{ComponentKind, PinRef, Wire};
use crate::text::{
    decimal, has_prefix, same_text, lemma_parse_decimal, parse_usize, parse_usize_spec, push_decimal,
    starts_with,
};

verus! {

/// The letters that begin the id of a block of kind `k`.
pub open spec fn id_prefix(k: ComponentKind) -> Seq<char> {
    match k {
        ComponentKind::Resistor => "R"@,
        ComponentKind::Capacitor => "C"@,
        ComponentKind::Inductor => "L"@,
        ComponentKind::VoltageSource => "V"@,
        ComponentKind::CurrentSource => "I"@,
        ComponentKind::FunctionalVoltageSource => "VF"@,
        ComponentKind::FunctionalCurrentSource => "IF"@,
        ComponentKind::Ground => "GND"@,
    }
}

/// The number that follows `prefix` in `id`, if `id` is `prefix` followed by
/// a `usize` numeral.
pub open spec fn id_number(id: Seq<char>, prefix: Seq<char>) -> Option<nat> {
    if starts_with(id, prefix) {
        parse_usize_spec(id.skip(prefix.len() as int))
    } else {
        None
    }
}

/// The largest number that follows `prefix` in any of `ids` (0 if none).
pub open spec fn max_id_number(ids: Seq<Seq<char>>, prefix: Seq<char>) -> nat
    decreases ids.len(),
{
    if ids.len() == 0 {
        0
    } else {
        let m = max_id_number(ids.drop_last(), prefix);
        match id_number(ids.last(), prefix) {
            Some(v) => if v > m {
                v
            } else {
                m
            },
            None => m,
        }
    }
}

pub open spec fn id_views(ids: Seq<String>) -> Seq<Seq<char>> {
    Seq::new(ids.len(), |i: int| ids[i]@)
}

proof fn lemma_max_id_number(ids: Seq<Seq<char>>, prefix: Seq<char>, i: int)
    requires
        0 <= i < ids.len(),
    ensures
        id_number(ids[i], prefix) matches Some(v) ==> v <= max_id_number(ids, prefix),
    decreases ids.len(),
{
    if i < ids.len() - 1 {
        assert(ids.drop_last()[i] == ids[i]);
        lemma_max_id_number(ids.drop_last(), prefix, i);
    }
}

pub fn id_prefix_str(kind: ComponentKind) -> (r: &'static str)
    ensures
        r@ == id_prefix(kind),
{
    match kind {
        ComponentKind::Resistor => "R",
        ComponentKind::Capacitor => "C",
        ComponentKind::Inductor => "L",
        ComponentKind::VoltageSource => "V",
        ComponentKind::CurrentSource => "I",
        ComponentKind::FunctionalVoltageSource => "VF",
        ComponentKind::FunctionalCurrentSource => "IF",
        ComponentKind::Ground => "GND",
    }
}

/// The id for a new block of kind `kind`: its prefix followed by one more
/// than the largest number that follows that prefix in the existing ids.
pub fn next_component_id(existing_ids: &Vec<String>, kind: ComponentKind) -> (r: String)
    requires
        max_id_number(id_views(existing_ids@), id_prefix(kind)) < usize::MAX,
    ensures
        r@ == id_prefix(kind) + decimal(max_id_number(id_views(existing_ids@), id_prefix(kind)) + 1),
        forall|i: int| 0 <= i < existing_ids.len() ==> (#[trigger] existing_ids@[i])@ != r@,
{
    let prefix = id_prefix_str(kind);
    let ghost ids = id_views(existing_ids@);
    let plen = prefix.unicode_len();
    let mut best: usize = 0;
    let mut i: usize = 0;
    while i < existing_ids.len()
        invariant
            i <= existing_ids.len(),
            ids == id_views(existing_ids@),
            prefix@ == id_prefix(kind),
            plen == prefix@.len(),
            best == max_id_number(ids.take(i as int), prefix@),
        decreases existing_ids.len() - i,
    {
        let id = existing_ids[i].as_str();
        proof {
            assert(ids.take(i + 1).drop_last() =~= ids.take(i as int));
            assert(ids.take(i + 1).last() == id@);
        }
        if has_prefix(id, prefix) {
            let len = id.unicode_len();
            let rest = id.substring_char(plen, len);
            assert(rest@ =~= id@.skip(plen as int));
            match parse_usize(rest) {
                Some(v) => {
                    if v > best {
                        best = v;
                    }
                },
                None => {},
            }
        }
        i = i + 1;
    }
    assert(ids.take(existing_ids.len() as int) =~= ids);
    let mut out = String::from_str(prefix);
    push_decimal(&mut out, (best + 1) as u64);
    proof {
        let m = best as nat;
        assert forall|i: int| 0 <= i < existing_ids.len() implies (#[trigger] existing_ids@[i])@ != out@ by {
            if existing_ids@[i]@ == out@ {
                let idv = ids[i];
                assert(idv == out@);
                assert(idv.subrange(0, prefix@.len() as int) =~= prefix@);
                assert(idv.skip(prefix@.len() as int) =~= decimal(m + 1));
                lemma_parse_decimal(m + 1);
                lemma_max_id_number(ids, prefix@, i);
            }
        }
    }
    out
}

/// Whether `w` has an end on a pin of the block `id`.
pub open spec fn touches(w: Wire, id: Seq<char>) -> bool {
    w.from.component_id@ == id || w.to.component_id@ == id
}

impl View for Wire {
    type V = ((Seq<char>, int), (Seq<char>, int));

    open spec fn view(&self) -> ((Seq<char>, int), (Seq<char>, int)) {
        (self.from@, self.to@)
    }
}

impl Wire {
    /// A copy of this wire.
    pub fn duplicate(&self) -> (r: Wire)
        ensures
            r@ == self@,
    {
        Wire { from: self.from.duplicate(), to: self.to.duplicate() }
    }
}

pub open spec fn wire_views(ws: Seq<Wire>) -> Seq<((Seq<char>, int), (Seq<char>, int))> {
    Seq::new(ws.len(), |i: int| ws[i]@)
}

/// The wires of `ws`, in order, that have no end on the block `id`.
pub open spec fn wires_kept(ws: Seq<Wire>, id: Seq<char>) -> Seq<((Seq<char>, int), (Seq<char>, int))>
    decreases ws.len(),
{
    if ws.len() == 0 {
        Seq::empty()
    } else {
        let prev = wires_kept(ws.drop_last(), id);
        if touches(ws.last(), id) {
            prev
        } else {
            prev.push(ws.last()@)
        }
    }
}

/// Removes every wire with an end on the block `id`, keeping the others in order.
pub fn detach_wires(wires: &mut Vec<Wire>, id: &str)
    ensures
        wire_views(final(wires)@) == wires_kept(old(wires)@, id@),
{
    let mut kept: Vec<Wire> = Vec::new();
    let mut i: usize = 0;
    while i < wires.len()
        invariant
            i <= wires.len(),
            wire_views(kept@) == wires_kept(wires@.take(i as int), id@),
        decreases wires.len() - i,
    {
        let w = &wires[i];
        proof {
            assert(wires@.take(i + 1).drop_last() =~= wires@.take(i as int));
        }
        let from_here = same_text(w.from.component_id.as_str(), id);
        let to_here = same_text(w.to.component_id.as_str(), id);
        if !from_here && !to_here {
            let ghost before = kept@;
            kept.push(w.duplicate());
            assert(wire_views(kept@) =~= wire_views(before).push(w@));
        }
        i = i + 1;
    }
    assert(wires@.take(wires.len() as int) =~= wires@);
    *wires = kept;
}

/// Whether `ws` already joins the pins `a` and `b`, in either direction.
pub open spec fn joins(ws: Seq<Wire>, a: (Seq<char>, int), b: (Seq<char>, int)) -> bool {
    exists|i: int|
        0 <= i < ws.len() && ((#[trigger] ws[i]@ == (a, b)) || ws[i]@ == (b, a))
}

fn already_joined(wires: &Vec<Wire>, a: &PinRef, b: &PinRef) -> (r: bool)
    ensures
        r == joins(wires@, a@, b@),
{
    let mut i: usize = 0;
    while i < wires.len()
        invariant
            i <= wires.len(),
            forall|j: int| 0 <= j < i ==> (#[trigger] wires@[j])@ != (a@, b@) && wires@[j]@ != (b@, a@),
        decreases wires.len() - i,
    {
        let w = &wires[i];
        if (w.from.same_pin(a) && w.to.same_pin(b)) || (w.from.same_pin(b) && w.to.same_pin(a)) {
            assert(wires@[i as int]@ == (a@, b@) || wires@[i as int]@ == (b@, a@));
            return true;
        }
        i = i + 1;
    }
    false
}

/// A click in wire mode. With no pin under the pointer the pending wire is
/// dropped. On a pin with no wire pending, the wire starts there. On a pin
/// with a wire pending from another pin, the two pins are joined unless a
/// wire already joins them; either way nothing stays pending. Returns the
/// pin the pending wire now starts from.
pub fn wire_click(pending: Option<PinRef>, hovered: Option<PinRef>, wires: &mut Vec<Wire>) -> (r:
    Option<PinRef>)
    ensures
        hovered is None ==> r is None && final(wires)@ == old(wires)@,
        hovered matches Some(h) ==> match pending {
            None => r matches Some(p) && p@ == h@ && final(wires)@ == old(wires)@,
            Some(s) => {
                &&& r is None
                &&& if s@ != h@ && !joins(old(wires)@, s@, h@) {
                    &&& final(wires)@.len() == old(wires)@.len() + 1
                    &&& final(wires)@.drop_last() == old(wires)@
                    &&& final(wires)@.last()@ == (s@, h@)
                } else {
                    final(wires)@ == old(wires)@
                }
            },
        },
{
    match hovered {
        Some(pin) => {
            match pending {
                Some(start) => {
                    if !start.same_pin(&pin) {
                        if !already_joined(wires, &start, &pin) {
                            wires.push(Wire { from: start, to: pin });
                            assert(wires@.drop_last() =~= old(wires)@);
                        }
                    }
                    None
                },
                None => Some(pin),
            }
        },
        None => None,
    }
}

} // verus!
