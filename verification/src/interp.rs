//! The bookkeeping of the script interpreter: the table of named nodes and
//! the naming of the components a script creates.
use vstd::prelude::*;
use crate::ast::CompCtorType;
use crate::nodes::NodeId;
use crate::text::{decimal, lemma_decimal_injective, push_decimal, push_signed_decimal, same_text, signed_decimal};

verus! {

/// The names that always denote the ground node.
pub open spec fn is_ground_name(name: Seq<char>) -> bool {
    name == "gnd"@ || name == "GND"@ || name == "0"@
}

/// Whether `name` always denotes the ground node.
pub fn ground_name(name: &str) -> (r: bool)
    ensures
        r == is_ground_name(name@),
{
    same_text(name, "gnd") || same_text(name, "GND") || same_text(name, "0")
}

/// The node of each name a script has used.
pub struct NodeTable {
    names: Vec<String>,
    ids: Vec<NodeId>,
}

impl View for NodeTable {
    type V = Map<Seq<char>, NodeId>;

    closed spec fn view(&self) -> Map<Seq<char>, NodeId> {
        Map::new(
            |k: Seq<char>| exists|i: int| 0 <= i < self.names@.len() && self.names@[i]@ == k,
            |k: Seq<char>|
                self.ids@[choose|i: int| 0 <= i < self.names@.len() && self.names@[i]@ == k],
        )
    }
}

impl NodeTable {
    /// Each name appears once, beside its node.
    pub closed spec fn wf(&self) -> bool {
        &&& self.names@.len() == self.ids@.len()
        &&& forall|i: int, j: int|
            0 <= i < self.names@.len() && 0 <= j < self.names@.len() && i != j ==> #[trigger] self.names@[i]@
                != #[trigger] self.names@[j]@
    }

    proof fn lemma_lookup(&self, i: int)
        requires
            self.wf(),
            0 <= i < self.names@.len(),
        ensures
            self@.contains_key(self.names@[i]@),
            self@[self.names@[i]@] == self.ids@[i],
    {
        let k = self.names@[i]@;
        let j = choose|j: int| 0 <= j < self.names@.len() && self.names@[j]@ == k;
        assert(j == i);
    }

    /// The table a script starts with: `gnd` and `GND` name the ground node.
    pub fn new() -> (t: NodeTable)
        ensures
            t.wf(),
            t@ == Map::<Seq<char>, NodeId>::empty().insert("gnd"@, NodeId(0)).insert("GND"@, NodeId(0)),
    {
        let mut names: Vec<String> = Vec::new();
        let mut ids: Vec<NodeId> = Vec::new();
        names.push(String::from_str("gnd"));
        ids.push(NodeId(0));
        names.push(String::from_str("GND"));
        ids.push(NodeId(0));
        proof {
            reveal_strlit("gnd");
            reveal_strlit("GND");
            assert("gnd"@[0] != "GND"@[0]);
        }
        let t = NodeTable { names, ids };
        proof {
            t.lemma_lookup(0);
            t.lemma_lookup(1);
            assert(t@ =~= Map::<Seq<char>, NodeId>::empty().insert("gnd"@, NodeId(0)).insert(
                "GND"@,
                NodeId(0),
            ));
        }
        t
    }

    /// The node of `name`, given that the circuit has `circuit_nodes` nodes.
    ///
    /// Ground names give node 0. A name already in the table gives its node.
    /// Any other name is entered with the circuit's next node,
    /// `circuit_nodes + 1`, and the flag asks the caller to add that node.
    pub fn get_or_create(&mut self, name: &str, circuit_nodes: usize) -> (r: (NodeId, bool))
        requires
            old(self).wf(),
            circuit_nodes < usize::MAX,
        ensures
            final(self).wf(),
            is_ground_name(name@) ==> r == (NodeId(0), false) && final(self)@ == old(self)@,
            !is_ground_name(name@) && old(self)@.contains_key(name@) ==> r == (
                old(self)@[name@],
                false,
            ) && final(self)@ == old(self)@,
            !is_ground_name(name@) && !old(self)@.contains_key(name@) ==> r == (
                NodeId((circuit_nodes + 1) as usize),
                true,
            ) && final(self)@ == old(self)@.insert(name@, NodeId((circuit_nodes + 1) as usize)),
            !is_ground_name(name@) ==> final(self)@.contains_key(name@) && final(self)@[name@] == r.0,
    {
        if ground_name(name) {
            return (NodeId(0), false);
        }
        let mut i: usize = 0;
        while i < self.names.len()
            invariant
                self.wf(),
                i <= self.names@.len(),
                forall|j: int| 0 <= j < i ==> self.names@[j]@ != name@,
                !is_ground_name(name@),
            decreases self.names@.len() - i,
        {
            if same_text(self.names[i].as_str(), name) {
                proof {
                    self.lemma_lookup(i as int);
                }
                return (self.ids[i], false);
            }
            i = i + 1;
        }
        let ghost before = self@;
        let ghost old_names = self.names@;
        let id = NodeId(circuit_nodes + 1);
        self.names.push(String::from_str(name));
        self.ids.push(id);
        proof {
            assert(!before.contains_key(name@));
            assert forall|k: Seq<char>| #[trigger] self@.contains_key(k) == before.insert(
                name@,
                id,
            ).contains_key(k) by {
                if k != name@ && before.contains_key(k) {
                    let j = choose|j: int| 0 <= j < old_names.len() && old_names[j]@ == k;
                    assert(self.names@[j]@ == k);
                }
                if self@.contains_key(k) && k != name@ {
                    let j = choose|j: int| 0 <= j < self.names@.len() && self.names@[j]@ == k;
                    assert(j < old_names.len());
                    assert(old_names[j]@ == k);
                }
                if k == name@ {
                    assert(self.names@[old_names.len() as int]@ == k);
                }
            }
            assert forall|k: Seq<char>| #[trigger] self@.contains_key(k) implies self@[k] == before.insert(
                name@,
                id,
            )[k] by {
                let j = choose|j: int| 0 <= j < self.names@.len() && self.names@[j]@ == k;
                self.lemma_lookup(j);
                if k != name@ {
                    assert(j < old_names.len());
                    let j0 = choose|j0: int| 0 <= j0 < old_names.len() && old_names[j0]@ == k;
                    assert(self.names@[j0]@ == k);
                    assert(j0 == j);
                }
            }
            assert(self@ =~= before.insert(name@, id));
        }
        (id, true)
    }

    /// The names in the table and their nodes.
    pub fn entries(&self) -> (r: Vec<(String, NodeId)>)
        requires
            self.wf(),
        ensures
            forall|i: int| 0 <= i < r.len() ==> self@.contains_key((#[trigger] r@[i]).0@) && self@[r@[i].0@] == r@[i].1,
            forall|k: Seq<char>| #[trigger] self@.contains_key(k) ==> exists|i: int| 0 <= i < r.len() && r@[i].0@ == k,
            forall|i: int, j: int| 0 <= i < r.len() && 0 <= j < r.len() && i != j ==> (#[trigger] r@[i]).0@ != (#[trigger] r@[j]).0@,
    {
        let mut out: Vec<(String, NodeId)> = Vec::new();
        let mut i: usize = 0;
        while i < self.names.len()
            invariant
                self.wf(),
                i <= self.names@.len(),
                out@.len() == i,
                forall|j: int| 0 <= j < i ==> (#[trigger] out@[j]).0@ == self.names@[j]@ && out@[j].1 == self.ids@[j],
            decreases self.names@.len() - i,
        {
            out.push((self.names[i].clone(), self.ids[i]));
            i = i + 1;
        }
        proof {
            assert forall|i: int| 0 <= i < out.len() implies self@.contains_key((#[trigger] out@[i]).0@) && self@[out@[i].0@] == out@[i].1 by {
                self.lemma_lookup(i);
            }
            assert forall|k: Seq<char>| #[trigger] self@.contains_key(k) implies exists|i: int| 0 <= i < out.len() && out@[i].0@ == k by {
                let j = choose|j: int| 0 <= j < self.names@.len() && self.names@[j]@ == k;
                assert(out@[j].0@ == k);
            }
        }
        out
    }
}

/// The name a dynamic identifier `prefix_{expr}` stands for, once `expr`
/// has been evaluated to `index`: `prefix`, an underscore, the index.
pub fn dyn_name(prefix: &str, index: i64) -> (r: String)
    ensures
        r@ == prefix@ + "_"@ + signed_decimal(index as int),
{
    let mut out = String::from_str(prefix);
    out.append("_");
    push_signed_decimal(&mut out, index);
    out
}

/// Names built from one prefix and different numbers differ.
pub proof fn lemma_numbered_names_distinct(prefix: Seq<char>, a: nat, b: nat)
    requires
        a != b,
    ensures
        prefix + "_"@ + decimal(a) != prefix + "_"@ + decimal(b),
{
    let x = prefix + "_"@ + decimal(a);
    let y = prefix + "_"@ + decimal(b);
    if x == y {
        let k = (prefix.len() + "_"@.len()) as int;
        assert(x.skip(k) =~= decimal(a));
        assert(y.skip(k) =~= decimal(b));
        lemma_decimal_injective(a, b);
    }
}

/// The letters that begin the name of a component of type `ct`.
pub open spec fn ctor_prefix_spec(ct: CompCtorType) -> Seq<char> {
    match ct {
        CompCtorType::Resistor => "R"@,
        CompCtorType::Capacitor => "C"@,
        CompCtorType::Inductor => "L"@,
        CompCtorType::VSource => "V"@,
        CompCtorType::ISource => "I"@,
        CompCtorType::Diode => "D"@,
        CompCtorType::StepSource => "V_step"@,
        CompCtorType::SineSource => "V_sine"@,
        CompCtorType::VCVS => "E"@,
        CompCtorType::BJT => "Q"@,
        CompCtorType::MOSFET => "M"@,
        CompCtorType::FuncVSource => "V_func"@,
    }
}

pub fn ctor_prefix(ct: CompCtorType) -> (r: &'static str)
    ensures
        r@ == ctor_prefix_spec(ct),
{
    match ct {
        CompCtorType::Resistor => "R",
        CompCtorType::Capacitor => "C",
        CompCtorType::Inductor => "L",
        CompCtorType::VSource => "V",
        CompCtorType::ISource => "I",
        CompCtorType::Diode => "D",
        CompCtorType::StepSource => "V_step",
        CompCtorType::SineSource => "V_sine",
        CompCtorType::VCVS => "E",
        CompCtorType::BJT => "Q",
        CompCtorType::MOSFET => "M",
        CompCtorType::FuncVSource => "V_func",
    }
}

/// Numbers the components a script creates, 1, 2, ... across all types.
pub struct CompNamer {
    pub counter: u32,
}

impl CompNamer {
    pub fn new() -> (c: CompNamer)
        ensures
            c.counter == 0,
    {
        CompNamer { counter: 0 }
    }

    /// The next component name: `prefix`, an underscore, and the count of
    /// components named so far, this one included.
    pub fn next_comp_name(&mut self, prefix: &str) -> (r: String)
        requires
            old(self).counter < u32::MAX,
        ensures
            final(self).counter == old(self).counter + 1,
            r@ == prefix@ + "_"@ + decimal(final(self).counter as nat),
    {
        self.counter = self.counter + 1;
        let mut out = String::from_str(prefix);
        out.append("_");
        push_decimal(&mut out, self.counter as u64);
        out
    }
}

} // verus!
