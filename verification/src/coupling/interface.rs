use vstd::prelude::*;
use vstd::string::StringExecFns;

use crate::text::{append_decimal, decimal};

use crate::assembly::SimplexMesh;
use crate::boundary::TractionFacet;

verus! {

/// The interface node at `position` names a node of a mesh with
/// `node_count` nodes and does not repeat an earlier one.
pub open spec fn interface_node_admissible(nodes: Seq<usize>, position: int, node_count: nat) -> bool {
    &&& nodes[position] < node_count
    &&& forall|earlier: int| 0 <= earlier < position ==> nodes[earlier] != nodes[position]
}

/// Every node of `facet` is carried by the interface.
pub open spec fn facet_on_interface<const D: usize>(nodes: Seq<usize>, facet: [usize; D]) -> bool {
    forall|k: int| 0 <= k < D ==> nodes.contains(#[trigger] facet[k])
}

/// The flat exchange position of component `component` of entry `entry`.
pub open spec fn slot(entry: int, component: int, d: int) -> int {
    entry * d + component
}

/// Export stopped at interface node `k`: every earlier interface node lies
/// inside a state of `count` nodes and has been exported into `out`, and
/// every position from node `k` on still holds what `before` held.
pub open spec fn exported_before<T>(
    out: Seq<T>,
    before: Seq<T>,
    state: Seq<T>,
    nodes: Seq<usize>,
    count: usize,
    k: int,
    d: usize,
) -> bool {
    &&& forall|j: int| 0 <= j < k ==> #[trigger] nodes[j] < count
    &&& forall|j: int, c: int|
        0 <= j < k && 0 <= c < d ==> out[#[trigger] slot(j, c, d as int)] == state[slot(
            nodes[j] as int,
            c,
            d as int,
        )]
    &&& forall|i: int| slot(k, 0, d as int) <= i < before.len() ==> #[trigger] out[i] == before[i]
}

/// Distinct (entry, component) pairs occupy distinct exchange positions, and
/// every position of an exchange of `count` entries lies inside it.
proof fn lemma_slot(entry: int, component: int, other_entry: int, other_component: int, count: int, d: int)
    requires
        0 <= entry < count,
        0 <= component < d,
        0 <= other_entry,
        0 <= other_component < d,
    ensures
        0 <= slot(entry, component, d) < count * d,
        slot(entry, component, d) == slot(other_entry, other_component, d) ==> entry
            == other_entry && component == other_component,
{
    assert(0 <= entry * d + component < count * d) by (nonlinear_arith)
        requires
            0 <= entry < count,
            0 <= component < d,
    ;
    assert(entry * d + component == other_entry * d + other_component ==> entry == other_entry)
        by (nonlinear_arith)
        requires
            0 <= entry,
            0 <= component < d,
            0 <= other_entry,
            0 <= other_component < d,
    {
        if entry * d + component == other_entry * d + other_component {
            if entry < other_entry {
                assert(entry * d + d <= other_entry * d);
            } else if other_entry < entry {
                assert(other_entry * d + d <= entry * d);
            }
        }
    }
}

/// The exchange layout gives each entry a block of `d` consecutive
/// positions, the block of entry `e` starting at `e * d`: dividing a position
/// by `d` gives back its entry, and the remainder gives back its component.
pub proof fn lemma_slot_decomposes(entry: int, component: int, d: int)
    requires
        0 <= entry,
        0 <= component < d,
    ensures
        slot(entry, component, d) / d == entry,
        slot(entry, component, d) % d == component,
        entry * d <= slot(entry, component, d) < entry * d + d,
{
    assert(slot(entry, component, d) == entry * d + component);
    vstd::arithmetic::div_mod::lemma_fundamental_div_mod_converse(
        slot(entry, component, d),
        d,
        entry,
        component,
    );
}

/// Admissible interface nodes up to `prefix` lie inside the mesh and are
/// pairwise distinct.
proof fn lemma_admissible_prefix(nodes: Seq<usize>, prefix: int, node_count: nat)
    requires
        0 <= prefix <= nodes.len(),
        forall|i: int| 0 <= i < prefix ==> #[trigger] interface_node_admissible(nodes, i, node_count),
    ensures
        forall|i: int| 0 <= i < prefix ==> #[trigger] nodes[i] < node_count,
        forall|i: int, j: int| 0 <= i < j < prefix ==> nodes[i] != nodes[j],
{
    assert forall|i: int| 0 <= i < prefix implies #[trigger] nodes[i] < node_count by {
        assert(interface_node_admissible(nodes, i, node_count));
    }
    assert forall|i: int, j: int| 0 <= i < j < prefix implies nodes[i] != nodes[j] by {
        assert(interface_node_admissible(nodes, j, node_count));
    }
}

/// Distinct node indices that all lie below `node_count` number at most
/// `node_count`.
proof fn lemma_distinct_nodes_fit(nodes: Seq<usize>, node_count: nat)
    requires
        forall|i: int| 0 <= i < nodes.len() ==> #[trigger] nodes[i] < node_count,
        forall|i: int, j: int| 0 <= i < j < nodes.len() ==> nodes[i] != nodes[j],
    ensures
        nodes.len() <= node_count,
{
    let values = nodes.map_values(|node: usize| node as int);
    assert(values.no_duplicates()) by {
        assert forall|i: int, j: int|
            0 <= i < values.len() && 0 <= j < values.len() && i != j implies values[i]
            != values[j] by {
            if i < j {
                assert(nodes[i] != nodes[j]);
            } else {
                assert(nodes[j] != nodes[i]);
            }
        }
    }
    values.unique_seq_to_set();
    vstd::set_lib::lemma_int_range(0, node_count as int);
    assert(values.to_set().subset_of(vstd::set_lib::set_int_range(0, node_count as int))) by {
        assert forall|value: int| values.to_set().contains(value) implies vstd::set_lib::set_int_range(
            0,
            node_count as int,
        ).contains(value) by {
            let i = choose|i: int| 0 <= i < values.len() && values[i] == value;
            assert(nodes[i] < node_count);
        }
    }
    vstd::set_lib::lemma_len_subset(
        values.to_set(),
        vstd::set_lib::set_int_range(0, node_count as int),
    );
}

/// The structural side of a coupling interface: which facets receive
/// traction and which nodes report displacement.
///
/// # The exchange ordering contract
///
/// - **input**, traction: facet index major, component minor,
///   `input[f * D + c]`.
/// - **output**, displacement: node index major, component minor,
///   `output[k * D + c]`, where `k` indexes [`Self::nodes`], not the mesh.
///
/// The two orderings differ because the two quantities live on different
/// entities: a traction is resolved on a surface, a displacement belongs to a
/// point.
#[derive(Debug)]
pub struct StructuralInterface<'mesh, const D: usize> {
    nodes: &'mesh [usize],
    facets: &'mesh [[usize; D]],
}

impl<'mesh, const D: usize> StructuralInterface<'mesh, D> {
    /// Interface nodes, in exchange order.
    pub closed spec fn spec_nodes(&self) -> Seq<usize> {
        self.nodes@
    }

    /// Interface facets, in exchange order.
    pub closed spec fn spec_facets(&self) -> Seq<[usize; D]> {
        self.facets@
    }

    /// The interface is not empty, its nodes are distinct, every facet node is
    /// an interface node, and both exchanges are addressable.
    #[verifier::type_invariant]
    closed spec fn conforming(&self) -> bool {
        &&& self.nodes@.len() > 0
        &&& self.facets@.len() > 0
        &&& forall|i: int, j: int| 0 <= i < j < self.nodes@.len() ==> self.nodes@[i] != self.nodes@[j]
        &&& forall|f: int|
            0 <= f < self.facets@.len() ==> facet_on_interface(self.nodes@, #[trigger] self.facets@[f])
        &&& self.nodes@.len() * D <= usize::MAX
        &&& self.facets@.len() * D <= usize::MAX
    }

    /// Validate an interface against the mesh it couples.
    ///
    /// # Errors
    ///
    /// Returns [`InvalidInterface`] when the interface is not conforming: it
    /// is empty, a node lies outside the mesh, a node repeats in the exchange
    /// ordering, or a facet names a node the interface does not carry. The
    /// first offending entry is reported.
    pub fn try_new<T, const N: usize>(
        nodes: &'mesh [usize],
        facets: &'mesh [[usize; D]],
        mesh: &SimplexMesh<'_, T, D, N>,
    ) -> (result: Result<Self, InvalidInterface>)
        requires
            facets@.len() * D <= usize::MAX,
        ensures
            match result {
                Ok(interface) => {
                    &&& interface.spec_nodes() == nodes@
                    &&& interface.spec_facets() == facets@
                    &&& nodes@.len() > 0
                    &&& facets@.len() > 0
                    &&& forall|i: int|
                        0 <= i < nodes@.len() ==> #[trigger] interface_node_admissible(
                            nodes@,
                            i,
                            mesh.spec_nodes().len(),
                        )
                    &&& forall|f: int|
                        0 <= f < facets@.len() ==> facet_on_interface(nodes@, #[trigger] facets@[f])
                    &&& forall|i: int| 0 <= i < nodes@.len() ==> #[trigger] nodes@[i] < mesh.spec_nodes().len()
                    &&& forall|i: int, j: int| 0 <= i < j < nodes@.len() ==> nodes@[i] != nodes@[j]
                    &&& forall|f: int, k: int|
                        0 <= f < facets@.len() && 0 <= k < D ==> nodes@.contains(#[trigger] facets@[f][k])
                },
                Err(InvalidInterface::NoNodes) => nodes@.len() == 0,
                Err(InvalidInterface::NoFacets) => nodes@.len() > 0 && facets@.len() == 0,
                Err(InvalidInterface::NodeOutOfRange { position, node, nodes: count }) => {
                    &&& facets@.len() > 0
                    &&& position < nodes@.len()
                    &&& forall|i: int|
                        0 <= i < position ==> #[trigger] interface_node_admissible(
                            nodes@,
                            i,
                            mesh.spec_nodes().len(),
                        )
                    &&& forall|i: int| 0 <= i < position ==> #[trigger] nodes@[i] < mesh.spec_nodes().len()
                    &&& forall|i: int, j: int| 0 <= i < j < position ==> nodes@[i] != nodes@[j]
                    &&& node == nodes@[position as int]
                    &&& count == mesh.spec_nodes().len()
                    &&& node >= count
                },
                Err(InvalidInterface::DuplicateNode { position, node }) => {
                    &&& facets@.len() > 0
                    &&& position < nodes@.len()
                    &&& forall|i: int|
                        0 <= i < position ==> #[trigger] interface_node_admissible(
                            nodes@,
                            i,
                            mesh.spec_nodes().len(),
                        )
                    &&& forall|i: int| 0 <= i < position ==> #[trigger] nodes@[i] < mesh.spec_nodes().len()
                    &&& forall|i: int, j: int| 0 <= i < j < position ==> nodes@[i] != nodes@[j]
                    &&& node == nodes@[position as int]
                    &&& node < mesh.spec_nodes().len()
                    &&& nodes@.subrange(0, position as int).contains(node)
                },
                Err(InvalidInterface::FacetNodeNotOnInterface { facet, position, node }) => {
                    &&& nodes@.len() > 0
                    &&& forall|i: int|
                        0 <= i < nodes@.len() ==> #[trigger] interface_node_admissible(
                            nodes@,
                            i,
                            mesh.spec_nodes().len(),
                        )
                    &&& facet < facets@.len()
                    &&& forall|f: int|
                        0 <= f < facet ==> facet_on_interface(nodes@, #[trigger] facets@[f])
                    &&& forall|i: int| 0 <= i < nodes@.len() ==> #[trigger] nodes@[i] < mesh.spec_nodes().len()
                    &&& forall|i: int, j: int| 0 <= i < j < nodes@.len() ==> nodes@[i] != nodes@[j]
                    &&& forall|f: int, k: int|
                        0 <= f < facet && 0 <= k < D ==> nodes@.contains(#[trigger] facets@[f][k])
                    &&& position < D
                    &&& forall|k: int| 0 <= k < position ==> nodes@.contains(facets@[facet as int][k])
                    &&& node == facets@[facet as int][position as int]
                    &&& !nodes@.contains(node)
                },
                Err(InvalidInterface::MisshapedExchange { .. }) => false,
            },
    {
        if nodes.len() == 0 {
            return Err(InvalidInterface::NoNodes);
        }
        if facets.len() == 0 {
            return Err(InvalidInterface::NoFacets);
        }
        let node_count = mesh.node_count();
        let mut position: usize = 0;
        while position < nodes.len()
            invariant
                facets@.len() > 0,
                node_count == mesh.spec_nodes().len(),
                mesh.spec_nodes().len() * D <= usize::MAX,
                position <= nodes@.len(),
                forall|i: int|
                    0 <= i < position ==> #[trigger] interface_node_admissible(
                        nodes@,
                        i,
                        mesh.spec_nodes().len(),
                    ),
            decreases nodes@.len() - position,
        {
            let node = nodes[position];
            if node >= node_count {
                proof {
                    lemma_admissible_prefix(nodes@, position as int, mesh.spec_nodes().len());
                }
                return Err(InvalidInterface::NodeOutOfRange { position, node, nodes: node_count });
            }
            let mut earlier: usize = 0;
            while earlier < position
                invariant
                    facets@.len() > 0,
                    forall|i: int|
                        0 <= i < position ==> #[trigger] interface_node_admissible(
                            nodes@,
                            i,
                            mesh.spec_nodes().len(),
                        ),
                    node < mesh.spec_nodes().len(),
                    position < nodes@.len(),
                    node == nodes@[position as int],
                    earlier <= position,
                    forall|e: int| 0 <= e < earlier ==> nodes@[e] != node,
                decreases position - earlier,
            {
                if nodes[earlier] == node {
                    assert(nodes@.subrange(0, position as int)[earlier as int] == node);
                    proof {
                        lemma_admissible_prefix(nodes@, position as int, mesh.spec_nodes().len());
                    }
                    return Err(InvalidInterface::DuplicateNode { position, node });
                }
                earlier += 1;
            }
            assert(interface_node_admissible(nodes@, position as int, mesh.spec_nodes().len()));
            position += 1;
        }
        let mut facet: usize = 0;
        while facet < facets.len()
            invariant
                nodes@.len() > 0,
                mesh.spec_nodes().len() * D <= usize::MAX,
                forall|i: int|
                    0 <= i < nodes@.len() ==> #[trigger] interface_node_admissible(
                        nodes@,
                        i,
                        mesh.spec_nodes().len(),
                    ),
                facet <= facets@.len(),
                forall|f: int| 0 <= f < facet ==> facet_on_interface(nodes@, #[trigger] facets@[f]),
            decreases facets@.len() - facet,
        {
            let connectivity = &facets[facet];
            let mut position: usize = 0;
            while position < D
                invariant
                    nodes@.len() > 0,
                    forall|i: int|
                        0 <= i < nodes@.len() ==> #[trigger] interface_node_admissible(
                            nodes@,
                            i,
                            mesh.spec_nodes().len(),
                        ),
                    forall|f: int| 0 <= f < facet ==> facet_on_interface(nodes@, #[trigger] facets@[f]),
                    facet < facets@.len(),
                    *connectivity == facets@[facet as int],
                    position <= D,
                    forall|k: int| 0 <= k < position ==> nodes@.contains(connectivity[k]),
                decreases D - position,
            {
                let node = connectivity[position];
                let mut found = false;
                let mut k: usize = 0;
                while k < nodes.len()
                    invariant
                        k <= nodes@.len(),
                        position < D,
                        node == connectivity[position as int],
                        found == exists|j: int| 0 <= j < k && nodes@[j] == node,
                    decreases nodes@.len() - k,
                {
                    if nodes[k] == node {
                        found = true;
                    }
                    k += 1;
                }
                if !found {
                    assert(!nodes@.contains(node));
                    proof {
                        lemma_admissible_prefix(nodes@, nodes@.len() as int, mesh.spec_nodes().len());
                        assert forall|f: int, j: int|
                            0 <= f < facet && 0 <= j < D implies nodes@.contains(
                            #[trigger] facets@[f][j],
                        ) by {
                            assert(facet_on_interface(nodes@, facets@[f]));
                        }
                    }
                    return Err(InvalidInterface::FacetNodeNotOnInterface { facet, position, node });
                }
                position += 1;
            }
            assert(facet_on_interface(nodes@, facets@[facet as int]));
            facet += 1;
        }
        proof {
            assert forall|i: int| 0 <= i < nodes@.len() implies #[trigger] nodes@[i]
                < mesh.spec_nodes().len() by {
                assert(interface_node_admissible(nodes@, i, mesh.spec_nodes().len()));
            }
            assert forall|i: int, j: int| 0 <= i < j < nodes@.len() implies nodes@[i]
                != nodes@[j] by {
                assert(interface_node_admissible(nodes@, j, mesh.spec_nodes().len()));
            }
            lemma_distinct_nodes_fit(nodes@, mesh.spec_nodes().len());
            assert forall|f: int, k: int|
                0 <= f < facets@.len() && 0 <= k < D implies nodes@.contains(#[trigger] facets@[f][k]) by {
                assert(facet_on_interface(nodes@, facets@[f]));
            }
            assert(nodes@.len() * D <= mesh.spec_nodes().len() * D) by (nonlinear_arith)
                requires
                    nodes@.len() <= mesh.spec_nodes().len(),
            ;
        }
        Ok(Self { nodes, facets })
    }

    /// Interface nodes, in exchange order: at least one, and no node twice.
    pub fn nodes(&self) -> (nodes: &'mesh [usize])
        ensures
            nodes@ == self.spec_nodes(),
            nodes@.len() > 0,
            forall|i: int, j: int| 0 <= i < j < nodes@.len() ==> nodes@[i] != nodes@[j],
    {
        proof {
            use_type_invariant(self);
        }
        self.nodes
    }

    /// Interface facets, in exchange order: at least one, and every node of
    /// every facet is an interface node.
    pub fn facets(&self) -> (facets: &'mesh [[usize; D]])
        ensures
            facets@ == self.spec_facets(),
            facets@.len() > 0,
            forall|f: int, k: int|
                0 <= f < facets@.len() && 0 <= k < D ==> self.spec_nodes().contains(
                    #[trigger] facets@[f][k],
                ),
    {
        proof {
            use_type_invariant(self);
            assert forall|f: int, k: int|
                0 <= f < self.facets@.len() && 0 <= k < D implies self.nodes@.contains(
                #[trigger] self.facets@[f][k],
            ) by {
                assert(facet_on_interface(self.nodes@, self.facets@[f]));
            }
        }
        self.facets
    }

    /// Length of an incoming traction exchange: `facets * D`.
    pub fn input_dimension(&self) -> (length: usize)
        ensures
            length == self.spec_facets().len() * D,
    {
        proof {
            use_type_invariant(self);
        }
        self.facets.len() * D
    }

    /// Length of an outgoing displacement exchange: `nodes * D`.
    pub fn output_dimension(&self) -> (length: usize)
        ensures
            length == self.spec_nodes().len() * D,
    {
        proof {
            use_type_invariant(self);
        }
        self.nodes.len() * D
    }
}

impl<'mesh, const D: usize> StructuralInterface<'mesh, D> {
    /// Read a flat traction exchange into traction facets: `out[f]` spans
    /// facet `f` and carries the traction `traction[f * D .. f * D + D]`.
    ///
    /// # Errors
    ///
    /// Returns [`InvalidInterface::MisshapedExchange`], leaving `out`
    /// untouched, when `traction` is not
    /// [`input_dimension`](Self::input_dimension) long or `out` does not hold
    /// one entry per facet.
    pub fn read_traction<T: Copy>(&self, traction: &[T], out: &mut [TractionFacet<T, D>]) -> (result:
        Result<(), InvalidInterface>)
        requires
            D > 0,
        ensures
            final(out)@.len() == old(out)@.len(),
            match result {
                Ok(()) => {
                    &&& traction@.len() == self.spec_facets().len() * D
                    &&& final(out)@.len() == self.spec_facets().len()
                    &&& forall|f: int|
                        0 <= f < self.spec_facets().len() ==> (#[trigger] final(out)@[f]).spec_nodes()
                            == self.spec_facets()[f]
                    &&& forall|f: int, c: int|
                        0 <= f < self.spec_facets().len() && 0 <= c < D ==> (
                        #[trigger] final(out)@[f]).spec_traction()[c] == traction@[#[trigger] slot(
                            f,
                            c,
                            D as int,
                        )]
                },
                Err(InvalidInterface::MisshapedExchange { expected, found }) => {
                    &&& final(out)@ == old(out)@
                    &&& if traction@.len() != self.spec_facets().len() * D {
                        expected == self.spec_facets().len() * D && found == traction@.len()
                    } else {
                        &&& old(out)@.len() != self.spec_facets().len()
                        &&& expected == self.spec_facets().len()
                        &&& found == old(out)@.len()
                    }
                },
                Err(_) => false,
            },
    {
        let expected = self.input_dimension();
        if traction.len() != expected {
            return Err(InvalidInterface::MisshapedExchange { expected, found: traction.len() });
        }
        if out.len() != self.facets.len() {
            return Err(
                InvalidInterface::MisshapedExchange {
                    expected: self.facets.len(),
                    found: out.len(),
                },
            );
        }
        let count = self.facets.len();
        let total = traction.len();
        let mut facet: usize = 0;
        while facet < count
            invariant
                D > 0,
                total == traction@.len(),
                count == self.spec_facets().len(),
                traction@.len() == count * D,
                out@.len() == count,
                facet <= count,
                forall|f: int|
                    0 <= f < facet ==> (#[trigger] out@[f]).spec_nodes() == self.spec_facets()[f],
                forall|f: int, c: int|
                    0 <= f < facet && 0 <= c < D ==> (#[trigger] out@[f]).spec_traction()[c]
                        == traction@[#[trigger] slot(f, c, D as int)],
            decreases count - facet,
        {
            proof {
                lemma_slot(facet as int, 0, 0, 0, count as int, D as int);
            }
            let base = facet * D;
            let mut value = [traction[base]; D];
            let mut c: usize = 0;
            while c < D
                invariant
                    facet < count,
                    total == traction@.len(),
                    traction@.len() == count * D,
                    base == slot(facet as int, 0, D as int),
                    c <= D,
                    forall|e: int| 0 <= e < c ==> #[trigger] value[e] == traction@[slot(
                        facet as int,
                        e,
                        D as int,
                    )],
                decreases D - c,
            {
                proof {
                    lemma_slot(facet as int, c as int, 0, 0, count as int, D as int);
                }
                value[c] = traction[base + c];
                c += 1;
            }
            out[facet] = TractionFacet::new(self.facets[facet], value);
            facet += 1;
        }
        Ok(())
    }

    /// Check the lengths that the interface work over `mesh` reads: a traction
    /// exchange of [`input_dimension`](Self::input_dimension) entries and a
    /// nodal state with one entry per degree of freedom of the mesh.
    ///
    /// # Errors
    ///
    /// Returns [`InvalidInterface::MisshapedExchange`] for the traction when
    /// its length is wrong, else for the state when its length is wrong.
    pub fn check_work_exchange<T, const N: usize>(
        &self,
        mesh: &SimplexMesh<'_, T, D, N>,
        traction_length: usize,
        state_length: usize,
    ) -> (result: Result<(), InvalidInterface>)
        ensures
            match result {
                Ok(()) => {
                    &&& traction_length == self.spec_facets().len() * D
                    &&& state_length == mesh.spec_nodes().len() * D
                },
                Err(InvalidInterface::MisshapedExchange { expected, found }) => {
                    if traction_length != self.spec_facets().len() * D {
                        expected == self.spec_facets().len() * D && found == traction_length
                    } else {
                        &&& state_length != mesh.spec_nodes().len() * D
                        &&& expected == mesh.spec_nodes().len() * D
                        &&& found == state_length
                    }
                },
                Err(_) => false,
            },
    {
        let expected = self.input_dimension();
        if traction_length != expected {
            return Err(InvalidInterface::MisshapedExchange { expected, found: traction_length });
        }
        let dofs = mesh.degrees_of_freedom();
        if state_length != dofs {
            return Err(InvalidInterface::MisshapedExchange { expected: dofs, found: state_length });
        }
        Ok(())
    }

    /// Write interface displacement out of a full nodal state: position
    /// `k * D + c` of `out` receives component `c` of interface node `k`, that
    /// is `state[nodes[k] * D + c]`.
    ///
    /// # Errors
    ///
    /// Returns [`InvalidInterface::MisshapedExchange`], leaving `out`
    /// untouched, when `out` is not [`output_dimension`](Self::output_dimension)
    /// long or `state` is not a whole number of nodes. Returns
    /// [`InvalidInterface::NodeOutOfRange`] at the first exchange position
    /// whose node lies beyond the state; the nodes before it have then already
    /// been written.
    pub fn write_displacement<T: Copy>(&self, state: &[T], out: &mut [T]) -> (result: Result<
        (),
        InvalidInterface,
    >)
        requires
            D > 0,
        ensures
            final(out)@.len() == old(out)@.len(),
            match result {
                Ok(()) => {
                    &&& old(out)@.len() == self.spec_nodes().len() * D
                    &&& state@.len() % (D as nat) == 0
                    &&& forall|k: int|
                        0 <= k < self.spec_nodes().len() ==> #[trigger] self.spec_nodes()[k] < state@.len()
                            / (D as nat)
                    &&& forall|k: int, c: int|
                        0 <= k < self.spec_nodes().len() && 0 <= c < D ==> final(out)@[#[trigger] slot(
                            k,
                            c,
                            D as int,
                        )] == state@[slot(self.spec_nodes()[k] as int, c, D as int)]
                },
                Err(InvalidInterface::MisshapedExchange { expected, found }) => {
                    &&& final(out)@ == old(out)@
                    &&& if old(out)@.len() != self.spec_nodes().len() * D {
                        expected == self.spec_nodes().len() * D && found == old(out)@.len()
                    } else {
                        &&& state@.len() % (D as nat) != 0
                        &&& expected == state@.len() / (D as nat) * D
                        &&& found == state@.len()
                    }
                },
                Err(InvalidInterface::NodeOutOfRange { position, node, nodes: count }) => {
                    &&& old(out)@.len() == self.spec_nodes().len() * D
                    &&& state@.len() % (D as nat) == 0
                    &&& count == state@.len() / (D as nat)
                    &&& position < self.spec_nodes().len()
                    &&& node == self.spec_nodes()[position as int]
                    &&& node >= count
                    &&& forall|j: int| 0 <= j < position ==> #[trigger] self.spec_nodes()[j] < count
                    &&& forall|j: int, c: int|
                        #![trigger final(out)@[j * D + c]]
                        0 <= j < position && 0 <= c < D ==> final(out)@[j * D + c]
                            == state@[self.spec_nodes()[j] * D + c]
                    &&& forall|i: int|
                        position * D <= i < old(out)@.len() ==> #[trigger] final(out)@[i] == old(out)@[i]
                    &&& exported_before(
                        final(out)@,
                        old(out)@,
                        state@,
                        self.spec_nodes(),
                        count,
                        position as int,
                        D,
                    )
                },
                Err(_) => false,
            },
    {
        let expected = self.output_dimension();
        if out.len() != expected {
            return Err(InvalidInterface::MisshapedExchange { expected, found: out.len() });
        }
        let state_length = state.len();
        let count = state_length / D;
        proof {
            assert(count * D <= state_length) by (nonlinear_arith)
                requires
                    count == state_length as int / (D as int),
                    D > 0,
            ;
        }
        if state.len() % D != 0 {
            return Err(InvalidInterface::MisshapedExchange { expected: count * D, found: state.len() });
        }
        proof {
            assert(count * D == state@.len()) by (nonlinear_arith)
                requires
                    count == state@.len() / (D as nat),
                    state@.len() % (D as nat) == 0,
                    D > 0,
            ;
        }
        let length = self.nodes.len();
        let mut k: usize = 0;
        while k < length
            invariant
                D > 0,
                state_length == state@.len(),
                expected == length * D,
                length == self.spec_nodes().len(),
                out@.len() == length * D,
                old(out)@.len() == length * D,
                count * D == state@.len(),
                count == state@.len() / (D as nat),
                state@.len() % (D as nat) == 0,
                k <= length,
                forall|j: int| 0 <= j < k ==> #[trigger] self.spec_nodes()[j] < count,
                forall|j: int, c: int|
                    0 <= j < k && 0 <= c < D ==> out@[#[trigger] slot(j, c, D as int)] == state@[slot(
                        self.spec_nodes()[j] as int,
                        c,
                        D as int,
                    )],
                forall|i: int| slot(k as int, 0, D as int) <= i < out@.len() ==> #[trigger] out@[i]
                    == old(out)@[i],
            decreases length - k,
        {
            let node = self.nodes[k];
            if node >= count {
                assert(self.spec_nodes()[k as int] == node);
                assert(exported_before(out@, old(out)@, state@, self.spec_nodes(), count, k as int, D));
                assert forall|j: int, c: int|
                    #![trigger out@[j * D + c]]
                    0 <= j < k && 0 <= c < D implies out@[j * D + c] == state@[self.spec_nodes()[j]
                        * D + c] by {
                    assert(out@[slot(j, c, D as int)] == state@[slot(
                        self.spec_nodes()[j] as int,
                        c,
                        D as int,
                    )]);
                }
                return Err(InvalidInterface::NodeOutOfRange { position: k, node, nodes: count });
            }
            proof {
                lemma_slot(k as int, 0, 0, 0, length as int, D as int);
                lemma_slot(node as int, 0, 0, 0, count as int, D as int);
            }
            let source = node * D;
            let target = k * D;
            let ghost before = out@;
            let mut c: usize = 0;
            while c < D
                invariant
                    D > 0,
                    state_length == state@.len(),
                    expected == length * D,
                    k < length,
                    node < count,
                    node == self.spec_nodes()[k as int],
                    out@.len() == length * D,
                    count * D == state@.len(),
                    source == slot(node as int, 0, D as int),
                    target == slot(k as int, 0, D as int),
                    c <= D,
                    forall|e: int|
                        0 <= e < c ==> out@[#[trigger] slot(k as int, e, D as int)] == state@[slot(
                            node as int,
                            e,
                            D as int,
                        )],
                    forall|i: int|
                        0 <= i < out@.len() && !(target <= i < target + c) ==> #[trigger] out@[i]
                            == before[i],
                decreases D - c,
            {
                proof {
                    lemma_slot(k as int, c as int, 0, 0, length as int, D as int);
                    lemma_slot(node as int, c as int, 0, 0, count as int, D as int);
                }
                out[target + c] = state[source + c];
                c += 1;
            }
            proof {
                assert forall|j: int, e: int| 0 <= j < k + 1 && 0 <= e < D implies out@[#[trigger] slot(
                    j,
                    e,
                    D as int,
                )] == state@[slot(self.spec_nodes()[j] as int, e, D as int)] by {
                    lemma_slot(j, e, k as int, 0, length as int, D as int);
                    lemma_slot(k as int, 0, j, e, length as int, D as int);
                    if j < k {
                        assert(slot(j, e, D as int) < slot(k as int, 0, D as int)) by (nonlinear_arith)
                            requires
                                0 <= j < k,
                                0 <= e < D,
                        {
                            assert(j * D + D <= k * D);
                        }
                    }
                }
                assert forall|i: int| slot(k + 1, 0, D as int) <= i < out@.len() implies #[trigger] out@[i]
                    == old(out)@[i] by {
                    assert(slot(k + 1, 0, D as int) == target + D) by (nonlinear_arith)
                        requires
                            target == k * D,
                    ;
                }
            }
            k += 1;
        }
        Ok(())
    }
}

impl<'mesh, const D: usize> Clone for StructuralInterface<'mesh, D> {
    fn clone(&self) -> (copy: Self)
        ensures
            copy == *self,
    {
        *self
    }
}

impl<'mesh, const D: usize> Copy for StructuralInterface<'mesh, D> {

}

/// An interface that does not conform to the mesh it couples.
#[derive(Clone, Copy, Debug, PartialEq, Eq)]
#[non_exhaustive]
pub enum InvalidInterface {
    /// The interface carries no nodes.
    NoNodes,
    /// The interface carries no facets.
    NoFacets,
    /// An interface node is not a node of the mesh.
    NodeOutOfRange {
        /// Position in the exchange ordering.
        position: usize,
        /// The out-of-range node.
        node: usize,
        /// Nodes the mesh has.
        nodes: usize,
    },
    /// A node appears twice in the exchange ordering, so an exchange position
    /// would be ambiguous.
    DuplicateNode {
        /// The later position.
        position: usize,
        /// The repeated node.
        node: usize,
    },
    /// A facet names a node the interface does not carry, so the two sides do
    /// not describe the same surface.
    FacetNodeNotOnInterface {
        /// Offending facet.
        facet: usize,
        /// Position within it.
        position: usize,
        /// The node that is not on the interface.
        node: usize,
    },
    /// An exchange buffer is the wrong length.
    MisshapedExchange {
        /// Entries the interface expects.
        expected: usize,
        /// Entries supplied.
        found: usize,
    },
}

impl InvalidInterface {
    /// The description of this error, character for character.
    pub open spec fn spec_message(&self) -> Seq<char> {
        match *self {
            InvalidInterface::NoNodes => "the interface carries no nodes"@,
            InvalidInterface::NoFacets => "the interface carries no facets"@,
            InvalidInterface::NodeOutOfRange { position, node, nodes } => "interface position "@
                + decimal(position as nat)
                + " names node "@
                + decimal(node as nat)
                + ", but the mesh has "@
                + decimal(nodes as nat),
            InvalidInterface::DuplicateNode { position, node } => "node "@
                + decimal(node as nat)
                + " appears again at interface position "@
                + decimal(position as nat),
            InvalidInterface::FacetNodeNotOnInterface { facet, position, node } => "facet "@
                + decimal(facet as nat)
                + " position "@
                + decimal(position as nat)
                + " names node "@
                + decimal(node as nat)
                + ", which is not on the interface"@,
            InvalidInterface::MisshapedExchange { expected, found } => "the exchange buffer has "@
                + decimal(found as nat)
                + " entries, but the interface expects "@
                + decimal(expected as nat),
        }
    }

    /// A human-readable description of this error.
    pub fn message(&self) -> (text: String)
        ensures
            text@ == self.spec_message(),
    {
        match *self {
            InvalidInterface::NoNodes => String::from_str("the interface carries no nodes"),
            InvalidInterface::NoFacets => String::from_str("the interface carries no facets"),
            InvalidInterface::NodeOutOfRange { position, node, nodes } => {
                let mut text = String::from_str("interface position ");
                append_decimal(&mut text, position);
                text.append(" names node ");
                append_decimal(&mut text, node);
                text.append(", but the mesh has ");
                append_decimal(&mut text, nodes);
                text
            },
            InvalidInterface::DuplicateNode { position, node } => {
                let mut text = String::from_str("node ");
                append_decimal(&mut text, node);
                text.append(" appears again at interface position ");
                append_decimal(&mut text, position);
                text
            },
            InvalidInterface::FacetNodeNotOnInterface { facet, position, node } => {
                let mut text = String::from_str("facet ");
                append_decimal(&mut text, facet);
                text.append(" position ");
                append_decimal(&mut text, position);
                text.append(" names node ");
                append_decimal(&mut text, node);
                text.append(", which is not on the interface");
                text
            },
            InvalidInterface::MisshapedExchange { expected, found } => {
                let mut text = String::from_str("the exchange buffer has ");
                append_decimal(&mut text, found);
                text.append(" entries, but the interface expects ");
                append_decimal(&mut text, expected);
                text
            },
        }
    }
}

} // verus!
