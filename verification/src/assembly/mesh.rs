use vstd::prelude::*;
use vstd::string::StringExecFns;

use crate::assembly::field::{FieldRole, MisshapedField};
use crate::text::{append_decimal, decimal};

verus! {

/// What the geometry of one cell or facet turned out to be, as judged by the
/// floating-point measure of its coordinates.
///
/// The judgement is arithmetic on the scalar field and is made by the caller;
/// what each verdict means for the mesh or boundary being validated is
/// decided here.
#[derive(Clone, Copy, Debug, PartialEq, Eq)]
pub enum Geometry {
    /// A finite, positive measure, and (for a cell) well-defined shape
    /// gradients.
    Sound,
    /// The measure is not a finite number.
    NonFinite,
    /// The measure is negative: the nodes are wound the wrong way.
    Inverted,
    /// The measure is zero, or the shape gradients do not exist.
    Degenerate,
}

/// Every node index of `cell` names a node of a mesh with `node_count` nodes.
pub open spec fn cell_in_range<const N: usize>(cell: [usize; N], node_count: nat) -> bool {
    forall|k: int| 0 <= k < N ==> #[trigger] cell[k] < node_count
}

/// `geometry` can judge the cell `cell` of `nodes` as `verdict`.
pub open spec fn judged<T, F: Fn(&[[T; D]], &[usize; N]) -> Geometry, const D: usize, const N: usize>(
    geometry: F,
    nodes: &[[T; D]],
    cell: [usize; N],
    verdict: Geometry,
) -> bool {
    call_ensures(geometry, (nodes, &cell), verdict)
}

/// The cell is one assembly can integrate: its indices are in range and its
/// geometry was judged sound.
pub open spec fn cell_accepted<
    T,
    F: Fn(&[[T; D]], &[usize; N]) -> Geometry,
    const D: usize,
    const N: usize,
>(geometry: F, nodes: &[[T; D]], cell: [usize; N]) -> bool {
    &&& cell_in_range(cell, nodes@.len())
    &&& judged(geometry, nodes, cell, Geometry::Sound)
}

/// The cell's indices are in range and its geometry was judged `verdict`.
pub open spec fn cell_judged<
    T,
    F: Fn(&[[T; D]], &[usize; N]) -> Geometry,
    const D: usize,
    const N: usize,
>(geometry: F, nodes: &[[T; D]], cell: [usize; N], verdict: Geometry) -> bool {
    &&& cell_in_range(cell, nodes@.len())
    &&& judged(geometry, nodes, cell, verdict)
}

/// Cells accepted up to `bound` name only nodes of the mesh, and the
/// geometry judged each of them sound.
proof fn lemma_accepted_prefix<
    T,
    F: Fn(&[[T; D]], &[usize; N]) -> Geometry,
    const D: usize,
    const N: usize,
>(geometry: F, nodes: &[[T; D]], cells: Seq<[usize; N]>, bound: int)
    requires
        0 <= bound <= cells.len(),
        forall|c: int| 0 <= c < bound ==> #[trigger] cell_accepted(geometry, nodes, cells[c]),
    ensures
        forall|c: int, k: int| 0 <= c < bound && 0 <= k < N ==> #[trigger] cells[c][k] < nodes@.len(),
        forall|c: int|
            #![trigger cells[c]]
            0 <= c < bound ==> call_ensures(geometry, (nodes, &cells[c]), Geometry::Sound),
{
    assert forall|c: int, k: int| 0 <= c < bound && 0 <= k < N implies #[trigger] cells[c][k]
        < nodes@.len() by {
        assert(cell_accepted(geometry, nodes, cells[c]));
    }
    assert forall|c: int| #![trigger cells[c]] 0 <= c < bound implies call_ensures(
        geometry,
        (nodes, &cells[c]),
        Geometry::Sound,
    ) by {
        assert(cell_accepted(geometry, nodes, cells[c]));
    }
}

/// A conforming simplex mesh: node coordinates plus cell connectivity.
///
/// A borrowed view: this is the shape assembly reads, not a mesh
/// representation of its own. Node coordinates are nodal, `&[[T; D]]`, while
/// displacement and force fields are flat, `D` components per node in node
/// order, so degree of freedom `node * D + component`.
///
/// Construction rejects every cell assembly could not integrate: an
/// out-of-range node index, a cell with no measure, a cell wound the wrong
/// way, and a cell whose coordinates are not finite.
#[derive(Debug)]
pub struct SimplexMesh<'mesh, T, const D: usize, const N: usize> {
    nodes: &'mesh [[T; D]],
    cells: &'mesh [[usize; N]],
}

impl<'mesh, T, const D: usize, const N: usize> SimplexMesh<'mesh, T, D, N> {
    /// The node coordinates.
    pub closed spec fn spec_nodes(&self) -> Seq<[T; D]> {
        self.nodes@
    }

    /// The cell connectivity.
    pub closed spec fn spec_cells(&self) -> Seq<[usize; N]> {
        self.cells@
    }

    /// A simplex has `D + 1` nodes, the mesh is not empty, its degrees of
    /// freedom are addressable, and every cell names nodes of the mesh.
    #[verifier::type_invariant]
    closed spec fn conforming(&self) -> bool {
        &&& N == D + 1
        &&& self.nodes@.len() > 0
        &&& self.cells@.len() > 0
        &&& self.nodes@.len() * D <= usize::MAX
        &&& forall|c: int|
            0 <= c < self.cells@.len() ==> cell_in_range(
                #[trigger] self.cells@[c],
                self.nodes@.len(),
            )
    }

    /// Borrow node coordinates and connectivity as a mesh.
    ///
    /// Cells are examined in order. For each, its node indices are checked
    /// first; then `geometry` judges its coordinates, and any verdict other
    /// than [`Geometry::Sound`] rejects the mesh.
    ///
    /// # Errors
    ///
    /// Returns [`InvalidMesh`] naming the first offending cell. Every variant
    /// is a condition under which assembly would produce a plausible wrong
    /// answer rather than an obvious one.
    pub fn try_new<F: Fn(&[[T; D]], &[usize; N]) -> Geometry>(
        nodes: &'mesh [[T; D]],
        cells: &'mesh [[usize; N]],
        geometry: F,
    ) -> (result: Result<Self, InvalidMesh>)
        requires
            N == D + 1,
            nodes@.len() * D <= usize::MAX,
            forall|c: int|
                0 <= c < cells@.len() && cell_in_range(#[trigger] cells@[c], nodes@.len())
                    ==> call_requires(geometry, (nodes, &cells@[c])),
        ensures
            match result {
                Ok(mesh) => {
                    &&& mesh.spec_nodes() == nodes@
                    &&& mesh.spec_cells() == cells@
                    &&& nodes@.len() > 0
                    &&& cells@.len() > 0
                    &&& forall|c: int|
                        0 <= c < cells@.len() ==> #[trigger] cell_accepted(
                            geometry,
                            nodes,
                            cells@[c],
                        )
                    &&& forall|c: int, k: int|
                        0 <= c < cells@.len() && 0 <= k < N ==> #[trigger] cells@[c][k] < nodes@.len()
                    &&& forall|c: int|
                        #![trigger cells@[c]]
                        0 <= c < cells@.len() ==> call_ensures(geometry, (nodes, &cells@[c]), Geometry::Sound)
                },
                Err(InvalidMesh::NoNodes) => nodes@.len() == 0,
                Err(InvalidMesh::NoCells) => nodes@.len() > 0 && cells@.len() == 0,
                Err(InvalidMesh::NodeIndexOutOfRange { cell, position, node, nodes: count }) => {
                    &&& nodes@.len() > 0
                    &&& cell < cells@.len()
                    &&& forall|c: int|
                        0 <= c < cell ==> #[trigger] cell_accepted(geometry, nodes, cells@[c])
                    &&& forall|c: int, k: int|
                        0 <= c < cell && 0 <= k < N ==> #[trigger] cells@[c][k] < nodes@.len()
                    &&& forall|c: int|
                        #![trigger cells@[c]]
                        0 <= c < cell ==> call_ensures(geometry, (nodes, &cells@[c]), Geometry::Sound)
                    &&& position < N
                    &&& forall|k: int| 0 <= k < position ==> cells@[cell as int][k] < nodes@.len()
                    &&& node == cells@[cell as int][position as int]
                    &&& count == nodes@.len()
                    &&& node >= count
                },
                Err(InvalidMesh::DegenerateCell { cell }) => {
                    &&& nodes@.len() > 0
                    &&& cell < cells@.len()
                    &&& forall|c: int|
                        0 <= c < cell ==> #[trigger] cell_accepted(geometry, nodes, cells@[c])
                    &&& cell_judged(geometry, nodes, cells@[cell as int], Geometry::Degenerate)
                    &&& forall|c: int, k: int|
                        0 <= c < cell && 0 <= k < N ==> #[trigger] cells@[c][k] < nodes@.len()
                    &&& forall|c: int|
                        #![trigger cells@[c]]
                        0 <= c < cell ==> call_ensures(geometry, (nodes, &cells@[c]), Geometry::Sound)
                    &&& forall|k: int| 0 <= k < N ==> #[trigger] cells@[cell as int][k] < nodes@.len()
                    &&& call_ensures(geometry, (nodes, &cells@[cell as int]), Geometry::Degenerate)
                },
                Err(InvalidMesh::InvertedCell { cell }) => {
                    &&& nodes@.len() > 0
                    &&& cell < cells@.len()
                    &&& forall|c: int|
                        0 <= c < cell ==> #[trigger] cell_accepted(geometry, nodes, cells@[c])
                    &&& cell_judged(geometry, nodes, cells@[cell as int], Geometry::Inverted)
                    &&& forall|c: int, k: int|
                        0 <= c < cell && 0 <= k < N ==> #[trigger] cells@[c][k] < nodes@.len()
                    &&& forall|c: int|
                        #![trigger cells@[c]]
                        0 <= c < cell ==> call_ensures(geometry, (nodes, &cells@[c]), Geometry::Sound)
                    &&& forall|k: int| 0 <= k < N ==> #[trigger] cells@[cell as int][k] < nodes@.len()
                    &&& call_ensures(geometry, (nodes, &cells@[cell as int]), Geometry::Inverted)
                },
                Err(InvalidMesh::NonFiniteCell { cell }) => {
                    &&& nodes@.len() > 0
                    &&& cell < cells@.len()
                    &&& forall|c: int|
                        0 <= c < cell ==> #[trigger] cell_accepted(geometry, nodes, cells@[c])
                    &&& cell_judged(geometry, nodes, cells@[cell as int], Geometry::NonFinite)
                    &&& forall|c: int, k: int|
                        0 <= c < cell && 0 <= k < N ==> #[trigger] cells@[c][k] < nodes@.len()
                    &&& forall|c: int|
                        #![trigger cells@[c]]
                        0 <= c < cell ==> call_ensures(geometry, (nodes, &cells@[c]), Geometry::Sound)
                    &&& forall|k: int| 0 <= k < N ==> #[trigger] cells@[cell as int][k] < nodes@.len()
                    &&& call_ensures(geometry, (nodes, &cells@[cell as int]), Geometry::NonFinite)
                },
            },
    {
        if nodes.len() == 0 {
            return Err(InvalidMesh::NoNodes);
        }
        if cells.len() == 0 {
            return Err(InvalidMesh::NoCells);
        }
        let mut cell: usize = 0;
        while cell < cells.len()
            invariant
                N == D + 1,
                nodes@.len() > 0,
                cells@.len() > 0,
                nodes@.len() * D <= usize::MAX,
                cell <= cells@.len(),
                forall|c: int|
                    0 <= c < cells@.len() && cell_in_range(#[trigger] cells@[c], nodes@.len())
                        ==> call_requires(geometry, (nodes, &cells@[c])),
                forall|c: int| 0 <= c < cell ==> #[trigger] cell_accepted(geometry, nodes, cells@[c]),
            decreases cells@.len() - cell,
        {
            let connectivity = &cells[cell];
            let mut position: usize = 0;
            while position < N
                invariant
                    nodes@.len() > 0,
                    cell < cells@.len(),
                    forall|c: int|
                        0 <= c < cell ==> #[trigger] cell_accepted(geometry, nodes, cells@[c]),
                    *connectivity == cells@[cell as int],
                    position <= N,
                    forall|k: int| 0 <= k < position ==> connectivity[k] < nodes@.len(),
                decreases N - position,
            {
                let node = connectivity[position];
                if node >= nodes.len() {
                    proof {
                        lemma_accepted_prefix(geometry, nodes, cells@, cell as int);
                    }
                    return Err(
                        InvalidMesh::NodeIndexOutOfRange {
                            cell,
                            position,
                            node,
                            nodes: nodes.len(),
                        },
                    );
                }
                position += 1;
            }
            assert(cell_in_range(cells@[cell as int], nodes@.len()));
            let verdict = geometry(nodes, connectivity);
            proof {
                lemma_accepted_prefix(geometry, nodes, cells@, cell as int);
            }
            match verdict {
                Geometry::Sound => {},
                Geometry::NonFinite => {
                    return Err(InvalidMesh::NonFiniteCell { cell });
                },
                Geometry::Inverted => {
                    return Err(InvalidMesh::InvertedCell { cell });
                },
                Geometry::Degenerate => {
                    return Err(InvalidMesh::DegenerateCell { cell });
                },
            }
            assert(cell_accepted(geometry, nodes, cells@[cell as int]));
            cell += 1;
        }
        assert forall|c: int| 0 <= c < cells@.len() implies cell_in_range(
            #[trigger] cells@[c],
            nodes@.len(),
        ) by {
            assert(cell_accepted(geometry, nodes, cells@[c]));
        }
        proof {
            lemma_accepted_prefix(geometry, nodes, cells@, cells@.len() as int);
        }
        Ok(Self { nodes, cells })
    }

    /// The mesh's node coordinates.
    pub fn nodes(&self) -> (nodes: &'mesh [[T; D]])
        ensures
            nodes@ == self.spec_nodes(),
    {
        self.nodes
    }

    /// The mesh's cell connectivity, `D + 1` node indices per cell, each
    /// naming a node of the mesh.
    pub fn cells(&self) -> (cells: &'mesh [[usize; N]])
        ensures
            cells@ == self.spec_cells(),
            N == D + 1,
            forall|c: int|
                0 <= c < cells@.len() ==> cell_in_range(#[trigger] cells@[c], self.spec_nodes().len()),
    {
        proof {
            use_type_invariant(self);
        }
        self.cells
    }

    /// Node count.
    pub fn node_count(&self) -> (count: usize)
        ensures
            count == self.spec_nodes().len(),
            count > 0,
            count * D <= usize::MAX,
    {
        proof {
            use_type_invariant(self);
        }
        self.nodes.len()
    }

    /// Degrees of freedom: one displacement component per node per dimension.
    pub fn degrees_of_freedom(&self) -> (dofs: usize)
        ensures
            dofs == self.spec_nodes().len() * D,
    {
        proof {
            use_type_invariant(self);
        }
        self.nodes.len() * D
    }

    /// Check that a flat field playing `role` in an assembly routine holds
    /// one entry per degree of freedom.
    ///
    /// # Errors
    ///
    /// Returns the [`MisshapedField`] variant that `role` names, with the
    /// mesh's degrees of freedom as `expected`, when `found` differs from them.
    pub fn check_field(&self, role: FieldRole, found: usize) -> (result: Result<(), MisshapedField>)
        ensures
            match result {
                Ok(()) => found == self.spec_nodes().len() * D,
                Err(error) => {
                    &&& found != self.spec_nodes().len() * D
                    &&& error == MisshapedField::spec_for(
                        role,
                        (self.spec_nodes().len() * D) as usize,
                        found,
                    )
                    &&& match role {
                        FieldRole::Displacement => error matches MisshapedField::Displacement {
                            expected: e,
                            found: f,
                        } && e == self.spec_nodes().len() * D && f == found,
                        FieldRole::Force => error matches MisshapedField::Force { expected: e, found: f }
                            && e == self.spec_nodes().len() * D && f == found,
                        FieldRole::Load => error matches MisshapedField::Load { expected: e, found: f }
                            && e == self.spec_nodes().len() * D && f == found,
                        FieldRole::Scratch => error matches MisshapedField::Scratch {
                            expected: e,
                            found: f,
                        } && e == self.spec_nodes().len() * D && f == found,
                    }
                },
            },
    {
        let expected = self.degrees_of_freedom();
        if found == expected {
            Ok(())
        } else {
            Err(MisshapedField::for_role(role, expected, found))
        }
    }
}

impl<'mesh, T, const D: usize, const N: usize> Clone for SimplexMesh<'mesh, T, D, N> {
    fn clone(&self) -> (copy: Self)
        ensures
            copy == *self,
    {
        *self
    }
}

impl<'mesh, T, const D: usize, const N: usize> Copy for SimplexMesh<'mesh, T, D, N> {

}

/// Copy a cell's node coordinates into a contiguous element buffer:
/// entry `k` is the coordinate of node `connectivity[k]`.
pub fn gather<T: Copy, const D: usize, const N: usize>(
    nodes: &[[T; D]],
    connectivity: &[usize; N],
) -> (coordinates: [[T; D]; N])
    requires
        N > 0,
        cell_in_range(*connectivity, nodes@.len()),
    ensures
        forall|k: int| 0 <= k < N ==> coordinates[k] == nodes@[connectivity[k] as int],
{
    let mut coordinates = [nodes[connectivity[0]]; N];
    let mut k: usize = 1;
    while k < N
        invariant
            1 <= k <= N,
            cell_in_range(*connectivity, nodes@.len()),
            forall|j: int| 0 <= j < k ==> coordinates[j] == nodes@[connectivity[j] as int],
        decreases N - k,
    {
        coordinates[k] = nodes[connectivity[k]];
        k += 1;
    }
    coordinates
}

/// Copy a cell's nodal values out of a flat field laid out `node * D +
/// component`: entry `[k][c]` is `field[connectivity[k] * D + c]`.
pub fn gather_nodal<T: Copy, const D: usize, const N: usize>(
    field: &[T],
    connectivity: &[usize; N],
) -> (values: [[T; D]; N])
    requires
        N > 0,
        D > 0,
        forall|k: int| 0 <= k < N ==> (#[trigger] connectivity[k]) * D + D <= field@.len(),
    ensures
        forall|k: int, c: int|
            0 <= k < N && 0 <= c < D ==> #[trigger] values[k][c] == field@[connectivity[k] * D + c],
{
    let length = field.len();
    assert(connectivity[0] * D + D <= length);
    let first = field[connectivity[0] * D];
    let mut values = [[first; D]; N];
    let mut k: usize = 0;
    while k < N
        invariant
            0 <= k <= N,
            D > 0,
            length == field@.len(),
            forall|j: int| 0 <= j < N ==> (#[trigger] connectivity[j]) * D + D <= field@.len(),
            forall|j: int, c: int|
                0 <= j < k && 0 <= c < D ==> #[trigger] values[j][c] == field@[connectivity[j] * D
                    + c],
        decreases N - k,
    {
        assert(connectivity[k as int] * D + D <= length);
        let base = connectivity[k] * D;
        let mut row = [first; D];
        let mut c: usize = 0;
        while c < D
            invariant
                0 <= c <= D,
                k < N,
                base == connectivity[k as int] * D,
                base + D <= length,
                length == field@.len(),
                forall|e: int| 0 <= e < c ==> #[trigger] row[e] == field@[base + e],
            decreases D - c,
        {
            row[c] = field[base + c];
            c += 1;
        }
        values[k] = row;
        k += 1;
    }
    values
}

/// A mesh assembly could not integrate.
///
/// Each variant names a condition that yields a plausible wrong answer rather
/// than an obvious failure, which is why construction rejects it.
#[derive(Clone, Copy, Debug, PartialEq, Eq)]
#[non_exhaustive]
pub enum InvalidMesh {
    /// The mesh has no nodes.
    NoNodes,
    /// The mesh has no cells.
    NoCells,
    /// A cell names a node the mesh does not have.
    NodeIndexOutOfRange {
        /// Offending cell.
        cell: usize,
        /// Position within that cell's connectivity.
        position: usize,
        /// The out-of-range index.
        node: usize,
        /// Nodes the mesh actually has.
        nodes: usize,
    },
    /// A cell has no measure, so its shape gradients do not exist.
    DegenerateCell {
        /// Offending cell.
        cell: usize,
    },
    /// A cell is wound the wrong way, so its stiffness enters with the wrong
    /// sign and the assembled operator is indefinite.
    InvertedCell {
        /// Offending cell.
        cell: usize,
    },
    /// A cell's coordinates are not finite, so its measure is not a number.
    NonFiniteCell {
        /// Offending cell.
        cell: usize,
    },
}

impl InvalidMesh {
    /// The description of this error, character for character.
    pub open spec fn spec_message(&self) -> Seq<char> {
        match *self {
            InvalidMesh::NoNodes => "the mesh has no nodes"@,
            InvalidMesh::NoCells => "the mesh has no cells"@,
            InvalidMesh::NodeIndexOutOfRange { cell, position, node, nodes } => "cell "@
                + decimal(cell as nat)
                + " position "@
                + decimal(position as nat)
                + " names node "@
                + decimal(node as nat)
                + ", but the mesh has "@
                + decimal(nodes as nat),
            InvalidMesh::DegenerateCell { cell } => "cell "@
                + decimal(cell as nat)
                + " is degenerate and has no measure"@,
            InvalidMesh::InvertedCell { cell } => "cell "@
                + decimal(cell as nat)
                + " is inverted; its measure is negative"@,
            InvalidMesh::NonFiniteCell { cell } => "cell "@
                + decimal(cell as nat)
                + " has a measure that is not finite"@,
        }
    }

    /// A human-readable description of this error.
    pub fn message(&self) -> (text: String)
        ensures
            text@ == self.spec_message(),
    {
        match *self {
            InvalidMesh::NoNodes => String::from_str("the mesh has no nodes"),
            InvalidMesh::NoCells => String::from_str("the mesh has no cells"),
            InvalidMesh::NodeIndexOutOfRange { cell, position, node, nodes } => {
                let mut text = String::from_str("cell ");
                append_decimal(&mut text, cell);
                text.append(" position ");
                append_decimal(&mut text, position);
                text.append(" names node ");
                append_decimal(&mut text, node);
                text.append(", but the mesh has ");
                append_decimal(&mut text, nodes);
                text
            },
            InvalidMesh::DegenerateCell { cell } => {
                let mut text = String::from_str("cell ");
                append_decimal(&mut text, cell);
                text.append(" is degenerate and has no measure");
                text
            },
            InvalidMesh::InvertedCell { cell } => {
                let mut text = String::from_str("cell ");
                append_decimal(&mut text, cell);
                text.append(" is inverted; its measure is negative");
                text
            },
            InvalidMesh::NonFiniteCell { cell } => {
                let mut text = String::from_str("cell ");
                append_decimal(&mut text, cell);
                text.append(" has a measure that is not finite");
                text
            },
        }
    }
}

} // verus!
