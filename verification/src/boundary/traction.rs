use vstd::prelude::*;
use vstd::string::StringExecFns;

use crate::text::{append_decimal, decimal};

use crate::assembly::{cell_in_range, judged, Geometry};

verus! {

/// A uniform traction applied over one boundary facet.
///
/// A facet of a `D`-simplex is a `(D - 1)`-simplex with exactly `D` nodes, an
/// edge in 2-D and a triangle in 3-D, so both arrays are `D` long.
///
/// `traction` is force per unit area (per unit length in 2-D): a stress, not
/// a force. The two differ by the facet measure.
#[derive(Clone, Copy, Debug, PartialEq)]
pub struct TractionFacet<T, const D: usize> {
    nodes: [usize; D],
    traction: [T; D],
}

impl<T, const D: usize> TractionFacet<T, D> {
    /// The facet's nodes.
    pub closed spec fn spec_nodes(&self) -> [usize; D] {
        self.nodes
    }

    /// The applied traction.
    pub closed spec fn spec_traction(&self) -> [T; D] {
        self.traction
    }

    /// Apply `traction` uniformly over the facet spanned by `nodes`.
    pub fn new(nodes: [usize; D], traction: [T; D]) -> (facet: Self)
        ensures
            facet.spec_nodes() == nodes,
            facet.spec_traction() == traction,
    {
        Self { nodes, traction }
    }

    /// The facet's nodes.
    pub fn nodes(&self) -> (nodes: &[usize; D])
        ensures
            *nodes == self.spec_nodes(),
    {
        &self.nodes
    }

    /// The applied traction.
    pub fn traction(&self) -> (traction: &[T; D])
        ensures
            *traction == self.spec_traction(),
    {
        &self.traction
    }
}

/// The facet's node indices are in range and `geometry` judged its
/// coordinates sound.
pub open spec fn facet_accepted<T, F: Fn(&[[T; D]], &[usize; D]) -> Geometry, const D: usize>(
    geometry: F,
    nodes: &[[T; D]],
    facet: TractionFacet<T, D>,
) -> bool {
    &&& cell_in_range(facet.spec_nodes(), nodes@.len())
    &&& judged(geometry, nodes, facet.spec_nodes(), Geometry::Sound)
}

/// Facets accepted up to `bound` name only nodes of the mesh, and the
/// geometry judged each of them sound.
proof fn lemma_accepted_facets<T, F: Fn(&[[T; D]], &[usize; D]) -> Geometry, const D: usize>(
    geometry: F,
    nodes: &[[T; D]],
    facets: Seq<TractionFacet<T, D>>,
    bound: int,
)
    requires
        0 <= bound <= facets.len(),
        forall|f: int| 0 <= f < bound ==> #[trigger] facet_accepted(geometry, nodes, facets[f]),
    ensures
        forall|f: int, k: int|
            0 <= f < bound && 0 <= k < D ==> #[trigger] facets[f].spec_nodes()[k] < nodes@.len(),
        forall|f: int|
            #![trigger facets[f]]
            0 <= f < bound ==> call_ensures(geometry, (nodes, &facets[f].spec_nodes()), Geometry::Sound),
{
    assert forall|f: int, k: int| 0 <= f < bound && 0 <= k < D implies #[trigger] facets[f].spec_nodes()[k]
        < nodes@.len() by {
        assert(facet_accepted(geometry, nodes, facets[f]));
    }
    assert forall|f: int| #![trigger facets[f]] 0 <= f < bound implies call_ensures(
        geometry,
        (nodes, &facets[f].spec_nodes()),
        Geometry::Sound,
    ) by {
        assert(facet_accepted(geometry, nodes, facets[f]));
    }
}

/// A validated set of traction facets on one mesh.
#[derive(Debug)]
pub struct TractionBoundary<'bc, T, const D: usize> {
    facets: &'bc [TractionFacet<T, D>],
}

impl<'bc, T, const D: usize> TractionBoundary<'bc, T, D> {
    /// The facets, in the order given.
    pub closed spec fn spec_facets(&self) -> Seq<TractionFacet<T, D>> {
        self.facets@
    }

    /// Validate facets against a mesh's nodes.
    ///
    /// Facets are examined in order. For each, its node indices are checked
    /// first; then `geometry` judges its coordinates. A facet judged
    /// non-finite is rejected as such, and any other verdict but
    /// [`Geometry::Sound`] means it has no measure.
    ///
    /// # Errors
    ///
    /// Returns [`InvalidBoundary`] for the first facet with a node outside
    /// the mesh or a measure that is zero or not finite, each of which would
    /// otherwise contribute a load that is silently zero or infinite.
    pub fn try_new<F: Fn(&[[T; D]], &[usize; D]) -> Geometry>(
        facets: &'bc [TractionFacet<T, D>],
        nodes: &[[T; D]],
        geometry: F,
    ) -> (result: Result<Self, InvalidBoundary>)
        requires
            forall|f: int|
                0 <= f < facets@.len() && cell_in_range(
                    (#[trigger] facets@[f]).spec_nodes(),
                    nodes@.len(),
                ) ==> call_requires(geometry, (nodes, &facets@[f].spec_nodes())),
        ensures
            match result {
                Ok(boundary) => {
                    &&& boundary.spec_facets() == facets@
                    &&& forall|f: int|
                        0 <= f < facets@.len() ==> #[trigger] facet_accepted(
                            geometry,
                            nodes,
                            facets@[f],
                        )
                    &&& forall|f: int, k: int|
                        0 <= f < facets@.len() && 0 <= k < D ==> #[trigger] facets@[f].spec_nodes()[k] < nodes@.len()
                    &&& forall|f: int|
                        #![trigger facets@[f]]
                        0 <= f < facets@.len() ==> call_ensures(geometry, (nodes, &facets@[f].spec_nodes()), Geometry::Sound)
                },
                Err(InvalidBoundary::NodeOutOfRange { facet, position, node, nodes: count }) => {
                    &&& facet < facets@.len()
                    &&& forall|f: int|
                        0 <= f < facet ==> #[trigger] facet_accepted(geometry, nodes, facets@[f])
                    &&& forall|f: int, k: int|
                        0 <= f < facet && 0 <= k < D ==> #[trigger] facets@[f].spec_nodes()[k] < nodes@.len()
                    &&& forall|f: int|
                        #![trigger facets@[f]]
                        0 <= f < facet ==> call_ensures(geometry, (nodes, &facets@[f].spec_nodes()), Geometry::Sound)
                    &&& position < D
                    &&& forall|k: int|
                        0 <= k < position ==> facets@[facet as int].spec_nodes()[k] < nodes@.len()
                    &&& node == facets@[facet as int].spec_nodes()[position as int]
                    &&& count == nodes@.len()
                    &&& node >= count
                },
                Err(InvalidBoundary::DegenerateFacet { facet }) => {
                    &&& facet < facets@.len()
                    &&& forall|f: int|
                        0 <= f < facet ==> #[trigger] facet_accepted(geometry, nodes, facets@[f])
                    &&& forall|f: int, k: int|
                        0 <= f < facet && 0 <= k < D ==> #[trigger] facets@[f].spec_nodes()[k] < nodes@.len()
                    &&& forall|f: int|
                        #![trigger facets@[f]]
                        0 <= f < facet ==> call_ensures(geometry, (nodes, &facets@[f].spec_nodes()), Geometry::Sound)
                    &&& forall|k: int| 0 <= k < D ==> #[trigger] facets@[facet as int].spec_nodes()[k] < nodes@.len()
                    &&& (call_ensures(geometry, (nodes, &facets@[facet as int].spec_nodes()), Geometry::Degenerate)
                        || call_ensures(geometry, (nodes, &facets@[facet as int].spec_nodes()), Geometry::Inverted))
                    &&& cell_in_range(facets@[facet as int].spec_nodes(), nodes@.len())
                    &&& (judged(
                        geometry,
                        nodes,
                        facets@[facet as int].spec_nodes(),
                        Geometry::Degenerate,
                    ) || judged(
                        geometry,
                        nodes,
                        facets@[facet as int].spec_nodes(),
                        Geometry::Inverted,
                    ))
                },
                Err(InvalidBoundary::NonFiniteFacet { facet }) => {
                    &&& facet < facets@.len()
                    &&& forall|f: int|
                        0 <= f < facet ==> #[trigger] facet_accepted(geometry, nodes, facets@[f])
                    &&& forall|f: int, k: int|
                        0 <= f < facet && 0 <= k < D ==> #[trigger] facets@[f].spec_nodes()[k] < nodes@.len()
                    &&& forall|f: int|
                        #![trigger facets@[f]]
                        0 <= f < facet ==> call_ensures(geometry, (nodes, &facets@[f].spec_nodes()), Geometry::Sound)
                    &&& forall|k: int| 0 <= k < D ==> #[trigger] facets@[facet as int].spec_nodes()[k] < nodes@.len()
                    &&& call_ensures(geometry, (nodes, &facets@[facet as int].spec_nodes()), Geometry::NonFinite)
                    &&& cell_in_range(facets@[facet as int].spec_nodes(), nodes@.len())
                    &&& judged(
                        geometry,
                        nodes,
                        facets@[facet as int].spec_nodes(),
                        Geometry::NonFinite,
                    )
                },
            },
    {
        let mut facet: usize = 0;
        while facet < facets.len()
            invariant
                facet <= facets@.len(),
                forall|f: int|
                    0 <= f < facets@.len() && cell_in_range(
                        (#[trigger] facets@[f]).spec_nodes(),
                        nodes@.len(),
                    ) ==> call_requires(geometry, (nodes, &facets@[f].spec_nodes())),
                forall|f: int|
                    0 <= f < facet ==> #[trigger] facet_accepted(geometry, nodes, facets@[f]),
            decreases facets@.len() - facet,
        {
            let description = &facets[facet];
            let connectivity = description.nodes();
            let mut position: usize = 0;
            while position < D
                invariant
                    facet < facets@.len(),
                    forall|f: int|
                        0 <= f < facet ==> #[trigger] facet_accepted(geometry, nodes, facets@[f]),
                    *connectivity == facets@[facet as int].spec_nodes(),
                    position <= D,
                    forall|k: int| 0 <= k < position ==> connectivity[k] < nodes@.len(),
                decreases D - position,
            {
                let node = connectivity[position];
                if node >= nodes.len() {
                    proof {
                        lemma_accepted_facets(geometry, nodes, facets@, facet as int);
                    }
                    return Err(
                        InvalidBoundary::NodeOutOfRange {
                            facet,
                            position,
                            node,
                            nodes: nodes.len(),
                        },
                    );
                }
                position += 1;
            }
            assert(cell_in_range(facets@[facet as int].spec_nodes(), nodes@.len()));
            let verdict = geometry(nodes, connectivity);
            proof {
                lemma_accepted_facets(geometry, nodes, facets@, facet as int);
            }
            match verdict {
                Geometry::Sound => {},
                Geometry::NonFinite => {
                    return Err(InvalidBoundary::NonFiniteFacet { facet });
                },
                Geometry::Inverted | Geometry::Degenerate => {
                    return Err(InvalidBoundary::DegenerateFacet { facet });
                },
            }
            assert(facet_accepted(geometry, nodes, facets@[facet as int]));
            facet += 1;
        }
        proof {
            lemma_accepted_facets(geometry, nodes, facets@, facets@.len() as int);
        }
        Ok(Self { facets })
    }

    /// The facets, in the order given.
    pub fn facets(&self) -> (facets: &'bc [TractionFacet<T, D>])
        ensures
            facets@ == self.spec_facets(),
    {
        self.facets
    }
}

impl<'bc, T, const D: usize> Clone for TractionBoundary<'bc, T, D> {
    fn clone(&self) -> (copy: Self)
        ensures
            copy == *self,
    {
        *self
    }
}

impl<'bc, T, const D: usize> Copy for TractionBoundary<'bc, T, D> {

}

/// A traction boundary that does not describe the mesh it loads.
#[derive(Clone, Copy, Debug, PartialEq, Eq)]
#[non_exhaustive]
pub enum InvalidBoundary {
    /// A facet names a node the mesh does not have.
    NodeOutOfRange {
        /// Offending facet.
        facet: usize,
        /// Position within that facet.
        position: usize,
        /// The out-of-range node.
        node: usize,
        /// Nodes the mesh has.
        nodes: usize,
    },
    /// A facet has no measure, so it would carry no load however large its
    /// traction.
    DegenerateFacet {
        /// Offending facet.
        facet: usize,
    },
    /// A facet's coordinates are not finite.
    NonFiniteFacet {
        /// Offending facet.
        facet: usize,
    },
}

/// A load vector whose length does not match the mesh.
#[derive(Clone, Copy, Debug, PartialEq, Eq)]
pub struct MisshapedLoad {
    /// Degrees of freedom the mesh has.
    pub expected: usize,
    /// Length supplied.
    pub found: usize,
}

impl InvalidBoundary {
    /// The description of this error, character for character.
    pub open spec fn spec_message(&self) -> Seq<char> {
        match *self {
            InvalidBoundary::NodeOutOfRange { facet, position, node, nodes } => "facet "@
                + decimal(facet as nat)
                + " position "@
                + decimal(position as nat)
                + " names node "@
                + decimal(node as nat)
                + ", but the mesh has "@
                + decimal(nodes as nat),
            InvalidBoundary::DegenerateFacet { facet } => "facet "@
                + decimal(facet as nat)
                + " has no measure"@,
            InvalidBoundary::NonFiniteFacet { facet } => "facet "@
                + decimal(facet as nat)
                + " has a measure that is not finite"@,
        }
    }

    /// A human-readable description of this error.
    pub fn message(&self) -> (text: String)
        ensures
            text@ == self.spec_message(),
    {
        match *self {
            InvalidBoundary::NodeOutOfRange { facet, position, node, nodes } => {
                let mut text = String::from_str("facet ");
                append_decimal(&mut text, facet);
                text.append(" position ");
                append_decimal(&mut text, position);
                text.append(" names node ");
                append_decimal(&mut text, node);
                text.append(", but the mesh has ");
                append_decimal(&mut text, nodes);
                text
            },
            InvalidBoundary::DegenerateFacet { facet } => {
                let mut text = String::from_str("facet ");
                append_decimal(&mut text, facet);
                text.append(" has no measure");
                text
            },
            InvalidBoundary::NonFiniteFacet { facet } => {
                let mut text = String::from_str("facet ");
                append_decimal(&mut text, facet);
                text.append(" has a measure that is not finite");
                text
            },
        }
    }
}

impl MisshapedLoad {
    /// Check that a load vector over `node_count` nodes in `D` dimensions holds
    /// one entry per degree of freedom, `node_count * D`.
    ///
    /// # Errors
    ///
    /// Returns the [`MisshapedLoad`] that names both lengths when `found`
    /// differs from `node_count * D`.
    pub fn check<const D: usize>(node_count: usize, found: usize) -> (result: Result<(), MisshapedLoad>)
        requires
            node_count * D <= usize::MAX,
        ensures
            match result {
                Ok(()) => found == node_count * D,
                Err(error) => {
                    &&& found != node_count * D
                    &&& error.expected == node_count * D
                    &&& error.found == found
                },
            },
    {
        let expected = node_count * D;
        if found == expected {
            Ok(())
        } else {
            Err(MisshapedLoad { expected, found })
        }
    }

    /// The description of this error, character for character.
    pub open spec fn spec_message(&self) -> Seq<char> {
        match *self {
            MisshapedLoad { expected, found } => "the load vector has "@
                + decimal(found as nat)
                + " entries, but the mesh has "@
                + decimal(expected as nat)
                + " degrees of freedom"@,
        }
    }

    /// A human-readable description of this error.
    pub fn message(&self) -> (text: String)
        ensures
            text@ == self.spec_message(),
    {
        match *self {
            MisshapedLoad { expected, found } => {
                let mut text = String::from_str("the load vector has ");
                append_decimal(&mut text, found);
                text.append(" entries, but the mesh has ");
                append_decimal(&mut text, expected);
                text.append(" degrees of freedom");
                text
            },
        }
    }
}

} // verus!
