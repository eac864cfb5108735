use vstd::prelude::*;
use vstd::string::StringExecFns;


verus! {

/// A linear simplex element: `D + 1` nodes in `D` dimensions.
///
/// A borrowed view over caller-owned node coordinates rather than an owning
/// type: the node positions already live in the mesh, and copying them per
/// element would be allocation churn on the hottest path assembly has.
///
/// The node count is the second const parameter `N`, which must be `D + 1`,
/// so the displacement and force buffers of the element cannot be misshaped
/// and the element's only remaining failure is geometric.
#[derive(Debug)]
pub struct Simplex<'nodes, T, const D: usize, const N: usize> {
    nodes: &'nodes [[T; D]; N],
}

impl<'nodes, T, const D: usize, const N: usize> Simplex<'nodes, T, D, N> {
    /// The element's node coordinates.
    pub closed spec fn spec_nodes(&self) -> [[T; D]; N] {
        *self.nodes
    }

    /// A simplex in `D` dimensions has `D + 1` nodes.
    #[verifier::type_invariant]
    closed spec fn node_count_matches(&self) -> bool {
        N == D + 1
    }

    /// Borrow `D + 1` node coordinates as an element.
    pub fn new(nodes: &'nodes [[T; D]; N]) -> (element: Self)
        requires
            N == D + 1,
        ensures
            element.spec_nodes() == *nodes,
    {
        Self { nodes }
    }

    /// The element's node coordinates.
    pub fn nodes(&self) -> (nodes: &'nodes [[T; D]; N])
        ensures
            *nodes == self.spec_nodes(),
            N == D + 1,
    {
        proof {
            use_type_invariant(self);
        }
        self.nodes
    }
}

impl<'nodes, T, const D: usize, const N: usize> Clone for Simplex<'nodes, T, D, N> {
    fn clone(&self) -> (copy: Self)
        ensures
            copy == *self,
    {
        *self
    }
}

impl<'nodes, T, const D: usize, const N: usize> Copy for Simplex<'nodes, T, D, N> {

}

/// The element has no measure, so its shape gradients are undefined.
///
/// The only way an element can fail, now that its node count is structural.
#[derive(Clone, Copy, Debug, Default, PartialEq, Eq)]
pub struct DegenerateElement;

impl DegenerateElement {
    /// The description of this error, character for character.
    pub open spec fn spec_message(&self) -> Seq<char> {
        "the element is degenerate and has no measure"@
    }

    /// A human-readable description of this error.
    pub fn message(&self) -> (text: String)
        ensures
            text@ == self.spec_message(),
    {
        String::from_str("the element is degenerate and has no measure")
    }
}

} // verus!
