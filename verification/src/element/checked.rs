//! A simplex whose node count is checked when it is built, for callers that
//! hold their coordinates as a slice rather than a fixed-size array.

use vstd::prelude::*;
use vstd::string::StringExecFns;

use crate::text::{append_decimal, decimal};

verus! {

/// A linear simplex element over a slice of node coordinates: `D + 1` nodes
/// in `D` dimensions, counted when the element is built.
#[derive(Debug)]
pub struct Simplex<'nodes, T, const D: usize> {
    nodes: &'nodes [[T; D]],
}

impl<'nodes, T, const D: usize> Simplex<'nodes, T, D> {
    /// The element's node coordinates.
    pub closed spec fn spec_nodes(&self) -> Seq<[T; D]> {
        self.nodes@
    }

    /// A simplex in `D` dimensions has exactly `D + 1` nodes.
    #[verifier::type_invariant]
    closed spec fn node_count_matches(&self) -> bool {
        self.nodes@.len() == D + 1
    }

    /// Borrow `D + 1` node coordinates as an element.
    ///
    /// # Errors
    ///
    /// Returns [`InvalidElement::NodeCount`] when the slice is not exactly
    /// `D + 1` long. A simplex is defined by that count; accepting any other
    /// would silently interpret the extra or missing nodes.
    pub fn try_new(nodes: &'nodes [[T; D]]) -> (result: Result<Self, InvalidElement>)
        requires
            D < usize::MAX,
        ensures
            match result {
                Ok(element) => nodes@.len() == D + 1 && element.spec_nodes() == nodes@,
                Err(error) => nodes@.len() != D + 1 && error == (InvalidElement::NodeCount {
                    expected: (D + 1) as usize,
                    found: nodes@.len() as usize,
                }),
            },
    {
        if nodes.len() == D + 1 {
            Ok(Self { nodes })
        } else {
            Err(InvalidElement::NodeCount { expected: D + 1, found: nodes.len() })
        }
    }

    /// The element's node coordinates.
    pub fn nodes(&self) -> (nodes: &'nodes [[T; D]])
        ensures
            nodes@ == self.spec_nodes(),
            nodes@.len() == D + 1,
    {
        proof {
            use_type_invariant(self);
        }
        self.nodes
    }
}

impl<'nodes, T, const D: usize> Clone for Simplex<'nodes, T, D> {
    fn clone(&self) -> (copy: Self)
        ensures
            copy == *self,
    {
        *self
    }
}

impl<'nodes, T, const D: usize> Copy for Simplex<'nodes, T, D> {

}

/// An element that cannot be interpreted.
#[derive(Clone, Copy, Debug, PartialEq, Eq)]
pub enum InvalidElement {
    /// A simplex in `D` dimensions has exactly `D + 1` nodes.
    NodeCount {
        /// Nodes a `D`-simplex requires.
        expected: usize,
        /// Nodes supplied.
        found: usize,
    },
    /// The element has no measure, so its shape gradients are undefined.
    Degenerate,
}

impl InvalidElement {
    /// The description of this error, character for character.
    pub open spec fn spec_message(&self) -> Seq<char> {
        match *self {
            InvalidElement::NodeCount { expected, found } => "a simplex needs "@
                + decimal(expected as nat)
                + " nodes, got "@
                + decimal(found as nat),
            InvalidElement::Degenerate => "the element is degenerate and has no measure"@,
        }
    }

    /// A human-readable description of this error.
    pub fn message(&self) -> (text: String)
        ensures
            text@ == self.spec_message(),
    {
        match *self {
            InvalidElement::NodeCount { expected, found } => {
                let mut text = String::from_str("a simplex needs ");
                append_decimal(&mut text, expected);
                text.append(" nodes, got ");
                append_decimal(&mut text, found);
                text
            },
            InvalidElement::Degenerate => String::from_str("the element is degenerate and has no measure"),
        }
    }
}

} // verus!
