use vstd::prelude::*;
use vstd::string::StringExecFns;

use crate::text::{append_decimal, decimal};

verus! {

/// A field whose length does not match the mesh.
///
/// A caller error rather than a property of the mesh: a validated mesh
/// integrates on every cell, so a misshaped field is the only failure assembly
/// has left.
#[derive(Clone, Copy, Debug, PartialEq, Eq)]
#[non_exhaustive]
pub enum MisshapedField {
    /// The displacement field is the wrong length.
    Displacement {
        /// Degrees of freedom the mesh has.
        expected: usize,
        /// Length supplied.
        found: usize,
    },
    /// The force field is the wrong length.
    Force {
        /// Degrees of freedom the mesh has.
        expected: usize,
        /// Length supplied.
        found: usize,
    },
    /// The applied-load field is the wrong length.
    Load {
        /// Degrees of freedom the mesh has.
        expected: usize,
        /// Length supplied.
        found: usize,
    },
    /// The scratch buffer is the wrong length.
    Scratch {
        /// Degrees of freedom the mesh has.
        expected: usize,
        /// Length supplied.
        found: usize,
    },
}

/// The part a flat field plays in an assembly routine, which names the
/// [`MisshapedField`] variant its length error is reported under.
#[derive(Clone, Copy, Debug, PartialEq, Eq)]
pub enum FieldRole {
    /// A nodal displacement field read by the routine.
    Displacement,
    /// A force field the routine writes or accumulates into.
    Force,
    /// An applied-load field read by the routine.
    Load,
    /// A scratch buffer the routine works in.
    Scratch,
}

impl MisshapedField {
    /// The error for a field playing `role` that holds `found` entries where
    /// `expected` were owed.
    pub open spec fn spec_for(role: FieldRole, expected: usize, found: usize) -> MisshapedField {
        match role {
            FieldRole::Displacement => MisshapedField::Displacement { expected, found },
            FieldRole::Force => MisshapedField::Force { expected, found },
            FieldRole::Load => MisshapedField::Load { expected, found },
            FieldRole::Scratch => MisshapedField::Scratch { expected, found },
        }
    }

    /// The error for a field playing `role` that holds `found` entries where
    /// `expected` were owed.
    pub fn for_role(role: FieldRole, expected: usize, found: usize) -> (error: MisshapedField)
        ensures
            error == Self::spec_for(role, expected, found),
    {
        match role {
            FieldRole::Displacement => MisshapedField::Displacement { expected, found },
            FieldRole::Force => MisshapedField::Force { expected, found },
            FieldRole::Load => MisshapedField::Load { expected, found },
            FieldRole::Scratch => MisshapedField::Scratch { expected, found },
        }
    }

    /// The description of this error, character for character.
    pub open spec fn spec_message(&self) -> Seq<char> {
        match *self {
            MisshapedField::Displacement { expected, found } => "the displacement field has "@
                + decimal(found as nat)
                + " entries, but the mesh has "@
                + decimal(expected as nat)
                + " degrees of freedom"@,
            MisshapedField::Force { expected, found } => "the force field has "@
                + decimal(found as nat)
                + " entries, but the mesh has "@
                + decimal(expected as nat)
                + " degrees of freedom"@,
            MisshapedField::Load { expected, found } => "the applied load field has "@
                + decimal(found as nat)
                + " entries, but the mesh has "@
                + decimal(expected as nat)
                + " degrees of freedom"@,
            MisshapedField::Scratch { expected, found } => "the scratch field has "@
                + decimal(found as nat)
                + " entries, but the mesh has "@
                + decimal(expected as nat)
                + " degrees of freedom"@,
        }
    }

    /// A human-readable description of this error.
    pub fn message(&self) -> (text: String)
        ensures
            text@ == self.spec_message(),
    {
        match *self {
            MisshapedField::Displacement { expected, found } => {
                let mut text = String::from_str("the displacement field has ");
                append_decimal(&mut text, found);
                text.append(" entries, but the mesh has ");
                append_decimal(&mut text, expected);
                text.append(" degrees of freedom");
                text
            },
            MisshapedField::Force { expected, found } => {
                let mut text = String::from_str("the force field has ");
                append_decimal(&mut text, found);
                text.append(" entries, but the mesh has ");
                append_decimal(&mut text, expected);
                text.append(" degrees of freedom");
                text
            },
            MisshapedField::Load { expected, found } => {
                let mut text = String::from_str("the applied load field has ");
                append_decimal(&mut text, found);
                text.append(" entries, but the mesh has ");
                append_decimal(&mut text, expected);
                text.append(" degrees of freedom");
                text
            },
            MisshapedField::Scratch { expected, found } => {
                let mut text = String::from_str("the scratch field has ");
                append_decimal(&mut text, found);
                text.append(" entries, but the mesh has ");
                append_decimal(&mut text, expected);
                text.append(" degrees of freedom");
                text
            },
        }
    }
}

} // verus!
