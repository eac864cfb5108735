# ares

Solid momentum balance for small-strain linear elastostatics on an
unstructured simplex mesh.

The crate is in two parts.

- `src/` is the library, verified with Verus. It owns everything that is
  decided by indices and layouts: the flat degree-of-freedom layout
  (`node * D + component`), validation of meshes, traction boundaries,
  Dirichlet conditions and coupling interfaces, the Dirichlet projections that
  build the constrained operator and its right-hand side, the exchange
  orderings of the coupling interface, and the descriptions of its errors.
  Geometry that needs arithmetic on the scalar field reaches the validators as
  a judgement (`Geometry`) supplied by the caller.
- `app/` is ordinary Rust over the library: the floating-point numerics.
  Element measures and shape gradients, the strain and stress tensors, the
  isotropic constitutive closure, the matrix-free stiffness action and its
  assembly, the consistent loads and the interface work all live there, and
  the geometry judges it hands the library's validators are its measures.

Length checks on the buffers those numerics read and write are the library's:
`SimplexMesh::check_field`, `MisshapedLoad::check` and
`StructuralInterface::check_work_exchange` decide which error a mismatch is
reported under.

Not provided: the Krylov-solver seam. `ConstrainedStiffness` (the constrained
stiffness offered to Athena as a linear operator), `StructuralPartition` (a
coupled partition driven by Harmonia that solves for the interface traction)
and its `PartitionError` are left out, because the crates they build on, the
Athena backends and Harmonia's partitioning, are not available to this
project. The constrained action `P K P + (I - P)` and its right-hand side,
which the operator wraps, are provided by `app/` on top of the library's
projections.

`tests/` exercises the library from outside.
