use vstd::prelude::*;
use vstd::string::StringExecFns;

use crate::text::{append_decimal, decimal};

verus! {

/// A prescribed displacement component at one node.
///
/// The typed form of a Dirichlet condition. The alternative, callers zeroing
/// rows and columns of a matrix by index, is where sign errors and off-by-one
/// mistakes live, and it produces a system that still solves.
#[derive(Clone, Copy, Debug, PartialEq)]
pub struct PrescribedDisplacement<T> {
    node: usize,
    component: usize,
    value: T,
}

impl<T> PrescribedDisplacement<T> {
    /// The constrained node.
    pub closed spec fn spec_node(&self) -> usize {
        self.node
    }

    /// The constrained component.
    pub closed spec fn spec_component(&self) -> usize {
        self.component
    }

    /// The prescribed value.
    pub closed spec fn spec_value(&self) -> T {
        self.value
    }

    /// The degree of freedom in the flat layout `node * d + component`.
    pub open spec fn spec_dof(&self, d: usize) -> int {
        self.spec_node() * d + self.spec_component()
    }

    /// Prescribe `value` for `component` of the displacement at `node`.
    ///
    /// Range is checked against the mesh by [`DirichletConditions::try_new`],
    /// not here: a condition is meaningful only against the mesh it constrains.
    pub fn new(node: usize, component: usize, value: T) -> (condition: Self)
        ensures
            condition.spec_node() == node,
            condition.spec_component() == component,
            condition.spec_value() == value,
    {
        Self { node, component, value }
    }

    /// The constrained node.
    pub fn node(&self) -> (node: usize)
        ensures
            node == self.spec_node(),
    {
        self.node
    }

    /// The constrained component.
    pub fn component(&self) -> (component: usize)
        ensures
            component == self.spec_component(),
    {
        self.component
    }

    /// The prescribed value.
    pub fn value(&self) -> (value: &T)
        ensures
            *value == self.spec_value(),
    {
        &self.value
    }

    /// The degree of freedom this condition constrains, in the flat field
    /// layout `node * D + component`.
    pub fn degree_of_freedom<const D: usize>(&self) -> (dof: usize)
        requires
            self.spec_dof(D) <= usize::MAX,
        ensures
            dof == self.spec_dof(D),
            dof == self.spec_node() * D + self.spec_component(),
    {
        self.node * D + self.component
    }
}

/// Whether the condition at `position` passes validation against a mesh of
/// `node_count` nodes in `d` dimensions: its node and component exist, and its
/// degree of freedom exceeds the previous condition's.
pub open spec fn condition_admissible<T>(
    prescribed: Seq<PrescribedDisplacement<T>>,
    position: int,
    node_count: usize,
    d: usize,
) -> bool {
    &&& prescribed[position].spec_node() < node_count
    &&& prescribed[position].spec_component() < d
    &&& position > 0 ==> prescribed[position - 1].spec_dof(d) < prescribed[position].spec_dof(d)
}

/// Whether the degree of freedom of the condition at `position` fits in a
/// `usize` whenever validation reaches that condition and finds its node and
/// component in range, which is when validation computes it.
pub open spec fn degree_of_freedom_fits<T>(
    prescribed: Seq<PrescribedDisplacement<T>>,
    position: int,
    node_count: usize,
    d: usize,
) -> bool {
    (forall|i: int| 0 <= i < position ==> #[trigger] condition_admissible(prescribed, i, node_count, d))
        && prescribed[position].spec_node() < node_count && prescribed[position].spec_component() < d
        ==> prescribed[position].spec_dof(d) <= usize::MAX
}

/// The prescribed value of every constrained degree of freedom, keyed by
/// degree of freedom. A later condition on the same degree of freedom
/// overrides an earlier one, which is the order in which they are applied.
pub open spec fn prescription<T>(prescribed: Seq<PrescribedDisplacement<T>>, d: usize) -> Map<
    int,
    T,
>
    decreases prescribed.len(),
{
    if prescribed.len() == 0 {
        Map::empty()
    } else {
        prescription(prescribed.drop_last(), d).insert(
            prescribed.last().spec_dof(d),
            prescribed.last().spec_value(),
        )
    }
}

/// `field` with the entries named by `values` replaced by their values.
pub open spec fn imposed<T>(field: Seq<T>, values: Map<int, T>) -> Seq<T> {
    Seq::new(field.len(), |j: int| if values.dom().contains(j) { values[j] } else { field[j] })
}

/// The projection `P`: `field` with the `constrained` entries set to `zero`.
pub open spec fn projected<T>(field: Seq<T>, constrained: Set<int>, zero: T) -> Seq<T> {
    Seq::new(field.len(), |j: int| if constrained.contains(j) { zero } else { field[j] })
}

/// `target` with its `constrained` entries copied from `source` wherever
/// `source` has that entry.
pub open spec fn carried<T>(source: Seq<T>, target: Seq<T>, constrained: Set<int>) -> Seq<T> {
    Seq::new(
        target.len(),
        |j: int|
            if constrained.contains(j) && j < source.len() {
                source[j]
            } else {
                target[j]
            },
    )
}

/// The flat degree-of-freedom layout is one-to-one: two (node, component)
/// pairs with components inside the space name the same degree of freedom
/// only when they are the same pair.
pub proof fn lemma_degree_of_freedom_is_injective<T>(
    first: PrescribedDisplacement<T>,
    second: PrescribedDisplacement<T>,
    d: usize,
)
    requires
        first.spec_component() < d,
        second.spec_component() < d,
        first.spec_dof(d) == second.spec_dof(d),
    ensures
        first.spec_node() == second.spec_node(),
        first.spec_component() == second.spec_component(),
{
    let (n1, c1) = (first.spec_node() as int, first.spec_component() as int);
    let (n2, c2) = (second.spec_node() as int, second.spec_component() as int);
    assert(n1 == n2) by (nonlinear_arith)
        requires
            n1 * d + c1 == n2 * d + c2,
            0 <= c1 < d,
            0 <= c2 < d,
            n1 >= 0,
            n2 >= 0,
    {
        if n1 < n2 {
            assert(n1 * d + d <= n2 * d);
        } else if n2 < n1 {
            assert(n2 * d + d <= n1 * d);
        }
    }
}

/// The flat layout puts every component of a node in one block of `d`
/// consecutive degrees of freedom, the block of node `n` starting at `n * d`:
/// dividing a degree of freedom by `d` gives back its node, and the remainder
/// gives back its component.
pub proof fn lemma_degree_of_freedom_decomposes<T>(condition: PrescribedDisplacement<T>, d: usize)
    requires
        condition.spec_component() < d,
    ensures
        condition.spec_dof(d) / (d as int) == condition.spec_node(),
        condition.spec_dof(d) % (d as int) == condition.spec_component(),
        condition.spec_node() * d <= condition.spec_dof(d) < condition.spec_node() * d + d,
{
    let n = condition.spec_node() as int;
    let c = condition.spec_component() as int;
    let dof = condition.spec_dof(d);
    assert(dof == n * d + c);
    vstd::arithmetic::div_mod::lemma_fundamental_div_mod_converse(dof, d as int, n, c);
}

/// Conditions accepted by validation apply each condition exactly: the
/// constrained degrees of freedom are those the conditions name, and each
/// carries the value its own condition prescribes, since no two name the same
/// degree of freedom.
pub proof fn lemma_accepted_conditions_apply_exactly<T>(
    prescribed: Seq<PrescribedDisplacement<T>>,
    node_count: usize,
    d: usize,
)
    requires
        forall|i: int|
            0 <= i < prescribed.len() ==> #[trigger] condition_admissible(
                prescribed,
                i,
                node_count,
                d,
            ),
    ensures
        forall|j: int|
            #[trigger] prescription(prescribed, d).dom().contains(j) <==> exists|i: int|
                0 <= i < prescribed.len() && (#[trigger] prescribed[i]).spec_dof(d) == j,
        forall|i: int|
            0 <= i < prescribed.len() ==> prescription(prescribed, d)[(
            #[trigger] prescribed[i]).spec_dof(d)] == prescribed[i].spec_value(),
    decreases prescribed.len(),
{
    if prescribed.len() > 0 {
        let rest = prescribed.drop_last();
        assert forall|i: int| 0 <= i < rest.len() implies #[trigger] condition_admissible(
            rest,
            i,
            node_count,
            d,
        ) by {
            assert(condition_admissible(prescribed, i, node_count, d));
        }
        lemma_accepted_conditions_apply_exactly(rest, node_count, d);
        lemma_admissible_increasing(prescribed, node_count, d);
        let last = prescribed.len() - 1;
        assert forall|j: int|
            prescription(prescribed, d).dom().contains(j) <==> exists|i: int|
                0 <= i < prescribed.len() && (#[trigger] prescribed[i]).spec_dof(d) == j by {
            if prescription(prescribed, d).dom().contains(j) {
                if j == prescribed[last].spec_dof(d) {
                    assert(prescribed[last].spec_dof(d) == j);
                } else {
                    assert(prescription(rest, d).dom().contains(j));
                    let i = choose|i: int| 0 <= i < rest.len() && (#[trigger] rest[i]).spec_dof(d) == j;
                    assert(prescribed[i] == rest[i]);
                    assert(prescribed[i].spec_dof(d) == j);
                }
            }
            if exists|i: int| 0 <= i < prescribed.len() && (#[trigger] prescribed[i]).spec_dof(d) == j {
                let i = choose|i: int| 0 <= i < prescribed.len() && (#[trigger] prescribed[i]).spec_dof(d) == j;
                if i < last {
                    assert(rest[i] == prescribed[i]);
                    assert(rest[i].spec_dof(d) == j);
                    assert(prescription(rest, d).dom().contains(j));
                }
            }
        }
        assert forall|i: int| 0 <= i < prescribed.len() implies prescription(prescribed, d)[(
        #[trigger] prescribed[i]).spec_dof(d)] == prescribed[i].spec_value() by {
            if i < last {
                assert(rest[i] == prescribed[i]);
                assert(prescribed[i].spec_dof(d) < prescribed[last].spec_dof(d));
            }
        }
    }
}

/// Conditions whose degrees of freedom strictly increase apply each condition
/// exactly: the constrained degrees of freedom are those the conditions name,
/// and each carries the value of the one condition that names it.
proof fn lemma_increasing_conditions_apply_exactly<T>(prescribed: Seq<PrescribedDisplacement<T>>, d: usize)
    requires
        forall|i: int, j: int|
            0 <= i < j < prescribed.len() ==> (#[trigger] prescribed[i]).spec_dof(d) < (
            #[trigger] prescribed[j]).spec_dof(d),
    ensures
        forall|j: int|
            #[trigger] prescription(prescribed, d).dom().contains(j) <==> exists|i: int|
                0 <= i < prescribed.len() && (#[trigger] prescribed[i]).spec_dof(d) == j,
        forall|i: int|
            0 <= i < prescribed.len() ==> prescription(prescribed, d)[(
            #[trigger] prescribed[i]).spec_dof(d)] == prescribed[i].spec_value(),
    decreases prescribed.len(),
{
    if prescribed.len() > 0 {
        let rest = prescribed.drop_last();
        assert forall|i: int, j: int| 0 <= i < j < rest.len() implies (#[trigger] rest[i]).spec_dof(d) < (
        #[trigger] rest[j]).spec_dof(d) by {
            assert(rest[i] == prescribed[i] && rest[j] == prescribed[j]);
            assert(prescribed[i].spec_dof(d) < prescribed[j].spec_dof(d));
        }
        lemma_increasing_conditions_apply_exactly(rest, d);
        let last = prescribed.len() - 1;
        assert forall|j: int|
            prescription(prescribed, d).dom().contains(j) <==> exists|i: int|
                0 <= i < prescribed.len() && (#[trigger] prescribed[i]).spec_dof(d) == j by {
            if prescription(prescribed, d).dom().contains(j) {
                if j == prescribed[last].spec_dof(d) {
                    assert(prescribed[last].spec_dof(d) == j);
                } else {
                    assert(prescription(rest, d).dom().contains(j));
                    let i = choose|i: int| 0 <= i < rest.len() && (#[trigger] rest[i]).spec_dof(d) == j;
                    assert(prescribed[i] == rest[i]);
                    assert(prescribed[i].spec_dof(d) == j);
                }
            }
            if exists|i: int| 0 <= i < prescribed.len() && (#[trigger] prescribed[i]).spec_dof(d) == j {
                let i = choose|i: int| 0 <= i < prescribed.len() && (#[trigger] prescribed[i]).spec_dof(d) == j;
                if i < last {
                    assert(rest[i] == prescribed[i]);
                    assert(rest[i].spec_dof(d) == j);
                    assert(prescription(rest, d).dom().contains(j));
                }
            }
        }
        assert forall|i: int| 0 <= i < prescribed.len() implies prescription(prescribed, d)[(
        #[trigger] prescribed[i]).spec_dof(d)] == prescribed[i].spec_value() by {
            if i < last {
                assert(rest[i] == prescribed[i]);
                assert(prescribed[i].spec_dof(d) < prescribed[last].spec_dof(d));
            }
        }
    }
}

/// Admissible conditions strictly increase in degree of freedom, pairwise.
proof fn lemma_admissible_increasing<T>(
    prescribed: Seq<PrescribedDisplacement<T>>,
    node_count: usize,
    d: usize,
)
    requires
        forall|i: int|
            0 <= i < prescribed.len() ==> #[trigger] condition_admissible(
                prescribed,
                i,
                node_count,
                d,
            ),
    ensures
        forall|i: int, j: int|
            0 <= i < j < prescribed.len() ==> (#[trigger] prescribed[i]).spec_dof(d) < (
            #[trigger] prescribed[j]).spec_dof(d),
    decreases prescribed.len(),
{
    if prescribed.len() > 0 {
        let rest = prescribed.drop_last();
        assert forall|i: int| 0 <= i < rest.len() implies #[trigger] condition_admissible(
            rest,
            i,
            node_count,
            d,
        ) by {
            assert(condition_admissible(prescribed, i, node_count, d));
        }
        lemma_admissible_increasing(rest, node_count, d);
        let last = prescribed.len() - 1;
        assert forall|i: int, j: int| 0 <= i < j < prescribed.len() implies (
        #[trigger] prescribed[i]).spec_dof(d) < (#[trigger] prescribed[j]).spec_dof(d) by {
            assert(rest[i] == prescribed[i]);
            if j < last {
                assert(rest[j] == prescribed[j]);
            } else {
                assert(condition_admissible(prescribed, last, node_count, d));
                if i < last - 1 {
                    assert(rest[last - 1] == prescribed[last - 1]);
                }
            }
        }
    }
}

/// The projection `P` is idempotent: projecting a projected field changes
/// nothing.
pub proof fn lemma_projection_is_idempotent<T>(field: Seq<T>, constrained: Set<int>, zero: T)
    ensures
        projected(projected(field, constrained, zero), constrained, zero) == projected(
            field,
            constrained,
            zero,
        ),
{
    assert(projected(projected(field, constrained, zero), constrained, zero) =~= projected(
        field,
        constrained,
        zero,
    ));
}

/// The constrained operator `P K P + (I - P)` leaves identity rows: after the
/// projected action is computed into `output`, projecting it and carrying the
/// input gives the input on every constrained entry and the computed action
/// on every free one.
pub proof fn lemma_constrained_rows_are_identity_rows<T>(
    input: Seq<T>,
    output: Seq<T>,
    constrained: Set<int>,
    zero: T,
)
    requires
        input.len() == output.len(),
    ensures
        forall|j: int|
            0 <= j < output.len() ==> #[trigger] carried(
                input,
                projected(output, constrained, zero),
                constrained,
            )[j] == if constrained.contains(j) {
                input[j]
            } else {
                output[j]
            },
        carried(input, projected(output, constrained, zero), constrained).len() == output.len(),
{
}

/// Imposing the prescription after projecting replaces whatever the
/// constrained entries held: the constrained right-hand side carries exactly
/// the prescribed values there, and the free entries are untouched.
pub proof fn lemma_imposing_overrides_projection<T>(field: Seq<T>, values: Map<int, T>, zero: T)
    ensures
        imposed(projected(field, values.dom(), zero), values) == imposed(field, values),
{
    assert(imposed(projected(field, values.dom(), zero), values) =~= imposed(field, values));
}

/// Imposing the same prescription twice is the same as imposing it once.
pub proof fn lemma_imposing_is_idempotent<T>(field: Seq<T>, values: Map<int, T>)
    ensures
        imposed(imposed(field, values), values) == imposed(field, values),
{
    assert(imposed(imposed(field, values), values) =~= imposed(field, values));
}

/// A validated set of Dirichlet conditions on one mesh.
///
/// The conditions are strictly increasing in degree of freedom. That makes
/// duplicate detection a single pass, and it fixes the order in which the
/// conditions apply: two conditions on one degree of freedom would otherwise
/// resolve by whichever the caller listed last.
#[derive(Debug)]
pub struct DirichletConditions<'bc, T, const D: usize> {
    prescribed: &'bc [PrescribedDisplacement<T>],
}

impl<'bc, T, const D: usize> DirichletConditions<'bc, T, D> {
    /// The conditions, in degree-of-freedom order.
    pub closed spec fn spec_prescribed(&self) -> Seq<PrescribedDisplacement<T>> {
        self.prescribed@
    }

    /// Every condition names a component of the space, its degree of freedom
    /// is addressable, and the degrees of freedom strictly increase.
    #[verifier::type_invariant]
    closed spec fn ordered(&self) -> bool {
        &&& forall|i: int|
            0 <= i < self.prescribed@.len() ==> {
                &&& (#[trigger] self.prescribed@[i]).spec_component() < D
                &&& self.prescribed@[i].spec_dof(D) <= usize::MAX
            }
        &&& forall|i: int, j: int|
            0 <= i < j < self.prescribed@.len() ==> (#[trigger] self.prescribed@[i]).spec_dof(D)
                < (#[trigger] self.prescribed@[j]).spec_dof(D)
    }

    /// The constrained degrees of freedom.
    pub open spec fn constrained(&self) -> Set<int> {
        prescription(self.spec_prescribed(), D).dom()
    }

    /// The prescribed value of each constrained degree of freedom.
    pub open spec fn values(&self) -> Map<int, T> {
        prescription(self.spec_prescribed(), D)
    }

    /// Validate conditions against a mesh of `node_count` nodes.
    ///
    /// # Errors
    ///
    /// Returns [`InvalidConditions`] for the first condition whose node or
    /// component is outside the mesh, or whose degree of freedom does not
    /// exceed the previous one's, which covers both duplicates and unordered
    /// input.
    pub fn try_new(prescribed: &'bc [PrescribedDisplacement<T>], node_count: usize) -> (result:
        Result<Self, InvalidConditions>)
        requires
            forall|i: int|
                0 <= i < prescribed@.len() ==> #[trigger] degree_of_freedom_fits(
                    prescribed@,
                    i,
                    node_count,
                    D,
                ),
        ensures
            match result {
                Ok(conditions) => {
                    &&& conditions.spec_prescribed() == prescribed@
                    &&& forall|i: int|
                        0 <= i < prescribed@.len() ==> (#[trigger] prescribed@[i]).spec_node() < node_count
                            && prescribed@[i].spec_component() < D
                    &&& forall|i: int, j: int|
                        0 <= i < j < prescribed@.len() ==> (#[trigger] prescribed@[i]).spec_node() * D
                            + prescribed@[i].spec_component() < (#[trigger] prescribed@[j]).spec_node() * D
                            + prescribed@[j].spec_component()
                    &&& forall|i: int|
                        0 <= i < prescribed@.len() ==> #[trigger] condition_admissible(
                            prescribed@,
                            i,
                            node_count,
                            D,
                        )
                },
                Err(InvalidConditions::NodeOutOfRange { position, node, nodes }) => {
                    &&& position < prescribed@.len()
                    &&& forall|i: int|
                        0 <= i < position ==> #[trigger] condition_admissible(prescribed@, i, node_count, D)
                    &&& node == prescribed@[position as int].spec_node()
                    &&& forall|i: int|
                        0 <= i < position ==> (#[trigger] prescribed@[i]).spec_node() < node_count
                            && prescribed@[i].spec_component() < D
                    &&& forall|i: int, j: int|
                        0 <= i < j < position ==> (#[trigger] prescribed@[i]).spec_node() * D
                            + prescribed@[i].spec_component() < (#[trigger] prescribed@[j]).spec_node() * D
                            + prescribed@[j].spec_component()
                    &&& nodes == node_count
                    &&& node >= node_count
                },
                Err(InvalidConditions::ComponentOutOfRange { position, component, dimensions }) => {
                    &&& position < prescribed@.len()
                    &&& forall|i: int|
                        0 <= i < position ==> #[trigger] condition_admissible(prescribed@, i, node_count, D)
                    &&& prescribed@[position as int].spec_node() < node_count
                    &&& component == prescribed@[position as int].spec_component()
                    &&& forall|i: int|
                        0 <= i < position ==> (#[trigger] prescribed@[i]).spec_node() < node_count
                            && prescribed@[i].spec_component() < D
                    &&& forall|i: int, j: int|
                        0 <= i < j < position ==> (#[trigger] prescribed@[i]).spec_node() * D
                            + prescribed@[i].spec_component() < (#[trigger] prescribed@[j]).spec_node() * D
                            + prescribed@[j].spec_component()
                    &&& dimensions == D
                    &&& component >= D
                },
                Err(
                    InvalidConditions::NotStrictlyIncreasing {
                        position,
                        degree_of_freedom,
                        previous,
                    },
                ) => {
                    &&& 0 < position < prescribed@.len()
                    &&& forall|i: int|
                        0 <= i < position ==> #[trigger] condition_admissible(prescribed@, i, node_count, D)
                    &&& prescribed@[position as int].spec_node() < node_count
                    &&& prescribed@[position as int].spec_component() < D
                    &&& degree_of_freedom == prescribed@[position as int].spec_dof(D)
                    &&& previous == prescribed@[position - 1].spec_dof(D)
                    &&& degree_of_freedom <= previous
                    &&& forall|i: int|
                        0 <= i < position ==> (#[trigger] prescribed@[i]).spec_node() < node_count
                            && prescribed@[i].spec_component() < D
                    &&& forall|i: int, j: int|
                        0 <= i < j < position ==> (#[trigger] prescribed@[i]).spec_node() * D
                            + prescribed@[i].spec_component() < (#[trigger] prescribed@[j]).spec_node() * D
                            + prescribed@[j].spec_component()
                    &&& degree_of_freedom == prescribed@[position as int].spec_node() * D
                        + prescribed@[position as int].spec_component()
                    &&& previous == prescribed@[position - 1].spec_node() * D + prescribed@[position
                        - 1].spec_component()
                },
            },
    {
        let mut previous: Option<usize> = None;
        let mut position: usize = 0;
        while position < prescribed.len()
            invariant
                forall|i: int|
                    0 <= i < prescribed@.len() ==> #[trigger] degree_of_freedom_fits(
                        prescribed@,
                        i,
                        node_count,
                        D,
                    ),
                position <= prescribed@.len(),
                forall|i: int|
                    0 <= i < position ==> #[trigger] condition_admissible(prescribed@, i, node_count, D),
                forall|i: int| 0 <= i < position ==> (#[trigger] prescribed@[i]).spec_dof(D) <= usize::MAX,
                forall|i: int|
                    0 <= i < position ==> (#[trigger] prescribed@[i]).spec_node() < node_count
                        && prescribed@[i].spec_component() < D,
                forall|i: int, j: int|
                    0 <= i < j < position ==> (#[trigger] prescribed@[i]).spec_dof(D) < (
                    #[trigger] prescribed@[j]).spec_dof(D),
                match previous {
                    None => position == 0,
                    Some(last) => position > 0 && last == prescribed@[position - 1].spec_dof(D),
                },
            decreases prescribed@.len() - position,
        {
            let condition = &prescribed[position];
            if condition.node() >= node_count {
                return Err(
                    InvalidConditions::NodeOutOfRange {
                        position,
                        node: condition.node(),
                        nodes: node_count,
                    },
                );
            }
            if condition.component() >= D {
                return Err(
                    InvalidConditions::ComponentOutOfRange {
                        position,
                        component: condition.component(),
                        dimensions: D,
                    },
                );
            }
            assert(degree_of_freedom_fits(prescribed@, position as int, node_count, D));
            let dof = condition.degree_of_freedom::<D>();
            if let Some(last) = previous {
                if dof <= last {
                    return Err(
                        InvalidConditions::NotStrictlyIncreasing {
                            position,
                            degree_of_freedom: dof,
                            previous: last,
                        },
                    );
                }
            }
            previous = Some(dof);
            position += 1;
        }
        assert forall|i: int| 0 <= i < prescribed@.len() implies {
            &&& (#[trigger] prescribed@[i]).spec_component() < D
            &&& prescribed@[i].spec_dof(D) <= usize::MAX
        } by {
            assert(condition_admissible(prescribed@, i, node_count, D));
        }
        let conditions = Self { prescribed };
        Ok(conditions)
    }

    /// The conditions, in degree-of-freedom order.
    pub fn prescribed(&self) -> (prescribed: &'bc [PrescribedDisplacement<T>])
        ensures
            prescribed@ == self.spec_prescribed(),
    {
        self.prescribed
    }

    /// How many degrees of freedom are constrained.
    pub fn len(&self) -> (count: usize)
        ensures
            count == self.spec_prescribed().len(),
    {
        self.prescribed.len()
    }

    /// Whether the mesh is unconstrained.
    ///
    /// An unconstrained elastostatic system is singular, since the rigid-body
    /// modes are in its null space, so `true` here diagnoses a solve that will
    /// not converge.
    pub fn is_empty(&self) -> (empty: bool)
        ensures
            empty == (self.spec_prescribed().len() == 0),
    {
        self.prescribed.len() == 0
    }
}

/// Extending a condition list by one condition adds that condition's
/// prescription, overriding any earlier one on the same degree of freedom.
proof fn lemma_prescription_extends<T>(prescribed: Seq<PrescribedDisplacement<T>>, k: int, d: usize)
    requires
        0 <= k < prescribed.len(),
    ensures
        prescription(prescribed.take(k + 1), d) == prescription(prescribed.take(k), d).insert(
            prescribed[k].spec_dof(d),
            prescribed[k].spec_value(),
        ),
{
    assert(prescribed.take(k + 1).drop_last() =~= prescribed.take(k));
}

impl<'bc, T: Copy, const D: usize> DirichletConditions<'bc, T, D> {
    /// Zero the constrained entries of a field: the projection `P`.
    ///
    /// `zero` is the scalar field's additive identity. Costs one pass over the
    /// conditions, not over the field; a condition beyond the field's end is
    /// skipped.
    pub fn project(&self, field: &mut [T], zero: T)
        ensures
            final(field)@ == projected(old(field)@, self.constrained(), zero),
            final(field)@.len() == old(field)@.len(),
            forall|i: int|
                0 <= i < self.spec_prescribed().len() && (#[trigger] self.spec_prescribed()[i]).spec_node() * D + self.spec_prescribed()[i].spec_component() < old(field)@.len() ==> final(field)@[self.spec_prescribed()[i].spec_node() * D + self.spec_prescribed()[i].spec_component()]
                    == zero,
            forall|j: int|
                0 <= j < old(field)@.len() && (forall|i: int|
                    0 <= i < self.spec_prescribed().len() ==> (#[trigger] self.spec_prescribed()[i]).spec_node() * D + self.spec_prescribed()[i].spec_component() != j) ==> #[trigger] final(field)@[j]
                    == old(field)@[j],
    {
        proof {
            use_type_invariant(self);
        }
        let count = self.prescribed.len();
        let mut k: usize = 0;
        while k < count
            invariant
                k <= count,
                count == self.prescribed@.len(),
                forall|i: int|
                    0 <= i < self.prescribed@.len() ==> (#[trigger] self.prescribed@[i]).spec_dof(D)
                        <= usize::MAX,
                field@ == projected(
                    old(field)@,
                    prescription(self.prescribed@.take(k as int), D).dom(),
                    zero,
                ),
            decreases count - k,
        {
            proof {
                lemma_prescription_extends(self.prescribed@, k as int, D);
            }
            let dof = self.prescribed[k].degree_of_freedom::<D>();
            if dof < field.len() {
                field[dof] = zero;
            }
            k += 1;
            assert(field@ =~= projected(
                old(field)@,
                prescription(self.prescribed@.take(k as int), D).dom(),
                zero,
            ));
        }
        assert(self.prescribed@.take(count as int) =~= self.prescribed@);
        proof {
            lemma_increasing_conditions_apply_exactly(self.prescribed@, D);
            assert forall|i: int|
                0 <= i < self.prescribed@.len() implies #[trigger] prescription(self.prescribed@, D).dom().contains(
                self.prescribed@[i].spec_dof(D),
            ) by {
                assert(self.prescribed@[i].spec_dof(D) == self.prescribed@[i].spec_dof(D));
            }
            assert forall|j: int|
                #![trigger prescription(self.prescribed@, D).dom().contains(j)]
                0 <= j < old(field)@.len() && (forall|i: int|
                    0 <= i < self.prescribed@.len() ==> (#[trigger] self.prescribed@[i]).spec_node() * D
                        + self.prescribed@[i].spec_component() != j) implies !prescription(
                self.prescribed@,
                D,
            ).dom().contains(j) by {
                if prescription(self.prescribed@, D).dom().contains(j) {
                    let i = choose|i: int|
                        0 <= i < self.prescribed@.len() && (#[trigger] self.prescribed@[i]).spec_dof(D) == j;
                    assert(self.prescribed@[i].spec_node() * D + self.prescribed@[i].spec_component() == j);
                }
            }
        }
    }

    /// Write the prescribed values into the constrained entries of a field.
    ///
    /// A condition beyond the field's end is skipped.
    pub fn impose(&self, field: &mut [T])
        ensures
            final(field)@ == imposed(old(field)@, self.values()),
            final(field)@.len() == old(field)@.len(),
            forall|i: int|
                0 <= i < self.spec_prescribed().len() && (#[trigger] self.spec_prescribed()[i]).spec_node() * D + self.spec_prescribed()[i].spec_component() < old(field)@.len() ==> final(field)@[self.spec_prescribed()[i].spec_node() * D + self.spec_prescribed()[i].spec_component()]
                    == self.spec_prescribed()[i].spec_value(),
            forall|j: int|
                0 <= j < old(field)@.len() && (forall|i: int|
                    0 <= i < self.spec_prescribed().len() ==> (#[trigger] self.spec_prescribed()[i]).spec_node() * D + self.spec_prescribed()[i].spec_component() != j) ==> #[trigger] final(field)@[j]
                    == old(field)@[j],
    {
        proof {
            use_type_invariant(self);
        }
        let count = self.prescribed.len();
        let mut k: usize = 0;
        while k < count
            invariant
                k <= count,
                count == self.prescribed@.len(),
                forall|i: int|
                    0 <= i < self.prescribed@.len() ==> (#[trigger] self.prescribed@[i]).spec_dof(D)
                        <= usize::MAX,
                field@ == imposed(old(field)@, prescription(self.prescribed@.take(k as int), D)),
            decreases count - k,
        {
            proof {
                lemma_prescription_extends(self.prescribed@, k as int, D);
            }
            let condition = &self.prescribed[k];
            let dof = condition.degree_of_freedom::<D>();
            if dof < field.len() {
                field[dof] = *condition.value();
            }
            k += 1;
            assert(field@ =~= imposed(
                old(field)@,
                prescription(self.prescribed@.take(k as int), D),
            ));
        }
        assert(self.prescribed@.take(count as int) =~= self.prescribed@);
        proof {
            lemma_increasing_conditions_apply_exactly(self.prescribed@, D);
            assert forall|i: int|
                0 <= i < self.prescribed@.len() implies #[trigger] prescription(self.prescribed@, D).dom().contains(
                self.prescribed@[i].spec_dof(D),
            ) by {
                assert(self.prescribed@[i].spec_dof(D) == self.prescribed@[i].spec_dof(D));
            }
            assert forall|j: int|
                #![trigger prescription(self.prescribed@, D).dom().contains(j)]
                0 <= j < old(field)@.len() && (forall|i: int|
                    0 <= i < self.prescribed@.len() ==> (#[trigger] self.prescribed@[i]).spec_node() * D
                        + self.prescribed@[i].spec_component() != j) implies !prescription(
                self.prescribed@,
                D,
            ).dom().contains(j) by {
                if prescription(self.prescribed@, D).dom().contains(j) {
                    let i = choose|i: int|
                        0 <= i < self.prescribed@.len() && (#[trigger] self.prescribed@[i]).spec_dof(D) == j;
                    assert(self.prescribed@[i].spec_node() * D + self.prescribed@[i].spec_component() == j);
                }
            }
        }
    }

    /// Copy the constrained entries of `source` into `target`.
    ///
    /// The identity rows of the constrained operator: the constrained part of
    /// the output is the constrained part of the input, so those rows read
    /// `u_c = u_c`. A degree of freedom beyond either slice is skipped.
    pub fn carry(&self, source: &[T], target: &mut [T])
        ensures
            final(target)@ == carried(source@, old(target)@, self.constrained()),
            final(target)@.len() == old(target)@.len(),
            forall|i: int|
                0 <= i < self.spec_prescribed().len() && (#[trigger] self.spec_prescribed()[i]).spec_node() * D + self.spec_prescribed()[i].spec_component() < old(target)@.len() && self.spec_prescribed()[i].spec_node() * D + self.spec_prescribed()[i].spec_component() < source@.len()
                    ==> final(target)@[self.spec_prescribed()[i].spec_node() * D + self.spec_prescribed()[i].spec_component()] == source@[self.spec_prescribed()[i].spec_node() * D + self.spec_prescribed()[i].spec_component()],
            forall|j: int|
                0 <= j < old(target)@.len() && (forall|i: int|
                    0 <= i < self.spec_prescribed().len() ==> (#[trigger] self.spec_prescribed()[i]).spec_node() * D + self.spec_prescribed()[i].spec_component() != j) ==> #[trigger] final(target)@[j]
                    == old(target)@[j],
    {
        proof {
            use_type_invariant(self);
        }
        let count = self.prescribed.len();
        let mut k: usize = 0;
        while k < count
            invariant
                k <= count,
                count == self.prescribed@.len(),
                forall|i: int|
                    0 <= i < self.prescribed@.len() ==> (#[trigger] self.prescribed@[i]).spec_dof(D)
                        <= usize::MAX,
                target@ == carried(
                    source@,
                    old(target)@,
                    prescription(self.prescribed@.take(k as int), D).dom(),
                ),
            decreases count - k,
        {
            proof {
                lemma_prescription_extends(self.prescribed@, k as int, D);
            }
            let dof = self.prescribed[k].degree_of_freedom::<D>();
            if dof < source.len() && dof < target.len() {
                target[dof] = source[dof];
            }
            k += 1;
            assert(target@ =~= carried(
                source@,
                old(target)@,
                prescription(self.prescribed@.take(k as int), D).dom(),
            ));
        }
        assert(self.prescribed@.take(count as int) =~= self.prescribed@);
        proof {
            lemma_increasing_conditions_apply_exactly(self.prescribed@, D);
            assert forall|i: int|
                0 <= i < self.prescribed@.len() implies #[trigger] prescription(self.prescribed@, D).dom().contains(
                self.prescribed@[i].spec_dof(D),
            ) by {
                assert(self.prescribed@[i].spec_dof(D) == self.prescribed@[i].spec_dof(D));
            }
            assert forall|j: int|
                #![trigger prescription(self.prescribed@, D).dom().contains(j)]
                0 <= j < old(target)@.len() && (forall|i: int|
                    0 <= i < self.prescribed@.len() ==> (#[trigger] self.prescribed@[i]).spec_node() * D
                        + self.prescribed@[i].spec_component() != j) implies !prescription(
                self.prescribed@,
                D,
            ).dom().contains(j) by {
                if prescription(self.prescribed@, D).dom().contains(j) {
                    let i = choose|i: int|
                        0 <= i < self.prescribed@.len() && (#[trigger] self.prescribed@[i]).spec_dof(D) == j;
                    assert(self.prescribed@[i].spec_node() * D + self.prescribed@[i].spec_component() == j);
                }
            }
        }
    }
}

impl<'bc, T, const D: usize> Clone for DirichletConditions<'bc, T, D> {
    fn clone(&self) -> (copy: Self)
        ensures
            copy == *self,
    {
        *self
    }
}

impl<'bc, T, const D: usize> Copy for DirichletConditions<'bc, T, D> {

}

/// A Dirichlet condition set that does not describe the mesh it constrains.
#[derive(Clone, Copy, Debug, PartialEq, Eq)]
#[non_exhaustive]
pub enum InvalidConditions {
    /// A condition names a node the mesh does not have.
    NodeOutOfRange {
        /// Position within the condition list.
        position: usize,
        /// The out-of-range node.
        node: usize,
        /// Nodes the mesh has.
        nodes: usize,
    },
    /// A condition names a component the space does not have.
    ComponentOutOfRange {
        /// Position within the condition list.
        position: usize,
        /// The out-of-range component.
        component: usize,
        /// Spatial dimensions.
        dimensions: usize,
    },
    /// The conditions are not strictly increasing in degree of freedom, so
    /// either one is duplicated or the list is unordered.
    NotStrictlyIncreasing {
        /// Position within the condition list.
        position: usize,
        /// This condition's degree of freedom.
        degree_of_freedom: usize,
        /// The previous condition's, which it does not exceed.
        previous: usize,
    },
}

impl InvalidConditions {
    /// The description of this error, character for character.
    pub open spec fn spec_message(&self) -> Seq<char> {
        match *self {
            InvalidConditions::NodeOutOfRange { position, node, nodes } => "condition "@
                + decimal(position as nat)
                + " names node "@
                + decimal(node as nat)
                + ", but the mesh has "@
                + decimal(nodes as nat),
            InvalidConditions::ComponentOutOfRange { position, component, dimensions } => "condition "@
                + decimal(position as nat)
                + " names component "@
                + decimal(component as nat)
                + " of a "@
                + decimal(dimensions as nat)
                + "-dimensional displacement"@,
            InvalidConditions::NotStrictlyIncreasing { position, degree_of_freedom, previous } => "condition "@
                + decimal(position as nat)
                + " constrains degree of freedom "@
                + decimal(degree_of_freedom as nat)
                + ", which does not exceed the previous "@
                + decimal(previous as nat),
        }
    }

    /// A human-readable description of this error.
    pub fn message(&self) -> (text: String)
        ensures
            text@ == self.spec_message(),
    {
        match *self {
            InvalidConditions::NodeOutOfRange { position, node, nodes } => {
                let mut text = String::from_str("condition ");
                append_decimal(&mut text, position);
                text.append(" names node ");
                append_decimal(&mut text, node);
                text.append(", but the mesh has ");
                append_decimal(&mut text, nodes);
                text
            },
            InvalidConditions::ComponentOutOfRange { position, component, dimensions } => {
                let mut text = String::from_str("condition ");
                append_decimal(&mut text, position);
                text.append(" names component ");
                append_decimal(&mut text, component);
                text.append(" of a ");
                append_decimal(&mut text, dimensions);
                text.append("-dimensional displacement");
                text
            },
            InvalidConditions::NotStrictlyIncreasing { position, degree_of_freedom, previous } => {
                let mut text = String::from_str("condition ");
                append_decimal(&mut text, position);
                text.append(" constrains degree of freedom ");
                append_decimal(&mut text, degree_of_freedom);
                text.append(", which does not exceed the previous ");
                append_decimal(&mut text, previous);
                text
            },
        }
    }
}

} // verus!
