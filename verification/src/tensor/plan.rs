//! The order in which expressions are evaluated.
//!
//! A plan lists every part of an expression behind the parts that it is made of. Expressions share
//! parts, and what is reached through the same pointer need not be listed again.

use std::rc::Rc;

use vstd::prelude::*;

use crate::tensor::meaning::Interpretation;
use crate::tensor::ops::{Leaf, Op1, Op2, Op3};
use crate::tensor::term::Term;

verus! {

/// A leaf, or an operation on the results of earlier steps, which are given by their numbers.
#[derive(Clone, Copy, PartialEq, Eq, Structural, Debug)]
pub enum Step {
    Zero(Leaf),
    One(Op1, usize),
    Two(Op2, usize, usize),
    Three(Op3, usize, usize, usize),
}

impl Step {
    /// Whether a step makes an expression of the results of steps before number `k`.
    pub open spec fn makes(self, nodes: Seq<Rc<Term>>, k: int, t: Term) -> bool {
        match (self, t) {
            (Step::Zero(leaf), Term::Zero(l)) => leaf == l,
            (Step::One(op, a), Term::One(o, x)) => op == o && a < k && nodes[a as int] == x,
            (Step::Two(op, a, b), Term::Two(o, x, y)) => {
                &&& op == o
                &&& a < k && nodes[a as int] == x
                &&& b < k && nodes[b as int] == y
            },
            (Step::Three(op, a, b, c), Term::Three(o, x, y, z)) => {
                &&& op == o
                &&& a < k && nodes[a as int] == x
                &&& b < k && nodes[b as int] == y
                &&& c < k && nodes[c as int] == z
            },
            _ => false,
        }
    }

    /// What a step gives for the results of the steps before it.
    pub open spec fn result<V>(self, i: Interpretation<V>, before: Seq<V>) -> V {
        match self {
            Step::Zero(leaf) => (i.leaf)(leaf),
            Step::One(op, a) => (i.one)(op, before[a as int]),
            Step::Two(op, a, b) => (i.two)(op, before[a as int], before[b as int]),
            Step::Three(op, a, b, c) => (i.three)(
                op,
                before[a as int],
                before[b as int],
                before[c as int],
            ),
        }
    }
}

impl Step {
    /// Whether the step uses the result of step `k`.
    pub open spec fn uses(self, k: int) -> bool {
        match self {
            Step::Zero(_) => false,
            Step::One(_, a) => a == k,
            Step::Two(_, a, b) => a == k || b == k,
            Step::Three(_, a, b, c) => a == k || b == k || c == k,
        }
    }
}

/// The last of the first `n` steps that uses the result of step `k`, or `k` itself if none does.
pub open spec fn last_use(steps: Seq<Step>, k: int, n: int) -> int
    decreases n,
{
    if n <= 0 {
        k
    } else if steps[n - 1].uses(k) {
        n - 1
    } else {
        last_use(steps, k, n - 1)
    }
}

/// Writes `j` at a place.
fn mark(last: &mut Vec<usize>, a: usize, j: usize)
    requires
        a < old(last)@.len(),
    ensures
        final(last)@ == old(last)@.update(a as int, j),
{
    last.set(a, j);
}

/// The results of the first `n` steps, one after the other.
pub open spec fn results<V>(steps: Seq<Step>, i: Interpretation<V>, n: nat) -> Seq<V>
    decreases n,
{
    if n == 0 {
        Seq::empty()
    } else {
        let before = results(steps, i, (n - 1) as nat);
        before.push(steps[n - 1].result(i, before))
    }
}

/// `Rc::ptr_eq`: pointers to the same allocation point to the same expression. Nothing is said of
/// pointers to different ones.
#[verifier::external_body]
fn same_node(a: &Rc<Term>, b: &Rc<Term>) -> (r: bool)
    ensures
        r ==> *a == *b,
{
    Rc::ptr_eq(a, b)
}

/// The last place that is marked, if any is.
pub fn last_marked(marks: &Vec<bool>) -> (r: Option<usize>)
    ensures
        match r {
            Some(k) => {
                &&& k < marks@.len() && marks@[k as int]
                &&& forall|j: int| k < j < marks@.len() ==> !#[trigger] marks@[j]
            },
            None => forall|j: int| 0 <= j < marks@.len() ==> !#[trigger] marks@[j],
        },
{
    let mut k: usize = marks.len();
    while k > 0
        invariant
            k <= marks@.len(),
            forall|j: int| k <= j < marks@.len() ==> !#[trigger] marks@[j],
        decreases k,
    {
        k = k - 1;
        if marks[k] {
            return Some(k);
        }
    }
    None
}

/// Steps, and the expression that each of them makes.
#[derive(Debug)]
pub struct Plan {
    nodes: Vec<Rc<Term>>,
    steps: Vec<Step>,
}

impl Plan {
    /// The expressions that the steps make.
    pub closed spec fn nodes(self) -> Seq<Rc<Term>> {
        self.nodes@
    }

    /// The steps.
    pub closed spec fn spec_steps(self) -> Seq<Step> {
        self.steps@
    }

    /// Whether every step makes its expression of earlier ones.
    pub open spec fn wf(self) -> bool {
        &&& self.nodes().len() == self.spec_steps().len()
        &&& forall|k: int|
            0 <= k < self.spec_steps().len() ==> (#[trigger] self.spec_steps()[k]).makes(
                self.nodes(),
                k,
                *self.nodes()[k],
            )
    }

    /// A plan without steps.
    pub fn new() -> (r: Plan)
        ensures
            r.wf(),
            r.spec_steps() == Seq::<Step>::empty(),
    {
        Plan { nodes: Vec::new(), steps: Vec::new() }
    }

    /// The steps.
    pub fn steps(&self) -> (r: &Vec<Step>)
        ensures
            r@ == self.spec_steps(),
    {
        &self.steps
    }

    /// The last step whose expression `Rc::ptr_eq` tells to be this one, which it need not for one
    /// that is equal but held elsewhere.
    fn find(&self, term: &Rc<Term>) -> (r: Option<usize>)
        ensures
            r matches Some(k) ==> k < self.nodes().len() && self.nodes()[k as int] == *term,
            self.nodes().len() == 0 ==> r is None,
    {
        let mut same: Vec<bool> = Vec::new();
        let mut k: usize = 0;
        while k < self.nodes.len()
            invariant
                k <= self.nodes@.len(),
                same@.len() == k,
                forall|j: int| 0 <= j < k && #[trigger] same@[j] ==> self.nodes@[j] == *term,
            decreases self.nodes@.len() - k,
        {
            same.push(same_node(&self.nodes[k], term));
            k = k + 1;
        }
        last_marked(&same)
    }

    fn push(&mut self, term: &Rc<Term>, step: Step) -> (r: usize)
        requires
            old(self).wf(),
            step.makes(old(self).nodes(), old(self).nodes().len() as int, **term),
        ensures
            final(self).wf(),
            final(self).nodes() == old(self).nodes().push(*term),
            final(self).spec_steps() == old(self).spec_steps().push(step),
            r == old(self).nodes().len(),
    {
        let r: usize = self.steps.len();
        self.nodes.push(term.clone());
        self.steps.push(step);
        proof {
            let before = old(self).nodes();
            assert forall|k: int| 0 <= k < self.spec_steps().len() implies (
            #[trigger] self.spec_steps()[k]).makes(self.nodes(), k, *self.nodes()[k]) by {
                if k < before.len() {
                    assert(old(self).spec_steps()[k].makes(before, k, *before[k]));
                }
            }
        }
        r
    }

    /// Adds the steps that are needed to make an expression, behind those that there are. Returns
    /// the number of the step that makes it.
    pub fn add(&mut self, term: &Rc<Term>) -> (r: usize)
        requires
            old(self).wf(),
        ensures
            final(self).wf(),
            old(self).nodes().is_prefix_of(final(self).nodes()),
            old(self).spec_steps().is_prefix_of(final(self).spec_steps()),
            r < final(self).nodes().len(),
            final(self).nodes()[r as int] == *term,
        decreases **term,
    {
        if let Some(k) = self.find(term) {
            return k;
        }
        match &**term {
            Term::Zero(leaf) => self.push(term, Step::Zero(*leaf)),
            Term::One(op, a) => {
                let x: usize = self.add(a);
                self.push(term, Step::One(*op, x))
            },
            Term::Two(op, a, b) => {
                let x: usize = self.add(a);
                let y: usize = self.add(b);
                self.push(term, Step::Two(*op, x, y))
            },
            Term::Three(op, a, b, c) => {
                let x: usize = self.add(a);
                let y: usize = self.add(b);
                let z: usize = self.add(c);
                self.push(term, Step::Three(*op, x, y, z))
            },
        }
    }

    /// For every step the last one that uses its result, or itself if none does.
    pub fn last_uses(&self) -> (r: Vec<usize>)
        requires
            self.wf(),
        ensures
            r@.len() == self.spec_steps().len(),
            forall|k: int|
                0 <= k < r@.len() ==> #[trigger] r@[k] == last_use(
                    self.spec_steps(),
                    k,
                    self.spec_steps().len() as int,
                ),
    {
        let n = self.steps.len();
        let mut last: Vec<usize> = Vec::new();
        let mut j: usize = 0;
        while j < n
            invariant
                j <= n,
                n == self.steps@.len(),
                self.wf(),
                last@.len() == j,
                forall|k: int|
                    0 <= k < j ==> #[trigger] last@[k] == last_use(self.steps@, k, j as int),
                forall|k: int| j <= k ==> #[trigger] last_use(self.steps@, k, j as int) == k,
            decreases n - j,
        {
            assert(self.spec_steps()[j as int].makes(
                self.nodes(),
                j as int,
                *self.nodes()[j as int],
            ));
            match self.steps[j] {
                Step::Zero(_) => {},
                Step::One(_, a) => {
                    mark(&mut last, a, j);
                },
                Step::Two(_, a, b) => {
                    mark(&mut last, a, j);
                    mark(&mut last, b, j);
                },
                Step::Three(_, a, b, c) => {
                    mark(&mut last, a, j);
                    mark(&mut last, b, j);
                    mark(&mut last, c, j);
                },
            }
            last.push(j);
            proof {
                let steps = self.steps@;
                assert forall|k: int| 0 <= k < j + 1 implies #[trigger] last@[k] == last_use(
                    steps,
                    k,
                    j + 1,
                ) by {
                    assert(!steps[j as int].uses(k) ==> last@[k] == last_use(steps, k, j as int));
                }
                assert forall|k: int| j + 1 <= k implies #[trigger] last_use(steps, k, j + 1)
                    == k by {
                    assert(last_use(steps, k, j as int) == k);
                }
            }
            j = j + 1;
        }
        last
    }
}

/// The steps of a plan, run one after the other, give the values of their expressions.
pub proof fn lemma_results<V>(plan: Plan, i: Interpretation<V>, n: nat)
    requires
        plan.wf(),
        n <= plan.spec_steps().len(),
    ensures
        results(plan.spec_steps(), i, n).len() == n,
        forall|k: int|
            0 <= k < n ==> #[trigger] results(plan.spec_steps(), i, n)[k] == i.value(
                *plan.nodes()[k],
            ),
    decreases n,
{
    if n > 0 {
        lemma_results(plan, i, (n - 1) as nat);
        let step = plan.spec_steps()[n - 1];
        assert(step.makes(plan.nodes(), n - 1, *plan.nodes()[n - 1]));
    }
}

/// Steps that are added behind do not change the results of those that there are.
pub proof fn lemma_results_kept<V>(
    steps: Seq<Step>,
    longer: Seq<Step>,
    i: Interpretation<V>,
    n: nat,
)
    requires
        steps.is_prefix_of(longer),
        n <= steps.len(),
    ensures
        results(steps, i, n) == results(longer, i, n),
    decreases n,
{
    if n > 0 {
        lemma_results_kept(steps, longer, i, (n - 1) as nat);
        assert(longer[n - 1] == steps[n - 1]);
    }
}

/// Behind the last step that uses a result, no step uses it.
pub proof fn lemma_last_use(steps: Seq<Step>, k: int, n: int, j: int)
    requires
        0 <= j < n,
        last_use(steps, k, n) < j,
    ensures
        !steps[j].uses(k),
    decreases n,
{
    if j < n - 1 && !steps[n - 1].uses(k) {
        lemma_last_use(steps, k, n - 1, j);
    }
}

} // verus!
