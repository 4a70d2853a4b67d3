//! Composition of chained runs: each run continues the image that the one
//! before it produced, and the composition records the final image together
//! with every transformation applied on the way.
use vstd::prelude::*;
use crate::transform::string_views;

verus! {

#[derive(Clone, Debug)]
/// One run of a chain: the image it started from, its transformations, and
/// the image it produced.
pub struct ChainStep {
    pub input: Vec<u8>,
    pub transformations: Vec<String>,
    pub output: Vec<u8>,
}

/// A step as mathematical values.
pub struct StepView {
    pub input: Seq<u8>,
    pub transformations: Seq<Seq<char>>,
    pub output: Seq<u8>,
}

impl View for ChainStep {
    type V = StepView;

    open spec fn view(&self) -> StepView {
        StepView {
            input: self.input@,
            transformations: string_views(self.transformations@),
            output: self.output@,
        }
    }
}

#[derive(Clone, Debug)]
/// The final image and all transformations of a chain.
pub struct Composed {
    pub image: Vec<u8>,
    pub transformations: Vec<String>,
}

/// The steps of a chain as mathematical values.
pub open spec fn step_views(steps: Seq<ChainStep>) -> Seq<StepView> {
    steps.map_values(|s: ChainStep| s@)
}

/// The image and transformation list after the steps, starting from
/// `image` and `ts`; `None` when some step does not start from the image
/// that the steps before it left.
pub open spec fn compose(image: Seq<u8>, ts: Seq<Seq<char>>, steps: Seq<StepView>) -> Option<
    (Seq<u8>, Seq<Seq<char>>),
>
    decreases steps.len(),
{
    if steps.len() == 0 {
        Some((image, ts))
    } else {
        match compose(image, ts, steps.drop_last()) {
            Some((img, t)) => if img == steps.last().input {
                Some((steps.last().output, t + steps.last().transformations))
            } else {
                None
            },
            None => None,
        }
    }
}

/// `i` is the first step that does not start from the image the steps
/// before it left.
pub open spec fn first_break(image: Seq<u8>, ts: Seq<Seq<char>>, steps: Seq<StepView>, i: int) -> bool {
    &&& 0 <= i < steps.len()
    &&& compose(image, ts, steps.take(i)) matches Some((img, _)) && img != steps[i].input
}

/// The transformations of all steps, in order.
pub open spec fn all_step_transformations(steps: Seq<StepView>) -> Seq<Seq<char>>
    decreases steps.len(),
{
    if steps.len() == 0 {
        Seq::empty()
    } else {
        all_step_transformations(steps.drop_last()) + steps.last().transformations
    }
}

/// Follows the chain from `image` and `transformations`: each step must
/// start from the image the steps before it left; its output becomes the
/// current image and its transformations are appended. `Err(i)` names the
/// first step that breaks the chain.
pub fn compose_chain(image: Vec<u8>, transformations: Vec<String>, steps: &Vec<ChainStep>) -> (r:
    Result<Composed, usize>)
    ensures
        match r {
            Ok(c) => compose(image@, string_views(transformations@), step_views(steps@)) == Some(
                (c.image@, string_views(c.transformations@)),
            ),
            Err(i) => first_break(
                image@,
                string_views(transformations@),
                step_views(steps@),
                i as int,
            ),
        },
{
    let ghost img0 = image@;
    let ghost ts0 = string_views(transformations@);
    let ghost all = step_views(steps@);
    let mut cur = image;
    let mut ts = transformations;
    let mut i: usize = 0;
    assert(all.take(0) =~= Seq::<StepView>::empty());
    while i < steps.len()
        invariant
            i <= steps.len(),
            all == step_views(steps@),
            img0 == image@,
            ts0 == string_views(transformations@),
            compose(img0, ts0, all.take(i as int)) == Some((cur@, string_views(ts@))),
        decreases steps.len() - i,
    {
        let step = &steps[i];
        assert(all.take(i + 1).drop_last() =~= all.take(i as int));
        assert(all[i as int] == step@);
        if !bytes_equal(&cur, &step.input) {
            assert(cur@ != all[i as int].input);
            assert(first_break(img0, ts0, all, i as int));
            return Err(i);
        }
        cur = step.output.clone();
        let mut j: usize = 0;
        let ghost before = string_views(ts@);
        while j < step.transformations.len()
            invariant
                j <= step.transformations.len(),
                string_views(ts@) == before + string_views(step.transformations@).take(j as int),
            decreases step.transformations.len() - j,
        {
            let ghost prev = ts@;
            let name = step.transformations[j].clone();
            assert(name@ == step.transformations@[j as int]@);
            ts.push(name);
            assert(string_views(ts@) =~= string_views(prev).push(name@));
            assert(string_views(step.transformations@).take(j + 1) =~= string_views(
                step.transformations@,
            ).take(j as int).push(name@));
            j += 1;
            assert(string_views(ts@) =~= before + string_views(step.transformations@).take(j as int));
        }
        assert(string_views(step.transformations@).take(j as int) =~= string_views(
            step.transformations@,
        ));
        i += 1;
    }
    assert(all.take(i as int) =~= all);
    Ok(Composed { image: cur, transformations: ts })
}

/// Whether two byte strings are equal.
pub fn bytes_equal(a: &Vec<u8>, b: &Vec<u8>) -> (r: bool)
    ensures
        r == (a@ == b@),
{
    if a.len() != b.len() {
        return false;
    }
    let mut i: usize = 0;
    while i < a.len()
        invariant
            i <= a.len(),
            a.len() == b.len(),
            forall|j: int| 0 <= j < i ==> a@[j] == b@[j],
        decreases a.len() - i,
    {
        if a[i] != b[i] {
            return false;
        }
        i += 1;
    }
    assert(a@ =~= b@);
    true
}

/// Following `a` and then `b` is following their concatenation.
pub proof fn lemma_compose_concat(
    image: Seq<u8>,
    ts: Seq<Seq<char>>,
    a: Seq<StepView>,
    b: Seq<StepView>,
)
    ensures
        compose(image, ts, a + b) == match compose(image, ts, a) {
            Some((img, t)) => compose(img, t, b),
            None => None,
        },
    decreases b.len(),
{
    if b.len() == 0 {
        assert(a + b =~= a);
    } else {
        lemma_compose_concat(image, ts, a, b.drop_last());
        assert((a + b).drop_last() =~= a + b.drop_last());
        if compose(image, ts, a) is None {
            lemma_compose_none(image, ts, a, b);
        }
    }
}

/// A chain that breaks stays broken whatever follows.
pub proof fn lemma_compose_none(
    image: Seq<u8>,
    ts: Seq<Seq<char>>,
    a: Seq<StepView>,
    b: Seq<StepView>,
)
    requires
        compose(image, ts, a) is None,
    ensures
        compose(image, ts, a + b) is None,
    decreases b.len(),
{
    if b.len() == 0 {
        assert(a + b =~= a);
    } else {
        lemma_compose_none(image, ts, a, b.drop_last());
        assert((a + b).drop_last() =~= a + b.drop_last());
    }
}

/// A chain that holds ends at the output of its last step, and records the
/// starting transformations followed by those of every step.
pub proof fn lemma_compose_result(image: Seq<u8>, ts: Seq<Seq<char>>, steps: Seq<StepView>)
    requires
        compose(image, ts, steps) is Some,
    ensures
        compose(image, ts, steps).unwrap().1 == ts + all_step_transformations(steps),
        steps.len() > 0 ==> compose(image, ts, steps).unwrap().0 == steps.last().output,
        steps.len() == 0 ==> compose(image, ts, steps).unwrap().0 == image,
    decreases steps.len(),
{
    if steps.len() == 0 {
        assert(ts + Seq::<Seq<char>>::empty() =~= ts);
    } else {
        lemma_compose_result(image, ts, steps.drop_last());
        assert(ts + all_step_transformations(steps.drop_last()) + steps.last().transformations
            =~= ts + all_step_transformations(steps));
    }
}

/// A chain holds exactly when every step starts from the output of the
/// step before it, the first from the starting image.
pub proof fn lemma_compose_holds(image: Seq<u8>, ts: Seq<Seq<char>>, steps: Seq<StepView>)
    ensures
        compose(image, ts, steps) is Some <==> (forall|i: int|
            0 <= i < steps.len() ==> #[trigger] steps[i].input == if i == 0 {
                image
            } else {
                steps[i - 1].output
            }),
    decreases steps.len(),
{
    if steps.len() > 0 {
        let p = steps.drop_last();
        lemma_compose_holds(image, ts, p);
        if compose(image, ts, p) is Some {
            lemma_compose_result(image, ts, p);
        }
        let n = steps.len() - 1;
        if compose(image, ts, steps) is Some {
            assert forall|i: int| 0 <= i < steps.len() implies #[trigger] steps[i].input == if i
                == 0 {
                image
            } else {
                steps[i - 1].output
            } by {
                if i < n {
                    assert(steps[i] == p[i]);
                    if i > 0 {
                        assert(steps[i - 1] == p[i - 1]);
                    }
                }
            }
        } else if forall|i: int|
            0 <= i < steps.len() ==> #[trigger] steps[i].input == if i == 0 {
                image
            } else {
                steps[i - 1].output
            } {
            assert forall|i: int| 0 <= i < p.len() implies #[trigger] p[i].input == if i == 0 {
                image
            } else {
                p[i - 1].output
            } by {
                assert(steps[i] == p[i]);
                if i > 0 {
                    assert(steps[i - 1] == p[i - 1]);
                }
            }
            assert(steps[n].input == if n == 0 {
                image
            } else {
                steps[n - 1].output
            });
        }
    }
}

} // verus!
