//! What the composition prover is handed, and in which order: the mode, the
//! run that starts a chain, the number of continuing runs, and each of them.
use vstd::prelude::*;
use crate::chain::{step_views, ChainStep, StepView};
use crate::transform::string_views;

verus! {

/// Why a composition cannot be set up.
#[derive(Clone, Copy, Debug, PartialEq, Eq, Structural)]
pub enum CompositionError {
    /// A chained composition found no receipt that starts the chain.
    InitialReceiptMissing,
}

/// The receipt that starts the chain, which a chained composition reads
/// first; a parallel composition reads none.
pub fn initial_receipt(parallel: bool, initial: Option<String>) -> (r: Result<
    Option<String>,
    CompositionError,
>)
    ensures
        parallel ==> r matches Ok(None),
        !parallel ==> match initial {
            Some(name) => r matches Ok(Some(n)) && n@ == name@,
            None => r == Err::<Option<String>, CompositionError>(
                CompositionError::InitialReceiptMissing,
            ),
        },
{
    if parallel {
        Ok(None)
    } else {
        match initial {
            Some(name) => Ok(Some(name)),
            None => Err(CompositionError::InitialReceiptMissing),
        }
    }
}

/// One value written to the composition prover.
pub enum ProverInput {
    /// Whether the runs are strips composed side by side rather than a chain.
    Parallel(bool),
    /// The transformations and output image of the run that starts a chain.
    Initial { transformations: Vec<String>, output: Vec<u8> },
    /// How many continuing runs follow.
    Count(u32),
    /// One continuing run.
    Step(ChainStep),
}

/// A prover input as mathematical values.
pub enum InputView {
    Parallel(bool),
    Initial(Seq<Seq<char>>, Seq<u8>),
    Count(u32),
    Step(StepView),
}

impl View for ProverInput {
    type V = InputView;

    open spec fn view(&self) -> InputView {
        match self {
            ProverInput::Parallel(b) => InputView::Parallel(*b),
            ProverInput::Initial { transformations, output } => InputView::Initial(
                string_views(transformations@),
                output@,
            ),
            ProverInput::Count(n) => InputView::Count(*n),
            ProverInput::Step(s) => InputView::Step(s@),
        }
    }
}

/// The views of a list of prover inputs.
pub open spec fn input_views(s: Seq<ProverInput>) -> Seq<InputView> {
    s.map_values(|m: ProverInput| m@)
}

/// The inputs in the order the composition reads them: the mode; for a
/// chain, the transformations and output of its first run; the number of
/// continuing runs, as a `u32` (truncated); then each continuing run.
pub open spec fn prover_input_views(
    parallel: bool,
    transformations: Seq<Seq<char>>,
    output: Seq<u8>,
    steps: Seq<StepView>,
) -> Seq<InputView> {
    let head = if parallel {
        seq![InputView::Parallel(true)]
    } else {
        seq![InputView::Parallel(false), InputView::Initial(transformations, output)]
    };
    head.push(InputView::Count(steps.len() as u32)) + steps.map_values(
        |s: StepView| InputView::Step(s),
    )
}

/// Lays out the composition prover's inputs: the mode; for a chain, the
/// transformations and output of the run that starts it; the number of
/// continuing runs; then each continuing run in order.
pub fn prover_inputs(
    parallel: bool,
    initial_transformations: Vec<String>,
    initial_output: Vec<u8>,
    steps: Vec<ChainStep>,
) -> (r: Vec<ProverInput>)
    ensures
        input_views(r@) == prover_input_views(
            parallel,
            string_views(initial_transformations@),
            initial_output@,
            step_views(steps@),
        ),
{
    let ghost ts = string_views(initial_transformations@);
    let ghost out0 = initial_output@;
    let ghost all = step_views(steps@);
    let n = steps.len();
    let mut r: Vec<ProverInput> = Vec::new();
    r.push(ProverInput::Parallel(parallel));
    if !parallel {
        r.push(ProverInput::Initial { transformations: initial_transformations, output: initial_output });
    }
    r.push(ProverInput::Count(n as u32));
    let ghost head = input_views(r@);
    proof {
        let h0 = if parallel {
            seq![InputView::Parallel(true)]
        } else {
            seq![InputView::Parallel(false), InputView::Initial(ts, out0)]
        };
        assert(head =~= h0.push(InputView::Count(all.len() as u32)));
        assert(all.take(0) =~= Seq::<StepView>::empty());
        assert(input_views(r@) =~= head + all.take(0).map_values(|s: StepView| InputView::Step(s)));
        assert(step_views(steps@) =~= all.skip(0));
    }
    let mut rest = steps;
    let mut k: usize = 0;
    while rest.len() > 0
        invariant
            k + rest.len() == n,
            n == all.len(),
            step_views(rest@) =~= all.skip(k as int),
            input_views(r@) =~= head + all.take(k as int).map_values(
                |s: StepView| InputView::Step(s),
            ),
        decreases rest.len(),
    {
        let ghost before = rest@;
        let s = rest.remove(0);
        proof {
            assert(before[0]@ == step_views(before)[0]);
            assert(all[k as int] == all.skip(k as int)[0]);
            assert(step_views(rest@) =~= step_views(before).skip(1));
            assert(all.skip(k as int).skip(1) =~= all.skip(k + 1));
        }
        let ghost sv = s@;
        let ghost old_r = r@;
        assert(sv == all[k as int]);
        r.push(ProverInput::Step(s));
        k = k + 1;
        proof {
            assert(input_views(r@) =~= input_views(old_r).push(InputView::Step(sv)));
            assert(all.take(k as int) =~= all.take(k - 1).push(all[k - 1]));
            assert(all.take(k as int).map_values(|s: StepView| InputView::Step(s)) =~= all.take(
                k - 1,
            ).map_values(|s: StepView| InputView::Step(s)).push(InputView::Step(sv)));
            assert(input_views(r@) =~= head + all.take(k as int).map_values(
                |s: StepView| InputView::Step(s),
            ));
        }
    }
    proof {
        assert(all.take(k as int) =~= all);
    }
    r
}

} // verus!
