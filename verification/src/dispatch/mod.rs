//! Running the stages of an integration plan.

use vstd::prelude::*;

pub mod cpu;
pub mod gpu;
pub mod tree;

verus! {

/// Stage `k` is integrated: both the model component and the input state of that stage are present.
pub open spec fn stage_runs<M, I>(model: Seq<Option<M>>, input_frame: Seq<Option<I>>, k: int) -> bool {
    &&& 0 <= k < model.len()
    &&& k < input_frame.len()
    &&& model[k] is Some
    &&& input_frame[k] is Some
}

/// Integrates every stage whose model component and input state are both
/// present, in stage order, and collects the results by stage; stages that do
/// not run stay `None`. The first failing stage ends the run with its error.
pub fn dispatch_stages<M, I, O, E, F>(
    model: &[Option<M>],
    input_frame: &[Option<I>],
    integrate: F,
) -> (r: Result<Vec<Option<O>>, E>) where F: Fn(&M, &I) -> Result<O, E>
    requires
        forall|k: int|
            stage_runs(model@, input_frame@, k) ==> call_requires(
                integrate,
                (&(#[trigger] model@[k])->0, &input_frame@[k]->0),
            ),
    ensures
        r matches Ok(out) ==> {
            &&& out@.len() == model@.len()
            &&& forall|k: int|
                0 <= k < model@.len() ==> ((#[trigger] out@[k]) is Some <==> stage_runs(
                    model@,
                    input_frame@,
                    k,
                ))
            &&& forall|k: int|
                0 <= k < model@.len() && (#[trigger] out@[k]) is Some ==> call_ensures(
                    integrate,
                    (&model@[k]->0, &input_frame@[k]->0),
                    Ok(out@[k]->0),
                )
        },
        r matches Err(e) ==> exists|k: int|
            #![trigger model@[k]]
            {
                &&& stage_runs(model@, input_frame@, k)
                &&& call_ensures(integrate, (&model@[k]->0, &input_frame@[k]->0), Err(e))
                &&& forall|j: int|
                    0 <= j < k && stage_runs(model@, input_frame@, j) ==> exists|o: O|
                        call_ensures(
                            integrate,
                            (&(#[trigger] model@[j])->0, &input_frame@[j]->0),
                            Ok(o),
                        )
            },
{
    let mut output_frame: Vec<Option<O>> = Vec::new();
    let mut stage: usize = 0;
    while stage < model.len()
        invariant
            stage <= model@.len(),
            output_frame@.len() == stage,
            forall|k: int|
                stage_runs(model@, input_frame@, k) ==> call_requires(
                    integrate,
                    (&(#[trigger] model@[k])->0, &input_frame@[k]->0),
                ),
            forall|k: int|
                0 <= k < stage ==> ((#[trigger] output_frame@[k]) is Some <==> stage_runs(
                    model@,
                    input_frame@,
                    k,
                )),
            forall|k: int|
                0 <= k < stage && (#[trigger] output_frame@[k]) is Some ==> call_ensures(
                    integrate,
                    (&model@[k]->0, &input_frame@[k]->0),
                    Ok(output_frame@[k]->0),
                ),
        decreases model@.len() - stage,
    {
        let present = if stage < input_frame.len() {
            match (&model[stage], &input_frame[stage]) {
                (Some(model_component), Some(input_state)) => Some((model_component, input_state)),
                _ => None,
            }
        } else {
            None
        };
        match present {
            Some((model_component, input_state)) => {
                assert(stage_runs(model@, input_frame@, stage as int));
                match integrate(model_component, input_state) {
                    Ok(state) => {
                        output_frame.push(Some(state));
                    },
                    Err(error) => {
                        proof {
                            assert forall|j: int|
                                0 <= j < stage && stage_runs(model@, input_frame@, j) implies exists|o: O|
                                call_ensures(
                                    integrate,
                                    (&(#[trigger] model@[j])->0, &input_frame@[j]->0),
                                    Ok(o),
                                ) by {
                                assert(output_frame@[j] is Some);
                            }
                            assert(model@[stage as int] == model@[stage as int]);
                        }
                        return Err(error);
                    },
                }
            },
            None => {
                output_frame.push(None);
            },
        }
        stage += 1;
    }
    Ok(output_frame)
}

} // verus!
