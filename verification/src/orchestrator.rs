//! The collaboration orchestrator's execution path.  Confirming an upload
//! only updates the participation row; a detached evaluation then counts
//! the confirmed uploads, and on quorum inserts the "started" marker
//! through an insert that fails if the row exists.  Only the caller that
//! wins this race receives the execution task; the loser exits quietly.
//! The caller performs the engine invocation itself and hands the outcome
//! back to be recorded as the terminal state.

use vstd::prelude::*;

verus! {

use crate::config::{CarbynestackConfig, get_config};
use crate::error::Error;
use crate::models::{ParticipationView, ComputationResultView};
use crate::store::{CoordinationState, rows_for, present_ids};
use vstd::string::StringExecFns;

/// The outcome payload delivered to output parties.
#[derive(Debug, PartialEq, Eq)]
pub struct ExecutionResult {
    pub message: String,
    pub code: i32,
    pub collaboration_id: i32,
    pub secret_id: Option<String>,
}

/// Everything the computation engine needs for one run.
#[derive(Debug, PartialEq, Eq)]
pub struct ExecutionTask {
    pub collab_id: i32,
    pub mpc_program: String,
    pub secret_ids: Vec<String>,
    pub output_parties: Vec<String>,
    pub config: CarbynestackConfig,
}

/// How many parties of a collaboration have confirmed their upload.
pub open spec fn count_uploaded(rows: Seq<ParticipationView>) -> int
    decreases rows.len(),
{
    if rows.len() == 0 {
        0
    } else {
        count_uploaded(rows.drop_last()) + if rows.last().secret_ids is Some {
            1int
        } else {
            0int
        }
    }
}

/// Quorum: at least as many confirmed uploads as the collaboration asks.
pub open spec fn quorum_met(s: &CoordinationState, id: int) -> bool {
    s.has_collab(id) && count_uploaded(rows_for(s.participations(), id)) >= s.collab(
        id,
    ).participation_number
}

/// Every confirmed secret-share identifier, flattened in participation
/// order: stable, though not semantically significant to the engine.
pub open spec fn collected_ids(rows: Seq<ParticipationView>) -> Seq<Seq<char>>
    decreases rows.len(),
{
    if rows.len() == 0 {
        Seq::empty()
    } else {
        collected_ids(rows.drop_last()) + match rows.last().secret_ids {
            Option::Some(ids) => present_ids(ids),
            Option::None => Seq::empty(),
        }
    }
}

/// The started marker inserted at the moment quorum is detected.
pub open spec fn started_marker(id: int) -> ComputationResultView {
    ComputationResultView {
        collab_id: id,
        result_ids: Option::None,
        finished: false,
        error: Option::None,
    }
}

/// What one trigger evaluation does to the marker: a winner finds none and
/// leaves one; anyone else leaves the marker's presence as it was.
pub open spec fn trigger_step(
    pre: CoordinationState,
    post: CoordinationState,
    id: int,
    granted: bool,
) -> bool {
    &&& (granted ==> !pre.has_result(id) && post.has_result(id))
    &&& (!granted ==> post.has_result(id) == pre.has_result(id))
}

/// What recording an outcome does to the marker: an existing marker stays,
/// finished.
pub open spec fn outcome_step(pre: CoordinationState, post: CoordinationState, id: int) -> bool {
    pre.has_result(id) ==> post.has_result(id) && post.result(id).finished
}

/// Exactly-once trigger: of two trigger evaluations of the same
/// collaboration, one after the other, at most one can be granted the
/// execution task.
pub proof fn lemma_exactly_once_trigger(
    s0: CoordinationState,
    s1: CoordinationState,
    s2: CoordinationState,
    id: int,
    g1: bool,
    g2: bool,
)
    requires
        trigger_step(s0, s1, id, g1),
        trigger_step(s1, s2, id, g2),
    ensures
        !(g1 && g2),
{
}

/// Once an outcome has been recorded after a granted trigger, no later
/// trigger evaluation can be granted again: the terminal state is reached
/// exactly once.
pub proof fn lemma_no_second_execution(
    s0: CoordinationState,
    s1: CoordinationState,
    s2: CoordinationState,
    s3: CoordinationState,
    id: int,
    g2: bool,
)
    requires
        trigger_step(s0, s1, id, true),
        outcome_step(s1, s2, id),
        trigger_step(s2, s3, id, g2),
    ensures
        !g2,
{
}

/// Push the identifiers present in a stored list onto an output list.
fn push_present(out: &mut Vec<String>, ids: &Vec<Option<String>>)
    ensures
        final(out)@.map_values(|s: String| s@) == old(out)@.map_values(|s: String| s@)
            + present_ids(ids.deep_view()),
{
    let ghost idsv = ids.deep_view();
    let mut k: usize = 0;
    while k < ids.len()
        invariant
            k <= ids@.len(),
            idsv.len() == ids@.len(),
            forall|t: int| 0 <= t < idsv.len() ==> idsv[t] == (#[trigger] ids@[t]).deep_view(),
            out@.map_values(|s: String| s@) == old(out)@.map_values(|s: String| s@)
                + present_ids(idsv.take(k as int)),
        decreases ids@.len() - k,
    {
        proof {
            let t = idsv.take(k as int + 1);
            assert(t.drop_last() =~= idsv.take(k as int));
            assert(t.last() == idsv[k as int]);
        }
        match &ids[k] {
            Some(s) => {
                let ghost pre = out@;
                out.push(s.clone());
                proof {
                    assert(ids@[k as int] == Option::Some(*s));
                    assert(idsv[k as int] == Option::Some(s@));
                    assert(present_ids(idsv.take(k as int + 1)) =~~= present_ids(
                        idsv.take(k as int),
                    ) + seq![s@]);
                    assert(out@.map_values(|x: String| x@) =~~= pre.map_values(|x: String| x@)
                        + seq![s@]);
                    assert(out@.map_values(|s: String| s@) =~~= old(out)@.map_values(
                        |s: String| s@,
                    ) + present_ids(idsv.take(k as int + 1)));
                }
            },
            None => {
                proof {
                    assert(out@.map_values(|s: String| s@) =~~= old(out)@.map_values(
                        |s: String| s@,
                    ) + present_ids(idsv.take(k as int + 1)));
                }
            },
        }
        k = k + 1;
    }
    proof {
        assert(idsv.take(idsv.len() as int) =~= idsv);
    }
}

/// Evaluate the execution trigger of a collaboration: count the confirmed
/// uploads, and if quorum is reached, try to insert the started marker.
/// Only the winner of that insert receives the execution task; a caller
/// that finds the marker already present exits quietly with no task.
#[verifier::loop_isolation(false)]
pub fn check_and_prepare_execution(state: &mut CoordinationState, collab_id: i32) -> (res: Result<
    Option<ExecutionTask>,
    Error,
>)
    requires
        old(state).wf(),
    ensures
        final(state).wf(),
        trigger_step(*old(state), *final(state), collab_id as int, res matches Ok(Some(_))),
        res is Err ==> *final(state) == *old(state),
        res is Ok <==> old(state).has_collab(collab_id as int) && (quorum_met(
            old(state),
            collab_id as int,
        ) ==> old(state).has_config(old(state).collab(collab_id as int).config_id)),
        !old(state).has_collab(collab_id as int) ==> res == Err::<Option<ExecutionTask>, Error>(
            Error::CollaborationNotFound { collab_id },
        ),
        old(state).has_collab(collab_id as int) && quorum_met(old(state), collab_id as int) && !old(
            state,
        ).has_config(old(state).collab(collab_id as int).config_id) ==> res == Err::<
            Option<ExecutionTask>,
            Error,
        >(Error::Internal),
        res matches Ok(Option::None::<ExecutionTask>) ==> *final(state) == *old(state) && (old(
            state,
        ).has_result(collab_id as int) || !quorum_met(old(state), collab_id as int)),
        res matches Ok(Option::Some(task)) ==> {
            &&& !old(state).has_result(collab_id as int)
            &&& quorum_met(old(state), collab_id as int)
            &&& final(state).has_result(collab_id as int)
            &&& final(state).result(collab_id as int) == started_marker(collab_id as int)
            &&& forall|q: int|
                q != collab_id as int ==> #[trigger] final(state).has_result(q) == old(
                    state,
                ).has_result(q)
            &&& final(state).collabs() == old(state).collabs()
            &&& final(state).participations() == old(state).participations()
            &&& final(state).configs() == old(state).configs()
            &&& final(state).providers() == old(state).providers()
            &&& task.collab_id == collab_id
            &&& task.mpc_program@ == old(state).collab(collab_id as int).mpc_program
            &&& task.secret_ids@.map_values(|s: String| s@) == collected_ids(
                rows_for(old(state).participations(), collab_id as int),
            )
            &&& task.output_parties@.map_values(|s: String| s@) == (match old(state).collab(
                collab_id as int,
            ).output_parties {
                Option::Some(l) => present_ids(l),
                Option::None => Seq::empty(),
            })
        },
{
    let collab = match state.get(collab_id) {
        Ok(c) => c,
        Err(e) => {
            return Err(e);
        },
    };
    let current_participations = match state.list_participations(collab_id) {
        Ok(v) => v,
        Err(e) => {
            return Err(e);
        },
    };
    let ghost rows = rows_for(old(state).participations(), collab_id as int);
    // count the participations whose upload is confirmed
    let mut participation_nr: usize = 0;
    let mut k: usize = 0;
    while k < current_participations.len()
        invariant
            k <= current_participations@.len(),
            participation_nr <= k,
            participation_nr == count_uploaded(rows.take(k as int)),
        decreases current_participations@.len() - k,
    {
        proof {
            let t = rows.take(k as int + 1);
            assert(t.drop_last() =~= rows.take(k as int));
            assert(t.last() == rows[k as int]);
            assert(rows[k as int] == current_participations@[k as int]@);
        }
        if current_participations[k].secret_ids.is_some() {
            participation_nr = participation_nr + 1;
        }
        k = k + 1;
    }
    proof {
        assert(rows.take(rows.len() as int) =~= rows);
    }
    if collab.participation_number > 0 && participation_nr < collab.participation_number as usize {
        return Ok(None);
    }
    // quorum reached: load what the execution needs, then try to win the
    // race by inserting the started marker
    let config = match get_config(collab_id, state) {
        Ok(c) => c,
        Err(e) => {
            return Err(e);
        },
    };
    match state.add_started_result(collab_id) {
        Ok(_) => {},
        Err(_) => {
            // someone else already started this collaboration
            return Ok(None);
        },
    }
    // collect the confirmed identifiers, flattened in participation order
    let mut secret_ids: Vec<String> = Vec::new();
    let mut j: usize = 0;
    while j < current_participations.len()
        invariant
            j <= current_participations@.len(),
            secret_ids@.map_values(|s: String| s@) == collected_ids(rows.take(j as int)),
        decreases current_participations@.len() - j,
    {
        proof {
            let t = rows.take(j as int + 1);
            assert(t.drop_last() =~= rows.take(j as int));
            assert(t.last() == rows[j as int]);
            assert(rows[j as int] == current_participations@[j as int]@);
        }
        match &current_participations[j].secret_ids {
            Some(ids) => {
                push_present(&mut secret_ids, ids);
                proof {
                    assert(secret_ids@.map_values(|s: String| s@) =~= collected_ids(
                        rows.take(j as int + 1),
                    ));
                }
            },
            None => {
                proof {
                    assert(secret_ids@.map_values(|s: String| s@) =~= collected_ids(
                        rows.take(j as int + 1),
                    ));
                }
            },
        }
        j = j + 1;
    }
    let mut output_parties: Vec<String> = Vec::new();
    match &collab.output_parties {
        Some(parties) => {
            push_present(&mut output_parties, parties);
            proof {
                assert(output_parties@.map_values(|s: String| s@) =~= present_ids(
                    old(state).collab(collab_id as int).output_parties->0,
                ));
            }
        },
        None => {},
    }
    proof {
        assert(rows.take(rows.len() as int) =~= rows);
    }
    Ok(
        Some(
            ExecutionTask {
                collab_id,
                mpc_program: collab.mpc_program,
                secret_ids,
                output_parties,
                config,
            },
        ),
    )
}

/// Persist the engine's verdict as the terminal state and build the
/// payload for the output parties: success keeps the result identifier,
/// failure keeps the message verbatim.
pub fn record_execution_outcome(
    state: &mut CoordinationState,
    collab_id: i32,
    outcome: Result<String, String>,
) -> (r: ExecutionResult)
    requires
        old(state).wf(),
    ensures
        final(state).wf(),
        outcome_step(*old(state), *final(state), collab_id as int),
        r.collaboration_id == collab_id,
        !old(state).has_result(collab_id as int) ==> *final(state) == *old(state),
        forall|q: int|
            q != collab_id as int ==> #[trigger] final(state).has_result(q) == old(
                state,
            ).has_result(q),
        forall|q: int|
            q != collab_id as int && old(state).has_result(q) ==> #[trigger] final(state).result(q)
                == old(state).result(q),
        final(state).collabs() == old(state).collabs(),
        final(state).participations() == old(state).participations(),
        final(state).configs() == old(state).configs(),
        final(state).providers() == old(state).providers(),
        outcome matches Ok(res_id) ==> {
            &&& r.message@ == "Success"@
            &&& r.code == 200
            &&& r.secret_id matches Some(s) && s@ == res_id@
            &&& old(state).has_result(collab_id as int) ==> final(state).result(collab_id as int)
                == (ComputationResultView {
                    collab_id: collab_id as int,
                    result_ids: Option::Some(seq![Option::Some(res_id@)]),
                    finished: true,
                    error: old(state).result(collab_id as int).error,
                })
        },
        outcome matches Err(err) ==> {
            &&& r.message@ == err@
            &&& r.code == 500
            &&& r.secret_id is None
            &&& old(state).has_result(collab_id as int) ==> final(state).result(collab_id as int)
                == (ComputationResultView {
                    collab_id: collab_id as int,
                    result_ids: old(state).result(collab_id as int).result_ids,
                    finished: true,
                    error: Option::Some(err@),
                })
        },
{
    match outcome {
        Ok(res_id) => {
            let mut ids: Vec<Option<String>> = Vec::new();
            ids.push(Some(res_id.clone()));
            proof {
                assert(ids.deep_view() =~= seq![Option::Some(res_id@)]);
            }
            let _ = state.set_result_finished(collab_id, ids);
            ExecutionResult {
                message: String::from_str("Success"),
                code: 200,
                collaboration_id: collab_id,
                secret_id: Some(res_id),
            }
        },
        Err(err) => {
            let _ = state.set_result_failed(collab_id, err.clone());
            ExecutionResult {
                message: err,
                code: 500,
                collaboration_id: collab_id,
                secret_id: None,
            }
        },
    }
}

} // verus!
