//! The collaboration endpoints of the orchestrator: creation, deletion,
//! listing, and the result query.

use vstd::prelude::*;

verus! {

use crate::b64::{b64_of, b64_encode};
use crate::config::{CarbynestackConfig, add_config};
use crate::error::Error;
use crate::models::{Collaboration, NewCollaboration};
use crate::store::{CoordinationState, present_ids};

/// What a collaboration that already exists would be answered with.
#[derive(Debug, PartialEq, Eq)]
pub struct RegisterCollaborationResponseBody {
    pub cs_config: CarbynestackConfig,
    pub csv_specification: String,
}

#[derive(Debug, PartialEq, Eq)]
pub enum RegisterCollaborationResponse {
    OK(Collaboration),
    AlreadyAdded(RegisterCollaborationResponseBody),
    NotFound,
    InternalServerError(String),
}

/// Create a collaboration: store its configuration, then the
/// collaboration row itself, with the program carried base64-encoded.
pub fn post(
    name: String,
    mpc_program: Vec<u8>,
    csconfig: CarbynestackConfig,
    csv_header_line: String,
    number_of_parties: i32,
    state: &mut CoordinationState,
) -> (res: Result<RegisterCollaborationResponse, Error>)
    requires
        old(state).wf(),
    ensures
        final(state).wf(),
        res is Ok <==> old(state).next_collab_spec() < i32::MAX as int && old(
            state,
        ).next_config_spec() < i32::MAX as int,
        res is Err ==> res == Err::<RegisterCollaborationResponse, Error>(Error::Internal)
            && final(state).collabs() == old(state).collabs() && final(state).participations()
            == old(state).participations() && final(state).results() == old(state).results(),
        old(state).next_config_spec() == i32::MAX as int ==> *final(state) == *old(state),
        res matches Ok(RegisterCollaborationResponse::OK(c)) ==> {
            &&& c@.id == old(state).next_collab_spec()
            &&& c@.name == name@
            &&& c@.mpc_program == b64_of(mpc_program@)
            &&& c@.csv_specification == csv_header_line@
            &&& c@.participation_number == number_of_parties as int
            &&& c@.output_parties is None
            &&& final(state).has_collab(c@.id)
            &&& final(state).collab(c@.id) == c@
            &&& final(state).collabs() == old(state).collabs().push(c@)
            &&& final(state).participations() == old(state).participations()
            &&& final(state).results() == old(state).results()
            &&& final(state).has_config(c@.config_id)
            &&& final(state).config(c@.config_id).prime == csconfig.prime@
            &&& final(state).config(c@.config_id).r == csconfig.r@
            &&& final(state).config(c@.config_id).rinv == csconfig.rinv@
        },
        res matches Ok(r) ==> r is OK,
{
    let db_config = match add_config(csconfig, state) {
        Ok(c) => c,
        Err(e) => {
            return Err(e);
        },
    };
    let new_collab = NewCollaboration {
        name,
        mpc_program: b64_encode(&mpc_program),
        csv_specification: csv_header_line,
        participation_number: number_of_parties,
        output_parties: None,
        config_id: db_config.id,
    };
    let res = match state.create(new_collab) {
        Ok(c) => c,
        Err(e) => {
            return Err(e);
        },
    };
    Ok(RegisterCollaborationResponse::OK(res))
}

#[derive(Debug, PartialEq, Eq)]
pub enum DeleteCollaborationResponse {
    Removed,
    NotFound,
}

/// Delete a collaboration; a missing one is answered as not found, never
/// silently ignored.
pub fn delete(collab_id: i32, state: &mut CoordinationState) -> (res: Result<
    DeleteCollaborationResponse,
    Error,
>)
    requires
        old(state).wf(),
    ensures
        final(state).wf(),
        res is Ok,
        res matches Ok(r) ==> (r == DeleteCollaborationResponse::Removed <==> old(state).has_collab(collab_id as int)),
        !old(state).has_collab(collab_id as int) ==> *final(state) == *old(state),
        !final(state).has_collab(collab_id as int),
        !final(state).has_result(collab_id as int),
        final(state).participations() == old(state).participations(),
        final(state).configs() == old(state).configs(),
        final(state).providers() == old(state).providers(),
        forall|q: int|
            q != collab_id as int ==> #[trigger] final(state).has_collab(q) == old(state).has_collab(q),
        forall|q: int|
            q != collab_id as int ==> #[trigger] final(state).has_result(q) == old(state).has_result(q),
{
    proof {
        // a result row only exists for an existing collaboration, so a
        // missing collaboration cannot leave a result behind
        if !old(state).has_collab(collab_id as int) {
            assert(!old(state).has_result(collab_id as int));
        }
    }
    match state.delete(collab_id) {
        Ok(_) => Ok(DeleteCollaborationResponse::Removed),
        Err(_) => Ok(DeleteCollaborationResponse::NotFound),
    }
}

#[derive(Debug, PartialEq, Eq)]
pub enum ListCollaborationsResponse {
    Success(Vec<Collaboration>),
}

/// List all collaborations, in creation order.
pub fn list(state: &CoordinationState) -> (res: Result<ListCollaborationsResponse, Error>)
    ensures
        res matches Ok(r) && r matches ListCollaborationsResponse::Success(v) && v@.map_values(
            |c: Collaboration| c@,
        ) == state.collabs(),
{
    let rows = match state.list() {
        Ok(v) => v,
        Err(e) => {
            return Err(e);
        },
    };
    Ok(ListCollaborationsResponse::Success(rows))
}

#[derive(Debug, PartialEq, Eq)]
pub enum GetResultIdsResponse {
    Success(Vec<String>),
    CollaborationNotFound,
    InternalServerError(String),
}

/// Query the outcome of a collaboration: the result identifiers once the
/// execution succeeded, the failure message once it failed, and "not
/// finished" while no terminal state exists; a query before completion is
/// not an error state.
pub fn get_result_ids(collab_id: i32, state: &CoordinationState) -> (res: Result<
    GetResultIdsResponse,
    Error,
>)
    requires
        state.wf(),
    ensures
        res is Ok <==> state.has_result(collab_id as int) && state.result(
            collab_id as int,
        ).result_ids is Some,
        res matches Ok(r) ==> r matches GetResultIdsResponse::Success(v) && v@.map_values(
            |s: String| s@,
        ) == present_ids(state.result(collab_id as int).result_ids->0),
        res matches Err(e) ==> if state.has_result(collab_id as int) && state.result(
            collab_id as int,
        ).result_ids is None && state.result(collab_id as int).error is Some {
            e matches Error::MPCExecutionFailed(m) && m@ == state.result(
                collab_id as int,
            ).error->0
        } else {
            e == Error::ProcessingNotFinished
        },
{
    let resp = match state.result_ids(collab_id) {
        Ok(v) => v,
        Err(e) => {
            return Err(e);
        },
    };
    Ok(GetResultIdsResponse::Success(resp))
}

} // verus!
