//! The participation endpoints of the orchestrator: registering input and
//! output parties, listing registrations, withdrawing, and confirming an
//! upload.

use vstd::prelude::*;

verus! {

use crate::config::CarbynestackConfig;
use crate::error::Error;
use crate::models::{Participation, ParticipationView, CollaborationView};
use crate::store::{CoordinationState, rows_for};

/// What a party that registered twice would be answered with.
#[derive(Debug, PartialEq, Eq)]
pub struct RegisterParticipationResponseBody {
    pub cs_config: CarbynestackConfig,
    pub csv_specification: String,
}

#[derive(Debug, PartialEq, Eq)]
pub enum RegisterParticipationResponse {
    OK(Participation),
    AlreadyAdded(RegisterParticipationResponseBody),
}

/// Register a party as input provider of a collaboration.
pub fn register_input_party(
    collaboration_id: i32,
    party_id: i32,
    state: &mut CoordinationState,
) -> (res: Result<RegisterParticipationResponse, Error>)
    requires
        old(state).wf(),
    ensures
        final(state).wf(),
        res is Ok <==> old(state).has_collab(collaboration_id as int) && !old(state).has_participation(collaboration_id as int, party_id as int),
        res is Err ==> *final(state) == *old(state),
        !old(state).has_collab(collaboration_id as int) ==> (res matches Err(e) && e == (
        Error::CollaborationNotFound { collab_id: collaboration_id })),
        old(state).has_collab(collaboration_id as int) && old(state).has_participation(
            collaboration_id as int,
            party_id as int,
        ) ==> (res matches Err(e) && e == Error::DuplicateParticipant),
        res matches Ok(RegisterParticipationResponse::OK(p)) ==> {
            &&& p@ == (ParticipationView {
                collaboration_id: collaboration_id as int,
                party_id: party_id as int,
                secret_ids: Option::None,
            })
            &&& final(state).has_participation(collaboration_id as int, party_id as int)
            &&& final(state).participations() == old(state).participations().push(p@)
            &&& final(state).collabs() == old(state).collabs()
            &&& final(state).results() == old(state).results()
            &&& final(state).configs() == old(state).configs()
            &&& final(state).providers() == old(state).providers()
        },
        res matches Ok(r) ==> r is OK,
{
    let resp = match state.create_participation(collaboration_id, party_id) {
        Ok(p) => p,
        Err(e) => {
            return Err(e);
        },
    };
    Ok(RegisterParticipationResponse::OK(resp))
}

#[derive(Debug, PartialEq, Eq)]
pub enum DeleteParticipationResponse {
    Removed,
}

/// Withdraw a party's registration before it uploads; absent rows are
/// left alone.
pub fn delete(collaboration_id: i32, party_id: i32, state: &mut CoordinationState) -> (res: Result<
    DeleteParticipationResponse,
    Error,
>)
    requires
        old(state).wf(),
    ensures
        final(state).wf(),
        res matches Ok(r) && r == DeleteParticipationResponse::Removed,
        !final(state).has_participation(collaboration_id as int, party_id as int),
        !old(state).has_participation(collaboration_id as int, party_id as int) ==> *final(state)
            == *old(state),
        forall|c2: int, p2: int|
            !(c2 == collaboration_id as int && p2 == party_id as int) ==> #[trigger] final(state).has_participation(c2, p2) == old(state).has_participation(c2, p2),
        final(state).collabs() == old(state).collabs(),
        final(state).results() == old(state).results(),
        final(state).configs() == old(state).configs(),
        final(state).providers() == old(state).providers(),
{
    match state.delete_participation(collaboration_id, party_id) {
        Ok(_) => {},
        Err(e) => {
            return Err(e);
        },
    }
    Ok(DeleteParticipationResponse::Removed)
}

#[derive(Debug, PartialEq, Eq)]
pub enum ListParticipationsResponse {
    OK(Vec<Participation>),
}

/// List the registrations of one collaboration, in registration order.
pub fn list(collaboration_id: i32, state: &CoordinationState) -> (res: Result<
    ListParticipationsResponse,
    Error,
>)
    ensures
        res matches Ok(r) && r matches ListParticipationsResponse::OK(v) && v@.map_values(
            |p: Participation| p@,
        ) == rows_for(state.participations(), collaboration_id as int),
{
    let rows = match state.list_participations(collaboration_id) {
        Ok(v) => v,
        Err(e) => {
            return Err(e);
        },
    };
    Ok(ListParticipationsResponse::OK(rows))
}

#[derive(Debug, PartialEq, Eq)]
pub enum RegisterOutputPartyResponse {
    Registered,
}

/// Register an output party's endpoint with a collaboration.  Duplicates
/// are allowed by design: simplicity over strict set semantics.
pub fn register_output_party(
    collaboration_id: i32,
    party_id: i32,
    party_client_endpoint: String,
    state: &mut CoordinationState,
) -> (res: Result<RegisterOutputPartyResponse, Error>)
    requires
        old(state).wf(),
    ensures
        final(state).wf(),
        res is Ok <==> old(state).has_collab(collaboration_id as int),
        res is Err ==> *final(state) == *old(state) && (res matches Err(e) && e == (
        Error::CollaborationNotFound { collab_id: collaboration_id })),
        res is Ok ==> {
            &&& final(state).collab(collaboration_id as int) == (CollaborationView {
                output_parties: Option::Some(
                    match old(state).collab(collaboration_id as int).output_parties {
                        Option::Some(l) => l.push(Option::Some(party_client_endpoint@)),
                        Option::None => seq![Option::Some(party_client_endpoint@)],
                    },
                ),
                ..old(state).collab(collaboration_id as int)
            })
            &&& forall|q: int|
                q != collaboration_id as int ==> #[trigger] final(state).has_collab(q) == old(state).has_collab(q)
            &&& forall|q: int|
                q != collaboration_id as int && old(state).has_collab(q) ==> #[trigger] final(state).collab(q) == old(state).collab(q)
            &&& final(state).results() == old(state).results()
            &&& final(state).participations() == old(state).participations()
            &&& final(state).configs() == old(state).configs()
            &&& final(state).providers() == old(state).providers()
        },
{
    match state.add_output_party(collaboration_id, party_id, party_client_endpoint) {
        Ok(_) => {},
        Err(e) => {
            return Err(e);
        },
    }
    Ok(RegisterOutputPartyResponse::Registered)
}

#[derive(Debug, PartialEq, Eq)]
pub enum PostRegisterUploadResponse {
    OK,
    AlreadyRegistered,
}

/// Confirm a party's upload by writing the secret-share identifiers into
/// its registration.  A registration is written at most once: a second
/// confirmation is answered as already registered and changes nothing.
/// Whether this completes the quorum is evaluated by a separate, detached
/// trigger evaluation; this call's success does not depend on it.
pub fn register_upload(
    collaboration_id: i32,
    party_id: i32,
    secret_ids: Vec<String>,
    state: &mut CoordinationState,
) -> (res: Result<PostRegisterUploadResponse, Error>)
    requires
        old(state).wf(),
    ensures
        final(state).wf(),
        res is Ok <==> old(state).has_participation(collaboration_id as int, party_id as int),
        res is Err ==> *final(state) == *old(state) && (res matches Err(e) && e
            == Error::ParticipantNotRegistered),
        res matches Ok(r) ==> (r == PostRegisterUploadResponse::OK <==> old(state).participation(
            collaboration_id as int,
            party_id as int,
        ).secret_ids is None),
        res matches Ok(r) && r == PostRegisterUploadResponse::AlreadyRegistered ==> *final(state)
            == *old(state),
        res matches Ok(r) && r == PostRegisterUploadResponse::OK ==> {
            &&& final(state).participation(collaboration_id as int, party_id as int) == (
            ParticipationView {
                collaboration_id: collaboration_id as int,
                party_id: party_id as int,
                secret_ids: Option::Some(secret_ids@.map_values(|s: String| Option::Some(s@))),
            })
            &&& exists|k: int|
                0 <= k < old(state).participations().len() && (#[trigger] old(state).participations()[k]).collaboration_id == collaboration_id as int && old(state).participations()[k].party_id == party_id as int && final(state).participations()
                    == old(state).participations().update(
                    k,
                    final(state).participation(collaboration_id as int, party_id as int),
                )
            &&& final(state).collabs() == old(state).collabs()
            &&& final(state).results() == old(state).results()
            &&& final(state).configs() == old(state).configs()
            &&& final(state).providers() == old(state).providers()
        },
{
    match state.get_participation(collaboration_id, party_id) {
        None => {
            return Err(Error::ParticipantNotRegistered);
        },
        Some(row) => {
            if row.secret_ids.is_some() {
                return Ok(PostRegisterUploadResponse::AlreadyRegistered);
            }
        },
    }
    match state.upload_done(collaboration_id, party_id, secret_ids) {
        Ok(_) => {},
        Err(e) => {
            return Err(e);
        },
    }
    Ok(PostRegisterUploadResponse::OK)
}

} // verus!
