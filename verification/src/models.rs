//! The durable entities of the coordination side: collaborations,
//! participations, computation results, and the computation-service
//! configuration rows.  Each entity carries a mathematical view; every
//! contract of the store speaks of rows through these views.

use vstd::prelude::*;

verus! {

/// A configuration row to be stored; the store assigns the identifier.
#[derive(Debug, PartialEq, Eq)]
pub struct NewCsConfig {
    pub prime: String,
    pub r: String,
    pub rinv: String,
    pub no_ssl_validation: bool,
}

/// A stored computation-service configuration.
#[derive(Debug, PartialEq, Eq)]
pub struct CsConfig {
    pub id: i32,
    pub prime: String,
    pub r: String,
    pub rinv: String,
    pub no_ssl_validation: bool,
}

pub ghost struct CsConfigView {
    pub id: int,
    pub prime: Seq<char>,
    pub r: Seq<char>,
    pub rinv: Seq<char>,
    pub no_ssl_validation: bool,
}

impl View for CsConfig {
    type V = CsConfigView;

    open spec fn view(&self) -> CsConfigView {
        CsConfigView {
            id: self.id as int,
            prime: self.prime@,
            r: self.r@,
            rinv: self.rinv@,
            no_ssl_validation: self.no_ssl_validation,
        }
    }
}

/// One computation provider of a stored configuration.
#[derive(Debug, PartialEq, Eq)]
pub struct CsProvider {
    pub config_id: i32,
    pub id: i32,
    pub amphora_service_url: String,
    pub castor_service_url: String,
    pub ephemeral_service_url: String,
    pub base_url: String,
}

pub ghost struct CsProviderView {
    pub config_id: int,
    pub id: int,
    pub amphora_service_url: Seq<char>,
    pub castor_service_url: Seq<char>,
    pub ephemeral_service_url: Seq<char>,
    pub base_url: Seq<char>,
}

impl View for CsProvider {
    type V = CsProviderView;

    open spec fn view(&self) -> CsProviderView {
        CsProviderView {
            config_id: self.config_id as int,
            id: self.id as int,
            amphora_service_url: self.amphora_service_url@,
            castor_service_url: self.castor_service_url@,
            ephemeral_service_url: self.ephemeral_service_url@,
            base_url: self.base_url@,
        }
    }
}

/// The view of an optional list of optional strings.
pub open spec fn opt_ids_view(o: Option<Vec<Option<String>>>) -> Option<Seq<Option<Seq<char>>>> {
    match o {
        Option::Some(v) => Option::Some(v.deep_view()),
        Option::None => Option::None,
    }
}

/// A collaboration to be created; the store assigns the identifier.
#[derive(Debug, PartialEq, Eq)]
pub struct NewCollaboration {
    pub name: String,
    pub mpc_program: String,
    pub csv_specification: String,
    pub participation_number: i32,
    pub config_id: i32,
    pub output_parties: Option<Vec<Option<String>>>,
}

/// A stored collaboration.
#[derive(Debug, PartialEq, Eq)]
pub struct Collaboration {
    pub id: i32,
    pub name: String,
    pub mpc_program: String,
    pub csv_specification: String,
    pub participation_number: i32,
    pub config_id: i32,
    pub output_parties: Option<Vec<Option<String>>>,
}

pub ghost struct CollaborationView {
    pub id: int,
    pub name: Seq<char>,
    pub mpc_program: Seq<char>,
    pub csv_specification: Seq<char>,
    pub participation_number: int,
    pub config_id: int,
    pub output_parties: Option<Seq<Option<Seq<char>>>>,
}

impl View for Collaboration {
    type V = CollaborationView;

    open spec fn view(&self) -> CollaborationView {
        CollaborationView {
            id: self.id as int,
            name: self.name@,
            mpc_program: self.mpc_program@,
            csv_specification: self.csv_specification@,
            participation_number: self.participation_number as int,
            config_id: self.config_id as int,
            output_parties: opt_ids_view(self.output_parties),
        }
    }
}

/// A stored registration; `secret_ids` is set once the upload is confirmed.
#[derive(Debug, PartialEq, Eq)]
pub struct Participation {
    pub collaboration_id: i32,
    pub party_id: i32,
    pub secret_ids: Option<Vec<Option<String>>>,
}

pub ghost struct ParticipationView {
    pub collaboration_id: int,
    pub party_id: int,
    pub secret_ids: Option<Seq<Option<Seq<char>>>>,
}

impl View for Participation {
    type V = ParticipationView;

    open spec fn view(&self) -> ParticipationView {
        ParticipationView {
            collaboration_id: self.collaboration_id as int,
            party_id: self.party_id as int,
            secret_ids: opt_ids_view(self.secret_ids),
        }
    }
}

/// The terminal marker of a collaboration's execution.  At most one row
/// exists per collaboration; once `finished` is set the state is terminal.
#[derive(Debug, PartialEq, Eq)]
pub struct ComputationResult {
    pub collab_id: i32,
    pub result_ids: Option<Vec<Option<String>>>,
    pub finished: bool,
    pub error: Option<String>,
}

pub ghost struct ComputationResultView {
    pub collab_id: int,
    pub result_ids: Option<Seq<Option<Seq<char>>>>,
    pub finished: bool,
    pub error: Option<Seq<char>>,
}

impl View for ComputationResult {
    type V = ComputationResultView;

    open spec fn view(&self) -> ComputationResultView {
        ComputationResultView {
            collab_id: self.collab_id as int,
            result_ids: opt_ids_view(self.result_ids),
            finished: self.finished,
            error: match self.error {
                Option::Some(e) => Option::Some(e@),
                Option::None => Option::None,
            },
        }
    }
}

/// An element-wise copy of a list of optional strings.
pub fn copy_opt_strings(v: &Vec<Option<String>>) -> (out: Vec<Option<String>>)
    ensures
        out.deep_view() == v.deep_view(),
        out@.len() == v@.len(),
{
    let mut out: Vec<Option<String>> = Vec::new();
    let mut j: usize = 0;
    while j < v.len()
        invariant
            j <= v@.len(),
            out@.len() == j,
            forall|t: int| 0 <= t < j ==> (#[trigger] out@[t]).deep_view() == v@[t].deep_view(),
        decreases v@.len() - j,
    {
        let e = match &v[j] {
            Some(s) => Some(s.clone()),
            None => None,
        };
        out.push(e);
        j = j + 1;
    }
    proof {
        assert(out.deep_view() =~= v.deep_view());
    }
    out
}

fn copy_opt_string_list(v: &Option<Vec<Option<String>>>) -> (out: Option<Vec<Option<String>>>)
    ensures
        opt_ids_view(out) == opt_ids_view(*v),
{
    match v {
        Some(list) => Some(copy_opt_strings(list)),
        None => None,
    }
}

impl Collaboration {
    /// A field-for-field copy with the same view.
    pub fn duplicate(&self) -> (c: Collaboration)
        ensures
            c@ == self@,
    {
        Collaboration {
            id: self.id,
            name: self.name.clone(),
            mpc_program: self.mpc_program.clone(),
            csv_specification: self.csv_specification.clone(),
            participation_number: self.participation_number,
            config_id: self.config_id,
            output_parties: copy_opt_string_list(&self.output_parties),
        }
    }
}

impl Participation {
    /// A field-for-field copy with the same view.
    pub fn duplicate(&self) -> (p: Participation)
        ensures
            p@ == self@,
    {
        Participation {
            collaboration_id: self.collaboration_id,
            party_id: self.party_id,
            secret_ids: copy_opt_string_list(&self.secret_ids),
        }
    }
}

impl ComputationResult {
    /// A field-for-field copy with the same view.
    pub fn duplicate(&self) -> (r: ComputationResult)
        ensures
            r@ == self@,
    {
        ComputationResult {
            collab_id: self.collab_id,
            result_ids: copy_opt_string_list(&self.result_ids),
            finished: self.finished,
            error: match &self.error {
                Some(e) => Some(e.clone()),
                None => None,
            },
        }
    }
}

impl CsConfig {
    /// A field-for-field copy with the same view.
    pub fn duplicate(&self) -> (c: CsConfig)
        ensures
            c@ == self@,
    {
        CsConfig {
            id: self.id,
            prime: self.prime.clone(),
            r: self.r.clone(),
            rinv: self.rinv.clone(),
            no_ssl_validation: self.no_ssl_validation,
        }
    }
}

impl CsProvider {
    /// A field-for-field copy with the same view.
    pub fn duplicate(&self) -> (p: CsProvider)
        ensures
            p@ == self@,
    {
        CsProvider {
            config_id: self.config_id,
            id: self.id,
            amphora_service_url: self.amphora_service_url.clone(),
            castor_service_url: self.castor_service_url.clone(),
            ephemeral_service_url: self.ephemeral_service_url.clone(),
            base_url: self.base_url.clone(),
        }
    }
}

} // verus!
