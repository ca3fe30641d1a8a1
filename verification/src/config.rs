//! The computation-service configuration as clients exchange it: the field
//! constants and the provider endpoints, stored by the coordination store
//! and served per collaboration.

use vstd::prelude::*;

verus! {

use crate::error::Error;
use crate::models::{CsProvider, CsProviderView, CsConfig, NewCsConfig};
use crate::store::{CoordinationState, providers_for};
use vstd::string::StringExecFns;

/// One provider endpoint set of a deployment.
#[derive(Debug, PartialEq, Eq)]
pub struct CarbynestackProvider {
    pub id: i32,
    pub amphora_service_url: String,
    pub castor_service_url: String,
    pub ephemeral_service_url: String,
    pub base_url: String,
}

pub ghost struct CarbynestackProviderView {
    pub id: int,
    pub amphora_service_url: Seq<char>,
    pub castor_service_url: Seq<char>,
    pub ephemeral_service_url: Seq<char>,
    pub base_url: Seq<char>,
}

impl View for CarbynestackProvider {
    type V = CarbynestackProviderView;

    open spec fn view(&self) -> CarbynestackProviderView {
        CarbynestackProviderView {
            id: self.id as int,
            amphora_service_url: self.amphora_service_url@,
            castor_service_url: self.castor_service_url@,
            ephemeral_service_url: self.ephemeral_service_url@,
            base_url: self.base_url@,
        }
    }
}

/// The whole deployment configuration: field constants and providers.
#[derive(Debug, PartialEq, Eq)]
pub struct CarbynestackConfig {
    pub prime: String,
    pub r: String,
    pub rinv: String,
    pub no_ssl_validation: bool,
    pub providers: Vec<CarbynestackProvider>,
}

pub ghost struct CarbynestackConfigView {
    pub prime: Seq<char>,
    pub r: Seq<char>,
    pub rinv: Seq<char>,
    pub no_ssl_validation: bool,
    pub providers: Seq<CarbynestackProviderView>,
}

impl View for CarbynestackConfig {
    type V = CarbynestackConfigView;

    open spec fn view(&self) -> CarbynestackConfigView {
        CarbynestackConfigView {
            prime: self.prime@,
            r: self.r@,
            rinv: self.rinv@,
            no_ssl_validation: self.no_ssl_validation,
            providers: self.providers@.map_values(|p: CarbynestackProvider| p@),
        }
    }
}

/// What a stored provider row looks like to a client.
pub open spec fn provider_of(p: CsProviderView) -> CarbynestackProviderView {
    CarbynestackProviderView {
        id: p.id,
        amphora_service_url: p.amphora_service_url,
        castor_service_url: p.castor_service_url,
        ephemeral_service_url: p.ephemeral_service_url,
        base_url: p.base_url,
    }
}

/// Store an incoming configuration: one configuration row plus one row per
/// provider, all under a fresh configuration identifier.
pub fn add_config(config: CarbynestackConfig, state: &mut CoordinationState) -> (res: Result<
    CsConfig,
    Error,
>)
    requires
        old(state).wf(),
    ensures
        final(state).wf(),
        res is Ok <==> old(state).next_config_spec() < i32::MAX as int,
        res is Err ==> *final(state) == *old(state) && res == Err::<CsConfig, Error>(
            Error::Internal,
        ),
        res matches Ok(c) ==> {
            &&& c@.prime == config.prime@
            &&& c@.r == config.r@
            &&& c@.rinv == config.rinv@
            &&& c@.no_ssl_validation == config.no_ssl_validation
            &&& c@.id == old(state).next_config_spec()
            &&& final(state).next_config_spec() == old(state).next_config_spec() + 1
            &&& final(state).next_collab_spec() == old(state).next_collab_spec()
            &&& final(state).has_config(c@.id)
            &&& final(state).config(c@.id) == c@
            &&& final(state).collabs() == old(state).collabs()
            &&& final(state).participations() == old(state).participations()
            &&& final(state).results() == old(state).results()
            &&& final(state).providers() == old(state).providers() + config.providers@.map_values(
                |p: CarbynestackProvider| (CsProviderView {
                    config_id: c@.id,
                    id: p@.id,
                    amphora_service_url: p@.amphora_service_url,
                    castor_service_url: p@.castor_service_url,
                    ephemeral_service_url: p@.ephemeral_service_url,
                    base_url: p@.base_url,
                }),
            )
            &&& providers_for(final(state).providers(), c@.id) == config.providers@.map_values(
                |p: CarbynestackProvider| (CsProviderView {
                    config_id: c@.id,
                    id: p@.id,
                    amphora_service_url: p@.amphora_service_url,
                    castor_service_url: p@.castor_service_url,
                    ephemeral_service_url: p@.ephemeral_service_url,
                    base_url: p@.base_url,
                }),
            )
        },
{
    let db_config = match state.create_config(
        NewCsConfig {
            r: config.r,
            rinv: config.rinv,
            prime: config.prime,
            no_ssl_validation: config.no_ssl_validation,
        },
    ) {
        Ok(c) => c,
        Err(e) => {
            return Err(e);
        },
    };
    let mut rows: Vec<CsProvider> = Vec::new();
    let mut k: usize = 0;
    let providers = config.providers;
    while k < providers.len()
        invariant
            k <= providers@.len(),
            rows@.len() == k,
            forall|t: int|
                0 <= t < k ==> (#[trigger] rows@[t])@ == (CsProviderView {
                    config_id: db_config@.id,
                    id: providers@[t]@.id,
                    amphora_service_url: providers@[t]@.amphora_service_url,
                    castor_service_url: providers@[t]@.castor_service_url,
                    ephemeral_service_url: providers@[t]@.ephemeral_service_url,
                    base_url: providers@[t]@.base_url,
                }),
            db_config@.id < i32::MAX as int + 1,
        decreases providers@.len() - k,
    {
        let p = &providers[k];
        rows.push(
            CsProvider {
                id: p.id,
                config_id: db_config.id,
                amphora_service_url: p.amphora_service_url.clone(),
                castor_service_url: p.castor_service_url.clone(),
                ephemeral_service_url: p.ephemeral_service_url.clone(),
                base_url: p.base_url.clone(),
            },
        );
        k = k + 1;
    }
    let ghost mid = *state;
    let ghost rowvs = rows@.map_values(|p: CsProvider| p@);
    match state.create_providers(rows) {
        Ok(_) => {},
        Err(e) => {
            return Err(e);
        },
    };
    proof {
        assert(rowvs =~= providers@.map_values(
            |p: CarbynestackProvider| (CsProviderView {
                config_id: db_config@.id,
                id: p@.id,
                amphora_service_url: p@.amphora_service_url,
                castor_service_url: p@.castor_service_url,
                ephemeral_service_url: p@.ephemeral_service_url,
                base_url: p@.base_url,
            }),
        ));
        // the fresh identifier is above every pre-existing provider row,
        // so it selects exactly the appended rows
        assert forall|t: int|
            0 <= t < mid.providers().len() implies (#[trigger] mid.providers()[t]).config_id
            != db_config@.id by {
            assert(old(state).providers()[t].config_id < old(state).next_config_spec());
        }
        lemma_providers_for_absent(mid.providers(), db_config@.id);
        lemma_providers_for_append(mid.providers(), rowvs, db_config@.id);
    }
    Ok(db_config)
}

/// Splitting a provider list at an append splits its per-configuration
/// selection, provided every appended row carries that configuration.
proof fn lemma_providers_for_append(pre: Seq<CsProviderView>, add: Seq<CsProviderView>, c: int)
    requires
        forall|t: int| 0 <= t < add.len() ==> (#[trigger] add[t]).config_id == c,
    ensures
        providers_for(pre + add, c) == providers_for(pre, c) + add,
    decreases add.len(),
{
    if add.len() == 0 {
        assert(pre + add =~= pre);
        assert(providers_for(pre, c) + add =~= providers_for(pre, c));
    } else {
        let addp = add.drop_last();
        lemma_providers_for_append(pre, addp, c);
        let whole = pre + add;
        assert(whole.drop_last() =~= pre + addp);
        assert(whole.last() == add.last());
        assert(providers_for(whole, c) == providers_for(pre + addp, c) + seq![add.last()]);
        assert(providers_for(pre, c) + add =~= (providers_for(pre, c) + addp) + seq![add.last()]);
    }
}

/// A configuration identifier that no stored row carries selects nothing.
proof fn lemma_providers_for_absent(rows: Seq<CsProviderView>, c: int)
    requires
        forall|t: int| 0 <= t < rows.len() ==> (#[trigger] rows[t]).config_id != c,
    ensures
        providers_for(rows, c) == Seq::<CsProviderView>::empty(),
    decreases rows.len(),
{
    if rows.len() > 0 {
        lemma_providers_for_absent(rows.drop_last(), c);
        assert(providers_for(rows, c) =~= Seq::<CsProviderView>::empty());
    }
}

/// Serve the configuration of one collaboration, rebuilt from its stored
/// configuration row and provider rows.
pub fn get_config(collab_id: i32, state: &CoordinationState) -> (res: Result<
    CarbynestackConfig,
    Error,
>)
    requires
        state.wf(),
    ensures
        res is Ok <==> state.has_collab(collab_id as int) && state.has_config(
            state.collab(collab_id as int).config_id,
        ),
        res matches Ok(c) ==> {
            let cfg = state.config(state.collab(collab_id as int).config_id);
            &&& c@.prime == cfg.prime
            &&& c@.r == cfg.r
            &&& c@.rinv == cfg.rinv
            &&& c@.no_ssl_validation == cfg.no_ssl_validation
            &&& c@.providers == providers_for(state.providers(), cfg.id).map_values(
                |p: CsProviderView| provider_of(p),
            )
        },
        !state.has_collab(collab_id as int) ==> res == Err::<CarbynestackConfig, Error>(
            Error::CollaborationNotFound { collab_id },
        ),
        state.has_collab(collab_id as int) && !state.has_config(
            state.collab(collab_id as int).config_id,
        ) ==> res == Err::<CarbynestackConfig, Error>(Error::Internal),
{
    let collab = match state.get(collab_id) {
        Ok(c) => c,
        Err(e) => {
            return Err(e);
        },
    };
    let db_config = match state.get_config_row(collab.config_id) {
        Ok(c) => c,
        Err(e) => {
            return Err(e);
        },
    };
    let db_providers = match state.get_providers(db_config.id) {
        Ok(v) => v,
        Err(e) => {
            return Err(e);
        },
    };
    let mut providers: Vec<CarbynestackProvider> = Vec::new();
    let mut k: usize = 0;
    while k < db_providers.len()
        invariant
            k <= db_providers@.len(),
            providers@.len() == k,
            forall|t: int|
                0 <= t < k ==> (#[trigger] providers@[t])@ == provider_of(db_providers@[t]@),
        decreases db_providers@.len() - k,
    {
        let p = &db_providers[k];
        providers.push(
            CarbynestackProvider {
                id: p.id,
                amphora_service_url: p.amphora_service_url.clone(),
                castor_service_url: p.castor_service_url.clone(),
                ephemeral_service_url: p.ephemeral_service_url.clone(),
                base_url: p.base_url.clone(),
            },
        );
        k = k + 1;
    }
    let out = CarbynestackConfig {
        prime: db_config.prime,
        r: db_config.r,
        rinv: db_config.rinv,
        no_ssl_validation: db_config.no_ssl_validation,
        providers,
    };
    proof {
        assert(out@.providers =~= providers_for(
            state.providers(),
            state.collab(collab_id as int).config_id,
        ).map_values(|p: CsProviderView| provider_of(p)));
    }
    Ok(out)
}

/// The fixed two-provider deployment that the bundled computation stack
/// answers for.
pub fn cs_config() -> (c: CarbynestackConfig)
    ensures
        c@.prime == "198766463529478683931867765928436695041"@,
        c@.r == "141515903391459779531506841503331516415"@,
        c@.rinv == "133854242216446749056083838363708373830"@,
        c@.no_ssl_validation,
        c@.providers.len() == 2,
{
    let mut providers: Vec<CarbynestackProvider> = Vec::new();
    providers.push(
        CarbynestackProvider {
            id: 1,
            amphora_service_url: String::from_str("http://127.0.0.1.sslip.io/0/amphora"),
            castor_service_url: String::from_str("http://127.0.0.1.sslip.io/0/castor"),
            ephemeral_service_url: String::from_str("http://127.0.0.1.sslip.io/0"),
            base_url: String::from_str("http://127.0.0.1.sslip.io/0"),
        },
    );
    providers.push(
        CarbynestackProvider {
            id: 2,
            amphora_service_url: String::from_str("http://127.0.0.1.sslip.io/1/amphora"),
            castor_service_url: String::from_str("http://127.0.0.1.sslip.io/1/castor"),
            ephemeral_service_url: String::from_str("http://127.0.0.1.sslip.io/1"),
            base_url: String::from_str("http://127.0.0.1.sslip.io/1"),
        },
    );
    CarbynestackConfig {
        prime: String::from_str("198766463529478683931867765928436695041"),
        r: String::from_str("141515903391459779531506841503331516415"),
        rinv: String::from_str("133854242216446749056083838363708373830"),
        no_ssl_validation: true,
        providers,
    }
}

} // verus!
