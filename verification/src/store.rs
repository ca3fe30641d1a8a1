//! The coordination store: the durable state of the orchestrator, modelled
//! as an explicit value.  It is the source of truth for collaborations,
//! participations and computation results, and its uniqueness rule on the
//! result key is what makes the execution trigger run exactly once.

use vstd::prelude::*;

verus! {

use crate::error::Error;
use crate::models::{
    Collaboration, CollaborationView, NewCollaboration, Participation, ParticipationView,
    ComputationResult, ComputationResultView, CsConfig, CsConfigView, NewCsConfig, CsProvider,
    CsProviderView, copy_opt_strings, opt_ids_view,
};

/// The participations of one collaboration, in insertion order.
pub open spec fn rows_for(rows: Seq<ParticipationView>, c: int) -> Seq<ParticipationView>
    decreases rows.len(),
{
    if rows.len() == 0 {
        Seq::empty()
    } else {
        rows_for(rows.drop_last(), c) + if rows.last().collaboration_id == c {
            seq![rows.last()]
        } else {
            Seq::empty()
        }
    }
}

/// The providers of one configuration, in insertion order.
pub open spec fn providers_for(rows: Seq<CsProviderView>, c: int) -> Seq<CsProviderView>
    decreases rows.len(),
{
    if rows.len() == 0 {
        Seq::empty()
    } else {
        providers_for(rows.drop_last(), c) + if rows.last().config_id == c {
            seq![rows.last()]
        } else {
            Seq::empty()
        }
    }
}

/// The identifiers present in a stored identifier list.
pub open spec fn present_ids(ids: Seq<Option<Seq<char>>>) -> Seq<Seq<char>>
    decreases ids.len(),
{
    if ids.len() == 0 {
        Seq::empty()
    } else {
        present_ids(ids.drop_last()) + match ids.last() {
            Option::Some(s) => seq![s],
            Option::None => Seq::empty(),
        }
    }
}

pub struct CoordinationState {
    collaborations: Vec<Collaboration>,
    participations: Vec<Participation>,
    results: Vec<ComputationResult>,
    configs: Vec<CsConfig>,
    providers: Vec<CsProvider>,
    next_collab_id: i32,
    next_config_id: i32,
}

/// Two states with the same collaboration rows agree on every lookup.
proof fn lemma_same_collabs(a: &CoordinationState, b: &CoordinationState)
    requires
        a.collabs() == b.collabs(),
        forall|i: int, j: int|
            0 <= i < j < a.collabs().len() ==> (#[trigger] a.collabs()[i]).id != (
            #[trigger] a.collabs()[j]).id,
    ensures
        forall|q: int| #[trigger] a.has_collab(q) == b.has_collab(q),
        forall|q: int| a.has_collab(q) ==> #[trigger] a.collab(q) == b.collab(q),
{
    assert forall|q: int| #[trigger] a.has_collab(q) == b.has_collab(q) by {
        if a.has_collab(q) {
            let w = choose|w: int| 0 <= w < a.collabs().len() && (#[trigger] a.collabs()[w]).id == q;
            assert(b.collabs()[w].id == q);
        }
        if b.has_collab(q) {
            let w = choose|w: int| 0 <= w < b.collabs().len() && (#[trigger] b.collabs()[w]).id == q;
            assert(a.collabs()[w].id == q);
        }
    }
    assert forall|q: int| a.has_collab(q) implies #[trigger] a.collab(q) == b.collab(q) by {
        let k1 = choose|k: int| 0 <= k < a.collabs().len() && (#[trigger] a.collabs()[k]).id == q;
        let k2 = choose|k: int| 0 <= k < b.collabs().len() && (#[trigger] b.collabs()[k]).id == q;
        assert(a.collabs()[k2].id == q);
        assert(k1 == k2);
    }
}

impl CoordinationState {
    pub closed spec fn collabs(&self) -> Seq<CollaborationView> {
        self.collaborations@.map_values(|c: Collaboration| c@)
    }

    pub closed spec fn participations(&self) -> Seq<ParticipationView> {
        self.participations@.map_values(|p: Participation| p@)
    }

    pub closed spec fn results(&self) -> Seq<ComputationResultView> {
        self.results@.map_values(|r: ComputationResult| r@)
    }

    pub closed spec fn configs(&self) -> Seq<CsConfigView> {
        self.configs@.map_values(|c: CsConfig| c@)
    }

    pub closed spec fn providers(&self) -> Seq<CsProviderView> {
        self.providers@.map_values(|p: CsProvider| p@)
    }

    pub closed spec fn next_collab_spec(&self) -> int {
        self.next_collab_id as int
    }

    pub closed spec fn next_config_spec(&self) -> int {
        self.next_config_id as int
    }

    pub open spec fn has_collab(&self, id: int) -> bool {
        exists|k: int| 0 <= k < self.collabs().len() && (#[trigger] self.collabs()[k]).id == id
    }

    pub open spec fn collab(&self, id: int) -> CollaborationView {
        self.collabs()[choose|k: int|
            0 <= k < self.collabs().len() && (#[trigger] self.collabs()[k]).id == id]
    }

    pub open spec fn has_participation(&self, c: int, p: int) -> bool {
        exists|k: int|
            0 <= k < self.participations().len() && (#[trigger] self.participations()[k]).collaboration_id
                == c && self.participations()[k].party_id == p
    }

    pub open spec fn participation(&self, c: int, p: int) -> ParticipationView {
        self.participations()[choose|k: int|
            0 <= k < self.participations().len() && (#[trigger] self.participations()[k]).collaboration_id
                == c && self.participations()[k].party_id == p]
    }

    pub open spec fn has_result(&self, id: int) -> bool {
        exists|k: int| 0 <= k < self.results().len() && (#[trigger] self.results()[k]).collab_id == id
    }

    pub open spec fn result(&self, id: int) -> ComputationResultView {
        self.results()[choose|k: int|
            0 <= k < self.results().len() && (#[trigger] self.results()[k]).collab_id == id]
    }

    pub open spec fn has_config(&self, id: int) -> bool {
        exists|k: int| 0 <= k < self.configs().len() && (#[trigger] self.configs()[k]).id == id
    }

    pub open spec fn config(&self, id: int) -> CsConfigView {
        self.configs()[choose|k: int|
            0 <= k < self.configs().len() && (#[trigger] self.configs()[k]).id == id]
    }

    /// Row keys are unique, assigned identifiers stay below the counters,
    /// and a result row only ever exists for an existing collaboration.
    pub open spec fn wf(&self) -> bool {
        &&& forall|i: int, j: int|
            0 <= i < j < self.collabs().len() ==> (#[trigger] self.collabs()[i]).id != (
            #[trigger] self.collabs()[j]).id
        &&& forall|i: int, j: int|
            0 <= i < j < self.participations().len() ==> !((#[trigger] self.participations()[i]).collaboration_id
                == (#[trigger] self.participations()[j]).collaboration_id
                && self.participations()[i].party_id == self.participations()[j].party_id)
        &&& forall|i: int, j: int|
            0 <= i < j < self.results().len() ==> (#[trigger] self.results()[i]).collab_id != (
            #[trigger] self.results()[j]).collab_id
        &&& forall|i: int, j: int|
            0 <= i < j < self.configs().len() ==> (#[trigger] self.configs()[i]).id != (
            #[trigger] self.configs()[j]).id
        &&& forall|k: int|
            0 <= k < self.collabs().len() ==> (#[trigger] self.collabs()[k]).id
                < self.next_collab_spec()
        &&& forall|k: int|
            0 <= k < self.configs().len() ==> (#[trigger] self.configs()[k]).id
                < self.next_config_spec()
        &&& forall|k: int|
            0 <= k < self.results().len() ==> self.has_collab(
                (#[trigger] self.results()[k]).collab_id,
            )
        &&& forall|k: int|
            0 <= k < self.providers().len() ==> (#[trigger] self.providers()[k]).config_id
                < self.next_config_spec()
    }

    /// An empty store.
    pub fn new() -> (s: CoordinationState)
        ensures
            s.wf(),
            s.collabs().len() == 0,
            s.participations().len() == 0,
            s.results().len() == 0,
            s.configs().len() == 0,
            s.providers().len() == 0,
    {
        let s = CoordinationState {
            collaborations: Vec::new(),
            participations: Vec::new(),
            results: Vec::new(),
            configs: Vec::new(),
            providers: Vec::new(),
            next_collab_id: 1,
            next_config_id: 1,
        };
        proof {
            assert(s.collabs() =~= Seq::<CollaborationView>::empty());
            assert(s.participations() =~= Seq::<ParticipationView>::empty());
            assert(s.results() =~= Seq::<ComputationResultView>::empty());
            assert(s.configs() =~= Seq::<CsConfigView>::empty());
            assert(s.providers() =~= Seq::<CsProviderView>::empty());
        }
        s
    }

    /// Store a new collaboration under a fresh identifier.
    pub fn create(&mut self, collaboration: NewCollaboration) -> (res: Result<Collaboration, Error>)
        requires
            old(self).wf(),
        ensures
            final(self).wf(),
            res is Err ==> *final(self) == *old(self) && res == Err::<Collaboration, Error>(
                Error::Internal,
            ),
            res is Ok <==> old(self).next_collab_spec() < i32::MAX as int,
            res matches Ok(c) ==> {
                &&& c@.name == collaboration.name@
                &&& c@.mpc_program == collaboration.mpc_program@
                &&& c@.csv_specification == collaboration.csv_specification@
                &&& c@.participation_number == collaboration.participation_number as int
                &&& c@.config_id == collaboration.config_id as int
                &&& c@.output_parties == opt_ids_view(collaboration.output_parties)
                &&& c@.id == old(self).next_collab_spec()
                &&& final(self).next_collab_spec() == old(self).next_collab_spec() + 1
                &&& final(self).next_config_spec() == old(self).next_config_spec()
                &&& !old(self).has_collab(c@.id)
                &&& final(self).has_collab(c@.id)
                &&& final(self).collabs() == old(self).collabs().push(c@)
                &&& final(self).collab(c@.id) == c@
                &&& final(self).participations() == old(self).participations()
                &&& final(self).results() == old(self).results()
                &&& final(self).configs() == old(self).configs()
                &&& final(self).providers() == old(self).providers()
            },
    {
        if self.next_collab_id == i32::MAX {
            return Err(Error::Internal);
        }
        let id = self.next_collab_id;
        self.next_collab_id = self.next_collab_id + 1;
        let row = Collaboration {
            id,
            name: collaboration.name,
            mpc_program: collaboration.mpc_program,
            csv_specification: collaboration.csv_specification,
            participation_number: collaboration.participation_number,
            config_id: collaboration.config_id,
            output_parties: collaboration.output_parties,
        };
        let out = row.duplicate();
        let ghost pre = self.collabs();
        self.collaborations.push(row);
        proof {
            let n = pre.len();
            assert(self.collabs() =~= pre.push(out@));
            assert(!old(self).has_collab(id as int));
            assert(self.collabs()[n as int].id == id as int);
            assert forall|i: int, j: int|
                0 <= i < j < self.collabs().len() implies (#[trigger] self.collabs()[i]).id != (
            #[trigger] self.collabs()[j]).id by {
                assert(self.collabs()[i] == pre[i]);
                if j < n {
                    assert(self.collabs()[j] == pre[j]);
                } else {
                    assert(pre[i].id < old(self).next_collab_spec());
                }
            }
            assert forall|k: int|
                0 <= k < self.collabs().len() implies (#[trigger] self.collabs()[k]).id
                < self.next_collab_spec() by {
                if k < n {
                    assert(self.collabs()[k] == pre[k]);
                }
            }
            assert forall|k: int|
                0 <= k < self.results().len() implies self.has_collab(
                (#[trigger] self.results()[k]).collab_id,
            ) by {
                assert(old(self).has_collab(self.results()[k].collab_id));
                let w = choose|w: int|
                    0 <= w < pre.len() && (#[trigger] pre[w]).id == self.results()[k].collab_id;
                assert(self.collabs()[w].id == self.results()[k].collab_id);
            }
            let w = choose|w: int|
                0 <= w < self.collabs().len() && (#[trigger] self.collabs()[w]).id == id as int;
            assert(self.collabs()[w].id == self.collabs()[n as int].id);
            assert(w == n as int);
            assert(self.participations() =~= old(self).participations());
            assert(self.results() =~= old(self).results());
            assert(self.configs() =~= old(self).configs());
            assert(self.providers() =~= old(self).providers());
            assert forall|k: int|
                0 <= k < self.providers().len() implies (#[trigger] self.providers()[k]).config_id
                < self.next_config_spec() by {
                assert(old(self).providers()[k].config_id < old(self).next_config_spec());
            }
        }
        Ok(out)
    }

    /// Retrieve a collaboration by identifier.
    pub fn get(&self, collab_id: i32) -> (res: Result<Collaboration, Error>)
        requires
            self.wf(),
        ensures
            res is Ok <==> self.has_collab(collab_id as int),
            res matches Ok(c) ==> c@ == self.collab(collab_id as int),
            res is Err ==> res == Err::<Collaboration, Error>(
                Error::CollaborationNotFound { collab_id },
            ),
    {
        match self.find_collab_index(collab_id) {
            Some(k) => {
                proof {
                    let w = choose|w: int|
                        0 <= w < self.collabs().len() && (#[trigger] self.collabs()[w]).id
                            == collab_id as int;
                    assert(w == k);
                }
                Ok(self.collaborations[k].duplicate())
            },
            None => Err(Error::CollaborationNotFound { collab_id }),
        }
    }

    /// All collaborations, in creation order.
    pub fn list(&self) -> (res: Result<Vec<Collaboration>, Error>)
        ensures
            res matches Ok(v) && v@.map_values(|c: Collaboration| c@) == self.collabs(),
    {
        let mut out: Vec<Collaboration> = Vec::new();
        let mut k: usize = 0;
        while k < self.collaborations.len()
            invariant
                k <= self.collaborations@.len(),
                out@.len() == k,
                forall|t: int| 0 <= t < k ==> (#[trigger] out@[t])@ == self.collabs()[t],
            decreases self.collaborations@.len() - k,
        {
            out.push(self.collaborations[k].duplicate());
            k = k + 1;
        }
        proof {
            assert(out@.map_values(|c: Collaboration| c@) =~= self.collabs());
        }
        Ok(out)
    }

    /// Remove a collaboration and its result row; absent collaborations
    /// are reported, never silently ignored.
    pub fn delete(&mut self, collab_id: i32) -> (res: Result<usize, Error>)
        requires
            old(self).wf(),
        ensures
            final(self).wf(),
            res is Ok <==> old(self).has_collab(collab_id as int),
            res is Err ==> *final(self) == *old(self) && res == Err::<usize, Error>(
                Error::CollaborationNotFound { collab_id },
            ),
            res is Ok ==> {
                &&& !final(self).has_collab(collab_id as int)
                &&& !final(self).has_result(collab_id as int)
                &&& forall|q: int|
                    q != collab_id as int ==> #[trigger] final(self).has_collab(q) == old(self).has_collab(q)
                &&& forall|q: int|
                    q != collab_id as int && old(self).has_collab(q) ==> #[trigger] final(self).collab(q) == old(self).collab(q)
                &&& forall|q: int|
                    q != collab_id as int ==> #[trigger] final(self).has_result(q) == old(self).has_result(q)
                &&& forall|q: int|
                    q != collab_id as int && old(self).has_result(q) ==> #[trigger] final(self).result(q) == old(self).result(q)
                &&& final(self).participations() == old(self).participations()
                &&& final(self).configs() == old(self).configs()
                &&& final(self).providers() == old(self).providers()
            },
    {
        if self.find_collab_index(collab_id).is_none() {
            return Err(Error::CollaborationNotFound { collab_id });
        }
        self.remove_result_row(collab_id);
        let ghost mid = *self;
        self.remove_collab_row(collab_id);
        proof {
            assert forall|q: int|
                q != collab_id as int implies #[trigger] self.has_result(q) == old(self).has_result(q) by {
                assert(mid.has_result(q) == old(self).has_result(q));
                if mid.has_result(q) {
                    let w = choose|w: int|
                        0 <= w < mid.results().len() && (#[trigger] mid.results()[w]).collab_id
                            == q;
                    assert(self.results()[w].collab_id == q);
                }
                if self.has_result(q) {
                    let w = choose|w: int|
                        0 <= w < self.results().len() && (#[trigger] self.results()[w]).collab_id
                            == q;
                    assert(mid.results()[w].collab_id == q);
                }
            }
            assert forall|q: int|
                q != collab_id as int && old(self).has_result(q) implies #[trigger] self.result(q)
                == old(self).result(q) by {
                assert(mid.has_result(q));
                assert(mid.result(q) == old(self).result(q));
                let k1 = choose|k: int|
                    0 <= k < mid.results().len() && (#[trigger] mid.results()[k]).collab_id == q;
                let k2 = choose|k: int|
                    0 <= k < self.results().len() && (#[trigger] self.results()[k]).collab_id == q;
                assert(mid.results()[k2].collab_id == q);
                assert(k1 == k2);
            }
            assert(!self.has_result(collab_id as int)) by {
                if self.has_result(collab_id as int) {
                    let w = choose|w: int|
                        0 <= w < self.results().len() && (#[trigger] self.results()[w]).collab_id
                            == collab_id as int;
                    assert(mid.results()[w].collab_id == collab_id as int);
                    assert(mid.has_result(collab_id as int));
                }
            }
            assert forall|q: int|
                q != collab_id as int implies #[trigger] self.has_collab(q) == old(self).has_collab(q) by {
                assert(self.has_collab(q) == mid.has_collab(q));
                if old(self).has_collab(q) {
                    let w = choose|w: int|
                        0 <= w < old(self).collabs().len() && (#[trigger] old(self).collabs()[w]).id
                            == q;
                    assert(mid.collabs()[w].id == q);
                }
                if mid.has_collab(q) {
                    let w = choose|w: int|
                        0 <= w < mid.collabs().len() && (#[trigger] mid.collabs()[w]).id == q;
                    assert(old(self).collabs()[w].id == q);
                }
            }
            assert forall|q: int|
                q != collab_id as int && old(self).has_collab(q) implies #[trigger] self.collab(q)
                == old(self).collab(q) by {
                assert(mid.has_collab(q));
                assert(self.collab(q) == mid.collab(q));
                let k1 = choose|k: int|
                    0 <= k < mid.collabs().len() && (#[trigger] mid.collabs()[k]).id == q;
                let k2 = choose|k: int|
                    0 <= k < old(self).collabs().len() && (#[trigger] old(self).collabs()[k]).id
                        == q;
                assert(mid.collabs()[k2].id == q);
                assert(k1 == k2);
            }
        }
        Ok(1)
    }

    /// Drop the result row of a collaboration, if one exists.
    fn remove_result_row(&mut self, collab_id: i32)
        requires
            old(self).wf(),
        ensures
            final(self).wf(),
            !final(self).has_result(collab_id as int),
            forall|q: int|
                q != collab_id as int ==> #[trigger] final(self).has_result(q) == old(self).has_result(q),
            forall|q: int|
                q != collab_id as int && old(self).has_result(q) ==> #[trigger] final(self).result(
                    q,
                ) == old(self).result(q),
            final(self).collabs() == old(self).collabs(),
            final(self).participations() == old(self).participations(),
            final(self).configs() == old(self).configs(),
            final(self).providers() == old(self).providers(),
            final(self).has_collab(collab_id as int) == old(self).has_collab(collab_id as int),
            final(self).next_collab_spec() == old(self).next_collab_spec(),
    {
        let rk = match self.find_result_index(collab_id) {
            Some(k) => k,
            None => {
                return;
            },
        };
        let ghost prer = self.results();
        self.results.remove(rk);
        proof {
            assert(self.results() =~= prer.remove(rk as int));
            assert forall|q: int|
                q != collab_id as int implies #[trigger] self.has_result(q) == old(self).has_result(q) by {
                if old(self).has_result(q) {
                    let w = choose|w: int|
                        0 <= w < prer.len() && (#[trigger] prer[w]).collab_id == q;
                    assert(w != rk);
                    let w2 = if w < rk { w } else { w - 1 };
                    assert(self.results()[w2].collab_id == q);
                }
                if self.has_result(q) {
                    let w = choose|w: int|
                        0 <= w < self.results().len() && (#[trigger] self.results()[w]).collab_id
                            == q;
                    let w0 = if w < rk { w } else { w + 1 };
                    assert(prer[w0].collab_id == q);
                }
            }
            assert forall|q: int|
                q != collab_id as int && old(self).has_result(q) implies #[trigger] self.result(q)
                == old(self).result(q) by {
                assert(self.has_result(q));
                let w = choose|w: int|
                    0 <= w < self.results().len() && (#[trigger] self.results()[w]).collab_id == q;
                let w0 = if w < rk { w } else { w + 1 };
                assert(self.results()[w] == prer[w0]);
                assert(prer[w0].collab_id == q);
                let wc = choose|wc: int| 0 <= wc < prer.len() && (#[trigger] prer[wc]).collab_id == q;
                assert(wc == w0);
                assert(prer == old(self).results());
                assert(old(self).result(q).collab_id == q);
                assert(old(self).result(q) == prer[wc]);
            }
            assert(self.collabs() =~= old(self).collabs());
            assert(self.participations() =~= old(self).participations());
            assert(self.configs() =~= old(self).configs());
            assert(self.providers() =~= old(self).providers());
            assert(!self.has_result(collab_id as int)) by {
                if self.has_result(collab_id as int) {
                    let w = choose|w: int|
                        0 <= w < self.results().len() && (#[trigger] self.results()[w]).collab_id
                            == collab_id as int;
                    let w0 = if w < rk { w } else { w + 1 };
                    assert(prer[w0].collab_id == collab_id as int);
                    assert(prer[rk as int].collab_id == collab_id as int);
                    assert(w0 != rk);
                }
            }
            assert forall|i: int, j: int|
                0 <= i < j < self.results().len() implies (#[trigger] self.results()[i]).collab_id
                != (#[trigger] self.results()[j]).collab_id by {
                let i0 = if i < rk { i } else { i + 1 };
                let j0 = if j < rk { j } else { j + 1 };
                assert(prer[i0].collab_id != prer[j0].collab_id);
            }
            assert forall|k: int|
                0 <= k < self.results().len() implies self.has_collab(
                (#[trigger] self.results()[k]).collab_id,
            ) by {
                let k0 = if k < rk { k } else { k + 1 };
                assert(self.results()[k] == prer[k0]);
                assert(old(self).has_collab(prer[k0].collab_id));
            }
            assert forall|k: int|
                0 <= k < self.providers().len() implies (#[trigger] self.providers()[k]).config_id
                < self.next_config_spec() by {
                assert(old(self).providers()[k].config_id < old(self).next_config_spec());
            }
        }
    }

    /// Drop a collaboration row that no result row references.
    fn remove_collab_row(&mut self, collab_id: i32)
        requires
            old(self).wf(),
            old(self).has_collab(collab_id as int),
            !old(self).has_result(collab_id as int),
        ensures
            final(self).wf(),
            !final(self).has_collab(collab_id as int),
            forall|q: int|
                q != collab_id as int ==> #[trigger] final(self).has_collab(q) == old(self).has_collab(q),
            forall|q: int|
                q != collab_id as int && old(self).has_collab(q) ==> #[trigger] final(self).collab(
                    q,
                ) == old(self).collab(q),
            final(self).results() == old(self).results(),
            final(self).participations() == old(self).participations(),
            final(self).configs() == old(self).configs(),
            final(self).providers() == old(self).providers(),
    {
        let ck = match self.find_collab_index(collab_id) {
            Some(k) => k,
            None => {
                proof {
                    assert(false);
                }
                return;
            },
        };
        let ghost prec = self.collabs();
        self.collaborations.remove(ck);
        proof {
            assert(self.collabs() =~= prec.remove(ck as int));
            assert forall|q: int|
                q != collab_id as int implies #[trigger] self.has_collab(q) == old(self).has_collab(q) by {
                if old(self).has_collab(q) {
                    let w = choose|w: int| 0 <= w < prec.len() && (#[trigger] prec[w]).id == q;
                    assert(w != ck);
                    let w2 = if w < ck { w } else { w - 1 };
                    assert(self.collabs()[w2].id == q);
                }
                if self.has_collab(q) {
                    let w = choose|w: int|
                        0 <= w < self.collabs().len() && (#[trigger] self.collabs()[w]).id == q;
                    let w0 = if w < ck { w } else { w + 1 };
                    assert(prec[w0].id == q);
                }
            }
            assert forall|q: int|
                q != collab_id as int && old(self).has_collab(q) implies #[trigger] self.collab(q)
                == old(self).collab(q) by {
                assert(self.has_collab(q));
                let w = choose|w: int|
                    0 <= w < self.collabs().len() && (#[trigger] self.collabs()[w]).id == q;
                let w0 = if w < ck { w } else { w + 1 };
                assert(self.collabs()[w] == prec[w0]);
                assert(prec[w0].id == q);
                let wc = choose|wc: int| 0 <= wc < prec.len() && (#[trigger] prec[wc]).id == q;
                assert(wc == w0);
                assert(prec == old(self).collabs());
                assert(old(self).collab(q).id == q);
                assert(old(self).collab(q) == prec[wc]);
            }
            assert(self.results() =~= old(self).results());
            assert(self.participations() =~= old(self).participations());
            assert(self.configs() =~= old(self).configs());
            assert(self.providers() =~= old(self).providers());
            assert(!self.has_collab(collab_id as int)) by {
                if self.has_collab(collab_id as int) {
                    let w = choose|w: int|
                        0 <= w < self.collabs().len() && (#[trigger] self.collabs()[w]).id
                            == collab_id as int;
                    let w0 = if w < ck { w } else { w + 1 };
                    assert(prec[w0].id == collab_id as int);
                    assert(prec[ck as int].id == collab_id as int);
                    assert(w0 != ck);
                }
            }
            assert forall|i: int, j: int|
                0 <= i < j < self.collabs().len() implies (#[trigger] self.collabs()[i]).id != (
            #[trigger] self.collabs()[j]).id by {
                let i0 = if i < ck { i } else { i + 1 };
                let j0 = if j < ck { j } else { j + 1 };
                assert(prec[i0].id != prec[j0].id);
            }
            assert forall|k: int|
                0 <= k < self.collabs().len() implies (#[trigger] self.collabs()[k]).id < self.next_collab_spec() by {
                let k0 = if k < ck { k } else { k + 1 };
                assert(self.collabs()[k] == prec[k0]);
            }
            assert forall|k: int|
                0 <= k < self.results().len() implies self.has_collab(
                (#[trigger] self.results()[k]).collab_id,
            ) by {
                let rid = self.results()[k].collab_id;
                assert(old(self).has_collab(rid));
                assert(rid != collab_id as int);
            }
            assert forall|k: int|
                0 <= k < self.providers().len() implies (#[trigger] self.providers()[k]).config_id
                < self.next_config_spec() by {
                assert(old(self).providers()[k].config_id < old(self).next_config_spec());
            }
        }
    }

    /// The stored outcome of a collaboration: the result identifiers on
    /// success, the terminal failure message, or "not finished yet" while
    /// no terminal state has been recorded.
    pub fn result_ids(&self, collab_id: i32) -> (res: Result<Vec<String>, Error>)
        requires
            self.wf(),
        ensures
            res is Ok <==> self.has_result(collab_id as int) && self.result(
                collab_id as int,
            ).result_ids is Some,
            res matches Ok(v) ==> v@.map_values(|s: String| s@) == present_ids(
                self.result(collab_id as int).result_ids->0,
            ),
            res matches Err(e) ==> if self.has_result(collab_id as int) && self.result(
                collab_id as int,
            ).result_ids is None && self.result(collab_id as int).error is Some {
                e matches Error::MPCExecutionFailed(m) && m@ == self.result(
                    collab_id as int,
                ).error->0
            } else {
                e == Error::ProcessingNotFinished
            },
    {
        let rk = match self.find_result_index(collab_id) {
            Some(k) => k,
            None => {
                return Err(Error::ProcessingNotFinished);
            },
        };
        proof {
            let w = choose|w: int|
                0 <= w < self.results().len() && (#[trigger] self.results()[w]).collab_id
                    == collab_id as int;
            assert(w == rk);
        }
        let row = &self.results[rk];
        match &row.result_ids {
            Some(ids) => {
                let mut out: Vec<String> = Vec::new();
                let mut k: usize = 0;
                let ghost idsv = self.result(collab_id as int).result_ids->0;
                proof {
                    assert(idsv =~= ids.deep_view());
                }
                while k < ids.len()
                    invariant
                        k <= ids@.len(),
                        idsv.len() == ids@.len(),
                        forall|t: int| 0 <= t < idsv.len() ==> idsv[t] == (#[trigger] ids@[t]).deep_view(),
                        out@.map_values(|s: String| s@) == present_ids(idsv.take(k as int)),
                    decreases ids@.len() - k,
                {
                    let ghost pre = out@;
                    match &ids[k] {
                        Some(s) => {
                            out.push(s.clone());
                        },
                        None => {},
                    }
                    proof {
                        let t = idsv.take(k as int + 1);
                        assert(t.drop_last() =~= idsv.take(k as int));
                        assert(t.last() == idsv[k as int]);
                        assert(out@.map_values(|s: String| s@) =~= present_ids(t));
                    }
                    k = k + 1;
                }
                proof {
                    assert(idsv.take(idsv.len() as int) =~= idsv);
                }
                Ok(out)
            },
            None => {
                match &row.error {
                    Some(message) => Err(Error::MPCExecutionFailed(message.clone())),
                    None => Err(Error::ProcessingNotFinished),
                }
            },
        }
    }

    fn find_collab_index(&self, id: i32) -> (r: Option<usize>)
        ensures
            match r {
                Some(k) => k < self.collabs().len() && self.collabs()[k as int].id == id as int,
                None => !self.has_collab(id as int),
            },
    {
        let n = self.collaborations.len();
        let mut k: usize = 0;
        while k < n
            invariant
                n == self.collaborations@.len(),
                k <= n,
                forall|t: int| 0 <= t < k ==> (#[trigger] self.collabs()[t]).id != id as int,
            decreases n - k,
        {
            if self.collaborations[k].id == id {
                proof {
                    assert(self.collabs()[k as int] == self.collaborations@[k as int]@);
                }
                return Some(k);
            }
            k = k + 1;
        }
        None
    }

    fn find_participation_index(&self, c: i32, p: i32) -> (r: Option<usize>)
        ensures
            match r {
                Some(k) => k < self.participations().len() && self.participations()[
                    k as int
                ].collaboration_id == c as int && self.participations()[k as int].party_id
                    == p as int,
                None => !self.has_participation(c as int, p as int),
            },
    {
        let n = self.participations.len();
        let mut k: usize = 0;
        while k < n
            invariant
                n == self.participations@.len(),
                k <= n,
                forall|t: int|
                    0 <= t < k ==> !((#[trigger] self.participations()[t]).collaboration_id
                        == c as int && self.participations()[t].party_id == p as int),
            decreases n - k,
        {
            let row = &self.participations[k];
            if row.collaboration_id == c && row.party_id == p {
                proof {
                    assert(self.participations()[k as int] == self.participations@[k as int]@);
                }
                return Some(k);
            }
            k = k + 1;
        }
        None
    }

    fn find_result_index(&self, id: i32) -> (r: Option<usize>)
        ensures
            match r {
                Some(k) => k < self.results().len() && self.results()[k as int].collab_id
                    == id as int,
                None => !self.has_result(id as int),
            },
    {
        let n = self.results.len();
        let mut k: usize = 0;
        while k < n
            invariant
                n == self.results@.len(),
                k <= n,
                forall|t: int| 0 <= t < k ==> (#[trigger] self.results()[t]).collab_id != id as int,
            decreases n - k,
        {
            if self.results[k].collab_id == id {
                proof {
                    assert(self.results()[k as int] == self.results@[k as int]@);
                }
                return Some(k);
            }
            k = k + 1;
        }
        None
    }

    fn find_config_index(&self, id: i32) -> (r: Option<usize>)
        ensures
            match r {
                Some(k) => k < self.configs().len() && self.configs()[k as int].id == id as int,
                None => !self.has_config(id as int),
            },
    {
        let n = self.configs.len();
        let mut k: usize = 0;
        while k < n
            invariant
                n == self.configs@.len(),
                k <= n,
                forall|t: int| 0 <= t < k ==> (#[trigger] self.configs()[t]).id != id as int,
            decreases n - k,
        {
            if self.configs[k].id == id {
                proof {
                    assert(self.configs()[k as int] == self.configs@[k as int]@);
                }
                return Some(k);
            }
            k = k + 1;
        }
        None
    }

    /// Insert the "started" marker for a collaboration.  The insert fails
    /// if a marker already exists: this is the compare-and-swap that makes
    /// the execution trigger run exactly once, and the loser of the race
    /// must treat the failure as "already started".
    pub fn add_started_result(&mut self, collab_id: i32) -> (res: Result<(), Error>)
        requires
            old(self).wf(),
        ensures
            final(self).wf(),
            res is Err ==> *final(self) == *old(self),
            !old(self).has_collab(collab_id as int) ==> res == Err::<(), Error>(
                Error::CollaborationNotFound { collab_id },
            ),
            old(self).has_collab(collab_id as int) && old(self).has_result(collab_id as int)
                ==> res == Err::<(), Error>(Error::AlreadyStarted),
            res is Ok <==> old(self).has_collab(collab_id as int) && !old(self).has_result(
                collab_id as int,
            ),
            res is Ok ==> {
                &&& final(self).has_result(collab_id as int)
                &&& final(self).result(collab_id as int) == (ComputationResultView {
                    collab_id: collab_id as int,
                    result_ids: Option::None,
                    finished: false,
                    error: Option::None,
                })
                &&& forall|q: int|
                    q != collab_id as int ==> #[trigger] final(self).has_result(q) == old(self).has_result(q)
                &&& forall|q: int|
                    q != collab_id as int && old(self).has_result(q) ==> #[trigger] final(self).result(q) == old(self).result(q)
                &&& final(self).collabs() == old(self).collabs()
                &&& final(self).participations() == old(self).participations()
                &&& final(self).configs() == old(self).configs()
                &&& final(self).providers() == old(self).providers()
            },
    {
        if self.find_collab_index(collab_id).is_none() {
            return Err(Error::CollaborationNotFound { collab_id });
        }
        if self.find_result_index(collab_id).is_some() {
            return Err(Error::AlreadyStarted);
        }
        let row = ComputationResult {
            collab_id,
            result_ids: None,
            finished: false,
            error: None,
        };
        let ghost pre = self.results();
        let ghost n = pre.len();
        self.results.push(row);
        proof {
            assert(self.results() =~= pre.push(row@));
            assert(self.results()[n as int].collab_id == collab_id as int);
            assert forall|q: int|
                q != collab_id as int implies #[trigger] self.has_result(q) == old(self).has_result(q) by {
                if old(self).has_result(q) {
                    let w = choose|w: int|
                        0 <= w < pre.len() && (#[trigger] pre[w]).collab_id == q;
                    assert(self.results()[w].collab_id == q);
                }
                if self.has_result(q) {
                    let w = choose|w: int|
                        0 <= w < self.results().len() && (#[trigger] self.results()[w]).collab_id
                            == q;
                    assert(w != n as int);
                    assert(pre[w].collab_id == q);
                }
            }
            assert forall|q: int|
                q != collab_id as int && old(self).has_result(q) implies #[trigger] self.result(q)
                == old(self).result(q) by {
                assert(self.has_result(q));
                let k1 = choose|k: int|
                    0 <= k < self.results().len() && (#[trigger] self.results()[k]).collab_id == q;
                let k2 = choose|k: int|
                    0 <= k < pre.len() && (#[trigger] pre[k]).collab_id == q;
                assert(k1 != n as int);
                assert(pre[k1].collab_id == q);
                assert(k1 == k2);
                assert(old(self).result(q) == pre[k2]);
            }
            assert forall|i: int, j: int|
                0 <= i < j < self.results().len() implies (#[trigger] self.results()[i]).collab_id
                != (#[trigger] self.results()[j]).collab_id by {
                assert(self.results()[i] == pre[i]);
                if j < n as int {
                    assert(self.results()[j] == pre[j]);
                } else {
                    assert(!old(self).has_result(collab_id as int));
                }
            }
            assert(self.has_result(collab_id as int));
            let w = choose|w: int|
                0 <= w < self.results().len() && (#[trigger] self.results()[w]).collab_id
                    == collab_id as int;
            assert(w == n as int);
            assert(self.collabs() =~= old(self).collabs());
            assert(self.participations() =~= old(self).participations());
            assert(self.configs() =~= old(self).configs());
            assert(self.providers() =~= old(self).providers());
            lemma_same_collabs(old(self), self);
            assert forall|k: int|
                0 <= k < self.providers().len() implies (#[trigger] self.providers()[k]).config_id
                < self.next_config_spec() by {
                assert(old(self).providers()[k].config_id < old(self).next_config_spec());
            }

            assert forall|k: int|
                0 <= k < self.results().len() implies self.has_collab(
                (#[trigger] self.results()[k]).collab_id,
            ) by {
                if k < n as int {
                    assert(self.results()[k] == pre[k]);
                    assert(old(self).has_collab(pre[k].collab_id));
                } else {
                    assert(old(self).has_collab(collab_id as int));
                }
            }
        }
        Ok(())
    }

    /// Record the successful terminal state of a collaboration's
    /// execution.  A missing marker row is left alone.
    pub fn set_result_finished(&mut self, id_of_collaboration: i32, ids_of_result: Vec<Option<String>>) -> (res: Result<(), Error>)
        requires
            old(self).wf(),
        ensures
            final(self).wf(),
            res is Ok,
            !old(self).has_result(id_of_collaboration as int) ==> *final(self) == *old(self),
            old(self).has_result(id_of_collaboration as int) ==> {
                &&& final(self).has_result(id_of_collaboration as int)
                &&& final(self).result(id_of_collaboration as int) == (ComputationResultView {
                    collab_id: id_of_collaboration as int,
                    result_ids: Option::Some(ids_of_result.deep_view()),
                    finished: true,
                    error: old(self).result(id_of_collaboration as int).error,
                })
                &&& forall|q: int|
                    q != id_of_collaboration as int ==> #[trigger] final(self).has_result(q) == old(self).has_result(q)
                &&& forall|q: int|
                    q != id_of_collaboration as int && old(self).has_result(q) ==> #[trigger] final(self).result(q) == old(self).result(q)
                &&& final(self).collabs() == old(self).collabs()
                &&& final(self).participations() == old(self).participations()
                &&& final(self).configs() == old(self).configs()
                &&& final(self).providers() == old(self).providers()
            },
    {
        let rk = match self.find_result_index(id_of_collaboration) {
            Some(k) => k,
            None => {
                return Ok(());
            },
        };
        proof {
            let w = choose|w: int|
                0 <= w < self.results().len() && (#[trigger] self.results()[w]).collab_id
                    == id_of_collaboration as int;
            assert(w == rk as int);
        }
        let err = match &self.results[rk].error {
            Some(e) => Some(e.clone()),
            None => None,
        };
        let row = ComputationResult {
            collab_id: id_of_collaboration,
            result_ids: Some(ids_of_result),
            finished: true,
            error: err,
        };
        let ghost pre = self.results();
        let ghost rowv = row@;
        self.results[rk] = row;
        proof {
            assert(self.results() =~= pre.update(rk as int, rowv));
            self.lemma_result_row_updated(old(self), pre, rk as int, rowv, id_of_collaboration as int);
        }
        Ok(())
    }

    /// Record the failed terminal state of a collaboration's execution,
    /// with the failure message.  A missing marker row is left alone.
    pub fn set_result_failed(&mut self, id_of_collaboration: i32, message: String) -> (res: Result<(), Error>)
        requires
            old(self).wf(),
        ensures
            final(self).wf(),
            res is Ok,
            !old(self).has_result(id_of_collaboration as int) ==> *final(self) == *old(self),
            old(self).has_result(id_of_collaboration as int) ==> {
                &&& final(self).has_result(id_of_collaboration as int)
                &&& final(self).result(id_of_collaboration as int) == (ComputationResultView {
                    collab_id: id_of_collaboration as int,
                    result_ids: old(self).result(id_of_collaboration as int).result_ids,
                    finished: true,
                    error: Option::Some(message@),
                })
                &&& forall|q: int|
                    q != id_of_collaboration as int ==> #[trigger] final(self).has_result(q) == old(self).has_result(q)
                &&& forall|q: int|
                    q != id_of_collaboration as int && old(self).has_result(q) ==> #[trigger] final(self).result(q) == old(self).result(q)
                &&& final(self).collabs() == old(self).collabs()
                &&& final(self).participations() == old(self).participations()
                &&& final(self).configs() == old(self).configs()
                &&& final(self).providers() == old(self).providers()
            },
    {
        let rk = match self.find_result_index(id_of_collaboration) {
            Some(k) => k,
            None => {
                return Ok(());
            },
        };
        proof {
            let w = choose|w: int|
                0 <= w < self.results().len() && (#[trigger] self.results()[w]).collab_id
                    == id_of_collaboration as int;
            assert(w == rk as int);
        }
        let ids = match &self.results[rk].result_ids {
            Some(v) => Some(copy_opt_strings(v)),
            None => None,
        };
        let row = ComputationResult {
            collab_id: id_of_collaboration,
            result_ids: ids,
            finished: true,
            error: Some(message),
        };
        let ghost pre = self.results();
        let ghost rowv = row@;
        self.results[rk] = row;
        proof {
            assert(self.results() =~= pre.update(rk as int, rowv));
            self.lemma_result_row_updated(old(self), pre, rk as int, rowv, id_of_collaboration as int);
        }
        Ok(())
    }

    /// After one result row was overwritten in place, every lookup of the
    /// new state follows from the old one.
    proof fn lemma_result_row_updated(
        &self,
        pre_state: &Self,
        pre: Seq<ComputationResultView>,
        rk: int,
        rowv: ComputationResultView,
        id: int,
    )
        requires
            pre_state.wf(),
            pre == pre_state.results(),
            0 <= rk < pre.len(),
            pre[rk].collab_id == id,
            rowv.collab_id == id,
            self.results() == pre.update(rk, rowv),
            self.collabs() == pre_state.collabs(),
            self.participations() == pre_state.participations(),
            self.configs() == pre_state.configs(),
            self.providers() == pre_state.providers(),
            self.next_collab_spec() == pre_state.next_collab_spec(),
            self.next_config_spec() == pre_state.next_config_spec(),
        ensures
            self.wf(),
            self.has_result(id),
            self.result(id) == rowv,
            forall|q: int| q != id ==> #[trigger] self.has_result(q) == pre_state.has_result(q),
            forall|q: int|
                q != id && pre_state.has_result(q) ==> #[trigger] self.result(q)
                    == pre_state.result(q),
    {
        assert(forall|k: int|
            0 <= k < self.results().len() && k != rk ==> #[trigger] self.results()[k] == pre[k]);
        assert(self.results()[rk] == rowv);
        assert forall|q: int|
            q != id implies #[trigger] self.has_result(q) == pre_state.has_result(q) by {
            if pre_state.has_result(q) {
                let w = choose|w: int| 0 <= w < pre.len() && (#[trigger] pre[w]).collab_id == q;
                assert(w != rk);
                assert(self.results()[w].collab_id == q);
            }
            if self.has_result(q) {
                let w = choose|w: int|
                    0 <= w < self.results().len() && (#[trigger] self.results()[w]).collab_id == q;
                assert(w != rk);
                assert(pre[w].collab_id == q);
            }
        }
        assert forall|q: int|
            q != id && pre_state.has_result(q) implies #[trigger] self.result(q)
            == pre_state.result(q) by {
            assert(self.has_result(q));
            let k1 = choose|k: int|
                0 <= k < self.results().len() && (#[trigger] self.results()[k]).collab_id == q;
            let k2 = choose|k: int| 0 <= k < pre.len() && (#[trigger] pre[k]).collab_id == q;
            assert(k1 != rk);
            assert(pre[k1].collab_id == q);
            assert(k1 == k2);
            assert(pre_state.result(q) == pre[k2]);
        }
        assert(self.has_result(id)) by {
            assert(self.results()[rk].collab_id == id);
        }
        assert(self.result(id) == rowv) by {
            let w = choose|w: int|
                0 <= w < self.results().len() && (#[trigger] self.results()[w]).collab_id == id;
            if w != rk {
                assert(pre[w].collab_id == id);
                assert(pre[rk].collab_id == id);
            }
        }
        assert forall|i: int, j: int|
            0 <= i < j < self.results().len() implies (#[trigger] self.results()[i]).collab_id != (
        #[trigger] self.results()[j]).collab_id by {
            assert(pre[i].collab_id == self.results()[i].collab_id);
            assert(pre[j].collab_id == self.results()[j].collab_id);
        }
        lemma_same_collabs(pre_state, self);
        assert forall|k: int|
            0 <= k < self.results().len() implies self.has_collab(
            (#[trigger] self.results()[k]).collab_id,
        ) by {
            assert(pre[k].collab_id == self.results()[k].collab_id);
            assert(pre_state.has_collab(pre[k].collab_id));
        }
        assert forall|k: int|
            0 <= k < self.providers().len() implies (#[trigger] self.providers()[k]).config_id
            < self.next_config_spec() by {
            assert(pre_state.providers()[k].config_id < pre_state.next_config_spec());
        }
    }

    /// Append an output-party endpoint to a collaboration.  Duplicates are
    /// allowed by design.
    pub fn add_output_party(&mut self, collab_id: i32, _party_id: i32, party_client_endpoint: String) -> (res: Result<(), Error>)
        requires
            old(self).wf(),
        ensures
            final(self).wf(),
            res is Ok <==> old(self).has_collab(collab_id as int),
            res is Err ==> *final(self) == *old(self) && res == Err::<(), Error>(
                Error::CollaborationNotFound { collab_id },
            ),
            res is Ok ==> {
                &&& final(self).has_collab(collab_id as int)
                &&& final(self).collab(collab_id as int) == (CollaborationView {
                    output_parties: Option::Some(
                        match old(self).collab(collab_id as int).output_parties {
                            Option::Some(l) => l.push(Option::Some(party_client_endpoint@)),
                            Option::None => seq![Option::Some(party_client_endpoint@)],
                        },
                    ),
                    ..old(self).collab(collab_id as int)
                })
                &&& forall|q: int|
                    q != collab_id as int ==> #[trigger] final(self).has_collab(q) == old(self).has_collab(q)
                &&& forall|q: int|
                    q != collab_id as int && old(self).has_collab(q) ==> #[trigger] final(self).collab(q) == old(self).collab(q)
                &&& final(self).results() == old(self).results()
                &&& final(self).participations() == old(self).participations()
                &&& final(self).configs() == old(self).configs()
                &&& final(self).providers() == old(self).providers()
            },
    {
        let ck = match self.find_collab_index(collab_id) {
            Some(k) => k,
            None => {
                return Err(Error::CollaborationNotFound { collab_id });
            },
        };
        proof {
            let w = choose|w: int|
                0 <= w < self.collabs().len() && (#[trigger] self.collabs()[w]).id
                    == collab_id as int;
            assert(w == ck as int);
        }
        let old_row = self.collaborations[ck].duplicate();
        let output = match old_row.output_parties {
            Some(mut parties) => {
                parties.push(Some(party_client_endpoint));
                parties
            },
            None => {
                let mut parties: Vec<Option<String>> = Vec::new();
                parties.push(Some(party_client_endpoint));
                parties
            },
        };
        let row = Collaboration {
            id: old_row.id,
            name: old_row.name,
            mpc_program: old_row.mpc_program,
            csv_specification: old_row.csv_specification,
            participation_number: old_row.participation_number,
            config_id: old_row.config_id,
            output_parties: Some(output),
        };
        let ghost pre = self.collabs();
        let ghost rowv = row@;
        self.collaborations[ck] = row;
        proof {
            let rk = ck as int;
            let id = collab_id as int;
            assert(rowv.output_parties == Option::Some(
                match old(self).collab(id).output_parties {
                    Option::Some(l) => l.push(Option::Some(party_client_endpoint@)),
                    Option::None => seq![Option::Some(party_client_endpoint@)],
                },
            )) by {
                assert(old(self).collab(id) == pre[rk]);
                match old(self).collab(id).output_parties {
                    Option::Some(l) => {
                        assert(rowv.output_parties->0 =~= l.push(Option::Some(party_client_endpoint@)));
                    },
                    Option::None => {
                        assert(rowv.output_parties->0 =~= seq![Option::Some(party_client_endpoint@)]);
                    },
                }
            }
            assert(self.collabs() =~= pre.update(rk, rowv));
            assert(forall|k: int|
                0 <= k < self.collabs().len() && k != rk ==> #[trigger] self.collabs()[k] == pre[k]);
            assert forall|q: int|
                q != id implies #[trigger] self.has_collab(q) == old(self).has_collab(q) by {
                if old(self).has_collab(q) {
                    let w = choose|w: int| 0 <= w < pre.len() && (#[trigger] pre[w]).id == q;
                    assert(w != rk);
                    assert(self.collabs()[w].id == q);
                }
                if self.has_collab(q) {
                    let w = choose|w: int|
                        0 <= w < self.collabs().len() && (#[trigger] self.collabs()[w]).id == q;
                    assert(w != rk);
                    assert(pre[w].id == q);
                }
            }
            assert forall|q: int|
                q != id && old(self).has_collab(q) implies #[trigger] self.collab(q) == old(self).collab(q) by {
                assert(self.has_collab(q));
                let k1 = choose|k: int|
                    0 <= k < self.collabs().len() && (#[trigger] self.collabs()[k]).id == q;
                let k2 = choose|k: int| 0 <= k < pre.len() && (#[trigger] pre[k]).id == q;
                assert(k1 != rk);
                assert(pre[k1].id == q);
                assert(k1 == k2);
                assert(old(self).collab(q) == pre[k2]);
            }
            assert(self.has_collab(id)) by {
                assert(self.collabs()[rk].id == id);
            }
            assert(self.collab(id) == rowv) by {
                let w = choose|w: int|
                    0 <= w < self.collabs().len() && (#[trigger] self.collabs()[w]).id == id;
                if w != rk {
                    assert(pre[w].id == id);
                    assert(pre[rk].id == id);
                }
            }
            assert forall|i: int, j: int|
                0 <= i < j < self.collabs().len() implies (#[trigger] self.collabs()[i]).id != (
            #[trigger] self.collabs()[j]).id by {
                assert(pre[i].id == self.collabs()[i].id);
                assert(pre[j].id == self.collabs()[j].id);
            }
            assert forall|k: int|
                0 <= k < self.collabs().len() implies (#[trigger] self.collabs()[k]).id
                < self.next_collab_spec() by {
                assert(pre[k].id == self.collabs()[k].id);
            }
            assert(self.results() =~= old(self).results());
            assert(self.participations() =~= old(self).participations());
            assert(self.configs() =~= old(self).configs());
            assert(self.providers() =~= old(self).providers());
            assert forall|k: int|
                0 <= k < self.results().len() implies self.has_collab(
                (#[trigger] self.results()[k]).collab_id,
            ) by {
                assert(old(self).has_collab(old(self).results()[k].collab_id));
                let rid = self.results()[k].collab_id;
                if rid != id {
                    assert(self.has_collab(rid));
                } else {
                    assert(self.collabs()[rk].id == id);
                }
            }
            assert forall|k: int|
                0 <= k < self.providers().len() implies (#[trigger] self.providers()[k]).config_id
                < self.next_config_spec() by {
                assert(old(self).providers()[k].config_id < old(self).next_config_spec());
            }
        }
        Ok(())
    }

    /// After one participation row was overwritten in place, every lookup
    /// of the new state follows from the old one.
    proof fn lemma_part_row_updated(
        &self,
        pre_state: &Self,
        pre: Seq<ParticipationView>,
        rk: int,
        rowv: ParticipationView,
        c: int,
        p: int,
    )
        requires
            pre_state.wf(),
            pre == pre_state.participations(),
            0 <= rk < pre.len(),
            pre[rk].collaboration_id == c,
            pre[rk].party_id == p,
            rowv.collaboration_id == c,
            rowv.party_id == p,
            self.participations() == pre.update(rk, rowv),
            self.collabs() == pre_state.collabs(),
            self.results() == pre_state.results(),
            self.configs() == pre_state.configs(),
            self.providers() == pre_state.providers(),
            self.next_collab_spec() == pre_state.next_collab_spec(),
            self.next_config_spec() == pre_state.next_config_spec(),
        ensures
            self.wf(),
            self.has_participation(c, p),
            self.participation(c, p) == rowv,
            forall|c2: int, p2: int|
                !(c2 == c && p2 == p) ==> #[trigger] self.has_participation(c2, p2)
                    == pre_state.has_participation(c2, p2),
            forall|c2: int, p2: int|
                !(c2 == c && p2 == p) && pre_state.has_participation(c2, p2)
                    ==> #[trigger] self.participation(c2, p2) == pre_state.participation(c2, p2),
    {
        assert(forall|k: int|
            0 <= k < self.participations().len() && k != rk ==> #[trigger] self.participations()[k]
                == pre[k]);
        assert(self.participations()[rk] == rowv);
        assert forall|c2: int, p2: int|
            !(c2 == c && p2 == p) implies #[trigger] self.has_participation(c2, p2)
            == pre_state.has_participation(c2, p2) by {
            if pre_state.has_participation(c2, p2) {
                let w = choose|w: int|
                    0 <= w < pre.len() && (#[trigger] pre[w]).collaboration_id == c2
                        && pre[w].party_id == p2;
                assert(w != rk);
                assert(self.participations()[w].collaboration_id == c2);
            }
            if self.has_participation(c2, p2) {
                let w = choose|w: int|
                    0 <= w < self.participations().len() && (
                    #[trigger] self.participations()[w]).collaboration_id == c2
                        && self.participations()[w].party_id == p2;
                assert(w != rk);
                assert(pre[w].collaboration_id == c2);
            }
        }
        assert forall|c2: int, p2: int|
            !(c2 == c && p2 == p) && pre_state.has_participation(c2, p2)
            implies #[trigger] self.participation(c2, p2) == pre_state.participation(c2, p2) by {
            assert(self.has_participation(c2, p2));
            let k1 = choose|k: int|
                0 <= k < self.participations().len() && (
                #[trigger] self.participations()[k]).collaboration_id == c2
                    && self.participations()[k].party_id == p2;
            let k2 = choose|k: int|
                0 <= k < pre.len() && (#[trigger] pre[k]).collaboration_id == c2
                    && pre[k].party_id == p2;
            assert(k1 != rk);
            assert(pre[k1].collaboration_id == c2 && pre[k1].party_id == p2);
            assert(k1 == k2);
            assert(pre_state.participation(c2, p2) == pre[k2]);
        }
        assert(self.has_participation(c, p)) by {
            assert(self.participations()[rk].collaboration_id == c);
        }
        assert(self.participation(c, p) == rowv) by {
            let w = choose|w: int|
                0 <= w < self.participations().len() && (
                #[trigger] self.participations()[w]).collaboration_id == c
                    && self.participations()[w].party_id == p;
            if w != rk {
                assert(pre[w].collaboration_id == c && pre[w].party_id == p);
                assert(pre[rk].collaboration_id == c && pre[rk].party_id == p);
            }
        }
        assert forall|i: int, j: int|
            0 <= i < j < self.participations().len() implies !((
        #[trigger] self.participations()[i]).collaboration_id == (
        #[trigger] self.participations()[j]).collaboration_id && self.participations()[i].party_id
            == self.participations()[j].party_id) by {
            assert(pre[i].collaboration_id == self.participations()[i].collaboration_id
                && pre[i].party_id == self.participations()[i].party_id);
            assert(pre[j].collaboration_id == self.participations()[j].collaboration_id
                && pre[j].party_id == self.participations()[j].party_id);
        }
        lemma_same_collabs(pre_state, self);
        assert forall|k: int|
            0 <= k < self.results().len() implies self.has_collab(
            (#[trigger] self.results()[k]).collab_id,
        ) by {
            assert(pre_state.has_collab(pre_state.results()[k].collab_id));
        }
        assert forall|k: int|
            0 <= k < self.providers().len() implies (#[trigger] self.providers()[k]).config_id
            < self.next_config_spec() by {
            assert(pre_state.providers()[k].config_id < pre_state.next_config_spec());
        }
    }

    /// Register a party for a collaboration.  A missing collaboration and
    /// a duplicate registration are each reported distinctly.
    pub fn create_participation(&mut self, collaboration_id: i32, party_id: i32) -> (res: Result<
        Participation,
        Error,
    >)
        requires
            old(self).wf(),
        ensures
            final(self).wf(),
            res is Err ==> *final(self) == *old(self),
            !old(self).has_collab(collaboration_id as int) ==> res == Err::<Participation, Error>(
                Error::CollaborationNotFound { collab_id: collaboration_id },
            ),
            old(self).has_collab(collaboration_id as int) && old(self).has_participation(
                collaboration_id as int,
                party_id as int,
            ) ==> res == Err::<Participation, Error>(Error::DuplicateParticipant),
            res is Ok <==> old(self).has_collab(collaboration_id as int) && !old(self).has_participation(collaboration_id as int, party_id as int),
            res matches Ok(row) ==> {
                &&& row@ == (ParticipationView {
                    collaboration_id: collaboration_id as int,
                    party_id: party_id as int,
                    secret_ids: Option::None,
                })
                &&& final(self).has_participation(collaboration_id as int, party_id as int)
                &&& final(self).participation(collaboration_id as int, party_id as int) == row@
                &&& final(self).participations() == old(self).participations().push(row@)
                &&& forall|c2: int, p2: int|
                    !(c2 == collaboration_id as int && p2 == party_id as int) ==> #[trigger] final(self).has_participation(c2, p2) == old(self).has_participation(c2, p2)
                &&& forall|c2: int, p2: int|
                    !(c2 == collaboration_id as int && p2 == party_id as int) && old(self).has_participation(c2, p2) ==> #[trigger] final(self).participation(c2, p2)
                        == old(self).participation(c2, p2)
                &&& final(self).collabs() == old(self).collabs()
                &&& final(self).results() == old(self).results()
                &&& final(self).configs() == old(self).configs()
                &&& final(self).providers() == old(self).providers()
            },
    {
        if self.find_collab_index(collaboration_id).is_none() {
            return Err(Error::CollaborationNotFound { collab_id: collaboration_id });
        }
        if self.find_participation_index(collaboration_id, party_id).is_some() {
            return Err(Error::DuplicateParticipant);
        }
        let row = Participation { collaboration_id, party_id, secret_ids: None };
        let out = row.duplicate();
        let ghost pre = self.participations();
        let ghost n = pre.len();
        self.participations.push(row);
        proof {
            assert(self.participations() =~= pre.push(out@));
            assert(self.participations()[n as int].collaboration_id == collaboration_id as int);
            assert forall|c2: int, p2: int|
                !(c2 == collaboration_id as int && p2 == party_id as int)
                implies #[trigger] self.has_participation(c2, p2) == old(self).has_participation(
                c2,
                p2,
            ) by {
                if old(self).has_participation(c2, p2) {
                    let w = choose|w: int|
                        0 <= w < pre.len() && (#[trigger] pre[w]).collaboration_id == c2
                            && pre[w].party_id == p2;
                    assert(self.participations()[w].collaboration_id == c2);
                }
                if self.has_participation(c2, p2) {
                    let w = choose|w: int|
                        0 <= w < self.participations().len() && (
                        #[trigger] self.participations()[w]).collaboration_id == c2
                            && self.participations()[w].party_id == p2;
                    assert(w != n as int);
                    assert(pre[w].collaboration_id == c2);
                }
            }
            assert forall|c2: int, p2: int|
                !(c2 == collaboration_id as int && p2 == party_id as int) && old(self).has_participation(c2, p2) implies #[trigger] self.participation(c2, p2) == old(self).participation(c2, p2) by {
                assert(self.has_participation(c2, p2));
                let k1 = choose|k: int|
                    0 <= k < self.participations().len() && (
                    #[trigger] self.participations()[k]).collaboration_id == c2
                        && self.participations()[k].party_id == p2;
                let k2 = choose|k: int|
                    0 <= k < pre.len() && (#[trigger] pre[k]).collaboration_id == c2
                        && pre[k].party_id == p2;
                assert(k1 != n as int);
                assert(pre[k1].collaboration_id == c2 && pre[k1].party_id == p2);
                assert(k1 == k2);
                assert(old(self).participation(c2, p2) == pre[k2]);
            }
            assert forall|i: int, j: int|
                0 <= i < j < self.participations().len() implies !((
            #[trigger] self.participations()[i]).collaboration_id == (
            #[trigger] self.participations()[j]).collaboration_id
                && self.participations()[i].party_id == self.participations()[j].party_id) by {
                assert(self.participations()[i] == pre[i]);
                if j < n as int {
                    assert(self.participations()[j] == pre[j]);
                } else {
                    assert(!old(self).has_participation(
                        collaboration_id as int,
                        party_id as int,
                    ));
                }
            }
            assert(self.has_participation(collaboration_id as int, party_id as int));
            let w = choose|w: int|
                0 <= w < self.participations().len() && (
                #[trigger] self.participations()[w]).collaboration_id == collaboration_id as int
                    && self.participations()[w].party_id == party_id as int;
            assert(w == n as int);
            assert(self.collabs() =~= old(self).collabs());
            assert(self.results() =~= old(self).results());
            assert(self.configs() =~= old(self).configs());
            assert(self.providers() =~= old(self).providers());
            lemma_same_collabs(old(self), self);
            assert forall|k: int|
                0 <= k < self.providers().len() implies (#[trigger] self.providers()[k]).config_id
                < self.next_config_spec() by {
                assert(old(self).providers()[k].config_id < old(self).next_config_spec());
            }

            assert forall|k: int|
                0 <= k < self.results().len() implies self.has_collab(
                (#[trigger] self.results()[k]).collab_id,
            ) by {
                assert(old(self).has_collab(old(self).results()[k].collab_id));
            }
        }
        Ok(out)
    }

    /// One party's registration, if it exists.
    pub fn get_participation(&self, c: i32, p: i32) -> (res: Option<Participation>)
        requires
            self.wf(),
        ensures
            res is Some <==> self.has_participation(c as int, p as int),
            res matches Some(row) ==> row@ == self.participation(c as int, p as int),
    {
        match self.find_participation_index(c, p) {
            Some(k) => {
                proof {
                    let w = choose|w: int|
                        0 <= w < self.participations().len() && (
                        #[trigger] self.participations()[w]).collaboration_id == c as int
                            && self.participations()[w].party_id == p as int;
                    assert(w == k as int);
                }
                Some(self.participations[k].duplicate())
            },
            None => None,
        }
    }

    /// The registrations of one collaboration, in registration order.
    pub fn list_participations(&self, collab_id: i32) -> (res: Result<Vec<Participation>, Error>)
        ensures
            res matches Ok(v) && v@.map_values(|p: Participation| p@) == rows_for(
                self.participations(),
                collab_id as int,
            ),
    {
        let mut out: Vec<Participation> = Vec::new();
        let mut k: usize = 0;
        while k < self.participations.len()
            invariant
                k <= self.participations@.len(),
                out@.map_values(|p: Participation| p@) == rows_for(
                    self.participations().take(k as int),
                    collab_id as int,
                ),
            decreases self.participations@.len() - k,
        {
            let ghost prefix = self.participations().take(k as int);
            let row = &self.participations[k];
            proof {
                let t = self.participations().take(k as int + 1);
                assert(t.drop_last() =~= prefix);
                assert(t.last() == self.participations()[k as int]);
            }
            if row.collaboration_id == collab_id {
                out.push(row.duplicate());
                proof {
                    assert(out@.map_values(|p: Participation| p@) =~= rows_for(
                        self.participations().take(k as int + 1),
                        collab_id as int,
                    ));
                }
            } else {
                proof {
                    assert(out@.map_values(|p: Participation| p@) =~= rows_for(
                        self.participations().take(k as int + 1),
                        collab_id as int,
                    ));
                }
            }
            k = k + 1;
        }
        proof {
            assert(self.participations().take(self.participations().len() as int)
                =~= self.participations());
        }
        Ok(out)
    }

    /// Remove a party's registration; absent rows are left alone.
    pub fn delete_participation(&mut self, collaboration: i32, party: i32) -> (res: Result<
        (),
        Error,
    >)
        requires
            old(self).wf(),
        ensures
            final(self).wf(),
            res is Ok,
            !final(self).has_participation(collaboration as int, party as int),
            !old(self).has_participation(collaboration as int, party as int) ==> *final(self)
                == *old(self),
            old(self).has_participation(collaboration as int, party as int) ==> {
                &&& exists|k: int|
                    0 <= k < old(self).participations().len() && (#[trigger] old(self).participations()[k]).collaboration_id == collaboration as int && old(self).participations()[k].party_id == party as int && final(self).participations()
                        == old(self).participations().remove(k)
                &&& forall|c2: int, p2: int|
                    !(c2 == collaboration as int && p2 == party as int) ==> #[trigger] final(self).has_participation(c2, p2) == old(self).has_participation(c2, p2)
                &&& forall|c2: int, p2: int|
                    !(c2 == collaboration as int && p2 == party as int) && old(self).has_participation(c2, p2) ==> #[trigger] final(self).participation(c2, p2)
                        == old(self).participation(c2, p2)
                &&& final(self).collabs() == old(self).collabs()
                &&& final(self).results() == old(self).results()
                &&& final(self).configs() == old(self).configs()
                &&& final(self).providers() == old(self).providers()
            },
    {
        let rk = match self.find_participation_index(collaboration, party) {
            Some(k) => k,
            None => {
                return Ok(());
            },
        };
        let ghost pre = self.participations();
        self.participations.remove(rk);
        proof {
            assert(self.participations() =~= pre.remove(rk as int));
            assert forall|c2: int, p2: int|
                !(c2 == collaboration as int && p2 == party as int)
                implies #[trigger] self.has_participation(c2, p2) == old(self).has_participation(
                c2,
                p2,
            ) by {
                if old(self).has_participation(c2, p2) {
                    let w = choose|w: int|
                        0 <= w < pre.len() && (#[trigger] pre[w]).collaboration_id == c2
                            && pre[w].party_id == p2;
                    assert(w != rk);
                    let w2 = if w < rk { w } else { w - 1 };
                    assert(self.participations()[w2].collaboration_id == c2);
                }
                if self.has_participation(c2, p2) {
                    let w = choose|w: int|
                        0 <= w < self.participations().len() && (
                        #[trigger] self.participations()[w]).collaboration_id == c2
                            && self.participations()[w].party_id == p2;
                    let w0 = if w < rk { w } else { w + 1 };
                    assert(self.participations()[w] == pre[w0]);
                    assert(pre[w0].collaboration_id == c2);
                }
            }
            assert forall|c2: int, p2: int|
                !(c2 == collaboration as int && p2 == party as int) && old(self).has_participation(c2, p2) implies #[trigger] self.participation(c2, p2) == old(self).participation(c2, p2) by {
                assert(self.has_participation(c2, p2));
                let w = choose|w: int|
                    0 <= w < self.participations().len() && (
                    #[trigger] self.participations()[w]).collaboration_id == c2
                        && self.participations()[w].party_id == p2;
                let w0 = if w < rk { w } else { w + 1 };
                assert(self.participations()[w] == pre[w0]);
                assert(pre[w0].collaboration_id == c2 && pre[w0].party_id == p2);
                let wc = choose|wc: int|
                    0 <= wc < pre.len() && (#[trigger] pre[wc]).collaboration_id == c2
                        && pre[wc].party_id == p2;
                assert(wc == w0);
                assert(old(self).participation(c2, p2) == pre[wc]);
            }
            assert(!self.has_participation(collaboration as int, party as int)) by {
                if self.has_participation(collaboration as int, party as int) {
                    let w = choose|w: int|
                        0 <= w < self.participations().len() && (
                        #[trigger] self.participations()[w]).collaboration_id
                            == collaboration as int && self.participations()[w].party_id
                            == party as int;
                    let w0 = if w < rk { w } else { w + 1 };
                    assert(self.participations()[w] == pre[w0]);
                    assert(pre[rk as int].collaboration_id == collaboration as int);
                    assert(w0 != rk);
                }
            }
            assert forall|i: int, j: int|
                0 <= i < j < self.participations().len() implies !((
            #[trigger] self.participations()[i]).collaboration_id == (
            #[trigger] self.participations()[j]).collaboration_id
                && self.participations()[i].party_id == self.participations()[j].party_id) by {
                let i0 = if i < rk { i } else { i + 1 };
                let j0 = if j < rk { j } else { j + 1 };
                assert(self.participations()[i] == pre[i0]);
                assert(self.participations()[j] == pre[j0]);
            }
            assert(self.collabs() =~= old(self).collabs());
            assert(self.results() =~= old(self).results());
            assert(self.configs() =~= old(self).configs());
            assert(self.providers() =~= old(self).providers());
            lemma_same_collabs(old(self), self);
            assert forall|k: int|
                0 <= k < self.providers().len() implies (#[trigger] self.providers()[k]).config_id
                < self.next_config_spec() by {
                assert(old(self).providers()[k].config_id < old(self).next_config_spec());
            }

            assert forall|k: int|
                0 <= k < self.results().len() implies self.has_collab(
                (#[trigger] self.results()[k]).collab_id,
            ) by {
                assert(old(self).has_collab(old(self).results()[k].collab_id));
            }
        }
        Ok(())
    }

    /// Write the confirmed secret-share identifiers into a party's
    /// registration: the raw row update.  The confirm-upload endpoint
    /// writes a registration at most once; a second confirmation is
    /// answered there without reaching this update.
    pub fn upload_done(&mut self, collaboration: i32, party: i32, ids: Vec<String>) -> (res: Result<
        Participation,
        Error,
    >)
        requires
            old(self).wf(),
        ensures
            final(self).wf(),
            res is Ok <==> old(self).has_participation(collaboration as int, party as int),
            res is Err ==> *final(self) == *old(self) && res == Err::<Participation, Error>(
                Error::ParticipantNotRegistered,
            ),
            res matches Ok(row) ==> {
                &&& row@ == (ParticipationView {
                    collaboration_id: collaboration as int,
                    party_id: party as int,
                    secret_ids: Option::Some(
                        ids@.map_values(|s: String| Option::Some(s@)),
                    ),
                })
                &&& final(self).has_participation(collaboration as int, party as int)
                &&& final(self).participation(collaboration as int, party as int) == row@
                &&& exists|k: int|
                    0 <= k < old(self).participations().len() && (#[trigger] old(self).participations()[k]).collaboration_id == collaboration as int && old(self).participations()[k].party_id == party as int && final(self).participations()
                        == old(self).participations().update(k, row@)
                &&& forall|c2: int, p2: int|
                    !(c2 == collaboration as int && p2 == party as int) ==> #[trigger] final(self).has_participation(c2, p2) == old(self).has_participation(c2, p2)
                &&& forall|c2: int, p2: int|
                    !(c2 == collaboration as int && p2 == party as int) && old(self).has_participation(c2, p2) ==> #[trigger] final(self).participation(c2, p2)
                        == old(self).participation(c2, p2)
                &&& final(self).collabs() == old(self).collabs()
                &&& final(self).results() == old(self).results()
                &&& final(self).configs() == old(self).configs()
                &&& final(self).providers() == old(self).providers()
            },
    {
        let rk = match self.find_participation_index(collaboration, party) {
            Some(k) => k,
            None => {
                return Err(Error::ParticipantNotRegistered);
            },
        };
        let mut stored: Vec<Option<String>> = Vec::new();
        let mut t: usize = 0;
        while t < ids.len()
            invariant
                t <= ids@.len(),
                stored@.len() == t,
                forall|q: int|
                    0 <= q < t ==> (#[trigger] stored@[q]).deep_view() == Option::Some(
                        ids@[q]@,
                    ),
            decreases ids@.len() - t,
        {
            stored.push(Some(ids[t].clone()));
            t = t + 1;
        }
        let row = Participation {
            collaboration_id: collaboration,
            party_id: party,
            secret_ids: Some(stored),
        };
        let out = row.duplicate();
        proof {
            assert(row@.secret_ids->0 =~= ids@.map_values(|s: String| Option::Some(s@)));
        }
        let ghost pre = self.participations();
        let ghost rowv = row@;
        self.participations[rk] = row;
        proof {
            assert(self.participations() =~= pre.update(rk as int, rowv));
            self.lemma_part_row_updated(
                old(self),
                pre,
                rk as int,
                rowv,
                collaboration as int,
                party as int,
            );
        }
        Ok(out)
    }

    /// Store a new configuration row under a fresh identifier.
    pub fn create_config(&mut self, config: NewCsConfig) -> (res: Result<CsConfig, Error>)
        requires
            old(self).wf(),
        ensures
            final(self).wf(),
            res is Err ==> *final(self) == *old(self) && res == Err::<CsConfig, Error>(
                Error::Internal,
            ),
            res is Ok <==> old(self).next_config_spec() < i32::MAX as int,
            res matches Ok(c) ==> {
                &&& c@.prime == config.prime@
                &&& c@.r == config.r@
                &&& c@.rinv == config.rinv@
                &&& c@.no_ssl_validation == config.no_ssl_validation
                &&& c@.id == old(self).next_config_spec()
                &&& final(self).next_config_spec() == old(self).next_config_spec() + 1
                &&& final(self).next_collab_spec() == old(self).next_collab_spec()
                &&& !old(self).has_config(c@.id)
                &&& final(self).has_config(c@.id)
                &&& final(self).config(c@.id) == c@
                &&& final(self).configs() == old(self).configs().push(c@)
                &&& final(self).collabs() == old(self).collabs()
                &&& final(self).results() == old(self).results()
                &&& final(self).participations() == old(self).participations()
                &&& final(self).providers() == old(self).providers()
            },
    {
        if self.next_config_id == i32::MAX {
            return Err(Error::Internal);
        }
        let id = self.next_config_id;
        self.next_config_id = self.next_config_id + 1;
        let row = CsConfig {
            id,
            prime: config.prime,
            r: config.r,
            rinv: config.rinv,
            no_ssl_validation: config.no_ssl_validation,
        };
        let out = row.duplicate();
        let ghost pre = self.configs();
        let ghost n = pre.len();
        self.configs.push(row);
        proof {
            assert(self.configs() =~= pre.push(out@));
            assert(pre == old(self).configs());
            assert(forall|k: int|
                0 <= k < pre.len() ==> (#[trigger] pre[k]).id < old(self).next_config_spec());
            assert(!old(self).has_config(id as int));
            assert(self.configs()[n as int].id == id as int);
            assert forall|i: int, j: int|
                0 <= i < j < self.configs().len() implies (#[trigger] self.configs()[i]).id != (
            #[trigger] self.configs()[j]).id by {
                assert(self.configs()[i] == pre[i]);
                if j < n as int {
                    assert(self.configs()[j] == pre[j]);
                } else {
                    assert(pre[i].id < old(self).next_config_spec());
                }
            }
            assert forall|k: int|
                0 <= k < self.configs().len() implies (#[trigger] self.configs()[k]).id
                < self.next_config_spec() by {
                if k < n as int {
                    assert(self.configs()[k] == pre[k]);
                }
            }
            let w = choose|w: int|
                0 <= w < self.configs().len() && (#[trigger] self.configs()[w]).id == id as int;
            assert(self.configs()[w].id == self.configs()[n as int].id);
            assert(w == n as int);
            assert(self.collabs() =~= old(self).collabs());
            assert(self.results() =~= old(self).results());
            assert(self.participations() =~= old(self).participations());
            assert(self.providers() =~= old(self).providers());
            lemma_same_collabs(old(self), self);
            assert forall|k: int|
                0 <= k < self.providers().len() implies (#[trigger] self.providers()[k]).config_id
                < self.next_config_spec() by {
                assert(old(self).providers()[k].config_id < old(self).next_config_spec());
            }

            assert forall|k: int|
                0 <= k < self.results().len() implies self.has_collab(
                (#[trigger] self.results()[k]).collab_id,
            ) by {
                assert(old(self).has_collab(old(self).results()[k].collab_id));
            }
        }
        Ok(out)
    }

    /// Retrieve a configuration row by identifier.
    pub fn get_config_row(&self, id_config: i32) -> (res: Result<CsConfig, Error>)
        requires
            self.wf(),
        ensures
            res is Ok <==> self.has_config(id_config as int),
            res matches Ok(c) ==> c@ == self.config(id_config as int),
            res is Err ==> res == Err::<CsConfig, Error>(Error::Internal),
    {
        match self.find_config_index(id_config) {
            Some(k) => {
                proof {
                    let w = choose|w: int|
                        0 <= w < self.configs().len() && (#[trigger] self.configs()[w]).id
                            == id_config as int;
                    assert(w == k as int);
                }
                Ok(self.configs[k].duplicate())
            },
            None => Err(Error::Internal),
        }
    }

    /// Store the provider rows of a configuration.
    pub fn create_providers(&mut self, providers: Vec<CsProvider>) -> (res: Result<(), Error>)
        requires
            old(self).wf(),
            forall|t: int|
                0 <= t < providers@.len() ==> (#[trigger] providers@[t])@.config_id < old(
                    self,
                ).next_config_spec(),
        ensures
            final(self).wf(),
            res is Ok,
            final(self).next_collab_spec() == old(self).next_collab_spec(),
            final(self).next_config_spec() == old(self).next_config_spec(),
            final(self).providers() == old(self).providers() + providers@.map_values(
                |p: CsProvider| p@,
            ),
            final(self).collabs() == old(self).collabs(),
            final(self).results() == old(self).results(),
            final(self).participations() == old(self).participations(),
            final(self).configs() == old(self).configs(),
    {
        let ghost pre = self.providers();
        let ghost addv = providers@.map_values(|p: CsProvider| p@);
        let mut incoming = providers;
        let mut t: usize = 0;
        let n = incoming.len();
        while t < n
            invariant
                n == addv.len(),
                t <= n,
                incoming@.len() == n - t,
                forall|q: int|
                    0 <= q < incoming@.len() ==> (#[trigger] incoming@[q])@ == addv[t + q],
                self.providers() == pre + addv.take(t as int),
                self.collaborations@ == old(self).collaborations@,
                self.participations@ == old(self).participations@,
                self.results@ == old(self).results@,
                self.configs@ == old(self).configs@,
                self.next_collab_spec() == old(self).next_collab_spec(),
                self.next_config_spec() == old(self).next_config_spec(),
            decreases n - t,
        {
            let p = incoming.remove(0);
            let ghost prev = self.providers();
            self.providers.push(p);
            proof {
                assert(self.providers() =~= prev.push(addv[t as int]));
                assert(pre + addv.take(t as int + 1) =~= (pre + addv.take(t as int)).push(
                    addv[t as int],
                ));
            }
            t = t + 1;
        }
        proof {
            assert(addv.take(n as int) =~= addv);
            assert(self.collabs() =~= old(self).collabs());
            assert(self.results() =~= old(self).results());
            assert(self.participations() =~= old(self).participations());
            assert(self.configs() =~= old(self).configs());
            lemma_same_collabs(old(self), self);
            assert forall|k: int|
                0 <= k < self.providers().len() implies (#[trigger] self.providers()[k]).config_id
                < self.next_config_spec() by {
                if k < pre.len() {
                    assert(self.providers()[k] == pre[k]);
                    assert(old(self).providers()[k].config_id < old(self).next_config_spec());
                } else {
                    assert(self.providers()[k] == addv[k - pre.len()]);
                }
            }
            assert forall|k: int|
                0 <= k < self.results().len() implies self.has_collab(
                (#[trigger] self.results()[k]).collab_id,
            ) by {
                assert(old(self).has_collab(old(self).results()[k].collab_id));
            }
        }
        Ok(())
    }

    /// The provider rows of one configuration, in insertion order.
    pub fn get_providers(&self, id_config: i32) -> (res: Result<Vec<CsProvider>, Error>)
        ensures
            res matches Ok(v) && v@.map_values(|p: CsProvider| p@) == providers_for(
                self.providers(),
                id_config as int,
            ),
    {
        let mut out: Vec<CsProvider> = Vec::new();
        let mut k: usize = 0;
        while k < self.providers.len()
            invariant
                k <= self.providers@.len(),
                out@.map_values(|p: CsProvider| p@) == providers_for(
                    self.providers().take(k as int),
                    id_config as int,
                ),
            decreases self.providers@.len() - k,
        {
            let ghost prefix = self.providers().take(k as int);
            let row = &self.providers[k];
            proof {
                let tt = self.providers().take(k as int + 1);
                assert(tt.drop_last() =~= prefix);
                assert(tt.last() == self.providers()[k as int]);
            }
            if row.config_id == id_config {
                out.push(row.duplicate());
                proof {
                    assert(out@.map_values(|p: CsProvider| p@) =~= providers_for(
                        self.providers().take(k as int + 1),
                        id_config as int,
                    ));
                }
            } else {
                proof {
                    assert(out@.map_values(|p: CsProvider| p@) =~= providers_for(
                        self.providers().take(k as int + 1),
                        id_config as int,
                    ));
                }
            }
            k = k + 1;
        }
        proof {
            assert(self.providers().take(self.providers().len() as int) =~= self.providers());
        }
        Ok(out)
    }
}

} // verus!
