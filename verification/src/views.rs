//! Views over sets of compatible observables, and the manager that keeps views and
//! registered observables by id. (Measured values are floating-point numbers kept by the
//! caller; a view records which of its observables have been measured.)
use vstd::prelude::*;
use vstd::string::*;
use crate::hio::{admit_observable, all_commute, law_view_stays_commuting, spec_commutes, Observable};
use crate::ids::new_uuid;
use crate::table::{entry_pos, find_key, insert_entry, key_index, lemma_key_index_range, put_entry};

verus! {

/// Configuration of a view. (Its floating-point target precision is kept by the caller.)
#[derive(Debug, Clone, Copy, PartialEq, Eq, Structural)]
pub struct ViewConfig {
    /// Enforce commutativity?
    pub enforce_commutativity: bool,
    /// Minimum number of measurements
    pub min_measurements: usize,
}

impl Default for ViewConfig {
    fn default() -> (r: Self)
        ensures
            r == (ViewConfig { enforce_commutativity: true, min_measurements: 100 }),
    {
        ViewConfig { enforce_commutativity: true, min_measurements: 100 }
    }
}

/// View of a set of compatible observables.
#[derive(Debug, Clone)]
pub struct ObservableView {
    /// Unique ID
    pub id: u128,
    /// View name
    pub name: String,
    /// Observables in this view
    pub observables: Vec<Observable>,
    /// Ids of the observables whose value has been measured, in order of measurement
    pub measured_ids: Vec<u128>,
    /// Associated shadow
    pub shadow_id: Option<u128>,
    /// Configuration
    pub config: ViewConfig,
}

/// A view admits an observable unless it enforces commutativity and the observable fails
/// to commute with one already in it.
pub open spec fn admits(v: ObservableView, o: Observable) -> bool {
    v.config.enforce_commutativity ==> forall|k: int|
        0 <= k < v.observables@.len() ==> spec_commutes(
            o.pauli_representation.paulis@,
            (#[trigger] v.observables@[k]).pauli_representation.paulis@,
        )
}

/// The refusal names an observable of the view that `o` does not commute with.
pub open spec fn refusal(v: ObservableView, o: Observable, m: Seq<char>) -> bool {
    exists|k: int|
        0 <= k < v.observables@.len() && !spec_commutes(
            o.pauli_representation.paulis@,
            (#[trigger] v.observables@[k]).pauli_representation.paulis@,
        ) && m == "Observable '"@ + o.name@ + "' does not commute with '"@ + v.observables@[k].name@ + "'"@
}

/// `after` is `before` with nothing changed but its observables.
pub open spec fn same_but_observables(before: ObservableView, after: ObservableView) -> bool {
    &&& after.id == before.id
    &&& after.name == before.name
    &&& after.measured_ids@ == before.measured_ids@
    &&& after.shadow_id == before.shadow_id
    &&& after.config == before.config
}

/// The ids measured after marking `id`: unchanged when it was already there.
pub open spec fn with_id(ids: Seq<u128>, id: u128) -> Seq<u128> {
    if ids.contains(id) {
        ids
    } else {
        ids.push(id)
    }
}

/// The ids measured after marking the first `n` observables of `obs`, in order.
pub open spec fn marked(ids: Seq<u128>, obs: Seq<Observable>, n: nat) -> Seq<u128>
    decreases n,
{
    if n == 0 {
        ids
    } else {
        with_id(marked(ids, obs, (n - 1) as nat), obs[n - 1].id)
    }
}

impl ObservableView {
    /// An empty view with the default configuration.
    pub fn new(name: String) -> (r: Self)
        ensures
            r.name == name,
            r.observables@.len() == 0,
            r.measured_ids@.len() == 0,
            r.shadow_id is None,
            r.config == (ViewConfig { enforce_commutativity: true, min_measurements: 100 }),
    {
        ObservableView {
            id: new_uuid(),
            name,
            observables: Vec::new(),
            measured_ids: Vec::new(),
            shadow_id: None,
            config: ViewConfig::default(),
        }
    }

    /// The same view under another configuration.
    pub fn with_config(self, config: ViewConfig) -> (r: Self)
        ensures
            r == (ObservableView { config, ..self }),
    {
        ObservableView { config, ..self }
    }

    /// Adds an observable; under enforced commutativity it must commute with every
    /// observable already in the view, else the first one it does not commute with is named.
    pub fn add_observable(&mut self, observable: Observable) -> (r: Result<(), String>)
        ensures
            same_but_observables(*old(self), *final(self)),
            r is Ok <==> admits(*old(self), observable),
            r is Ok ==> final(self).observables@ == old(self).observables@.push(observable),
            r is Err ==> *final(self) == *old(self),
            r matches Err(m) ==> refusal(*old(self), observable, m@),
    {
        admit_observable(&mut self.observables, self.config.enforce_commutativity, observable)
    }

    /// Records the shadow the view is measured from.
    pub fn attach_shadow(&mut self, shadow_id: u128)
        ensures
            *final(self) == (ObservableView { shadow_id: Some(shadow_id), ..*old(self) }),
    {
        self.shadow_id = Some(shadow_id);
    }

    /// Records that the observable with this id has been measured.
    pub fn mark_measured(&mut self, observable_id: u128)
        ensures
            final(self).measured_ids@ == with_id(old(self).measured_ids@, observable_id),
            final(self).id == old(self).id,
            final(self).name == old(self).name,
            final(self).observables@ == old(self).observables@,
            final(self).shadow_id == old(self).shadow_id,
            final(self).config == old(self).config,
    {
        if !self.is_measured(observable_id) {
            self.measured_ids.push(observable_id);
        }
    }

    /// Whether the observable with this id has been measured.
    pub fn is_measured(&self, observable_id: u128) -> (r: bool)
        ensures
            r == self.measured_ids@.contains(observable_id),
    {
        let mut k: usize = 0;
        while k < self.measured_ids.len()
            invariant
                k <= self.measured_ids@.len(),
                forall|t: int| 0 <= t < k ==> self.measured_ids@[t] != observable_id,
            decreases self.measured_ids@.len() - k,
        {
            if self.measured_ids[k] == observable_id {
                return true;
            }
            k = k + 1;
        }
        false
    }

    /// Whether every observable of the view has been measured.
    pub fn is_complete(&self) -> (r: bool)
        ensures
            r == forall|k: int|
                0 <= k < self.observables@.len() ==> self.measured_ids@.contains(
                    (#[trigger] self.observables@[k]).id,
                ),
    {
        let mut k: usize = 0;
        while k < self.observables.len()
            invariant
                k <= self.observables@.len(),
                forall|t: int|
                    0 <= t < k ==> self.measured_ids@.contains((#[trigger] self.observables@[t]).id),
            decreases self.observables@.len() - k,
        {
            if !self.is_measured(self.observables[k].id) {
                return false;
            }
            k = k + 1;
        }
        true
    }
}

/// Counters of a view manager. (The floating-point average of observables per view is
/// computed by the caller from the views.)
#[derive(Debug, Clone, Copy, PartialEq, Eq, Structural)]
pub struct ViewStatistics {
    pub total_views_created: u64,
    pub total_observables_registered: u64,
    pub total_measurements: u64,
}

impl Default for ViewStatistics {
    fn default() -> (r: Self)
        ensures
            r == (ViewStatistics { total_views_created: 0, total_observables_registered: 0, total_measurements: 0 }),
    {
        ViewStatistics { total_views_created: 0, total_observables_registered: 0, total_measurements: 0 }
    }
}

/// Manager of several views and of the observables they may hold.
pub struct ViewManager {
    /// Managed views, by id
    views: Vec<(u128, ObservableView)>,
    /// Registered observables, by id
    observables: Vec<(u128, Observable)>,
    /// Statistics
    stats: ViewStatistics,
}

/// A view newly made with this id, name and configuration.
pub open spec fn fresh_view(v: ObservableView, id: u128, name: String, config: ViewConfig) -> bool {
    &&& v.id == id
    &&& v.name == name
    &&& v.observables@.len() == 0
    &&& v.measured_ids@.len() == 0
    &&& v.shadow_id is None
    &&& v.config == config
}

/// The outcome of adding the registered observable `observable_id` to the view `view_id`:
/// the view table goes from `before` to `after`.
pub open spec fn added_to_view(
    before: Seq<(u128, ObservableView)>,
    registered: Seq<(u128, Observable)>,
    after: Seq<(u128, ObservableView)>,
    view_id: u128,
    observable_id: u128,
    r: Result<(), String>,
) -> bool {
    match key_index(before, view_id) {
        None => r matches Err(m) && m@ == "View not found"@ && after == before,
        Some(i) => match key_index(registered, observable_id) {
            None => r matches Err(m) && m@ == "Observable not found"@ && after == before,
            Some(j) => {
                &&& (r is Ok <==> admits(before[i].1, registered[j].1))
                &&& r is Err ==> after == before
                &&& r matches Err(m) ==> refusal(before[i].1, registered[j].1, m@)
                &&& r is Ok ==> after == before.update(i, (view_id, after[i].1))
                &&& r is Ok ==> same_but_observables(before[i].1, after[i].1)
                &&& r is Ok ==> after[i].1.observables@.len() == before[i].1.observables@.len() + 1
                &&& r is Ok ==> after[i].1.observables@.drop_last() == before[i].1.observables@
                &&& r is Ok ==> after[i].1.observables@.last().same_as(&registered[j].1)
            },
        },
    }
}

impl ViewManager {
    /// The views, by id, in order of creation.
    pub closed spec fn view_table(&self) -> Seq<(u128, ObservableView)> {
        self.views@
    }

    /// The registered observables, by id, in order of registration.
    pub closed spec fn observable_table(&self) -> Seq<(u128, Observable)> {
        self.observables@
    }

    /// The manager's counters.
    pub closed spec fn statistics(&self) -> ViewStatistics {
        self.stats
    }

    /// A manager with no views and no observables.
    pub fn new() -> (r: Self)
        ensures
            r.view_table().len() == 0,
            r.observable_table().len() == 0,
            r.statistics() == (ViewStatistics {
                total_views_created: 0,
                total_observables_registered: 0,
                total_measurements: 0,
            }),
    {
        ViewManager { views: Vec::new(), observables: Vec::new(), stats: ViewStatistics::default() }
    }

    /// Registers an observable under its id and returns the id.
    pub fn register_observable(&mut self, observable: Observable) -> (r: u128)
        requires
            old(self).statistics().total_observables_registered < u64::MAX,
        ensures
            r == observable.id,
            final(self).observable_table() == insert_entry(old(self).observable_table(), r, observable),
            final(self).view_table() == old(self).view_table(),
            final(self).statistics() == (ViewStatistics {
                total_observables_registered: (old(self).statistics().total_observables_registered + 1) as u64,
                ..old(self).statistics()
            }),
    {
        let id = observable.id;
        put_entry(&mut self.observables, id, observable);
        self.stats.total_observables_registered = self.stats.total_observables_registered + 1;
        id
    }

    /// Creates an empty view with this name and configuration and returns its id.
    pub fn create_view(&mut self, name: String, config: ViewConfig) -> (r: u128)
        requires
            old(self).statistics().total_views_created < u64::MAX,
        ensures
            fresh_view(final(self).view_table()[entry_pos(old(self).view_table(), r)].1, r, name, config),
            final(self).view_table() == insert_entry(
                old(self).view_table(),
                r,
                final(self).view_table()[entry_pos(old(self).view_table(), r)].1,
            ),
            final(self).observable_table() == old(self).observable_table(),
            final(self).statistics() == (ViewStatistics {
                total_views_created: (old(self).statistics().total_views_created + 1) as u64,
                ..old(self).statistics()
            }),
    {
        let view = ObservableView::new(name).with_config(config);
        let id = view.id;
        put_entry(&mut self.views, id, view);
        self.stats.total_views_created = self.stats.total_views_created + 1;
        id
    }

    /// Adds a registered observable to a view; the view's own rule decides whether it is
    /// admitted.
    pub fn add_to_view(&mut self, view_id: u128, observable_id: u128) -> (r: Result<(), String>)
        ensures
            added_to_view(
                old(self).view_table(),
                old(self).observable_table(),
                final(self).view_table(),
                view_id,
                observable_id,
                r,
            ),
            final(self).observable_table() == old(self).observable_table(),
            final(self).statistics() == old(self).statistics(),
    {
        proof {
            lemma_key_index_range(self.views@, view_id);
            lemma_key_index_range(self.observables@, observable_id);
        }
        let vi = match find_key(&self.views, view_id) {
            Some(i) => i,
            None => {
                return Err(String::from_str("View not found"));
            },
        };
        let oi = match find_key(&self.observables, observable_id) {
            Some(j) => j,
            None => {
                return Err(String::from_str("Observable not found"));
            },
        };
        let observable = self.observables[oi].1.copied();
        let ghost before = self.views@;
        let r = self.views[vi].1.add_observable(observable);
        proof {
            assert(self.views@[vi as int].0 == view_id);
            if r is Ok {
                assert(self.views@ =~= before.update(vi as int, (view_id, self.views@[vi as int].1)));
                assert(self.views@[vi as int].1.observables@.drop_last() =~= before[vi as int].1.observables@);
            } else {
                assert(self.views@ =~= before);
            }
        }
        r
    }

    /// Measures a view from a shadow: `outcomes` holds, for each observable of the view in
    /// order, whether its value could be estimated, or the reason why not. Observables are
    /// marked measured in order up to the first failure, whose reason is returned; when all
    /// succeed the measurement count grows by the number of observables.
    pub fn measure_view(&mut self, view_id: u128, shadow_id: u128, outcomes: &Vec<Result<(), String>>) -> (r:
        Result<(), String>)
        requires
            key_index(old(self).view_table(), view_id) matches Some(i) ==> outcomes@.len()
                == old(self).view_table()[i].1.observables@.len() && old(self).statistics().total_measurements
                + outcomes@.len() <= u64::MAX,
        ensures
            final(self).observable_table() == old(self).observable_table(),
            key_index(old(self).view_table(), view_id) is None ==> (r matches Err(m) && m@ == "View not found"@
                && final(self).view_table() == old(self).view_table() && final(self).statistics()
                == old(self).statistics()),
            key_index(old(self).view_table(), view_id) matches Some(i) ==> measured_view(
                old(self).view_table(),
                final(self).view_table(),
                i,
                shadow_id,
                outcomes@,
                r,
            ) && (r is Ok ==> final(self).statistics() == (ViewStatistics {
                total_measurements: (old(self).statistics().total_measurements + outcomes@.len()) as u64,
                ..old(self).statistics()
            })) && (r is Err ==> final(self).statistics() == old(self).statistics()),
    {
        proof {
            lemma_key_index_range(self.views@, view_id);
        }
        let vi = match find_key(&self.views, view_id) {
            Some(i) => i,
            None => {
                return Err(String::from_str("View not found"));
            },
        };
        let ghost before = self.views@;
        let ghost v0 = self.views@[vi as int].1;
        self.views[vi].1.attach_shadow(shadow_id);
        let n = outcomes.len();
        let mut k: usize = 0;
        while k < n
            invariant
                n == outcomes@.len(),
                n == v0.observables@.len(),
                k <= n,
                vi < before.len(),
                before == old(self).views@,
                key_index(before, view_id) == Some(vi as int),
                v0 == before[vi as int].1,
                self.views@.len() == before.len(),
                forall|t: int| 0 <= t < before.len() && t != vi ==> self.views@[t] == before[t],
                self.views@[vi as int].0 == before[vi as int].0,
                self.views@[vi as int].1.id == v0.id,
                self.views@[vi as int].1.name == v0.name,
                self.views@[vi as int].1.observables@ == v0.observables@,
                self.views@[vi as int].1.config == v0.config,
                self.views@[vi as int].1.shadow_id == Some(shadow_id),
                self.views@[vi as int].1.measured_ids@ == marked(v0.measured_ids@, v0.observables@, k as nat),
                forall|t: int| 0 <= t < k ==> (#[trigger] outcomes@[t]) is Ok,
                self.observables@ == old(self).observables@,
                self.stats == old(self).stats,
            decreases n - k,
        {
            match &outcomes[k] {
                Err(m) => {
                    let reason = m.clone();
                    proof {
                        assert(self.views@ =~= before.update(vi as int, (before[vi as int].0, self.views@[vi as int].1)));
                    }
                    return Err(reason);
                },
                Ok(()) => {},
            }
            let id = self.views[vi].1.observables[k].id;
            self.views[vi].1.mark_measured(id);
            k = k + 1;
        }
        self.stats.total_measurements = self.stats.total_measurements + n as u64;
        proof {
            assert(self.views@ =~= before.update(vi as int, (before[vi as int].0, self.views@[vi as int].1)));
        }
        Ok(())
    }

    /// The view with this id.
    pub fn get_view(&self, id: u128) -> (r: Option<&ObservableView>)
        ensures
            match key_index(self.view_table(), id) {
                Some(i) => r matches Some(v) && *v == self.view_table()[i].1,
                None => r is None,
            },
    {
        proof {
            lemma_key_index_range(self.views@, id);
        }
        match find_key(&self.views, id) {
            Some(i) => Some(&self.views[i].1),
            None => None,
        }
    }

    /// All views, in order of creation.
    pub fn list_views(&self) -> (r: Vec<&ObservableView>)
        ensures
            r@.len() == self.view_table().len(),
            forall|k: int| 0 <= k < r@.len() ==> *(#[trigger] r@[k]) == self.view_table()[k].1,
    {
        let mut r: Vec<&ObservableView> = Vec::new();
        let mut k: usize = 0;
        while k < self.views.len()
            invariant
                k <= self.views@.len(),
                r@.len() == k,
                forall|t: int| 0 <= t < k ==> *(#[trigger] r@[t]) == self.views@[t].1,
            decreases self.views@.len() - k,
        {
            r.push(&self.views[k].1);
            k = k + 1;
        }
        r
    }

    /// The manager's counters.
    pub fn get_statistics(&self) -> (r: &ViewStatistics)
        ensures
            *r == self.statistics(),
    {
        &self.stats
    }
}

impl Default for ViewManager {
    fn default() -> (r: Self)
        ensures
            r.view_table().len() == 0,
            r.observable_table().len() == 0,
            r.statistics() == (ViewStatistics {
                total_views_created: 0,
                total_observables_registered: 0,
                total_measurements: 0,
            }),
    {
        ViewManager::new()
    }
}

/// The view at `i` after measuring from `shadow_id` with these outcomes: it records the
/// shadow, and the observables are marked measured in order up to the first failure.
pub open spec fn measured_view(
    before: Seq<(u128, ObservableView)>,
    after: Seq<(u128, ObservableView)>,
    i: int,
    shadow_id: u128,
    outcomes: Seq<Result<(), String>>,
    r: Result<(), String>,
) -> bool {
    let v = before[i].1;
    let w = after[i].1;
    &&& after == before.update(i, (before[i].0, w))
    &&& w.id == v.id
    &&& w.name == v.name
    &&& w.observables@ == v.observables@
    &&& w.config == v.config
    &&& w.shadow_id == Some(shadow_id)
    &&& (r is Ok <==> forall|k: int| 0 <= k < outcomes.len() ==> (#[trigger] outcomes[k]) is Ok)
    &&& r is Ok ==> w.measured_ids@ == marked(v.measured_ids@, v.observables@, outcomes.len())
    &&& r matches Err(m) ==> exists|f: int|
        0 <= f < outcomes.len() && outcomes[f] == Err::<(), String>(m) && (forall|k: int|
            0 <= k < f ==> (#[trigger] outcomes[k]) is Ok) && w.measured_ids@ == marked(
            v.measured_ids@,
            v.observables@,
            f as nat,
        )
}

/// A view that enforces commutativity keeps its observables pairwise commuting through
/// every addition made by the manager, accepted or refused.
pub proof fn law_managed_view_stays_commuting(
    before: Seq<(u128, ObservableView)>,
    registered: Seq<(u128, Observable)>,
    after: Seq<(u128, ObservableView)>,
    view_id: u128,
    observable_id: u128,
    r: Result<(), String>,
    i: int,
)
    requires
        added_to_view(before, registered, after, view_id, observable_id, r),
        0 <= i < before.len(),
        before[i].1.config.enforce_commutativity,
        all_commute(before[i].1.observables@),
    ensures
        i < after.len(),
        all_commute(after[i].1.observables@),
{
    match key_index(before, view_id) {
        None => {},
        Some(vi) => match key_index(registered, observable_id) {
            None => {},
            Some(j) => {
                if r is Ok && vi == i {
                    lemma_key_index_range(before, view_id);
                    let v = before[i].1;
                    let o = registered[j].1;
                    let c = after[i].1.observables@.last();
                    let grown = after[i].1.observables@;
                    assert(grown =~= v.observables@.push(c));
                    assert forall|k: int| 0 <= k < v.observables@.len() implies spec_commutes(
                        c.pauli_representation.paulis@,
                        (#[trigger] v.observables@[k]).pauli_representation.paulis@,
                    ) by {}
                    law_view_stays_commuting(v.observables@, c, true, grown);
                } else if r is Ok {
                    lemma_key_index_range(before, view_id);
                    assert(after[i] == before[i]);
                }
            },
        },
    }
}

} // verus!
