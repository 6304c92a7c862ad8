//! One aggregation tick: fold every registered device's probe outcome into
//! the metrics store, then render one snapshot for external readers.
//!
//! The surrounding binary runs the periodic timer and the HTTP probes; this
//! module makes the per-tick decisions. A failed probe marks its device
//! down and leaves that device's other series at their last known values;
//! it never keeps another device's outcome from being folded in the same
//! tick.

use vstd::prelude::*;
use crate::apollo::{status_wf, ApolloStatus};
use crate::metrics::{
    spec_device_touched, spec_dh_labels, spec_metric_for, spec_render, spec_series_at,
    spec_stored_centi, Metrics,
};

verus! {

/// What one device's probe produced this tick.
pub struct ProbeOutcome {
    pub host: String,
    pub device_name: String,
    pub status: Option<ApolloStatus>,
}

/// A well-formed tick input: every successful status is itself well formed
/// and carries its outcome's display name, and no device key appears twice.
pub open spec fn outcomes_wf(outcomes: Seq<ProbeOutcome>) -> bool {
    &&& forall|i: int|
        0 <= i < outcomes.len() ==> match (#[trigger] outcomes[i]).status {
            Some(st) => status_wf(st) && st.device_name@ == outcomes[i].device_name@,
            None => true,
        }
    &&& forall|i: int, j: int|
        0 <= i < j < outcomes.len() ==> ((#[trigger] outcomes[i]).device_name@,
        outcomes[i].host@) != ((#[trigger] outcomes[j]).device_name@, outcomes[j].host@)
}

/// Process one tick: fold every outcome into the store, in order, and
/// render the snapshot to publish. A successful probe updates its device's
/// series; a failed one only sets that device's `device_up` gauge to zero.
/// No outcome affects another device's series, and series of unregistered
/// devices stay exactly as they were.
pub fn run_tick(store: &mut Metrics, outcomes: &Vec<ProbeOutcome>) -> (snapshot: String)
    requires
        old(store).wf(),
        old(store).info_sync(),
        outcomes_wf(outcomes@),
    ensures
        final(store).wf(),
        final(store).info_sync(),
        snapshot@ == spec_render(final(store).series@),
        forall|i: int|
            0 <= i < outcomes@.len() ==> match (#[trigger] outcomes@[i]).status {
                Some(st) => spec_series_at(
                    final(store).series@,
                    "apollo_air1_device_up"@,
                    spec_dh_labels(outcomes@[i].device_name@, outcomes@[i].host@),
                ) == Some(100int) && forall|j: int|
                    0 <= j < st.sensors@.len() ==> match spec_metric_for(
                        (#[trigger] st.sensors@[j]).0@,
                    ) {
                        Some(m) => spec_series_at(
                            final(store).series@,
                            m,
                            spec_dh_labels(outcomes@[i].device_name@, outcomes@[i].host@),
                        ) == Some(
                            spec_stored_centi(
                                st.sensors@[j].0@,
                                st.sensors@[j].1.value_centi as int,
                            ),
                        ),
                        None => true,
                    },
                None => spec_series_at(
                    final(store).series@,
                    "apollo_air1_device_up"@,
                    spec_dh_labels(outcomes@[i].device_name@, outcomes@[i].host@),
                ) == Some(0int),
            },
        forall|n2: Seq<char>, l2: Seq<(Seq<char>, Seq<char>)>|
            (forall|i: int|
                0 <= i < outcomes@.len() ==> !spec_device_touched(
                    n2,
                    l2,
                    (#[trigger] outcomes@[i]).device_name@,
                    outcomes@[i].host@,
                )) ==> spec_series_at(final(store).series@, n2, l2) == spec_series_at(
                old(store).series@,
                n2,
                l2,
            ),
{
    let ghost v0 = store.series@;
    let n = outcomes.len();
    let mut k: usize = 0;
    while k < n
        invariant
            store.wf(),
            store.info_sync(),
            n == outcomes@.len(),
            k <= n,
            outcomes_wf(outcomes@),
            forall|i: int|
                0 <= i < k ==> match (#[trigger] outcomes@[i]).status {
                    Some(st) => spec_series_at(
                        store.series@,
                        "apollo_air1_device_up"@,
                        spec_dh_labels(outcomes@[i].device_name@, outcomes@[i].host@),
                    ) == Some(100int) && forall|j: int|
                        0 <= j < st.sensors@.len() ==> match spec_metric_for(
                            (#[trigger] st.sensors@[j]).0@,
                        ) {
                            Some(m) => spec_series_at(
                                store.series@,
                                m,
                                spec_dh_labels(outcomes@[i].device_name@, outcomes@[i].host@),
                            ) == Some(
                                spec_stored_centi(
                                    st.sensors@[j].0@,
                                    st.sensors@[j].1.value_centi as int,
                                ),
                            ),
                            None => true,
                        },
                    None => spec_series_at(
                        store.series@,
                        "apollo_air1_device_up"@,
                        spec_dh_labels(outcomes@[i].device_name@, outcomes@[i].host@),
                    ) == Some(0int),
                },
            forall|n2: Seq<char>, l2: Seq<(Seq<char>, Seq<char>)>|
                (forall|i: int|
                    0 <= i < outcomes@.len() ==> !spec_device_touched(
                        n2,
                        l2,
                        (#[trigger] outcomes@[i]).device_name@,
                        outcomes@[i].host@,
                    )) ==> spec_series_at(store.series@, n2, l2) == spec_series_at(v0, n2, l2),
        decreases n - k,
    {
        let ghost vk = store.series@;
        let outcome = &outcomes[k];
        match &outcome.status {
            Some(st) => {
                store.update_device(outcome.host.as_str(), st);
            },
            None => {
                store.mark_device_down(outcome.device_name.as_str(), outcome.host.as_str());
            },
        }
        proof {
            let dk = outcomes@[k as int].device_name@;
            let hk = outcomes@[k as int].host@;
            assert forall|i: int|
                0 <= i < k + 1 implies match (#[trigger] outcomes@[i]).status {
                Some(st) => spec_series_at(
                    store.series@,
                    "apollo_air1_device_up"@,
                    spec_dh_labels(outcomes@[i].device_name@, outcomes@[i].host@),
                ) == Some(100int) && forall|j: int|
                    0 <= j < st.sensors@.len() ==> match spec_metric_for(
                        (#[trigger] st.sensors@[j]).0@,
                    ) {
                        Some(m) => spec_series_at(
                            store.series@,
                            m,
                            spec_dh_labels(outcomes@[i].device_name@, outcomes@[i].host@),
                        ) == Some(
                            spec_stored_centi(
                                st.sensors@[j].0@,
                                st.sensors@[j].1.value_centi as int,
                            ),
                        ),
                        None => true,
                    },
                None => spec_series_at(
                    store.series@,
                    "apollo_air1_device_up"@,
                    spec_dh_labels(outcomes@[i].device_name@, outcomes@[i].host@),
                ) == Some(0int),
            } by {
                if i < k {
                    let di = outcomes@[i].device_name@;
                    let hi = outcomes@[i].host@;
                    assert((di, hi) != (dk, hk));
                    assert(!spec_device_touched(
                        "apollo_air1_device_up"@,
                        spec_dh_labels(di, hi),
                        dk,
                        hk,
                    ));
                    match outcomes@[i].status {
                        Some(st) => {
                            assert forall|j: int|
                                0 <= j < st.sensors@.len() implies match spec_metric_for(
                                (#[trigger] st.sensors@[j]).0@,
                            ) {
                                Some(m) => spec_series_at(
                                    store.series@,
                                    m,
                                    spec_dh_labels(di, hi),
                                ) == Some(
                                    spec_stored_centi(
                                        st.sensors@[j].0@,
                                        st.sensors@[j].1.value_centi as int,
                                    ),
                                ),
                                None => true,
                            } by {
                                match spec_metric_for(st.sensors@[j].0@) {
                                    Some(m) => {
                                        assert(!spec_device_touched(
                                            m,
                                            spec_dh_labels(di, hi),
                                            dk,
                                            hk,
                                        ));
                                    },
                                    None => {
                                    },
                                }
                            }
                        },
                        None => {
                        },
                    }
                }
            }
        }
        k += 1;
    }
    store.gather()
}

} // verus!
