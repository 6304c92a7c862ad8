//! The metrics store: the current value of every exposed series, keyed by
//! metric name and label tuple, with upsert, explicit removal, and a
//! deterministic text rendering.
//!
//! The store also owns the per-device AQI label state that drives the
//! retraction of stale `aqi_info` label combinations: when a device's
//! category or primary pollutant changes, the previously exposed label
//! combination is removed and the new one inserted, so a render never shows
//! a stale category for a device.

use vstd::prelude::*;
use crate::aqi::{
    spec_category, spec_overall, spec_pm10_sub, spec_pm25_sub, spec_primary, AqiCategory,
    AqiResult, Pollutant,
};
use crate::apollo::{
    lemma_lookup_push, spec_channel_value, spec_lookup, status_wf,
    ApolloStatus,
};
use crate::text::{centi_to_string, spec_centi_string, spec_trunc_whole_centi, str_eq,
    trunc_whole_centi};
use vstd::string::StringExecFns;

verus! {

/// One metric series: a name, a label tuple, and its current value in
/// hundredths.
#[derive(Debug, Clone)]
pub struct Series {
    pub name: String,
    pub labels: Vec<(String, String)>,
    pub value_centi: i64,
}

/// A label tuple seen at the character level.
pub open spec fn labels_view(ls: Seq<(String, String)>) -> Seq<(Seq<char>, Seq<char>)> {
    ls.map_values(|p: (String, String)| (p.0@, p.1@))
}

/// A series' identity: its name and label tuple, at the character level.
pub open spec fn skey(s: Series) -> (Seq<char>, Seq<(Seq<char>, Seq<char>)>) {
    (s.name@, labels_view(s.labels@))
}

/// The value the store holds for a series identity: the first (and, in a
/// well-formed store, only) series with that name and label tuple.
pub open spec fn spec_series_at(
    v: Seq<Series>,
    name: Seq<char>,
    labels: Seq<(Seq<char>, Seq<char>)>,
) -> Option<int>
    decreases v.len(),
{
    if v.len() == 0 {
        None
    } else if skey(v[0]) == (name, labels) {
        Some(v[0].value_centi as int)
    } else {
        spec_series_at(v.drop_first(), name, labels)
    }
}

/// Series identities are pairwise distinct.
pub open spec fn series_unique(v: Seq<Series>) -> bool {
    forall|i: int, j: int| 0 <= i < j < v.len() ==> skey(#[trigger] v[i]) != skey(#[trigger] v[j])
}

proof fn lemma_series_at_push(
    v: Seq<Series>,
    x: Series,
    name: Seq<char>,
    labels: Seq<(Seq<char>, Seq<char>)>,
)
    ensures
        spec_series_at(v.push(x), name, labels) == if spec_series_at(v, name, labels) is Some {
            spec_series_at(v, name, labels)
        } else if skey(x) == (name, labels) {
            Some(x.value_centi as int)
        } else {
            None::<int>
        },
    decreases v.len(),
{
    if v.len() == 0 {
        assert(v.push(x)[0] == x);
        assert(v.push(x).drop_first() =~= Seq::<Series>::empty());
        assert(spec_series_at(Seq::<Series>::empty(), name, labels) is None);
    } else {
        assert(v.push(x)[0] == v[0]);
        assert(v.push(x).drop_first() =~= v.drop_first().push(x));
        lemma_series_at_push(v.drop_first(), x, name, labels);
    }
}

proof fn lemma_series_at_update(
    v: Seq<Series>,
    i: int,
    x: Series,
    name: Seq<char>,
    labels: Seq<(Seq<char>, Seq<char>)>,
)
    requires
        0 <= i < v.len(),
        skey(x) == skey(v[i]),
        forall|j: int| 0 <= j < i ==> skey(#[trigger] v[j]) != skey(v[i]),
    ensures
        spec_series_at(v.update(i, x), name, labels) == if skey(x) == (name, labels) {
            Some(x.value_centi as int)
        } else {
            spec_series_at(v, name, labels)
        },
    decreases v.len(),
{
    if i == 0 {
        assert(v.update(0, x)[0] == x);
        assert(v.update(0, x).drop_first() =~= v.drop_first());
    } else {
        assert(v.update(i, x)[0] == v[0]);
        assert(v.update(i, x).drop_first() =~= v.drop_first().update(i - 1, x));
        assert(forall|j: int| 0 <= j < i - 1 ==> #[trigger] v.drop_first()[j] == v[j + 1]);
        lemma_series_at_update(v.drop_first(), i - 1, x, name, labels);
    }
}

proof fn lemma_series_at_remove(
    v: Seq<Series>,
    i: int,
    name: Seq<char>,
    labels: Seq<(Seq<char>, Seq<char>)>,
)
    requires
        0 <= i < v.len(),
        series_unique(v),
    ensures
        spec_series_at(v.remove(i), name, labels) == if skey(v[i]) == (name, labels) {
            None::<int>
        } else {
            spec_series_at(v, name, labels)
        },
    decreases v.len(),
{
    if i == 0 {
        assert(v.remove(0) =~= v.drop_first());
        if skey(v[0]) == (name, labels) {
            // the removed head was the only series with this identity
            assert(forall|j: int|
                0 <= j < v.drop_first().len() ==> #[trigger] v.drop_first()[j] == v[j + 1]);
            if spec_series_at(v.drop_first(), name, labels) is Some {
                lemma_series_at_some_index(v.drop_first(), name, labels);
            }
        }
    } else {
        assert(v.remove(i)[0] == v[0]);
        assert(v.remove(i).drop_first() =~= v.drop_first().remove(i - 1));
        assert(forall|j: int| 0 <= j < v.drop_first().len() ==> #[trigger] v.drop_first()[j] == v[
            j + 1
        ]);
        lemma_series_at_remove(v.drop_first(), i - 1, name, labels);
    }
}

proof fn lemma_series_at_some_index(
    v: Seq<Series>,
    name: Seq<char>,
    labels: Seq<(Seq<char>, Seq<char>)>,
)
    requires
        spec_series_at(v, name, labels) is Some,
    ensures
        exists|j: int| 0 <= j < v.len() && skey(#[trigger] v[j]) == (name, labels),
    decreases v.len(),
{
    if v.len() > 0 {
        if skey(v[0]) == (name, labels) {
            assert(skey(v[0int]) == (name, labels));
        } else {
            lemma_series_at_some_index(v.drop_first(), name, labels);
            let j = choose|j: int|
                0 <= j < v.drop_first().len() && skey(#[trigger] v.drop_first()[j]) == (
                name,
                labels,
                );
            assert(skey(v[j + 1]) == (name, labels));
        }
    }
}

/// Per-device AQI label state: the last exposed category and primary
/// pollutant for one `(device, host)` key.
#[derive(Debug, Clone)]
pub struct AqiState {
    pub device: String,
    pub host: String,
    pub category: AqiCategory,
    pub primary_pollutant: Pollutant,
}

/// The recorded AQI label state for a device key.
pub open spec fn spec_state_at(states: Seq<AqiState>, d: Seq<char>, h: Seq<char>) -> Option<
    AqiState,
>
    decreases states.len(),
{
    if states.len() == 0 {
        None
    } else if states[0].device@ == d && states[0].host@ == h {
        Some(states[0])
    } else {
        spec_state_at(states.drop_first(), d, h)
    }
}

/// Device keys in the state list are pairwise distinct.
pub open spec fn states_unique(states: Seq<AqiState>) -> bool {
    forall|i: int, j: int|
        0 <= i < j < states.len() ==> ((#[trigger] states[i]).device@, states[i].host@) != ((
        #[trigger] states[j]).device@, states[j].host@)
}

/// The metrics store.
pub struct Metrics {
    pub series: Vec<Series>,
    pub aqi_state: Vec<AqiState>,
}

impl Metrics {
    /// Well-formed: series identities unique, device keys in the AQI label
    /// state unique.
    pub open spec fn wf(self) -> bool {
        &&& series_unique(self.series@)
        &&& states_unique(self.aqi_state@)
    }

    /// An empty store.
    pub fn new() -> (r: Metrics)
        ensures
            r.wf(),
            r.series@.len() == 0,
            r.aqi_state@.len() == 0,
    {
        Metrics { series: Vec::new(), aqi_state: Vec::new() }
    }

    /// The index of the series with this identity, if the store holds one.
    fn find_series(&self, name: &str, labels: &Vec<(String, String)>) -> (r: Option<usize>)
        ensures
            match r {
                Some(i) => i < self.series@.len() && skey(self.series@[i as int]) == (
                    name@,
                    labels_view(labels@),
                ) && forall|j: int|
                    0 <= j < i ==> skey(#[trigger] self.series@[j]) != (
                        name@,
                        labels_view(labels@),
                    ),
                None => forall|j: int|
                    0 <= j < self.series@.len() ==> skey(#[trigger] self.series@[j]) != (
                        name@,
                        labels_view(labels@),
                    ),
            },
    {
        let n = self.series.len();
        let mut k: usize = 0;
        while k < n
            invariant
                n == self.series@.len(),
                k <= n,
                forall|j: int|
                    0 <= j < k ==> skey(#[trigger] self.series@[j]) != (
                        name@,
                        labels_view(labels@),
                    ),
            decreases n - k,
        {
            let s = &self.series[k];
            let name_eq = {
                let sn: &str = s.name.as_str();
                str_eq(sn, name)
            };
            if name_eq && labels_eq(&s.labels, labels) {
                return Some(k);
            }
            k += 1;
        }
        None
    }

    /// Upsert: set the value of the series with this identity, creating the
    /// series if the store does not hold it yet. Every other series, and the
    /// AQI label state, stay as they were.
    pub fn set(&mut self, name: &str, labels: Vec<(String, String)>, value_centi: i64)
        requires
            old(self).wf(),
        ensures
            final(self).wf(),
            spec_series_at(final(self).series@, name@, labels_view(labels@)) == Some(
                value_centi as int,
            ),
            forall|n2: Seq<char>, l2: Seq<(Seq<char>, Seq<char>)>|
                !(n2 == name@ && l2 == labels_view(labels@)) ==> spec_series_at(
                    final(self).series@,
                    n2,
                    l2,
                ) == spec_series_at(old(self).series@, n2, l2),
            final(self).aqi_state@ == old(self).aqi_state@,
    {
        let ghost key: (Seq<char>, Seq<(Seq<char>, Seq<char>)>) = (name@, labels_view(labels@));
        let ghost v0 = self.series@;
        match self.find_series(name, &labels) {
            Some(i) => {
                let x = Series { name: String::from_str(name), labels, value_centi };
                proof {
                    assert(skey(x) == key);
                }
                self.series[i] = x;
                proof {
                    assert forall|n2: Seq<char>, l2: Seq<(Seq<char>, Seq<char>)>|
                        spec_series_at(self.series@, n2, l2) == if skey(x) == (n2, l2) {
                            Some(x.value_centi as int)
                        } else {
                            spec_series_at(v0, n2, l2)
                        } by {
                        lemma_series_at_update(v0, i as int, x, n2, l2);
                    }
                    assert(spec_series_at(self.series@, key.0, key.1) == Some(
                        value_centi as int,
                    ));
                    assert forall|a: int, b: int|
                        0 <= a < b < self.series@.len() implies skey(#[trigger] self.series@[a])
                        != skey(#[trigger] self.series@[b]) by {
                        assert(self.series@[a] == if a == i as int {
                            x
                        } else {
                            v0[a]
                        });
                        assert(self.series@[b] == if b == i as int {
                            x
                        } else {
                            v0[b]
                        });
                    }
                }
            },
            None => {
                let x = Series { name: String::from_str(name), labels, value_centi };
                proof {
                    assert(skey(x) == key);
                }
                self.series.push(x);
                proof {
                    assert forall|n2: Seq<char>, l2: Seq<(Seq<char>, Seq<char>)>|
                        spec_series_at(self.series@, n2, l2) == if spec_series_at(
                            v0,
                            n2,
                            l2,
                        ) is Some {
                            spec_series_at(v0, n2, l2)
                        } else if skey(x) == (n2, l2) {
                            Some(x.value_centi as int)
                        } else {
                            None::<int>
                        } by {
                        lemma_series_at_push(v0, x, n2, l2);
                    }
                    if spec_series_at(v0, key.0, key.1) is Some {
                        lemma_series_at_some_index(v0, key.0, key.1);
                    }
                    assert(spec_series_at(self.series@, key.0, key.1) == Some(
                        value_centi as int,
                    ));
                    assert forall|a: int, b: int|
                        0 <= a < b < self.series@.len() implies skey(#[trigger] self.series@[a])
                        != skey(#[trigger] self.series@[b]) by {
                        if b == v0.len() as int {
                            assert(self.series@[a] == v0[a]);
                            assert(self.series@[b] == x);
                        } else {
                            assert(self.series@[a] == v0[a]);
                            assert(self.series@[b] == v0[b]);
                        }
                    }
                }
            },
        }
    }

    /// Delete exactly the series with this identity; a no-op when the store
    /// does not hold it.
    pub fn remove(&mut self, name: &str, labels: &Vec<(String, String)>)
        requires
            old(self).wf(),
        ensures
            final(self).wf(),
            spec_series_at(final(self).series@, name@, labels_view(labels@)) is None,
            forall|n2: Seq<char>, l2: Seq<(Seq<char>, Seq<char>)>|
                !(n2 == name@ && l2 == labels_view(labels@)) ==> spec_series_at(
                    final(self).series@,
                    n2,
                    l2,
                ) == spec_series_at(old(self).series@, n2, l2),
            final(self).aqi_state@ == old(self).aqi_state@,
    {
        let ghost key: (Seq<char>, Seq<(Seq<char>, Seq<char>)>) = (name@, labels_view(labels@));
        let ghost v0 = self.series@;
        match self.find_series(name, labels) {
            Some(i) => {
                self.series.remove(i);
                proof {
                    assert forall|n2: Seq<char>, l2: Seq<(Seq<char>, Seq<char>)>|
                        spec_series_at(self.series@, n2, l2) == if skey(v0[i as int]) == (
                            n2,
                            l2,
                        ) {
                            None::<int>
                        } else {
                            spec_series_at(v0, n2, l2)
                        } by {
                        lemma_series_at_remove(v0, i as int, n2, l2);
                    }
                    assert forall|a: int, b: int|
                        0 <= a < b < self.series@.len() implies skey(#[trigger] self.series@[a])
                        != skey(#[trigger] self.series@[b]) by {
                        assert(self.series@[a] == if a < i as int {
                            v0[a]
                        } else {
                            v0[a + 1]
                        });
                        assert(self.series@[b] == if b < i as int {
                            v0[b]
                        } else {
                            v0[b + 1]
                        });
                    }
                }
            },
            None => {
                proof {
                    if spec_series_at(v0, key.0, key.1) is Some {
                        lemma_series_at_some_index(v0, key.0, key.1);
                    }
                }
            },
        }
    }
}

/// Text of one label: `key="value"`.
pub open spec fn spec_label_text(p: (Seq<char>, Seq<char>)) -> Seq<char> {
    p.0 + seq!['=', '"'] + p.1 + seq!['"']
}

/// Text of the labels after the first, each preceded by a comma.
pub open spec fn spec_rest_labels_text(ls: Seq<(Seq<char>, Seq<char>)>) -> Seq<char>
    decreases ls.len(),
{
    if ls.len() == 0 {
        Seq::empty()
    } else {
        seq![','] + spec_label_text(ls[0]) + spec_rest_labels_text(ls.drop_first())
    }
}

/// Text of a whole label tuple, comma-separated.
pub open spec fn spec_labels_text(ls: Seq<(Seq<char>, Seq<char>)>) -> Seq<char> {
    if ls.len() == 0 {
        Seq::empty()
    } else {
        spec_label_text(ls[0]) + spec_rest_labels_text(ls.drop_first())
    }
}

/// One exposition line: `name{key="value",...} value`, newline-terminated.
pub open spec fn spec_series_line(s: Series) -> Seq<char> {
    s.name@ + seq!['{'] + spec_labels_text(labels_view(s.labels@)) + seq!['}', ' ']
        + spec_centi_string(s.value_centi as int) + seq!['\n']
}

/// The full exposition snapshot: every series' line, in store order.
pub open spec fn spec_render(v: Seq<Series>) -> Seq<char>
    decreases v.len(),
{
    if v.len() == 0 {
        Seq::empty()
    } else {
        spec_series_line(v[0]) + spec_render(v.drop_first())
    }
}

proof fn lemma_rest_labels_push(ls: Seq<(Seq<char>, Seq<char>)>, x: (Seq<char>, Seq<char>))
    ensures
        spec_rest_labels_text(ls.push(x)) == spec_rest_labels_text(ls) + seq![',']
            + spec_label_text(x),
    decreases ls.len(),
{
    if ls.len() == 0 {
        assert(ls.push(x)[0] == x);
        assert(ls.push(x).drop_first() =~= Seq::<(Seq<char>, Seq<char>)>::empty());
        assert(spec_rest_labels_text(Seq::<(Seq<char>, Seq<char>)>::empty()) == Seq::<
            char,
        >::empty());
        assert(spec_rest_labels_text(ls.push(x)) =~= spec_rest_labels_text(ls) + seq![',']
            + spec_label_text(x));
    } else {
        assert(ls.push(x)[0] == ls[0]);
        assert(ls.push(x).drop_first() =~= ls.drop_first().push(x));
        lemma_rest_labels_push(ls.drop_first(), x);
        assert(spec_rest_labels_text(ls.push(x)) =~= spec_rest_labels_text(ls) + seq![',']
            + spec_label_text(x));
    }
}

proof fn lemma_render_push(v: Seq<Series>, x: Series)
    ensures
        spec_render(v.push(x)) == spec_render(v) + spec_series_line(x),
    decreases v.len(),
{
    if v.len() == 0 {
        assert(v.push(x)[0] == x);
        assert(v.push(x).drop_first() =~= Seq::<Series>::empty());
        assert(spec_render(Seq::<Series>::empty()) == Seq::<char>::empty());
        assert(spec_render(v.push(x)) =~= spec_render(v) + spec_series_line(x));
    } else {
        assert(v.push(x)[0] == v[0]);
        assert(v.push(x).drop_first() =~= v.drop_first().push(x));
        lemma_render_push(v.drop_first(), x);
        assert(spec_render(v.push(x)) =~= spec_render(v) + spec_series_line(x));
    }
}

/// Append `key="value"` for one label pair.
fn append_one_label(out: &mut String, p: &(String, String))
    ensures
        final(out)@ == old(out)@ + spec_label_text((p.0@, p.1@)),
{
    out.append(p.0.as_str());
    proof {
        reveal_strlit("=\"");
        reveal_strlit("\"");
    }
    out.append("=\"");
    out.append(p.1.as_str());
    out.append("\"");
    proof {
        assert(out@ =~= old(out)@ + spec_label_text((p.0@, p.1@)));
    }
}

/// Append a whole label tuple, comma-separated.
fn append_labels(out: &mut String, labels: &Vec<(String, String)>)
    ensures
        final(out)@ == old(out)@ + spec_labels_text(labels_view(labels@)),
{
    let ghost lv = labels_view(labels@);
    let n = labels.len();
    if n == 0 {
        proof {
            assert(out@ =~= old(out)@ + spec_labels_text(lv));
        }
        return ;
    }
    append_one_label(out, &labels[0]);
    let mut i: usize = 1;
    while i < n
        invariant
            1 <= i <= n,
            n == labels@.len(),
            lv == labels_view(labels@),
            out@ == old(out)@ + spec_label_text(lv[0]) + spec_rest_labels_text(
                lv.subrange(1, i as int),
            ),
        decreases n - i,
    {
        proof {
            reveal_strlit(",");
        }
        out.append(",");
        append_one_label(out, &labels[i]);
        proof {
            assert(lv.subrange(1, i + 1) =~= lv.subrange(1, i as int).push(lv[i as int]));
            lemma_rest_labels_push(lv.subrange(1, i as int), lv[i as int]);
            assert(","@ =~= seq![',']);
            assert(out@ =~= old(out)@ + spec_label_text(lv[0]) + spec_rest_labels_text(
                lv.subrange(1, i + 1),
            ));
        }
        i += 1;
    }
    proof {
        assert(lv.subrange(1, n as int) =~= lv.drop_first());
        assert(out@ =~= old(out)@ + spec_labels_text(lv));
    }
}

impl Metrics {
    /// Render the full exposition snapshot: one line per series, in store
    /// order, values in their shortest decimal form. Rendering cannot fail.
    pub fn gather(&self) -> (r: String)
        ensures
            r@ == spec_render(self.series@),
    {
        let mut out = String::new();
        let n = self.series.len();
        let mut k: usize = 0;
        while k < n
            invariant
                k <= n,
                n == self.series@.len(),
                out@ == spec_render(self.series@.take(k as int)),
            decreases n - k,
        {
            let ghost out0 = out@;
            let s = &self.series[k];
            out.append(s.name.as_str());
            proof {
                reveal_strlit("{");
                reveal_strlit("} ");
                reveal_strlit("\n");
            }
            out.append("{");
            append_labels(&mut out, &s.labels);
            out.append("} ");
            let vs = centi_to_string(s.value_centi);
            out.append(vs.as_str());
            out.append("\n");
            proof {
                assert(out@ =~= out0 + spec_series_line(self.series@[k as int]));
                assert(self.series@.take(k + 1) =~= self.series@.take(k as int).push(
                    self.series@[k as int],
                ));
                lemma_render_push(self.series@.take(k as int), self.series@[k as int]);
            }
            k += 1;
        }
        proof {
            assert(self.series@.take(n as int) =~= self.series@);
        }
        out
    }
}

/// The `{device, host}` label tuple every per-device series carries.
pub open spec fn spec_dh_labels(d: Seq<char>, h: Seq<char>) -> Seq<(Seq<char>, Seq<char>)> {
    seq![("device"@, d), ("host"@, h)]
}

/// The label tuple of an `aqi_info` series: device key plus the category
/// and primary-pollutant labels.
pub open spec fn spec_info_labels(d: Seq<char>, h: Seq<char>, c: Seq<char>, p: Seq<char>) -> Seq<
    (Seq<char>, Seq<char>),
> {
    seq![("device"@, d), ("host"@, h), ("category"@, c), ("primary_pollutant"@, p)]
}

/// Build the `{device, host}` label tuple.
pub fn dh_label_vec(device: &str, host: &str) -> (r: Vec<(String, String)>)
    ensures
        labels_view(r@) == spec_dh_labels(device@, host@),
{
    let mut v: Vec<(String, String)> = Vec::new();
    v.push((String::from_str("device"), String::from_str(device)));
    v.push((String::from_str("host"), String::from_str(host)));
    proof {
        assert(labels_view(v@) =~= spec_dh_labels(device@, host@));
    }
    v
}

/// Build an `aqi_info` label tuple.
pub fn info_label_vec(device: &str, host: &str, category: &str, pollutant: &str) -> (r: Vec<
    (String, String),
>)
    ensures
        labels_view(r@) == spec_info_labels(device@, host@, category@, pollutant@),
{
    let mut v: Vec<(String, String)> = Vec::new();
    v.push((String::from_str("device"), String::from_str(device)));
    v.push((String::from_str("host"), String::from_str(host)));
    v.push((String::from_str("category"), String::from_str(category)));
    v.push((String::from_str("primary_pollutant"), String::from_str(pollutant)));
    proof {
        assert(labels_view(v@) =~= spec_info_labels(device@, host@, category@, pollutant@));
    }
    v
}

/// For one device key: every `aqi_info` series the store holds carries
/// exactly the recorded category and primary pollutant.
pub open spec fn spec_info_ok(
    v: Seq<Series>,
    states: Seq<AqiState>,
    d: Seq<char>,
    h: Seq<char>,
) -> bool {
    forall|c: AqiCategory, p: Pollutant|
        spec_series_at(
            v,
            "apollo_air1_aqi_info"@,
            spec_info_labels(d, h, c.spec_str(), p.spec_str()),
        ) is Some ==> match spec_state_at(states, d, h) {
            Some(st) => st.category == c && st.primary_pollutant == p,
            None => false,
        }
}

/// Category and pollutant display labels are injective.
proof fn lemma_label_strs_injective()
    ensures
        forall|c1: AqiCategory, c2: AqiCategory|
            #[trigger] c1.spec_str() == #[trigger] c2.spec_str() ==> c1 == c2,
        forall|p1: Pollutant, p2: Pollutant|
            #[trigger] p1.spec_str() == #[trigger] p2.spec_str() ==> p1 == p2,
{
    reveal_strlit("Good");
    reveal_strlit("Moderate");
    reveal_strlit("Unhealthy for Sensitive Groups");
    reveal_strlit("Unhealthy");
    reveal_strlit("Very Unhealthy");
    reveal_strlit("Hazardous");
    reveal_strlit("PM2.5");
    reveal_strlit("PM10");
    assert("Unhealthy"@[0] != "Hazardous"@[0]);
    assert forall|c1: AqiCategory, c2: AqiCategory|
        #[trigger] c1.spec_str() == #[trigger] c2.spec_str() implies c1 == c2 by {
        assert(c1.spec_str().len() == c2.spec_str().len());
    }
    assert forall|p1: Pollutant, p2: Pollutant|
        #[trigger] p1.spec_str() == #[trigger] p2.spec_str() implies p1 == p2 by {
        assert(p1.spec_str().len() == p2.spec_str().len());
    }
}

proof fn lemma_state_at_some_index(s: Seq<AqiState>, d: Seq<char>, h: Seq<char>)
    requires
        spec_state_at(s, d, h) is Some,
    ensures
        exists|j: int|
            0 <= j < s.len() && ((#[trigger] s[j]).device@, s[j].host@) == (d, h),
    decreases s.len(),
{
    if s.len() > 0 {
        if s[0].device@ == d && s[0].host@ == h {
            assert(((s[0int]).device@, s[0int].host@) == (d, h));
        } else {
            lemma_state_at_some_index(s.drop_first(), d, h);
            let j = choose|j: int|
                0 <= j < s.drop_first().len() && ((#[trigger] s.drop_first()[j]).device@,
                s.drop_first()[j].host@) == (d, h);
            assert(((s[j + 1]).device@, s[j + 1].host@) == (d, h));
        }
    }
}

proof fn lemma_state_at_push(s: Seq<AqiState>, x: AqiState, d: Seq<char>, h: Seq<char>)
    ensures
        spec_state_at(s.push(x), d, h) == if spec_state_at(s, d, h) is Some {
            spec_state_at(s, d, h)
        } else if x.device@ == d && x.host@ == h {
            Some(x)
        } else {
            None::<AqiState>
        },
    decreases s.len(),
{
    if s.len() == 0 {
        assert(s.push(x)[0] == x);
        assert(s.push(x).drop_first() =~= Seq::<AqiState>::empty());
        assert(spec_state_at(Seq::<AqiState>::empty(), d, h) is None);
    } else {
        assert(s.push(x)[0] == s[0]);
        assert(s.push(x).drop_first() =~= s.drop_first().push(x));
        lemma_state_at_push(s.drop_first(), x, d, h);
    }
}

proof fn lemma_state_at_update(s: Seq<AqiState>, i: int, x: AqiState, d: Seq<char>, h: Seq<char>)
    requires
        0 <= i < s.len(),
        (x.device@, x.host@) == ((s[i]).device@, s[i].host@),
        forall|j: int|
            0 <= j < i ==> ((#[trigger] s[j]).device@, s[j].host@) != ((s[i]).device@,
            s[i].host@),
    ensures
        spec_state_at(s.update(i, x), d, h) == if x.device@ == d && x.host@ == h {
            Some(x)
        } else {
            spec_state_at(s, d, h)
        },
    decreases s.len(),
{
    if i == 0 {
        assert(s.update(0, x)[0] == x);
        assert(s.update(0, x).drop_first() =~= s.drop_first());
    } else {
        assert(s.update(i, x)[0] == s[0]);
        assert(s.update(i, x).drop_first() =~= s.drop_first().update(i - 1, x));
        assert(forall|j: int| 0 <= j < i - 1 ==> #[trigger] s.drop_first()[j] == s[j + 1]);
        lemma_state_at_update(s.drop_first(), i - 1, x, d, h);
    }
}

impl Metrics {
    /// Every device key's `aqi_info` series agree with its recorded state.
    pub open spec fn info_sync(self) -> bool {
        forall|d: Seq<char>, h: Seq<char>| #[trigger] spec_info_ok(self.series@, self.aqi_state@, d, h)
    }

    /// The index of the recorded AQI label state for a device key.
    fn find_state(&self, device: &str, host: &str) -> (r: Option<usize>)
        ensures
            match r {
                Some(i) => i < self.aqi_state@.len() && ((self.aqi_state@[i as int]).device@,
                self.aqi_state@[i as int].host@) == (device@, host@) && forall|j: int|
                    0 <= j < i ==> ((#[trigger] self.aqi_state@[j]).device@,
                    self.aqi_state@[j].host@) != (device@, host@),
                None => forall|j: int|
                    0 <= j < self.aqi_state@.len() ==> ((#[trigger] self.aqi_state@[j]).device@,
                    self.aqi_state@[j].host@) != (device@, host@),
            },
    {
        let n = self.aqi_state.len();
        let mut k: usize = 0;
        while k < n
            invariant
                n == self.aqi_state@.len(),
                k <= n,
                forall|j: int|
                    0 <= j < k ==> ((#[trigger] self.aqi_state@[j]).device@,
                    self.aqi_state@[j].host@) != (device@, host@),
            decreases n - k,
        {
            let st = &self.aqi_state[k];
            if str_eq(st.device.as_str(), device) && str_eq(st.host.as_str(), host) {
                return Some(k);
            }
            k += 1;
        }
        None
    }

    /// Record the last exposed category and pollutant for a device key.
    fn set_state(&mut self, device: &str, host: &str, category: AqiCategory, pollutant: Pollutant)
        requires
            old(self).wf(),
        ensures
            final(self).wf(),
            final(self).series@ == old(self).series@,
            match spec_state_at(final(self).aqi_state@, device@, host@) {
                Some(st) => st.device@ == device@ && st.host@ == host@ && st.category == category
                    && st.primary_pollutant == pollutant,
                None => false,
            },
            forall|d2: Seq<char>, h2: Seq<char>|
                !(d2 == device@ && h2 == host@) ==> spec_state_at(
                    final(self).aqi_state@,
                    d2,
                    h2,
                ) == spec_state_at(old(self).aqi_state@, d2, h2),
    {
        let ghost s0 = self.aqi_state@;
        let x = AqiState {
            device: String::from_str(device),
            host: String::from_str(host),
            category,
            primary_pollutant: pollutant,
        };
        match self.find_state(device, host) {
            Some(i) => {
                self.aqi_state[i] = x;
                proof {
                    assert forall|d2: Seq<char>, h2: Seq<char>|
                        spec_state_at(self.aqi_state@, d2, h2) == if x.device@ == d2 && x.host@
                            == h2 {
                            Some(x)
                        } else {
                            spec_state_at(s0, d2, h2)
                        } by {
                        lemma_state_at_update(s0, i as int, x, d2, h2);
                    }
                    assert forall|a: int, b: int|
                        0 <= a < b < self.aqi_state@.len() implies ((
                    #[trigger] self.aqi_state@[a]).device@, self.aqi_state@[a].host@) != ((
                    #[trigger] self.aqi_state@[b]).device@, self.aqi_state@[b].host@) by {
                        assert(self.aqi_state@[a] == if a == i as int {
                            x
                        } else {
                            s0[a]
                        });
                        assert(self.aqi_state@[b] == if b == i as int {
                            x
                        } else {
                            s0[b]
                        });
                    }
                }
            },
            None => {
                self.aqi_state.push(x);
                proof {
                    assert forall|d2: Seq<char>, h2: Seq<char>|
                        spec_state_at(self.aqi_state@, d2, h2) == if spec_state_at(
                            s0,
                            d2,
                            h2,
                        ) is Some {
                            spec_state_at(s0, d2, h2)
                        } else if x.device@ == d2 && x.host@ == h2 {
                            Some(x)
                        } else {
                            None::<AqiState>
                        } by {
                        lemma_state_at_push(s0, x, d2, h2);
                    }
                    if spec_state_at(s0, device@, host@) is Some {
                        lemma_state_at_some_index(s0, device@, host@);
                    }
                    assert forall|a: int, b: int|
                        0 <= a < b < self.aqi_state@.len() implies ((
                    #[trigger] self.aqi_state@[a]).device@, self.aqi_state@[a].host@) != ((
                    #[trigger] self.aqi_state@[b]).device@, self.aqi_state@[b].host@) by {
                        if b == s0.len() as int {
                            assert(self.aqi_state@[a] == s0[a]);
                            assert(self.aqi_state@[b] == x);
                        } else {
                            assert(self.aqi_state@[a] == s0[a]);
                            assert(self.aqi_state@[b] == s0[b]);
                        }
                    }
                }
            },
        }
    }
}

proof fn lemma_state_at_first(s: Seq<AqiState>, i: int)
    requires
        0 <= i < s.len(),
        forall|j: int|
            0 <= j < i ==> ((#[trigger] s[j]).device@, s[j].host@) != ((s[i]).device@,
            s[i].host@),
    ensures
        spec_state_at(s, s[i].device@, s[i].host@) == Some(s[i]),
    decreases i,
{
    if i > 0 {
        assert(forall|j: int| 0 <= j < i - 1 ==> #[trigger] s.drop_first()[j] == s[j + 1]);
        lemma_state_at_first(s.drop_first(), i - 1);
    }
}

proof fn lemma_state_at_absent_conv(s: Seq<AqiState>, d: Seq<char>, h: Seq<char>)
    requires
        forall|j: int|
            0 <= j < s.len() ==> ((#[trigger] s[j]).device@, s[j].host@) != (d, h),
    ensures
        spec_state_at(s, d, h) is None,
    decreases s.len(),
{
    if s.len() > 0 {
        assert(forall|j: int| 0 <= j < s.len() - 1 ==> #[trigger] s.drop_first()[j] == s[j + 1]);
        lemma_state_at_absent_conv(s.drop_first(), d, h);
    }
}

/// The four AQI metric names are pairwise distinct.
proof fn lemma_aqi_names_distinct()
    ensures
        "apollo_air1_aqi"@ != "apollo_air1_aqi_pm25"@,
        "apollo_air1_aqi"@ != "apollo_air1_aqi_pm10"@,
        "apollo_air1_aqi"@ != "apollo_air1_aqi_info"@,
        "apollo_air1_aqi_pm25"@ != "apollo_air1_aqi_pm10"@,
        "apollo_air1_aqi_pm25"@ != "apollo_air1_aqi_info"@,
        "apollo_air1_aqi_pm10"@ != "apollo_air1_aqi_info"@,
{
    reveal_strlit("apollo_air1_aqi");
    reveal_strlit("apollo_air1_aqi_pm25");
    reveal_strlit("apollo_air1_aqi_pm10");
    reveal_strlit("apollo_air1_aqi_info");
    assert("apollo_air1_aqi"@.len() == 15);
    assert("apollo_air1_aqi_pm25"@.len() == 20);
    assert("apollo_air1_aqi_pm10"@.len() == 20);
    assert("apollo_air1_aqi_info"@.len() == 20);
    assert("apollo_air1_aqi_pm25"@[18] != "apollo_air1_aqi_pm10"@[18]);
    assert("apollo_air1_aqi_pm25"@[16] != "apollo_air1_aqi_info"@[16]);
    assert("apollo_air1_aqi_pm10"@[16] != "apollo_air1_aqi_info"@[16]);
}

/// The series identities one AQI update may write for a device key.
pub open spec fn spec_aqi_touched(
    n2: Seq<char>,
    l2: Seq<(Seq<char>, Seq<char>)>,
    d: Seq<char>,
    h: Seq<char>,
) -> bool {
    ||| (l2 == spec_dh_labels(d, h) && (n2 == "apollo_air1_aqi"@ || n2 == "apollo_air1_aqi_pm25"@
        || n2 == "apollo_air1_aqi_pm10"@))
    ||| (n2 == "apollo_air1_aqi_info"@ && exists|c: AqiCategory, p: Pollutant|
        l2 == spec_info_labels(d, h, c.spec_str(), p.spec_str()))
}

impl Metrics {
    /// Remove the previously exposed `aqi_info` label combination for a
    /// device key when it differs from the one about to be exposed.
    fn retract_stale_info(
        &mut self,
        device: &str,
        host: &str,
        category: AqiCategory,
        pollutant: Pollutant,
    )
        requires
            old(self).wf(),
            spec_info_ok(old(self).series@, old(self).aqi_state@, device@, host@),
        ensures
            final(self).wf(),
            final(self).aqi_state@ == old(self).aqi_state@,
            forall|c: AqiCategory, p: Pollutant|
                !(c == category && p == pollutant) ==> spec_series_at(
                    final(self).series@,
                    "apollo_air1_aqi_info"@,
                    spec_info_labels(device@, host@, c.spec_str(), p.spec_str()),
                ) is None,
            spec_series_at(
                final(self).series@,
                "apollo_air1_aqi_info"@,
                spec_info_labels(device@, host@, category.spec_str(), pollutant.spec_str()),
            ) == spec_series_at(
                old(self).series@,
                "apollo_air1_aqi_info"@,
                spec_info_labels(device@, host@, category.spec_str(), pollutant.spec_str()),
            ),
            forall|n2: Seq<char>, l2: Seq<(Seq<char>, Seq<char>)>|
                !(n2 == "apollo_air1_aqi_info"@ && exists|c: AqiCategory, p: Pollutant|
                    l2 == spec_info_labels(device@, host@, c.spec_str(), p.spec_str()))
                    ==> spec_series_at(final(self).series@, n2, l2) == spec_series_at(
                    old(self).series@,
                    n2,
                    l2,
                ),
    {
        proof {
            lemma_label_strs_injective();
        }
        let ghost v0 = self.series@;
        let ghost st0 = self.aqi_state@;
        match self.find_state(device, host) {
            Some(i) => {
                let prev_cat = self.aqi_state[i].category;
                let prev_pol = self.aqi_state[i].primary_pollutant;
                proof {
                    lemma_state_at_first(st0, i as int);
                }
                if !(prev_cat == category && prev_pol == pollutant) {
                    let il = info_label_vec(device, host, prev_cat.as_str(), prev_pol.as_str());
                    self.remove("apollo_air1_aqi_info", &il);
                    proof {
                        assert forall|c: AqiCategory, p: Pollutant|
                            !(c == category && p == pollutant) implies spec_series_at(
                            self.series@,
                            "apollo_air1_aqi_info"@,
                            spec_info_labels(device@, host@, c.spec_str(), p.spec_str()),
                        ) is None by {
                            if c == prev_cat && p == prev_pol {
                            } else {
                                assert(spec_info_labels(
                                    device@,
                                    host@,
                                    c.spec_str(),
                                    p.spec_str(),
                                ) != spec_info_labels(
                                    device@,
                                    host@,
                                    prev_cat.spec_str(),
                                    prev_pol.spec_str(),
                                ));
                                assert(spec_series_at(
                                    v0,
                                    "apollo_air1_aqi_info"@,
                                    spec_info_labels(device@, host@, c.spec_str(), p.spec_str()),
                                ) is None);
                            }
                        }
                    }
                } else {
                    proof {
                        assert forall|c: AqiCategory, p: Pollutant|
                            !(c == category && p == pollutant) implies spec_series_at(
                            self.series@,
                            "apollo_air1_aqi_info"@,
                            spec_info_labels(device@, host@, c.spec_str(), p.spec_str()),
                        ) is None by {
                            assert(spec_series_at(
                                v0,
                                "apollo_air1_aqi_info"@,
                                spec_info_labels(device@, host@, c.spec_str(), p.spec_str()),
                            ) is None);
                        }
                    }
                }
            },
            None => {
                proof {
                    lemma_state_at_absent_conv(st0, device@, host@);
                    assert forall|c: AqiCategory, p: Pollutant|
                        !(c == category && p == pollutant) implies spec_series_at(
                        self.series@,
                        "apollo_air1_aqi_info"@,
                        spec_info_labels(device@, host@, c.spec_str(), p.spec_str()),
                    ) is None by {
                        assert(spec_series_at(
                            v0,
                            "apollo_air1_aqi_info"@,
                            spec_info_labels(device@, host@, c.spec_str(), p.spec_str()),
                        ) is None);
                    }
                }
            },
        }
    }

    /// Expose a freshly computed AQI result for a device key: retract the
    /// stale `aqi_info` label combination if the category or pollutant
    /// changed, set the overall and per-pollutant gauges, expose the new
    /// info series, and record the new label state. After the call the
    /// store holds exactly one `aqi_info` label combination for this device
    /// key: the new one.
    fn update_aqi(&mut self, device: &str, host: &str, result: &AqiResult)
        requires
            old(self).wf(),
            old(self).info_sync(),
        ensures
            final(self).wf(),
            final(self).info_sync(),
            spec_series_at(
                final(self).series@,
                "apollo_air1_aqi"@,
                spec_dh_labels(device@, host@),
            ) == Some(100 * (result.aqi as int)),
            match result.pm25_aqi {
                Some(v) => spec_series_at(
                    final(self).series@,
                    "apollo_air1_aqi_pm25"@,
                    spec_dh_labels(device@, host@),
                ) == Some(100 * (v as int)),
                None => spec_series_at(
                    final(self).series@,
                    "apollo_air1_aqi_pm25"@,
                    spec_dh_labels(device@, host@),
                ) == spec_series_at(
                    old(self).series@,
                    "apollo_air1_aqi_pm25"@,
                    spec_dh_labels(device@, host@),
                ),
            },
            match result.pm10_aqi {
                Some(v) => spec_series_at(
                    final(self).series@,
                    "apollo_air1_aqi_pm10"@,
                    spec_dh_labels(device@, host@),
                ) == Some(100 * (v as int)),
                None => spec_series_at(
                    final(self).series@,
                    "apollo_air1_aqi_pm10"@,
                    spec_dh_labels(device@, host@),
                ) == spec_series_at(
                    old(self).series@,
                    "apollo_air1_aqi_pm10"@,
                    spec_dh_labels(device@, host@),
                ),
            },
            forall|c: AqiCategory, p: Pollutant|
                spec_series_at(
                    final(self).series@,
                    "apollo_air1_aqi_info"@,
                    spec_info_labels(device@, host@, c.spec_str(), p.spec_str()),
                ) == if c == result.category && p == result.primary_pollutant {
                    Some(100int)
                } else {
                    None::<int>
                },
            match spec_state_at(final(self).aqi_state@, device@, host@) {
                Some(st) => st.category == result.category && st.primary_pollutant
                    == result.primary_pollutant,
                None => false,
            },
            forall|d2: Seq<char>, h2: Seq<char>|
                !(d2 == device@ && h2 == host@) ==> spec_state_at(
                    final(self).aqi_state@,
                    d2,
                    h2,
                ) == spec_state_at(old(self).aqi_state@, d2, h2),
            forall|n2: Seq<char>, l2: Seq<(Seq<char>, Seq<char>)>|
                !spec_aqi_touched(n2, l2, device@, host@) ==> spec_series_at(
                    final(self).series@,
                    n2,
                    l2,
                ) == spec_series_at(old(self).series@, n2, l2),
    {
        proof {
            lemma_label_strs_injective();
            lemma_aqi_names_distinct();
            assert(spec_info_ok(self.series@, self.aqi_state@, device@, host@));
        }
        let ghost v0 = self.series@;
        let ghost st0 = self.aqi_state@;
        self.retract_stale_info(device, host, result.category, result.primary_pollutant);
        let ghost v1 = self.series@;
        self.set("apollo_air1_aqi", dh_label_vec(device, host), (result.aqi as i64) * 100);
        let ghost v2 = self.series@;
        if let Some(v) = result.pm25_aqi {
            self.set("apollo_air1_aqi_pm25", dh_label_vec(device, host), (v as i64) * 100);
        }
        let ghost v3 = self.series@;
        if let Some(v) = result.pm10_aqi {
            self.set("apollo_air1_aqi_pm10", dh_label_vec(device, host), (v as i64) * 100);
        }
        let ghost v4 = self.series@;
        let il_new = info_label_vec(
            device,
            host,
            result.category.as_str(),
            result.primary_pollutant.as_str(),
        );
        self.set("apollo_air1_aqi_info", il_new, 100);
        let ghost v5 = self.series@;
        self.set_state(device, host, result.category, result.primary_pollutant);
        proof {
            let d = device@;
            let h = host@;
            let dh = spec_dh_labels(d, h);
            let info = "apollo_air1_aqi_info"@;
            // the new info series, and no other, is exposed for this key
            assert forall|c: AqiCategory, p: Pollutant|
                spec_series_at(
                    self.series@,
                    info,
                    spec_info_labels(d, h, c.spec_str(), p.spec_str()),
                ) == if c == result.category && p == result.primary_pollutant {
                    Some(100int)
                } else {
                    None::<int>
                } by {
                let l = spec_info_labels(d, h, c.spec_str(), p.spec_str());
                if c == result.category && p == result.primary_pollutant {
                    assert(spec_series_at(v5, info, l) == Some(100int));
                } else {
                    assert(l != spec_info_labels(
                        d,
                        h,
                        result.category.spec_str(),
                        result.primary_pollutant.spec_str(),
                    ));
                    assert(spec_series_at(v1, info, l) is None);
                    assert(spec_series_at(v2, info, l) is None);
                    assert(spec_series_at(v3, info, l) is None);
                    assert(spec_series_at(v4, info, l) is None);
                    assert(spec_series_at(v5, info, l) is None);
                }
            }
            // the whole store still satisfies the info/state correspondence
            assert forall|d2: Seq<char>, h2: Seq<char>| #[trigger] spec_info_ok(
                self.series@,
                self.aqi_state@,
                d2,
                h2,
            ) by {
                if d2 == d && h2 == h {
                } else {
                    assert forall|c: AqiCategory, p: Pollutant|
                        spec_series_at(
                            self.series@,
                            info,
                            spec_info_labels(d2, h2, c.spec_str(), p.spec_str()),
                        ) is Some implies match spec_state_at(self.aqi_state@, d2, h2) {
                        Some(st) => st.category == c && st.primary_pollutant == p,
                        None => false,
                    } by {
                        let l = spec_info_labels(d2, h2, c.spec_str(), p.spec_str());
                        assert(l[0] == ("device"@, d2));
                        assert(l != spec_info_labels(
                            d,
                            h,
                            result.category.spec_str(),
                            result.primary_pollutant.spec_str(),
                        ));
                        assert(l != dh);
                        assert(spec_series_at(v1, info, l) == spec_series_at(v0, info, l));
                        assert(spec_series_at(v5, info, l) == spec_series_at(v0, info, l));
                        assert(spec_info_ok(v0, st0, d2, h2));
                    }
                }
            }
            // untouched series identities kept their values
            assert forall|n2: Seq<char>, l2: Seq<(Seq<char>, Seq<char>)>|
                !spec_aqi_touched(n2, l2, d, h) implies spec_series_at(self.series@, n2, l2)
                == spec_series_at(v0, n2, l2) by {
                assert(spec_series_at(v1, n2, l2) == spec_series_at(v0, n2, l2));
                assert(spec_series_at(v2, n2, l2) == spec_series_at(v1, n2, l2));
                assert(spec_series_at(v3, n2, l2) == spec_series_at(v2, n2, l2));
                assert(spec_series_at(v4, n2, l2) == spec_series_at(v3, n2, l2));
                assert(spec_series_at(v5, n2, l2) == spec_series_at(v4, n2, l2));
            }
        }
    }
}

/// The fixed mapping from catalog channel id to exposed metric name; an
/// unrecognized channel id maps to nothing and is dropped by the fold.
pub open spec fn spec_metric_for(id: Seq<char>) -> Option<Seq<char>> {
    if id == "co2"@ {
        Some("apollo_air1_co2_ppm"@)
    } else if id == "pm__1_m_weight_concentration"@ {
        Some("apollo_air1_pm1_0_ugm3"@)
    } else if id == "pm__2_5_m_weight_concentration"@ {
        Some("apollo_air1_pm2_5_ugm3"@)
    } else if id == "pm__10_m_weight_concentration"@ {
        Some("apollo_air1_pm10_0_ugm3"@)
    } else if id == "sen55_voc"@ {
        Some("apollo_air1_voc_index"@)
    } else if id == "sen55_nox"@ {
        Some("apollo_air1_nox_index"@)
    } else if id == "sen55_temperature"@ {
        Some("apollo_air1_temperature_celsius"@)
    } else if id == "sen55_humidity"@ {
        Some("apollo_air1_humidity_percent"@)
    } else if id == "dps310_pressure"@ {
        Some("apollo_air1_pressure_hpa"@)
    } else if id == "illuminance"@ {
        Some("apollo_air1_illuminance_lux"@)
    } else if id == "esp_temperature"@ {
        Some("apollo_air1_esp_temperature_celsius"@)
    } else if id == "rssi"@ {
        Some("apollo_air1_wifi_rssi_dbm"@)
    } else {
        None
    }
}

/// The metric names the channel fold writes: the twelve channel gauges and
/// the device-up gauge.
pub open spec fn spec_fold_metric_name(n: Seq<char>) -> bool {
    ||| n == "apollo_air1_device_up"@
    ||| n == "apollo_air1_co2_ppm"@
    ||| n == "apollo_air1_pm1_0_ugm3"@
    ||| n == "apollo_air1_pm2_5_ugm3"@
    ||| n == "apollo_air1_pm10_0_ugm3"@
    ||| n == "apollo_air1_voc_index"@
    ||| n == "apollo_air1_nox_index"@
    ||| n == "apollo_air1_temperature_celsius"@
    ||| n == "apollo_air1_humidity_percent"@
    ||| n == "apollo_air1_pressure_hpa"@
    ||| n == "apollo_air1_illuminance_lux"@
    ||| n == "apollo_air1_esp_temperature_celsius"@
    ||| n == "apollo_air1_wifi_rssi_dbm"@
}

/// What the fold stores for a channel: the raw centi value, except the
/// signal-strength gauge, which is exposed as a whole number of dBm.
pub open spec fn spec_stored_centi(id: Seq<char>, v: int) -> int {
    if id == "rssi"@ {
        spec_trunc_whole_centi(v)
    } else {
        v
    }
}

/// The channel-to-metric mapping is injective, and its names are the fold's
/// own: none of them is the device-up gauge or one of the AQI series.
proof fn lemma_fold_names()
    ensures
        forall|a: Seq<char>, b: Seq<char>|
            a != b && #[trigger] spec_metric_for(a) is Some && #[trigger] spec_metric_for(
                b,
            ) is Some ==> spec_metric_for(a) != spec_metric_for(b),
        forall|a: Seq<char>|
            #[trigger] spec_metric_for(a) matches Some(m) ==> spec_fold_metric_name(m) && m
                != "apollo_air1_device_up"@ && m != "apollo_air1_aqi"@ && m
                != "apollo_air1_aqi_pm25"@ && m != "apollo_air1_aqi_pm10"@ && m
                != "apollo_air1_aqi_info"@,
        forall|n: Seq<char>|
            #[trigger] spec_fold_metric_name(n) ==> n != "apollo_air1_aqi"@ && n
                != "apollo_air1_aqi_pm25"@ && n != "apollo_air1_aqi_pm10"@ && n
                != "apollo_air1_aqi_info"@,
{
    reveal_strlit("apollo_air1_device_up");
    reveal_strlit("apollo_air1_co2_ppm");
    reveal_strlit("apollo_air1_pm1_0_ugm3");
    reveal_strlit("apollo_air1_pm2_5_ugm3");
    reveal_strlit("apollo_air1_pm10_0_ugm3");
    reveal_strlit("apollo_air1_voc_index");
    reveal_strlit("apollo_air1_nox_index");
    reveal_strlit("apollo_air1_temperature_celsius");
    reveal_strlit("apollo_air1_humidity_percent");
    reveal_strlit("apollo_air1_pressure_hpa");
    reveal_strlit("apollo_air1_illuminance_lux");
    reveal_strlit("apollo_air1_esp_temperature_celsius");
    reveal_strlit("apollo_air1_wifi_rssi_dbm");
    reveal_strlit("apollo_air1_aqi");
    reveal_strlit("apollo_air1_aqi_pm25");
    reveal_strlit("apollo_air1_aqi_pm10");
    reveal_strlit("apollo_air1_aqi_info");
    assert("apollo_air1_device_up"@.len() == 21);
    assert("apollo_air1_co2_ppm"@.len() == 19);
    assert("apollo_air1_pm1_0_ugm3"@.len() == 22);
    assert("apollo_air1_pm2_5_ugm3"@.len() == 22);
    assert("apollo_air1_pm10_0_ugm3"@.len() == 23);
    assert("apollo_air1_voc_index"@.len() == 21);
    assert("apollo_air1_nox_index"@.len() == 21);
    assert("apollo_air1_temperature_celsius"@.len() == 31);
    assert("apollo_air1_humidity_percent"@.len() == 28);
    assert("apollo_air1_pressure_hpa"@.len() == 24);
    assert("apollo_air1_illuminance_lux"@.len() == 27);
    assert("apollo_air1_esp_temperature_celsius"@.len() == 35);
    assert("apollo_air1_wifi_rssi_dbm"@.len() == 25);
    assert("apollo_air1_aqi"@.len() == 15);
    assert("apollo_air1_aqi_pm25"@.len() == 20);
    assert("apollo_air1_aqi_pm10"@.len() == 20);
    assert("apollo_air1_aqi_info"@.len() == 20);
    assert("apollo_air1_pm1_0_ugm3"@[14] != "apollo_air1_pm2_5_ugm3"@[14]);
    assert("apollo_air1_voc_index"@[12] != "apollo_air1_nox_index"@[12]);
    assert("apollo_air1_device_up"@[12] != "apollo_air1_voc_index"@[12]);
    assert("apollo_air1_device_up"@[12] != "apollo_air1_nox_index"@[12]);
}

/// Everything one device update may write: the fold's gauges under the
/// device's `{device, host}` labels, and the AQI series for that key.
pub open spec fn spec_device_touched(
    n2: Seq<char>,
    l2: Seq<(Seq<char>, Seq<char>)>,
    d: Seq<char>,
    h: Seq<char>,
) -> bool {
    ||| (l2 == spec_dh_labels(d, h) && spec_fold_metric_name(n2))
    ||| spec_aqi_touched(n2, l2, d, h)
}

/// The exposed metric name for a catalog channel id.
fn metric_for(id: &str) -> (r: Option<&'static str>)
    ensures
        match r {
            Some(m) => spec_metric_for(id@) == Some(m@),
            None => spec_metric_for(id@) is None,
        },
{
    if str_eq(id, "co2") {
        Some("apollo_air1_co2_ppm")
    } else if str_eq(id, "pm__1_m_weight_concentration") {
        Some("apollo_air1_pm1_0_ugm3")
    } else if str_eq(id, "pm__2_5_m_weight_concentration") {
        Some("apollo_air1_pm2_5_ugm3")
    } else if str_eq(id, "pm__10_m_weight_concentration") {
        Some("apollo_air1_pm10_0_ugm3")
    } else if str_eq(id, "sen55_voc") {
        Some("apollo_air1_voc_index")
    } else if str_eq(id, "sen55_nox") {
        Some("apollo_air1_nox_index")
    } else if str_eq(id, "sen55_temperature") {
        Some("apollo_air1_temperature_celsius")
    } else if str_eq(id, "sen55_humidity") {
        Some("apollo_air1_humidity_percent")
    } else if str_eq(id, "dps310_pressure") {
        Some("apollo_air1_pressure_hpa")
    } else if str_eq(id, "illuminance") {
        Some("apollo_air1_illuminance_lux")
    } else if str_eq(id, "esp_temperature") {
        Some("apollo_air1_esp_temperature_celsius")
    } else if str_eq(id, "rssi") {
        Some("apollo_air1_wifi_rssi_dbm")
    } else {
        None
    }
}

/// The value the fold stores for a channel.
fn stored_centi(id: &str, v: i64) -> (r: i64)
    ensures
        r as int == spec_stored_centi(id@, v as int),
{
    if str_eq(id, "rssi") {
        trunc_whole_centi(v)
    } else {
        v
    }
}

impl Metrics {
    /// Fold one successful device poll into the store: mark the device up,
    /// write every recognized channel's gauge under the device's
    /// `{device, host}` labels (unknown channels are dropped), and, when a
    /// particulate reading allows it, derive and expose the AQI series with
    /// the stale `aqi_info` label combination retracted. Series of other
    /// devices, and unrelated series, stay exactly as they were.
    pub fn update_device(&mut self, host: &str, status: &ApolloStatus)
        requires
            old(self).wf(),
            old(self).info_sync(),
            status_wf(*status),
        ensures
            final(self).wf(),
            final(self).info_sync(),
            spec_series_at(
                final(self).series@,
                "apollo_air1_device_up"@,
                spec_dh_labels(status.device_name@, host@),
            ) == Some(100int),
            forall|i: int|
                0 <= i < status.sensors@.len() ==> match spec_metric_for(
                    (#[trigger] status.sensors@[i]).0@,
                ) {
                    Some(m) => spec_series_at(
                        final(self).series@,
                        m,
                        spec_dh_labels(status.device_name@, host@),
                    ) == Some(
                        spec_stored_centi(
                            status.sensors@[i].0@,
                            status.sensors@[i].1.value_centi as int,
                        ),
                    ),
                    None => true,
                },
            ({
                let d = status.device_name@;
                let h = host@;
                let s25 = spec_pm25_sub(
                    spec_channel_value(*status, "pm__2_5_m_weight_concentration"@),
                );
                let s10 = spec_pm10_sub(
                    spec_channel_value(*status, "pm__10_m_weight_concentration"@),
                );
                if s25 is Some || s10 is Some {
                    let overall = spec_overall(s25, s10);
                    &&& spec_series_at(
                        final(self).series@,
                        "apollo_air1_aqi"@,
                        spec_dh_labels(d, h),
                    ) == Some(100 * overall)
                    &&& match s25 {
                        Some(v) => spec_series_at(
                            final(self).series@,
                            "apollo_air1_aqi_pm25"@,
                            spec_dh_labels(d, h),
                        ) == Some(100 * v),
                        None => spec_series_at(
                            final(self).series@,
                            "apollo_air1_aqi_pm25"@,
                            spec_dh_labels(d, h),
                        ) == spec_series_at(
                            old(self).series@,
                            "apollo_air1_aqi_pm25"@,
                            spec_dh_labels(d, h),
                        ),
                    }
                    &&& match s10 {
                        Some(v) => spec_series_at(
                            final(self).series@,
                            "apollo_air1_aqi_pm10"@,
                            spec_dh_labels(d, h),
                        ) == Some(100 * v),
                        None => spec_series_at(
                            final(self).series@,
                            "apollo_air1_aqi_pm10"@,
                            spec_dh_labels(d, h),
                        ) == spec_series_at(
                            old(self).series@,
                            "apollo_air1_aqi_pm10"@,
                            spec_dh_labels(d, h),
                        ),
                    }
                    &&& forall|c: AqiCategory, p: Pollutant|
                        spec_series_at(
                            final(self).series@,
                            "apollo_air1_aqi_info"@,
                            spec_info_labels(d, h, c.spec_str(), p.spec_str()),
                        ) == if c == spec_category(overall) && p == spec_primary(s25, s10) {
                            Some(100int)
                        } else {
                            None::<int>
                        }
                    &&& match spec_state_at(final(self).aqi_state@, d, h) {
                        Some(st) => st.category == spec_category(overall)
                            && st.primary_pollutant == spec_primary(s25, s10),
                        None => false,
                    }
                } else {
                    &&& spec_series_at(
                        final(self).series@,
                        "apollo_air1_aqi"@,
                        spec_dh_labels(d, h),
                    ) == spec_series_at(
                        old(self).series@,
                        "apollo_air1_aqi"@,
                        spec_dh_labels(d, h),
                    )
                    &&& spec_series_at(
                        final(self).series@,
                        "apollo_air1_aqi_pm25"@,
                        spec_dh_labels(d, h),
                    ) == spec_series_at(
                        old(self).series@,
                        "apollo_air1_aqi_pm25"@,
                        spec_dh_labels(d, h),
                    )
                    &&& spec_series_at(
                        final(self).series@,
                        "apollo_air1_aqi_pm10"@,
                        spec_dh_labels(d, h),
                    ) == spec_series_at(
                        old(self).series@,
                        "apollo_air1_aqi_pm10"@,
                        spec_dh_labels(d, h),
                    )
                    &&& forall|c: AqiCategory, p: Pollutant|
                        spec_series_at(
                            final(self).series@,
                            "apollo_air1_aqi_info"@,
                            #[trigger] spec_info_labels(d, h, c.spec_str(), p.spec_str()),
                        ) == spec_series_at(
                            old(self).series@,
                            "apollo_air1_aqi_info"@,
                            spec_info_labels(d, h, c.spec_str(), p.spec_str()),
                        )
                    &&& spec_state_at(final(self).aqi_state@, d, h) == spec_state_at(
                        old(self).aqi_state@,
                        d,
                        h,
                    )
                }
            }),
            forall|d2: Seq<char>, h2: Seq<char>|
                !(d2 == status.device_name@ && h2 == host@) ==> spec_state_at(
                    final(self).aqi_state@,
                    d2,
                    h2,
                ) == spec_state_at(old(self).aqi_state@, d2, h2),
            forall|n2: Seq<char>, l2: Seq<(Seq<char>, Seq<char>)>|
                !spec_device_touched(n2, l2, status.device_name@, host@) ==> spec_series_at(
                    final(self).series@,
                    n2,
                    l2,
                ) == spec_series_at(old(self).series@, n2, l2),
    {
        proof {
            lemma_fold_names();
            lemma_aqi_names_distinct();
        }
        let ghost v0 = self.series@;
        let ghost st0 = self.aqi_state@;
        let ghost d = status.device_name@;
        let ghost h = host@;
        let ghost dh = spec_dh_labels(d, h);
        let device: &str = status.device_name.as_str();
        self.set("apollo_air1_device_up", dh_label_vec(device, host), 100);
        proof {
            assert(spec_fold_metric_name("apollo_air1_device_up"@));
            assert forall|d2: Seq<char>, h2: Seq<char>| #[trigger] spec_info_ok(
                self.series@,
                self.aqi_state@,
                d2,
                h2,
            ) by {
                assert(spec_info_ok(v0, st0, d2, h2));
                assert forall|c: AqiCategory, p: Pollutant|
                    spec_series_at(
                        self.series@,
                        "apollo_air1_aqi_info"@,
                        #[trigger] spec_info_labels(d2, h2, c.spec_str(), p.spec_str()),
                    ) == spec_series_at(
                        v0,
                        "apollo_air1_aqi_info"@,
                        spec_info_labels(d2, h2, c.spec_str(), p.spec_str()),
                    ) by {
                    assert("apollo_air1_aqi_info"@ != "apollo_air1_device_up"@);
                }
            }
        }
        let mut pm25: Option<i64> = None;
        let mut pm10: Option<i64> = None;
        let n = status.sensors.len();
        let mut k: usize = 0;
        while k < n
            invariant
                self.wf(),
                self.info_sync(),
                self.aqi_state@ == st0,
                n == status.sensors@.len(),
                k <= n,
                status_wf(*status),
                d == status.device_name@,
                h == host@,
                device@ == d,
                dh == spec_dh_labels(d, h),
                spec_series_at(self.series@, "apollo_air1_device_up"@, dh) == Some(100int),
                forall|i: int|
                    0 <= i < k ==> match spec_metric_for((#[trigger] status.sensors@[i]).0@) {
                        Some(m) => spec_series_at(self.series@, m, dh) == Some(
                            spec_stored_centi(
                                status.sensors@[i].0@,
                                status.sensors@[i].1.value_centi as int,
                            ),
                        ),
                        None => true,
                    },
                match spec_lookup(
                    status.sensors@.take(k as int),
                    "pm__2_5_m_weight_concentration"@,
                ) {
                    Some(sv) => pm25 == Some(sv.value_centi),
                    None => pm25 is None,
                },
                match spec_lookup(
                    status.sensors@.take(k as int),
                    "pm__10_m_weight_concentration"@,
                ) {
                    Some(sv) => pm10 == Some(sv.value_centi),
                    None => pm10 is None,
                },
                forall|n2: Seq<char>, l2: Seq<(Seq<char>, Seq<char>)>|
                    !(l2 == dh && spec_fold_metric_name(n2)) ==> spec_series_at(
                        self.series@,
                        n2,
                        l2,
                    ) == spec_series_at(v0, n2, l2),
                forall|a: Seq<char>, b: Seq<char>|
                    a != b && #[trigger] spec_metric_for(a) is Some && #[trigger] spec_metric_for(
                        b,
                    ) is Some ==> spec_metric_for(a) != spec_metric_for(b),
                forall|a: Seq<char>|
                    #[trigger] spec_metric_for(a) matches Some(m) ==> spec_fold_metric_name(m)
                        && m != "apollo_air1_device_up"@ && m != "apollo_air1_aqi"@ && m
                        != "apollo_air1_aqi_pm25"@ && m != "apollo_air1_aqi_pm10"@ && m
                        != "apollo_air1_aqi_info"@,
            decreases n - k,
        {
            let ghost vk = self.series@;
            let pair = &status.sensors[k];
            match metric_for(pair.0.as_str()) {
                Some(m) => {
                    let value = stored_centi(pair.0.as_str(), pair.1.value_centi);
                    let dhv = dh_label_vec(device, host);
                    proof {
                        assert(labels_view(dhv@) == dh);
                        assert(pair == status.sensors@[k as int]);
                        assert(value as int == spec_stored_centi(
                            status.sensors@[k as int].0@,
                            status.sensors@[k as int].1.value_centi as int,
                        ));
                    }
                    self.set(m, dhv, value);
                    proof {
                        assert(spec_series_at(self.series@, m@, dh) == Some(value as int));
                        assert(spec_metric_for(pair.0@) == Some(m@));
                        assert(spec_fold_metric_name(m@));
                        assert(m@ != "apollo_air1_device_up"@);
                        assert(m@ != "apollo_air1_aqi_info"@);
                        assert forall|i: int|
                            0 <= i < k implies match spec_metric_for(
                            (#[trigger] status.sensors@[i]).0@,
                        ) {
                            Some(mi) => spec_series_at(self.series@, mi, dh) == Some(
                                spec_stored_centi(
                                    status.sensors@[i].0@,
                                    status.sensors@[i].1.value_centi as int,
                                ),
                            ),
                            None => true,
                        } by {
                            assert(status.sensors@[i].0@ != status.sensors@[k as int].0@);
                            match spec_metric_for(status.sensors@[i].0@) {
                                Some(mi) => {
                                    assert(mi != m@);
                                    assert(spec_series_at(self.series@, mi, dh)
                                        == spec_series_at(vk, mi, dh));
                                },
                                None => {
                                },
                            }
                        }
                        assert forall|n2: Seq<char>, l2: Seq<(Seq<char>, Seq<char>)>|
                            !(l2 == dh && spec_fold_metric_name(n2)) implies spec_series_at(
                            self.series@,
                            n2,
                            l2,
                        ) == spec_series_at(v0, n2, l2) by {
                            assert(spec_series_at(self.series@, n2, l2) == spec_series_at(
                                vk,
                                n2,
                                l2,
                            ));
                        }
                        assert forall|d2: Seq<char>, h2: Seq<char>| #[trigger] spec_info_ok(
                            self.series@,
                            self.aqi_state@,
                            d2,
                            h2,
                        ) by {
                            assert(spec_info_ok(vk, st0, d2, h2));
                            assert forall|c: AqiCategory, p: Pollutant|
                                spec_series_at(
                                    self.series@,
                                    "apollo_air1_aqi_info"@,
                                    #[trigger] spec_info_labels(
                                        d2,
                                        h2,
                                        c.spec_str(),
                                        p.spec_str(),
                                    ),
                                ) == spec_series_at(
                                    vk,
                                    "apollo_air1_aqi_info"@,
                                    spec_info_labels(d2, h2, c.spec_str(), p.spec_str()),
                                ) by {
                                assert("apollo_air1_aqi_info"@ != m@);
                            }
                        }
                    }
                },
                None => {
                },
            }
            if str_eq(pair.0.as_str(), "pm__2_5_m_weight_concentration") {
                pm25 = Some(pair.1.value_centi);
            }
            if str_eq(pair.0.as_str(), "pm__10_m_weight_concentration") {
                pm10 = Some(pair.1.value_centi);
            }
            proof {
                let s = status.sensors@;
                assert(s.take(k + 1) =~= s.take(k as int).push(s[k as int]));
                lemma_lookup_push(
                    s.take(k as int),
                    s[k as int],
                    "pm__2_5_m_weight_concentration"@,
                );
                lemma_lookup_push(
                    s.take(k as int),
                    s[k as int],
                    "pm__10_m_weight_concentration"@,
                );
                if spec_lookup(
                    s.take(k as int),
                    "pm__2_5_m_weight_concentration"@,
                ) is Some {
                    crate::apollo::lemma_lookup_some_id(
                        s.take(k as int),
                        "pm__2_5_m_weight_concentration"@,
                    );
                }
                if spec_lookup(
                    s.take(k as int),
                    "pm__10_m_weight_concentration"@,
                ) is Some {
                    crate::apollo::lemma_lookup_some_id(
                        s.take(k as int),
                        "pm__10_m_weight_concentration"@,
                    );
                }
            }
            k += 1;
        }
        proof {
            assert(status.sensors@.take(n as int) =~= status.sensors@);
        }
        let ghost v_folded = self.series@;
        match crate::aqi::calculate_aqi(pm25, pm10) {
            Some(res) => {
                self.update_aqi(device, host, &res);
                proof {
                    assert forall|i: int|
                        0 <= i < status.sensors@.len() implies match spec_metric_for(
                        (#[trigger] status.sensors@[i]).0@,
                    ) {
                        Some(m) => spec_series_at(self.series@, m, dh) == Some(
                            spec_stored_centi(
                                status.sensors@[i].0@,
                                status.sensors@[i].1.value_centi as int,
                            ),
                        ),
                        None => true,
                    } by {
                        match spec_metric_for(status.sensors@[i].0@) {
                            Some(m) => {
                                assert(!spec_aqi_touched(m, dh, d, h));
                            },
                            None => {
                            },
                        }
                    }
                }
            },
            None => {
            },
        }
    }

    /// Mark a device unreachable for this cycle: its `device_up` gauge goes
    /// to zero and every other series keeps its last known value.
    pub fn mark_device_down(&mut self, device_name: &str, host: &str)
        requires
            old(self).wf(),
            old(self).info_sync(),
        ensures
            final(self).wf(),
            final(self).info_sync(),
            spec_series_at(
                final(self).series@,
                "apollo_air1_device_up"@,
                spec_dh_labels(device_name@, host@),
            ) == Some(0int),
            forall|n2: Seq<char>, l2: Seq<(Seq<char>, Seq<char>)>|
                !(n2 == "apollo_air1_device_up"@ && l2 == spec_dh_labels(device_name@, host@))
                    ==> spec_series_at(final(self).series@, n2, l2) == spec_series_at(
                    old(self).series@,
                    n2,
                    l2,
                ),
            final(self).aqi_state@ == old(self).aqi_state@,
    {
        proof {
            lemma_fold_names();
        }
        let ghost v0 = self.series@;
        let ghost st0 = self.aqi_state@;
        self.set("apollo_air1_device_up", dh_label_vec(device_name, host), 0);
        proof {
            assert(spec_fold_metric_name("apollo_air1_device_up"@));
            assert forall|d2: Seq<char>, h2: Seq<char>| #[trigger] spec_info_ok(
                self.series@,
                self.aqi_state@,
                d2,
                h2,
            ) by {
                assert(spec_info_ok(v0, st0, d2, h2));
                assert forall|c: AqiCategory, p: Pollutant|
                    spec_series_at(
                        self.series@,
                        "apollo_air1_aqi_info"@,
                        #[trigger] spec_info_labels(d2, h2, c.spec_str(), p.spec_str()),
                    ) == spec_series_at(
                        v0,
                        "apollo_air1_aqi_info"@,
                        spec_info_labels(d2, h2, c.spec_str(), p.spec_str()),
                    ) by {
                    assert("apollo_air1_aqi_info"@ != "apollo_air1_device_up"@);
                }
            }
        }
    }
}

/// Character-level label tuple equality.
fn labels_eq(a: &Vec<(String, String)>, b: &Vec<(String, String)>) -> (r: bool)
    ensures
        r == (labels_view(a@) == labels_view(b@)),
{
    if a.len() != b.len() {
        proof {
            assert(labels_view(a@).len() != labels_view(b@).len());
        }
        return false;
    }
    let n = a.len();
    let mut i: usize = 0;
    while i < n
        invariant
            i <= n,
            n == a@.len(),
            n == b@.len(),
            forall|j: int|
                0 <= j < i ==> (#[trigger] a@[j]).0@ == b@[j].0@ && a@[j].1@ == b@[j].1@,
        decreases n - i,
    {
        let pa = &a[i];
        let pb = &b[i];
        if !str_eq(pa.0.as_str(), pb.0.as_str()) || !str_eq(pa.1.as_str(), pb.1.as_str()) {
            proof {
                assert(labels_view(a@)[i as int] != labels_view(b@)[i as int]);
            }
            return false;
        }
        i += 1;
    }
    proof {
        assert(labels_view(a@) =~= labels_view(b@));
    }
    true
}

} // verus!
