//! Sensor-device data handling.
//!
//! A device exposes one HTTP endpoint per sensor channel; the surrounding
//! binary fetches them and hands the decoded plain values here. This module
//! owns the channel catalog, the unit extraction from a channel's state
//! string, and the fold of per-channel outcomes into a device status, which
//! succeeds with whatever subset of channels responded and fails only when
//! none did.

use vstd::prelude::*;
use crate::text::{
    centi_to_string, contains_str, find_str, one_decimal_to_string, spec_centi_string,
    spec_contains, spec_find, spec_one_decimal_string, spec_trim, trim_str,
};
use vstd::string::StrSliceExecFns;
use vstd::string::StringExecFns;

verus! {

/// One decoded channel response: the device's channel id, the numeric value
/// in hundredths of its unit, and the raw display state string.
#[derive(Debug, Clone)]
pub struct SensorData {
    pub id: String,
    pub value_centi: i64,
    pub state: String,
}

/// One folded channel reading: value in hundredths, the unit extracted from
/// the state string, and the channel's display name.
#[derive(Debug, Clone)]
pub struct SensorValue {
    pub value_centi: i64,
    pub unit: String,
    pub name: String,
}

/// Everything one poll learned from a device: the responding channels,
/// keyed by catalog channel id (unique), and the device's display name.
#[derive(Debug, Clone)]
pub struct ApolloStatus {
    pub sensors: Vec<(String, SensorValue)>,
    pub device_name: String,
}

/// The fixed channel catalog: catalog channel id and display name.
pub open spec fn spec_known_sensors() -> Seq<(Seq<char>, Seq<char>)> {
    seq![
        ("co2"@, "CO2"@),
        ("sen55_temperature"@, "Temperature"@),
        ("sen55_humidity"@, "Humidity"@),
        ("pm__1_m_weight_concentration"@, "PM1.0"@),
        ("pm__2_5_m_weight_concentration"@, "PM2.5"@),
        ("pm__10_m_weight_concentration"@, "PM10"@),
        ("sen55_voc"@, "VOC"@),
        ("sen55_nox"@, "NOx"@),
        ("dps310_pressure"@, "Pressure"@),
        ("illuminance"@, "Illuminance"@),
        ("esp_temperature"@, "ESP Temperature"@),
        ("rssi"@, "WiFi RSSI"@),
    ]
}

/// A pair-of-strings sequence seen at the character level.
pub open spec fn pairs_view(s: Seq<(String, String)>) -> Seq<(Seq<char>, Seq<char>)> {
    s.map_values(|p: (String, String)| (p.0@, p.1@))
}

/// The channel catalog as executable values.
pub fn known_sensors() -> (v: Vec<(String, String)>)
    ensures
        pairs_view(v@) == spec_known_sensors(),
{
    let mut v: Vec<(String, String)> = Vec::new();
    v.push((String::from_str("co2"), String::from_str("CO2")));
    v.push((String::from_str("sen55_temperature"), String::from_str("Temperature")));
    v.push((String::from_str("sen55_humidity"), String::from_str("Humidity")));
    v.push((String::from_str("pm__1_m_weight_concentration"), String::from_str("PM1.0")));
    v.push((String::from_str("pm__2_5_m_weight_concentration"), String::from_str("PM2.5")));
    v.push((String::from_str("pm__10_m_weight_concentration"), String::from_str("PM10")));
    v.push((String::from_str("sen55_voc"), String::from_str("VOC")));
    v.push((String::from_str("sen55_nox"), String::from_str("NOx")));
    v.push((String::from_str("dps310_pressure"), String::from_str("Pressure")));
    v.push((String::from_str("illuminance"), String::from_str("Illuminance")));
    v.push((String::from_str("esp_temperature"), String::from_str("ESP Temperature")));
    v.push((String::from_str("rssi"), String::from_str("WiFi RSSI")));
    proof {
        assert(pairs_view(v@) =~= spec_known_sensors());
    }
    v
}

/// The device URL for one sensor channel.
pub fn sensor_url(base_url: &str, sensor_id: &str) -> (r: String)
    ensures
        r@ == base_url@ + "/sensor/"@ + sensor_id@,
{
    let mut s = String::from_str(base_url);
    s.append("/sensor/");
    s.append(sensor_id);
    s
}

/// The ordered fallback chain the connectivity test walks: first CO2, then
/// the internal temperature, then uptime.
pub fn connection_probe_order() -> (v: Vec<String>)
    ensures
        v@.len() == 3,
        v@[0]@ == "co2"@,
        v@[1]@ == "esp_temperature"@,
        v@[2]@ == "uptime"@,
{
    let mut v: Vec<String> = Vec::new();
    v.push(String::from_str("co2"));
    v.push(String::from_str("esp_temperature"));
    v.push(String::from_str("uptime"));
    v
}

/// The unit found by containment of a fixed ordered list of known unit
/// substrings, first match winning; empty when none occurs.
pub open spec fn spec_fallback_unit(st: Seq<char>) -> Seq<char> {
    if spec_contains(st, "°C"@) {
        "°C"@
    } else if spec_contains(st, "°F"@) {
        "°F"@
    } else if spec_contains(st, "%"@) {
        "%"@
    } else if spec_contains(st, "ppm"@) {
        "ppm"@
    } else if spec_contains(st, "µg/m³"@) {
        "µg/m³"@
    } else if spec_contains(st, "hPa"@) {
        "hPa"@
    } else if spec_contains(st, "lx"@) {
        "lx"@
    } else if spec_contains(st, "dBm"@) {
        "dBm"@
    } else if spec_contains(st, " s"@) {
        "s"@
    } else {
        Seq::empty()
    }
}

/// The unit of a channel's state string: the text after the value's exact
/// decimal rendering, or after its one-decimal rendering, trimmed; when
/// neither rendering occurs, the first known unit substring contained.
pub open spec fn spec_extract_unit(st: Seq<char>, value_centi: int) -> Seq<char> {
    let exact = spec_centi_string(value_centi);
    let one_dec = spec_one_decimal_string(value_centi);
    match spec_find(st, exact) {
        Some(p) => spec_trim(st.skip(p + exact.len())),
        None => match spec_find(st, one_dec) {
            Some(p) => spec_trim(st.skip(p + one_dec.len())),
            None => spec_fallback_unit(st),
        },
    }
}

/// Extract the unit from a state string such as `"450 ppm"`, given the
/// channel's numeric value in hundredths.
pub fn extract_unit(state: &str, value_centi: i64) -> (r: String)
    ensures
        r@ == spec_extract_unit(state@, value_centi as int),
{
    let sl = state.unicode_len();
    let exact = centi_to_string(value_centi);
    if let Some(p) = find_str(state, exact.as_str()) {
        let el = exact.as_str().unicode_len();
        let rest = state.substring_char(p + el, sl);
        proof {
            assert(rest@ =~= state@.skip(p + exact@.len()));
        }
        return trim_str(rest);
    }
    let one_dec = one_decimal_to_string(value_centi);
    if let Some(p) = find_str(state, one_dec.as_str()) {
        let ol = one_dec.as_str().unicode_len();
        let rest = state.substring_char(p + ol, sl);
        proof {
            assert(rest@ =~= state@.skip(p + one_dec@.len()));
        }
        return trim_str(rest);
    }
    if contains_str(state, "°C") {
        String::from_str("°C")
    } else if contains_str(state, "°F") {
        String::from_str("°F")
    } else if contains_str(state, "%") {
        String::from_str("%")
    } else if contains_str(state, "ppm") {
        String::from_str("ppm")
    } else if contains_str(state, "µg/m³") {
        String::from_str("µg/m³")
    } else if contains_str(state, "hPa") {
        String::from_str("hPa")
    } else if contains_str(state, "lx") {
        String::from_str("lx")
    } else if contains_str(state, "dBm") {
        String::from_str("dBm")
    } else if contains_str(state, " s") {
        String::from_str("s")
    } else {
        String::new()
    }
}

/// The reading stored under a channel id: the first pair with that id.
pub open spec fn spec_lookup(s: Seq<(String, SensorValue)>, id: Seq<char>) -> Option<SensorValue>
    decreases s.len(),
{
    if s.len() == 0 {
        None
    } else if s[0].0@ == id {
        Some(s[0].1)
    } else {
        spec_lookup(s.drop_first(), id)
    }
}

/// Channel ids are unique within a status.
pub open spec fn status_wf(st: ApolloStatus) -> bool {
    forall|i: int, j: int|
        0 <= i < j < st.sensors@.len() ==> (#[trigger] st.sensors@[i]).0@ != (
        #[trigger] st.sensors@[j]).0@
}

/// How many channels responded.
pub open spec fn count_some(rs: Seq<Option<SensorData>>) -> nat
    decreases rs.len(),
{
    if rs.len() == 0 {
        0
    } else {
        count_some(rs.drop_last()) + if rs.last() is Some {
            1nat
        } else {
            0nat
        }
    }
}

pub(crate) proof fn lemma_lookup_push(
    s: Seq<(String, SensorValue)>,
    p: (String, SensorValue),
    id: Seq<char>,
)
    ensures
        spec_lookup(s.push(p), id) == if spec_lookup(s, id) is Some {
            spec_lookup(s, id)
        } else if p.0@ == id {
            Some(p.1)
        } else {
            None::<SensorValue>
        },
    decreases s.len(),
{
    if s.len() == 0 {
        assert(s.push(p)[0] == p);
        assert(s.push(p).drop_first() =~= Seq::<(String, SensorValue)>::empty());
        assert(spec_lookup(Seq::<(String, SensorValue)>::empty(), id) is None);
    } else {
        assert(s.push(p)[0] == s[0]);
        assert(s.push(p).drop_first() =~= s.drop_first().push(p));
        lemma_lookup_push(s.drop_first(), p, id);
    }
}

proof fn lemma_lookup_none_absent(s: Seq<(String, SensorValue)>, id: Seq<char>)
    requires
        spec_lookup(s, id) is None,
    ensures
        forall|j: int| 0 <= j < s.len() ==> (#[trigger] s[j]).0@ != id,
    decreases s.len(),
{
    if s.len() > 0 {
        lemma_lookup_none_absent(s.drop_first(), id);
        assert(forall|j: int|
            1 <= j < s.len() ==> (#[trigger] s[j]).0@ == s.drop_first()[j - 1].0@);
    }
}

proof fn lemma_lookup_first(s: Seq<(String, SensorValue)>, i: int)
    requires
        0 <= i < s.len(),
        forall|j: int| 0 <= j < i ==> (#[trigger] s[j]).0@ != s[i].0@,
    ensures
        spec_lookup(s, s[i].0@) == Some(s[i].1),
    decreases i,
{
    if i > 0 {
        assert(forall|j: int| 0 <= j < i - 1 ==> #[trigger] s.drop_first()[j] == s[j + 1]);
        lemma_lookup_first(s.drop_first(), i - 1);
    }
}

pub(crate) proof fn lemma_lookup_some_id(s: Seq<(String, SensorValue)>, id: Seq<char>)
    requires
        spec_lookup(s, id) is Some,
    ensures
        exists|j: int| 0 <= j < s.len() && (#[trigger] s[j]).0@ == id,
    decreases s.len(),
{
    if s.len() > 0 {
        if s[0].0@ == id {
            assert((s[0int]).0@ == id);
        } else {
            lemma_lookup_some_id(s.drop_first(), id);
            let j = choose|j: int|
                0 <= j < s.drop_first().len() && (#[trigger] s.drop_first()[j]).0@ == id;
            assert((s[j + 1]).0@ == id);
        }
    }
}

proof fn lemma_lookup_absent_conv(s: Seq<(String, SensorValue)>, id: Seq<char>)
    requires
        forall|j: int| 0 <= j < s.len() ==> (#[trigger] s[j]).0@ != id,
    ensures
        spec_lookup(s, id) is None,
    decreases s.len(),
{
    if s.len() > 0 {
        assert(forall|j: int| 0 <= j < s.len() - 1 ==> #[trigger] s.drop_first()[j] == s[j + 1]);
        lemma_lookup_absent_conv(s.drop_first(), id);
    }
}

/// The numeric value a status holds for one channel id.
pub open spec fn spec_channel_value(st: ApolloStatus, id: Seq<char>) -> Option<i64> {
    match spec_lookup(st.sensors@, id) {
        Some(sv) => Some(sv.value_centi),
        None => None,
    }
}

impl ApolloStatus {
    /// The value of one channel by catalog id, when this status holds it.
    pub fn value_of(&self, id: &str) -> (r: Option<i64>)
        ensures
            match spec_lookup(self.sensors@, id@) {
                Some(sv) => r == Some(sv.value_centi),
                None => r is None,
            },
    {
        let n = self.sensors.len();
        let mut k: usize = 0;
        while k < n
            invariant
                n == self.sensors@.len(),
                k <= n,
                forall|j: int| 0 <= j < k ==> (#[trigger] self.sensors@[j]).0@ != id@,
            decreases n - k,
        {
            let pair = &self.sensors[k];
            if crate::text::str_eq(pair.0.as_str(), id) {
                proof {
                    lemma_lookup_first(self.sensors@, k as int);
                }
                return Some(pair.1.value_centi);
            }
            k += 1;
        }
        proof {
            lemma_lookup_absent_conv(self.sensors@, id@);
        }
        None
    }
}

/// The twelve catalog channel ids are pairwise distinct.
proof fn lemma_known_ids_distinct()
    ensures
        forall|i: int, j: int|
            0 <= i < j < spec_known_sensors().len() ==> (#[trigger] spec_known_sensors()[i]).0 != (
            #[trigger] spec_known_sensors()[j]).0,
{
    reveal_strlit("co2");
    reveal_strlit("sen55_temperature");
    reveal_strlit("sen55_humidity");
    reveal_strlit("pm__1_m_weight_concentration");
    reveal_strlit("pm__2_5_m_weight_concentration");
    reveal_strlit("pm__10_m_weight_concentration");
    reveal_strlit("sen55_voc");
    reveal_strlit("sen55_nox");
    reveal_strlit("dps310_pressure");
    reveal_strlit("illuminance");
    reveal_strlit("esp_temperature");
    reveal_strlit("rssi");
    assert("sen55_voc"@[6] != "sen55_nox"@[6]);
    assert("dps310_pressure"@[0] != "esp_temperature"@[0]);
    assert forall|i: int, j: int|
        0 <= i < j < spec_known_sensors().len() implies (#[trigger] spec_known_sensors()[i]).0 != (
    #[trigger] spec_known_sensors()[j]).0 by {
        let s = spec_known_sensors();
        assert(s[i].0.len() != s[j].0.len() || s[i].0 != s[j].0);
    }
}

/// Fold the per-channel fetch outcomes for one device, in catalog order,
/// into a device status: the responding channels are stored under their
/// catalog ids with their extracted units; the fold fails exactly when no
/// channel responded.
pub fn build_status(device_name: &str, results: &Vec<Option<SensorData>>) -> (r: Option<
    ApolloStatus,
>)
    requires
        results@.len() == spec_known_sensors().len(),
    ensures
        match r {
            Some(st) => {
                &&& count_some(results@) > 0
                &&& st.device_name@ == device_name@
                &&& status_wf(st)
                &&& st.sensors@.len() == count_some(results@)
                &&& forall|i: int|
                    0 <= i < results@.len() ==> match #[trigger] results@[i] {
                        Some(d) => match spec_lookup(
                            st.sensors@,
                            spec_known_sensors()[i].0,
                        ) {
                            Some(sv) => sv.value_centi == d.value_centi && sv.unit@
                                == spec_extract_unit(d.state@, d.value_centi as int) && sv.name@
                                == spec_known_sensors()[i].1,
                            None => false,
                        },
                        None => spec_lookup(st.sensors@, spec_known_sensors()[i].0) is None,
                    }
            },
            None => count_some(results@) == 0,
        },
{
    proof {
        lemma_known_ids_distinct();
    }
    let catalog = known_sensors();
    let mut sensors: Vec<(String, SensorValue)> = Vec::new();
    let n = results.len();
    let mut k: usize = 0;
    while k < n
        invariant
            n == results@.len(),
            results@.len() == spec_known_sensors().len(),
            pairs_view(catalog@) == spec_known_sensors(),
            catalog@.len() == spec_known_sensors().len(),
            0 <= k <= n,
            sensors@.len() == count_some(results@.take(k as int)),
            forall|i: int, j: int|
                0 <= i < j < spec_known_sensors().len() ==> (#[trigger] spec_known_sensors()[i]).0
                    != (#[trigger] spec_known_sensors()[j]).0,
            forall|i: int|
                0 <= i < k ==> match #[trigger] results@[i] {
                    Some(d) => match spec_lookup(sensors@, spec_known_sensors()[i].0) {
                        Some(sv) => sv.value_centi == d.value_centi && sv.unit@
                            == spec_extract_unit(d.state@, d.value_centi as int) && sv.name@
                            == spec_known_sensors()[i].1,
                        None => false,
                    },
                    None => spec_lookup(sensors@, spec_known_sensors()[i].0) is None,
                },
            forall|i: int|
                k <= i < spec_known_sensors().len() ==> spec_lookup(
                    sensors@,
                    spec_known_sensors()[i].0,
                ) is None,
            forall|j1: int, j2: int|
                0 <= j1 < j2 < sensors@.len() ==> (#[trigger] sensors@[j1]).0@ != (
                #[trigger] sensors@[j2]).0@,
        decreases n - k,
    {
        let ghost old_sensors = sensors@;
        match &results[k] {
            Some(d) => {
                let unit = extract_unit(d.state.as_str(), d.value_centi);
                let id = catalog[k].0.clone();
                let name = catalog[k].1.clone();
                let sv = SensorValue { value_centi: d.value_centi, unit, name };
                proof {
                    assert(id@ == spec_known_sensors()[k as int].0);
                    lemma_lookup_none_absent(old_sensors, spec_known_sensors()[k as int].0);
                }
                sensors.push((id, sv));
                proof {
                    let pair = (id, sv);
                    assert forall|i: int| 0 <= i < spec_known_sensors().len() implies spec_lookup(
                        sensors@,
                        spec_known_sensors()[i].0,
                    ) == if spec_lookup(old_sensors, spec_known_sensors()[i].0) is Some {
                        spec_lookup(old_sensors, spec_known_sensors()[i].0)
                    } else if i == k {
                        Some(sv)
                    } else {
                        None::<SensorValue>
                    } by {
                        lemma_lookup_push(old_sensors, pair, spec_known_sensors()[i].0);
                    }
                }
            },
            None => {
            },
        }
        proof {
            assert(results@.take(k + 1).drop_last() =~= results@.take(k as int));
            assert(results@.take(k + 1).last() == results@[k as int]);
        }
        k += 1;
    }
    proof {
        assert(results@.take(n as int) =~= results@);
    }
    if sensors.len() == 0 {
        None
    } else {
        Some(ApolloStatus { sensors, device_name: String::from_str(device_name) })
    }
}

/// The connectivity verdict over the fallback attempts: connected exactly
/// when any attempted channel returned a reading.
pub fn connection_established(attempts: &Vec<bool>) -> (r: bool)
    ensures
        r == exists|i: int| 0 <= i < attempts@.len() && attempts@[i],
{
    let mut k: usize = 0;
    while k < attempts.len()
        invariant
            k <= attempts@.len(),
            forall|i: int| 0 <= i < k ==> !attempts@[i],
        decreases attempts@.len() - k,
    {
        if attempts[k] {
            return true;
        }
        k += 1;
    }
    false
}

} // verus!
