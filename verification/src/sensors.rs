//! Picking the CPU temperature out of the machine's temperature sensors:
//! the hottest reading among the sensors whose lowercased label mentions
//! "cpu", "core", "processor" or "tctl".

use vstd::prelude::*;
use vstd::string::*;

use crate::temperature::Celsius;

verus! {

/// What std's `str::to_lowercase` returns for a string: its Unicode
/// lowercase mapping, which depends on the string alone.
pub uninterp spec fn lowercase(s: Seq<char>) -> Seq<char>;

/// Calls std's `str::to_lowercase`. Its contract only ties the result to
/// the argument through [`lowercase`]; nothing is stated of the mapping.
#[verifier::external_body]
fn to_lowercase(s: &str) -> (r: String)
    ensures
        r@ == lowercase(s@),
{
    s.to_lowercase()
}

/// `needle` occurs in `hay` starting at position `i`.
pub open spec fn occurs_at(hay: Seq<char>, needle: Seq<char>, i: int) -> bool {
    0 <= i && i + needle.len() <= hay.len() && hay.subrange(i, i + needle.len()) == needle
}

/// `needle` occurs somewhere in `hay`.
pub open spec fn occurs_in(hay: Seq<char>, needle: Seq<char>) -> bool {
    exists|i: int| occurs_at(hay, needle, i)
}

/// Whether `needle` occurs in `hay`.
pub fn contains_text(hay: &str, needle: &str) -> (r: bool)
    ensures
        r == occurs_in(hay@, needle@),
{
    let hl = hay.unicode_len();
    let nl = needle.unicode_len();
    if nl > hl {
        assert forall|i: int| !occurs_at(hay@, needle@, i) by {}
        return false;
    }
    let last = hl - nl;
    let mut i: usize = 0;
    while i <= last
        invariant
            hl == hay@.len(),
            nl == needle@.len(),
            nl <= hl,
            last == hl - nl,
            i <= last + 1,
            forall|k: int| 0 <= k < i ==> !occurs_at(hay@, needle@, k),
        decreases last + 1 - i,
    {
        let mut j: usize = 0;
        let mut same = true;
        while j < nl && same
            invariant
                hl == hay@.len(),
                nl == needle@.len(),
                i + nl <= hl,
                j <= nl,
                same ==> forall|m: int| 0 <= m < j ==> hay@[i + m] == needle@[m],
                !same ==> j > 0 && hay@[i + j - 1] != needle@[j - 1],
            decreases nl - j + (if same { 1int } else { 0int }),
        {
            if hay.get_char(i + j) != needle.get_char(j) {
                same = false;
            }
            j = j + 1;
        }
        if same {
            assert(hay@.subrange(i as int, i + nl) =~= needle@);
            assert(occurs_at(hay@, needle@, i as int));
            return true;
        }
        proof {
            if occurs_at(hay@, needle@, i as int) {
                assert(hay@.subrange(i as int, i + nl)[j - 1] == hay@[i + j - 1]);
            }
        }
        i = i + 1;
    }
    assert forall|k: int| !occurs_at(hay@, needle@, k) by {
        if 0 <= k < i {
        } else if k > last {
        }
    }
    false
}

/// The label of a sensor names the CPU, once lowercased.
pub open spec fn mentions_cpu_keyword(lowered: Seq<char>) -> bool {
    ||| occurs_in(lowered, "cpu"@)
    ||| occurs_in(lowered, "core"@)
    ||| occurs_in(lowered, "processor"@)
    ||| occurs_in(lowered, "tctl"@)
}

/// Whether an already lowercased label names the CPU.
pub fn mentions_cpu(lowered: &str) -> (r: bool)
    ensures
        r == mentions_cpu_keyword(lowered@),
{
    contains_text(lowered, "cpu") || contains_text(lowered, "core") || contains_text(
        lowered,
        "processor",
    ) || contains_text(lowered, "tctl")
}

/// Whether a sensor label names the CPU.
pub fn is_cpu_label(label: &str) -> (r: bool)
    ensures
        r == mentions_cpu_keyword(lowercase(label@)),
{
    let lowered = to_lowercase(label);
    mentions_cpu(lowered.as_str())
}

/// One temperature sensor: its label and what it reads.
#[derive(Debug)]
pub struct SensorReading {
    pub label: String,
    pub temperature: Celsius,
}

/// `a > b` as binary64 comparison: false when either is NaN.
pub open spec fn hotter(a: Celsius, b: Celsius) -> bool {
    !a.nan() && !b.nan() && a.key() > b.key()
}

/// The hottest of `temps` as found by keeping the first reading and
/// replacing it by each later reading that is hotter (so a NaN first
/// reading is kept, and later NaN readings are passed over).
pub open spec fn running_max(temps: Seq<Celsius>) -> Option<Celsius>
    decreases temps.len(),
{
    if temps.len() == 0 {
        None
    } else {
        let last = temps.last();
        match running_max(temps.drop_last()) {
            None => Some(last),
            Some(cur) => if hotter(last, cur) {
                Some(last)
            } else {
                Some(cur)
            },
        }
    }
}

/// When the first reading is not NaN, the result is one of the readings, is
/// not NaN, and is at least as hot as every reading that is not NaN.
pub proof fn lemma_running_max_is_hottest(temps: Seq<Celsius>)
    requires
        temps.len() > 0,
        !temps[0].nan(),
    ensures
        running_max(temps) is Some,
        temps.contains(running_max(temps)->Some_0),
        !(running_max(temps)->Some_0).nan(),
        forall|i: int|
            0 <= i < temps.len() && !(#[trigger] temps[i]).nan() ==> temps[i].key() <= (running_max(
                temps,
            )->Some_0).key(),
    decreases temps.len(),
{
    if temps.len() == 1 {
        assert(temps.drop_last().len() == 0);
        assert(temps.contains(temps[0]));
    } else {
        let prefix = temps.drop_last();
        assert(prefix[0] == temps[0]);
        lemma_running_max_is_hottest(prefix);
        let cur = running_max(prefix)->Some_0;
        let m = running_max(temps)->Some_0;
        let k = choose|k: int| 0 <= k < prefix.len() && prefix[k] == cur;
        assert(temps[k] == cur);
        assert(temps[temps.len() - 1] == temps.last());
        assert forall|i: int| 0 <= i < temps.len() && !(#[trigger] temps[i]).nan() implies temps[i].key()
            <= m.key() by {
            if i < temps.len() - 1 {
                assert(prefix[i] == temps[i]);
            }
        }
    }
}

/// A NaN first reading is never replaced: no reading compares hotter than
/// it, so it is what comes out.
pub proof fn lemma_nan_first_reading_stays(temps: Seq<Celsius>)
    requires
        temps.len() > 0,
        temps[0].nan(),
    ensures
        running_max(temps) == Some(temps[0]),
    decreases temps.len(),
{
    if temps.len() > 1 {
        let prefix = temps.drop_last();
        assert(prefix[0] == temps[0]);
        lemma_nan_first_reading_stays(prefix);
        assert(!hotter(temps.last(), temps[0]));
    } else {
        assert(temps.drop_last().len() == 0);
        assert(running_max(temps.drop_last()) == None::<Celsius>);
        assert(temps.last() == temps[0]);
    }
}

/// The readings of the sensors whose label names the CPU, in order.
pub open spec fn cpu_temperatures_of(readings: Seq<SensorReading>) -> Seq<Celsius>
    decreases readings.len(),
{
    if readings.len() == 0 {
        Seq::empty()
    } else {
        let prev = cpu_temperatures_of(readings.drop_last());
        let r = readings.last();
        if mentions_cpu_keyword(lowercase(r.label@)) {
            prev.push(r.temperature)
        } else {
            prev
        }
    }
}

/// The lowercased label names the CPU: it contains "cpu", "core",
/// "processor" or "tctl".
pub open spec fn names_cpu(label: Seq<char>) -> bool {
    let l = lowercase(label);
    occurs_in(l, "cpu"@) || occurs_in(l, "core"@) || occurs_in(l, "processor"@) || occurs_in(l, "tctl"@)
}

/// Some sensor whose label names the CPU reads `t`.
pub open spec fn read_by_cpu_sensor(readings: Seq<SensorReading>, t: Celsius) -> bool {
    exists|i: int|
        0 <= i < readings.len() && names_cpu(readings[i].label@) && readings[i].temperature == t
}

/// The CPU readings are exactly the readings of the sensors whose lowercased
/// label contains "cpu", "core", "processor" or "tctl", in the order of the
/// sensors: each one comes from such a sensor, each such sensor's reading
/// is among them, adding a sensor appends its reading exactly when its label
/// names the CPU, and there are never more of them than sensors.
pub proof fn lemma_cpu_readings_are_the_cpu_sensors(readings: Seq<SensorReading>, r: SensorReading)
    ensures
        cpu_temperatures_of(readings.push(r)) == (if names_cpu(r.label@) {
            cpu_temperatures_of(readings).push(r.temperature)
        } else {
            cpu_temperatures_of(readings)
        }),
        forall|i: int|
            0 <= i < readings.len() && names_cpu((#[trigger] readings[i]).label@)
                ==> cpu_temperatures_of(readings).contains(readings[i].temperature),
        forall|k: int|
            0 <= k < cpu_temperatures_of(readings).len() ==> read_by_cpu_sensor(
                readings,
                #[trigger] cpu_temperatures_of(readings)[k],
            ),
        cpu_temperatures_of(readings).len() <= readings.len(),
    decreases readings.len(),
{
    assert(readings.push(r).drop_last() =~= readings);
    if readings.len() > 0 {
        let prefix = readings.drop_last();
        let last = readings.last();
        lemma_cpu_readings_are_the_cpu_sensors(prefix, last);
        assert(prefix.push(last) =~= readings);
        let prev = cpu_temperatures_of(prefix);
        let cur = cpu_temperatures_of(readings);
        assert forall|i: int|
            0 <= i < readings.len() && names_cpu((#[trigger] readings[i]).label@) implies cur.contains(
            readings[i].temperature,
        ) by {
            if i < readings.len() - 1 {
                assert(prefix[i] == readings[i]);
                let k = choose|k: int| 0 <= k < prev.len() && prev[k] == readings[i].temperature;
                assert(cur[k] == prev[k]);
            } else {
                assert(cur[cur.len() - 1] == last.temperature);
            }
        }
        assert forall|k: int| 0 <= k < cpu_temperatures_of(readings).len() implies read_by_cpu_sensor(
            readings,
            #[trigger] cpu_temperatures_of(readings)[k],
        ) by {
            if k < prev.len() {
                assert(cur[k] == prev[k]);
                assert(read_by_cpu_sensor(prefix, prev[k]));
                let i = choose|i: int|
                    0 <= i < prefix.len() && names_cpu(prefix[i].label@) && prefix[i].temperature
                        == prev[k];
                assert(readings[i] == prefix[i]);
                assert(0 <= i < readings.len() && names_cpu(readings[i].label@)
                    && readings[i].temperature == cur[k]);
            } else {
                let i = readings.len() - 1;
                assert(readings[i] == last);
                assert(names_cpu(last.label@));
                assert(cur[k] == last.temperature);
                assert(0 <= i < readings.len() && names_cpu(readings[i].label@)
                    && readings[i].temperature == cur[k]);
            }
        }
    } else {
        assert(cpu_temperatures_of(readings) =~= Seq::<Celsius>::empty());
    }
}

/// The hottest of `temps` (see [`running_max`]).
pub fn hottest(temps: &Vec<Celsius>) -> (r: Option<Celsius>)
    ensures
        r == running_max(temps@),
{
    let n = temps.len();
    let mut best: Option<Celsius> = None;
    for i in 0..n
        invariant
            n == temps@.len(),
            best == running_max(temps@.subrange(0, i as int)),
    {
        let t = temps[i];
        proof {
            let s = temps@.subrange(0, i + 1);
            assert(s.drop_last() =~= temps@.subrange(0, i as int));
            assert(s.last() == t);
        }
        match best {
            None => {
                best = Some(t);
            },
            Some(cur) => {
                if !t.is_nan() && !cur.is_nan() && t.order_key() > cur.order_key() {
                    best = Some(t);
                }
            },
        }
    }
    assert(temps@.subrange(0, n as int) =~= temps@);
    best
}

/// The readings of the sensors whose label names the CPU, in order.
pub fn cpu_temperatures(readings: &Vec<SensorReading>) -> (temps: Vec<Celsius>)
    ensures
        temps@ == cpu_temperatures_of(readings@),
{
    let n = readings.len();
    let mut temps: Vec<Celsius> = Vec::new();
    for i in 0..n
        invariant
            n == readings@.len(),
            temps@ == cpu_temperatures_of(readings@.subrange(0, i as int)),
    {
        proof {
            let s = readings@.subrange(0, i + 1);
            assert(s.drop_last() =~= readings@.subrange(0, i as int));
            assert(s.last() == readings@[i as int]);
        }
        if is_cpu_label(readings[i].label.as_str()) {
            temps.push(readings[i].temperature);
        }
    }
    assert(readings@.subrange(0, n as int) =~= readings@);
    temps
}

/// The CPU temperature: the hottest reading of the sensors whose label
/// names the CPU, or `None` when no label does.
pub fn max_cpu_temperature(readings: &Vec<SensorReading>) -> (r: Option<Celsius>)
    ensures
        r == running_max(cpu_temperatures_of(readings@)),
{
    let temps = cpu_temperatures(readings);
    hottest(&temps)
}

} // verus!
