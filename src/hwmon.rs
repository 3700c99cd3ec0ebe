//! Hardware monitors: fan speeds and temperatures.
use vstd::prelude::*;

use crate::discovery::{is_numbered_name, join, join_path, numbered_name};
use crate::number::{read_number, read_number_spec};
use crate::text::{file_name, last_component, line_value, line_value_of, opt_string, slice_string};

verus! {

/// `"/sys/class/hwmon"`
pub open spec fn hwmon_root() -> Seq<char> {
    "/sys/class/hwmon"@
}

/// A file of a monitor's directory and what it read as; for a temperature
/// input, also what its label file read as.
pub struct SensorFile {
    pub name: String,
    pub content: Option<String>,
    pub label: Option<String>,
}

pub struct SensorFileView {
    pub name: Seq<char>,
    pub content: Option<Seq<char>>,
    pub label: Option<Seq<char>>,
}

impl View for SensorFile {
    type V = SensorFileView;

    open spec fn view(&self) -> SensorFileView {
        SensorFileView { name: self.name@, content: opt_string(self.content), label: opt_string(self.label) }
    }
}

/// A named reading.
#[derive(Clone, Debug)]
pub struct Sensor {
    pub key: String,
    pub value: u32,
}

impl View for Sensor {
    type V = (Seq<char>, u32);

    open spec fn view(&self) -> (Seq<char>, u32) {
        (self.key@, self.value)
    }
}

pub open spec fn sensor_views(v: Seq<Sensor>) -> Seq<(Seq<char>, u32)> {
    v.map_values(|s: Sensor| s@)
}

pub open spec fn file_views(v: Seq<SensorFile>) -> Seq<SensorFileView> {
    v.map_values(|f: SensorFile| f@)
}

/// The first index of key `k` in `m`, if any.
pub open spec fn key_index(m: Seq<(Seq<char>, u32)>, k: Seq<char>) -> Option<int>
    decreases m.len(),
{
    if m.len() == 0 {
        None
    } else {
        match key_index(m.drop_last(), k) {
            Some(i) => Some(i),
            None => if m.last().0 == k {
                Some(m.len() - 1)
            } else {
                None
            },
        }
    }
}

/// `m` with `k` set to `v`: in place when `k` is there, else appended.
pub open spec fn upsert(m: Seq<(Seq<char>, u32)>, k: Seq<char>, v: u32) -> Seq<(Seq<char>, u32)> {
    match key_index(m, k) {
        Some(i) => m.update(i, (k, v)),
        None => m.push((k, v)),
    }
}

/// `"fan"`, `"temp"`, `"_input"`, `"_label"`
pub open spec fn fan_word() -> Seq<char> {
    seq!['f', 'a', 'n']
}

pub open spec fn temp_word() -> Seq<char> {
    seq!['t', 'e', 'm', 'p']
}

pub open spec fn input_word() -> Seq<char> {
    seq!['_', 'i', 'n', 'p', 'u', 't']
}

pub open spec fn label_word() -> Seq<char> {
    seq!['_', 'l', 'a', 'b', 'e', 'l']
}

/// Fan speeds: each `fan<N>_input` file that holds a number, by file name.
pub open spec fn fan_readings(files: Seq<SensorFileView>) -> Seq<(Seq<char>, u32)>
    decreases files.len(),
{
    if files.len() == 0 {
        Seq::empty()
    } else {
        let prev = fan_readings(files.drop_last());
        let f = files.last();
        if numbered_name(fan_word(), input_word(), f.name) && read_number_spec(f.content) is Some {
            upsert(prev, f.name, read_number_spec(f.content)->0)
        } else {
            prev
        }
    }
}

/// The digits of a `temp<N>_input` name.
pub open spec fn temp_number(name: Seq<char>) -> Seq<char> {
    name.subrange(4, name.len() - 6)
}

/// The key of a temperature: its label, or `temp<N>_label` when it has none.
pub open spec fn temp_key(name: Seq<char>, label: Option<Seq<char>>) -> Seq<char> {
    match label {
        Some(l) => line_value_of(l),
        None => temp_word() + temp_number(name) + label_word(),
    }
}

/// Temperatures: each `temp<N>_input` file that holds a number, by its key.
pub open spec fn temp_readings(files: Seq<SensorFileView>) -> Seq<(Seq<char>, u32)>
    decreases files.len(),
{
    if files.len() == 0 {
        Seq::empty()
    } else {
        let prev = temp_readings(files.drop_last());
        let f = files.last();
        if numbered_name(temp_word(), input_word(), f.name) && read_number_spec(f.content) is Some {
            upsert(prev, temp_key(f.name, f.label), read_number_spec(f.content)->0)
        } else {
            prev
        }
    }
}

fn upsert_sensor(m: &mut Vec<Sensor>, key: String, value: u32)
    ensures
        sensor_views(final(m)@) == upsert(sensor_views(old(m)@), key@, value),
{
    let ghost sv = sensor_views(m@);
    let mut i: usize = 0;
    while i < m.len()
        invariant
            i <= m.len(),
            m@ == old(m)@,
            sv == sensor_views(m@),
            key_index(sv.take(i as int), key@) is None,
        decreases m.len() - i,
    {
        assert(sv.take(i + 1).drop_last() =~= sv.take(i as int));
        if m[i].key == key {
            proof {
                lemma_key_index_prefix(sv, key@, i as int);
            }
            m.set(i, Sensor { key, value });
            assert(sensor_views(m@) =~= sv.update(i as int, (key@, value)));
            return;
        }
        i = i + 1;
    }
    assert(sv.take(m.len() as int) =~= sv);
    let ghost before = m@;
    m.push(Sensor { key, value });
    assert(sensor_views(m@) =~= sensor_views(before).push((key@, value)));
}

/// A key found first at `i` is found first at `i` in the whole sequence.
proof fn lemma_key_index_prefix(m: Seq<(Seq<char>, u32)>, k: Seq<char>, i: int)
    requires
        0 <= i < m.len(),
        key_index(m.take(i), k) is None,
        m[i].0 == k,
    ensures
        key_index(m, k) == Some(i),
    decreases m.len(),
{
    if i < m.len() - 1 {
        let front = m.drop_last();
        assert(front.take(i) =~= m.take(i));
        lemma_key_index_prefix(front, k, i);
    } else {
        assert(m.take(i) =~= m.drop_last());
    }
}

/// A hardware monitor: its directory name and its driver's name.
#[derive(Clone, Debug)]
pub struct Hwmon {
    pub node: String,
    pub name: String,
}

impl Hwmon {
    /// The monitor of directory `path`, named by its last component, from
    /// what its `name` file read as; none when it could not be read or the
    /// path has no last component.
    pub fn new(path: &str, name: Option<&str>) -> (r: Option<Hwmon>)
        ensures
            match (name, last_component(path@)) {
                (Some(n), Some(node)) => r matches Some(h) && h.node@ == node && h.name@ == line_value_of(n@),
                _ => r is None,
            },
    {
        match (name, file_name(path)) {
            (Some(n), Some(node)) => Some(Hwmon { node, name: line_value(n) }),
            _ => None,
        }
    }

    /// The monitor's directory.
    pub fn dir_path(&self) -> (r: String)
        ensures
            r@ == join_path(hwmon_root(), self.node@),
    {
        join("/sys/class/hwmon", self.node.as_str())
    }

    /// Fan speeds by file name, from the files of the monitor's directory
    /// in order: each `fan<N>_input` that holds a number.
    pub fn fans(&self, files: &Vec<SensorFile>) -> (r: Vec<Sensor>)
        ensures
            sensor_views(r@) == fan_readings(file_views(files@)),
    {
        let ghost fv = file_views(files@);
        let mut out: Vec<Sensor> = Vec::new();
        let mut i: usize = 0;
        assert(sensor_views(out@) =~= fan_readings(fv.take(0)));
        while i < files.len()
            invariant
                i <= files.len(),
                fv == file_views(files@),
                sensor_views(out@) == fan_readings(fv.take(i as int)),
            decreases files.len() - i,
        {
            let f = &files[i];
            assert(fv.take(i + 1).drop_last() =~= fv.take(i as int));
            assert(fv.take(i + 1).last() == f@);
            proof {
                reveal_strlit("fan");
                reveal_strlit("_input");
                assert("fan"@ =~= fan_word());
                assert("_input"@ =~= input_word());
            }
            if is_numbered_name("fan", "_input", f.name.as_str()) {
                match read_number(&f.content) {
                    Some(v) => upsert_sensor(&mut out, f.name.clone(), v),
                    None => {},
                }
            }
            i = i + 1;
        }
        assert(fv.take(files.len() as int) =~= fv);
        out
    }

    /// The path of the label file of temperature input `number`.
    pub fn temp_label_path(&self, number: &str) -> (r: String)
        ensures
            r@ == join_path(join_path(hwmon_root(), self.node@), temp_word() + number@ + label_word()),
    {
        let dir = self.dir_path();
        let mut f = String::from_str("temp");
        f.append(number);
        f.append("_label");
        proof {
            reveal_strlit("temp");
            reveal_strlit("_label");
            assert(f@ =~= temp_word() + number@ + label_word());
        }
        join(dir.as_str(), f.as_str())
    }

    /// Temperatures by label (or `temp<N>_label` without one), from the
    /// files of the monitor's directory in order: each `temp<N>_input` that
    /// holds a number.
    pub fn temps(&self, files: &Vec<SensorFile>) -> (r: Vec<Sensor>)
        ensures
            sensor_views(r@) == temp_readings(file_views(files@)),
    {
        let ghost fv = file_views(files@);
        let mut out: Vec<Sensor> = Vec::new();
        let mut i: usize = 0;
        assert(sensor_views(out@) =~= temp_readings(fv.take(0)));
        while i < files.len()
            invariant
                i <= files.len(),
                fv == file_views(files@),
                sensor_views(out@) == temp_readings(fv.take(i as int)),
            decreases files.len() - i,
        {
            let f = &files[i];
            assert(fv.take(i + 1).drop_last() =~= fv.take(i as int));
            assert(fv.take(i + 1).last() == f@);
            if let Some(number) = temp_input_number(f.name.as_str()) {
                match read_number(&f.content) {
                    Some(v) => {
                        let key = match &f.label {
                            Some(l) => line_value(l.as_str()),
                            None => {
                                let mut k = String::from_str("temp");
                                k.append(number.as_str());
                                k.append("_label");
                                proof {
                                    reveal_strlit("temp");
                                    reveal_strlit("_label");
                                    assert(k@ =~= temp_word() + number@ + label_word());
                                }
                                k
                            },
                        };
                        upsert_sensor(&mut out, key, v);
                    },
                    None => {},
                }
            }
            i = i + 1;
        }
        assert(fv.take(files.len() as int) =~= fv);
        out
    }
}

/// The digits of a temperature input's file name `temp<N>_input`, if it is one.
pub fn temp_input_number(name: &str) -> (r: Option<String>)
    ensures
        numbered_name(temp_word(), input_word(), name@) ==> (r matches Some(n) && n@ == temp_number(name@)),
        !numbered_name(temp_word(), input_word(), name@) ==> r is None,
{
    proof {
        reveal_strlit("temp");
        reveal_strlit("_input");
        assert("temp"@ =~= temp_word());
        assert("_input"@ =~= input_word());
    }
    if is_numbered_name("temp", "_input", name) {
        let n = name.unicode_len();
        Some(slice_string(name, 4, n - 6))
    } else {
        None
    }
}

} // verus!
