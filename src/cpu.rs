//! CPUs: identity, topology and scaling state of each logical processor.
use vstd::prelude::*;

use crate::discovery::{join, join_path};
use crate::number::{decimal, decimal_spec, read_number, read_number_spec, reading, reading_spec};
use crate::text::{opt_string, opt_text, read_text, read_text_spec};

verus! {

/// One logical processor.
#[derive(Clone, Debug)]
pub struct CPU {
    pub number: u32,
    pub vendor: String,
    pub family: String,
    pub model: String,
    pub core_id: u32,
    pub physical_package_id: u32,
    pub scaling_driver: String,
    pub scaling_governor: String,
    pub scaling_min_freq: u32,
    pub scaling_max_freq: u32,
}

/// What the topology and scaling files of a processor read as; `None`
/// where a file could not be read.
pub struct CpuFiles {
    pub core_id: Option<String>,
    pub physical_package_id: Option<String>,
    pub scaling_driver: Option<String>,
    pub scaling_governor: Option<String>,
    pub scaling_min_freq: Option<String>,
    pub scaling_max_freq: Option<String>,
}

/// `"/sys/devices/system/cpu/cpu"`
pub open spec fn cpu_dir_prefix() -> Seq<char> {
    "/sys/devices/system/cpu/cpu"@
}

/// The path of file `attribute` of processor `number`.
pub fn cpu_attribute_path(number: u32, attribute: &str) -> (r: String)
    ensures
        r@ == join_path(cpu_dir_prefix() + decimal_spec(number as nat), attribute@),
{
    let mut dir = String::from_str("/sys/devices/system/cpu/cpu");
    let n = decimal(number);
    dir.append(n.as_str());
    join(dir.as_str(), attribute)
}

impl CPU {
    /// A processor with every number zero and every text empty.
    pub fn default() -> (r: CPU)
        ensures
            r.number == 0 && r.core_id == 0 && r.physical_package_id == 0,
            r.scaling_min_freq == 0 && r.scaling_max_freq == 0,
            r.vendor@.len() == 0 && r.family@.len() == 0 && r.model@.len() == 0,
            r.scaling_driver@.len() == 0 && r.scaling_governor@.len() == 0,
    {
        CPU {
            number: 0,
            vendor: String::new(),
            family: String::new(),
            model: String::new(),
            core_id: 0,
            physical_package_id: 0,
            scaling_driver: String::new(),
            scaling_governor: String::new(),
            scaling_min_freq: 0,
            scaling_max_freq: 0,
        }
    }

    /// `<package>:<core>:<number>`, the processor's column name in samples.
    pub fn tag(&self) -> (r: String)
        ensures
            r@ == decimal_spec(self.physical_package_id as nat) + seq![':'] + decimal_spec(
                self.core_id as nat,
            ) + seq![':'] + decimal_spec(self.number as nat),
    {
        let mut s = decimal(self.physical_package_id);
        s.append(":");
        let c = decimal(self.core_id);
        s.append(c.as_str());
        s.append(":");
        let n = decimal(self.number);
        s.append(n.as_str());
        proof {
            reveal_strlit(":");
        }
        s
    }

    /// The current frequency, from what `cpufreq/scaling_cur_freq` read as
    /// (0 when unreadable or not a number).
    pub fn freq(&self, content: Option<&str>) -> (r: u32)
        ensures
            r == reading_spec(opt_text(content)),
    {
        reading(content)
    }
}

/// The processor `number` of the given vendor, family and model, from what
/// its topology and scaling files read as; none when one of them could not
/// be read or a numeric one holds no number.
pub fn new_cpu(number: u32, vendor: &str, family: &str, model: &str, files: &CpuFiles) -> (r: Option<CPU>)
    ensures
        r is Some <==> (read_number_spec(opt_string(files.core_id)) is Some
            && read_number_spec(opt_string(files.physical_package_id)) is Some
            && files.scaling_driver is Some && files.scaling_governor is Some
            && read_number_spec(opt_string(files.scaling_min_freq)) is Some
            && read_number_spec(opt_string(files.scaling_max_freq)) is Some),
        r matches Some(c) ==> {
            &&& c.number == number
            &&& c.vendor@ == vendor@
            &&& c.family@ == family@
            &&& c.model@ == model@
            &&& Some(c.core_id) == read_number_spec(opt_string(files.core_id))
            &&& Some(c.physical_package_id) == read_number_spec(opt_string(files.physical_package_id))
            &&& Some(c.scaling_driver@) == read_text_spec(opt_string(files.scaling_driver))
            &&& Some(c.scaling_governor@) == read_text_spec(opt_string(files.scaling_governor))
            &&& Some(c.scaling_min_freq) == read_number_spec(opt_string(files.scaling_min_freq))
            &&& Some(c.scaling_max_freq) == read_number_spec(opt_string(files.scaling_max_freq))
        },
{
    let core_id = read_number(&files.core_id);
    let package = read_number(&files.physical_package_id);
    let driver = read_text(&files.scaling_driver);
    let governor = read_text(&files.scaling_governor);
    let min_freq = read_number(&files.scaling_min_freq);
    let max_freq = read_number(&files.scaling_max_freq);
    match (core_id, package, driver, governor, min_freq, max_freq) {
        (Some(core_id), Some(physical_package_id), Some(scaling_driver), Some(scaling_governor), Some(
            scaling_min_freq,
        ), Some(scaling_max_freq)) => Some(
            CPU {
                number,
                vendor: String::from_str(vendor),
                family: String::from_str(family),
                model: String::from_str(model),
                core_id,
                physical_package_id,
                scaling_driver,
                scaling_governor,
                scaling_min_freq,
                scaling_max_freq,
            },
        ),
        _ => None,
    }
}

} // verus!
