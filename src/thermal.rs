//! Thermal zones.
use vstd::prelude::*;

use crate::discovery::{join, join_path};
use crate::number::{reading, reading_spec};
use crate::text::{file_name, last_component, line_value, line_value_of, opt_text};

verus! {

/// `"/sys/class/thermal"`
pub open spec fn thermal_root() -> Seq<char> {
    "/sys/class/thermal"@
}

/// A thermal zone.
#[derive(Clone, Debug)]
pub struct Thermal {
    pub name: String,
    pub rtype: String,
    pub mode: String,
    pub available_policies: String,
    pub policy: String,
}

impl Thermal {
    /// The zone of directory `path`, from what its `type`, `mode`,
    /// `available_policies` and `policy` files read as, named by the last
    /// component of `path`. Only the mode may be missing, and is then empty;
    /// a path without a last component gives none.
    pub fn new(
        path: &str,
        rtype: Option<&str>,
        mode: Option<&str>,
        available_policies: Option<&str>,
        policy: Option<&str>,
    ) -> (r: Option<Self>)
        ensures
            match (rtype, available_policies, policy, last_component(path@)) {
                (Some(t), Some(a), Some(p), Some(n)) => r matches Some(z) && z.name@ == n
                    && z.rtype@ == line_value_of(t@) && z.available_policies@ == line_value_of(a@)
                    && z.policy@ == line_value_of(p@) && z.mode@ == match mode {
                    Some(m) => line_value_of(m@),
                    None => Seq::<char>::empty(),
                },
                _ => r is None,
            },
    {
        match (rtype, available_policies, policy, file_name(path)) {
            (Some(t), Some(a), Some(p), Some(name)) => {
                let mode = match mode {
                    Some(m) => line_value(m),
                    None => String::new(),
                };
                Some(
                    Thermal {
                        name,
                        rtype: line_value(t),
                        mode,
                        available_policies: line_value(a),
                        policy: line_value(p),
                    },
                )
            },
            _ => None,
        }
    }

    /// The path of this zone's file `attribute`.
    pub fn attribute_path(&self, attribute: &str) -> (r: String)
        ensures
            r@ == join_path(join_path(thermal_root(), self.name@), attribute@),
    {
        let dir = join("/sys/class/thermal", self.name.as_str());
        join(dir.as_str(), attribute)
    }

    /// The temperature, from what the `temp` file read as (0 when
    /// unreadable or not a number).
    pub fn temp(&self, content: Option<&str>) -> (r: u32)
        ensures
            r == reading_spec(opt_text(content)),
    {
        reading(content)
    }
}

} // verus!
