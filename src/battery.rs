//! Batteries and UPSes of the power-supply class.
use vstd::prelude::*;

use crate::discovery::{join, join_path};
use crate::number::{reading, reading_spec};
use crate::text::{file_name, last_component, line_value, line_value_of, opt_text};

verus! {

/// `"/sys/class/power_supply"`
pub open spec fn power_supply_root() -> Seq<char> {
    "/sys/class/power_supply"@
}

/// Whether a power supply whose `type` file read as `content` is a battery.
pub open spec fn battery_type(content: Seq<char>) -> bool {
    line_value_of(content) == "Battery"@ || line_value_of(content) == "UPS"@
}

/// Whether a power supply whose `type` file read as `content` is a battery:
/// its type is `Battery` or `UPS`.
pub fn is_battery_type(content: &str) -> (r: bool)
    ensures
        r == battery_type(content@),
{
    let t = line_value(content);
    let battery = String::from_str("Battery");
    let ups = String::from_str("UPS");
    t == battery || t == ups
}

/// A battery's identity.
#[derive(Clone, Debug)]
pub struct Battery {
    pub name: String,
    pub manufacturer: String,
    pub model: String,
    pub serial_number: String,
    pub rtype: String,
}

impl Battery {
    /// The battery of the power-supply directory `path`, from what its
    /// `manufacturer`, `model_name`, `serial_number` and `type` files read as,
    /// named by the last component of `path`; none when one of the files
    /// could not be read or the path has no last component.
    pub fn new(
        path: &str,
        manufacturer: Option<&str>,
        model: Option<&str>,
        serial_number: Option<&str>,
        rtype: Option<&str>,
    ) -> (r: Option<Battery>)
        ensures
            match (manufacturer, model, serial_number, rtype, last_component(path@)) {
                (Some(a), Some(b), Some(c), Some(d), Some(n)) => r matches Some(bat) && bat.name@ == n
                    && bat.manufacturer@ == line_value_of(a@) && bat.model@ == line_value_of(b@)
                    && bat.serial_number@ == line_value_of(c@) && bat.rtype@ == line_value_of(d@),
                _ => r is None,
            },
    {
        match (manufacturer, model, serial_number, rtype, file_name(path)) {
            (Some(a), Some(b), Some(c), Some(d), Some(name)) => Some(
                Battery {
                    name,
                    manufacturer: line_value(a),
                    model: line_value(b),
                    serial_number: line_value(c),
                    rtype: line_value(d),
                },
            ),
            _ => None,
        }
    }

    /// The path of this battery's file `attribute`.
    pub fn attribute_path(&self, attribute: &str) -> (r: String)
        ensures
            r@ == join_path(join_path(power_supply_root(), self.name@), attribute@),
    {
        let dir = join("/sys/class/power_supply", self.name.as_str());
        join(dir.as_str(), attribute)
    }

    /// The charge in percent, from what the `capacity` file read as (0 when
    /// unreadable or not a number).
    pub fn capacity(&self, content: Option<&str>) -> (r: u32)
        ensures
            r == reading_spec(opt_text(content)),
    {
        reading(content)
    }

    /// The voltage, from what the `voltage_now` file read as (0 when
    /// unreadable or not a number).
    pub fn voltage_now(&self, content: Option<&str>) -> (r: u32)
        ensures
            r == reading_spec(opt_text(content)),
    {
        reading(content)
    }

    /// The current, from what the `current_now` file read as (0 when
    /// unreadable or not a number).
    pub fn current_now(&self, content: Option<&str>) -> (r: u32)
        ensures
            r == reading_spec(opt_text(content)),
    {
        reading(content)
    }

    /// The power, from what the `power_now` file read as: 0 when it does
    /// not hold a number; none when it could not be read, and the power must
    /// come from voltage and current.
    pub fn power_now(&self, content: Option<&str>) -> (r: Option<u32>)
        ensures
            match opt_text(content) {
                Some(c) => r == Some(reading_spec(Some(c))),
                None => r is None,
            },
    {
        match content {
            Some(_) => Some(reading(content)),
            None => None,
        }
    }

    /// The charging status, from what the `status` file read as (empty when unreadable).
    pub fn status(&self, content: Option<&str>) -> (r: String)
        ensures
            match opt_text(content) {
                Some(c) => r@ == line_value_of(c),
                None => r@ == Seq::<char>::empty(),
            },
    {
        match content {
            Some(c) => line_value(c),
            None => String::new(),
        }
    }
}

} // verus!
