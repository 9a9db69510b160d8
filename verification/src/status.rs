//! What a printer reports of itself and of the roll in it.

use vstd::prelude::*;

verus! {

/// The printer's state at one moment.
#[derive(Debug)]
pub struct PrinterStatus {
    pub printing: bool,
    pub device_busy: bool,
    pub buf_full: bool,
    pub low_battery: bool,
    pub cover_open: bool,
    pub print_count: u32,
    /// Some error flag is raised.
    pub has_error: bool,
    /// What the raised flags say.
    pub error_description: Option<String>,
}

impl PrinterStatus {
    /// Neither busy nor printing.
    pub open spec fn idle(self) -> bool {
        !self.device_busy && !self.printing
    }

    /// Whether the printer is neither busy nor printing.
    pub fn is_idle(&self) -> (r: bool)
        ensures
            r == self.idle(),
    {
        !self.device_busy && !self.printing
    }
}

/// The label material that the printer reads from the roll.
#[derive(Debug)]
pub struct MaterialInfo {
    pub width_mm: u8,
    pub height_mm: u8,
    pub gap_mm: u8,
    pub label_type: u8,
    pub sn: String,
    /// The tag's identifier in hexadecimal; all zeros where no tag was read.
    pub uuid: String,
    pub code: String,
    /// Labels left on the roll, where the printer counts them.
    pub remaining: Option<u32>,
    pub device_sn: Option<String>,
}

impl Default for MaterialInfo {
    fn default() -> (r: Self)
        ensures
            r.width_mm == 0 && r.height_mm == 0 && r.gap_mm == 0 && r.label_type == 0,
            r.sn@.len() == 0 && r.uuid@.len() == 0 && r.code@.len() == 0,
            r.remaining is None && r.device_sn is None,
    {
        MaterialInfo {
            width_mm: 0,
            height_mm: 0,
            gap_mm: 0,
            label_type: 0,
            sn: String::new(),
            uuid: String::new(),
            code: String::new(),
            remaining: None,
            device_sn: None,
        }
    }
}

} // verus!
