//! The rotator state: the requested angles and the antenna bookkeeping.

use vstd::prelude::*;
use crate::easycom::{AzAngle, ElAngle};

verus! {

/// The requested azimuth and elevation, and the antennas required and confirmed.
pub struct RotorState {
    pub az_angle: AzAngle,
    pub el_angle: ElAngle,
    pub ant_required: u8,
    pub ant_confirmed: u8,
}

/// The abstract rotator state: azimuth and elevation in tenths of a degree,
/// and the antennas required and confirmed.
pub struct RotorView {
    pub az: nat,
    pub el: nat,
    pub ant_required: u8,
    pub ant_confirmed: u8,
}

impl View for RotorState {
    type V = RotorView;

    open spec fn view(&self) -> RotorView {
        RotorView {
            az: self.az_angle@,
            el: self.el_angle@,
            ant_required: self.ant_required,
            ant_confirmed: self.ant_confirmed,
        }
    }
}

impl RotorState {
    /// A state pointing at azimuth and elevation zero, requiring antenna 1,
    /// with nothing confirmed yet.
    pub fn new() -> (s: Self)
        ensures
            s@ == (RotorView { az: 0, el: 0, ant_required: 1, ant_confirmed: 0 }),
    {
        RotorState {
            az_angle: AzAngle::default(),
            el_angle: ElAngle::default(),
            ant_required: 1,
            ant_confirmed: 0,
        }
    }

    /// The requested azimuth and elevation.
    pub fn get_angles(&self) -> (r: (&AzAngle, &ElAngle))
        ensures
            r.0@ == self@.az,
            r.1@ == self@.el,
    {
        (&self.az_angle, &self.el_angle)
    }

    /// Sets the requested azimuth; nothing else changes.
    pub fn set_az(&mut self, ang: AzAngle)
        ensures
            final(self)@ == (RotorView { az: ang@, ..old(self)@ }),
    {
        self.az_angle = ang;
    }

    /// Sets the requested elevation; nothing else changes.
    pub fn set_el(&mut self, ang: ElAngle)
        ensures
            final(self)@ == (RotorView { el: ang@, ..old(self)@ }),
    {
        self.el_angle = ang;
    }
}

} // verus!
