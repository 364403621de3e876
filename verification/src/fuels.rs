//! Fuels: immutable physical constants, compared by value.

use vstd::prelude::*;

verus! {

use crate::Error;
use crate::rat::{Frac, Rat, q_lt, q_zero};

/// A propellant: a name and a positive density (mass per volume-equivalent
/// unit).
#[derive(Debug)]
pub struct Fuel {
    pub name: String,
    pub density: Rat,
}

/// Spec model of a fuel.
pub struct FuelModel {
    pub name: Seq<char>,
    pub density: Frac,
}

impl View for Fuel {
    type V = FuelModel;

    open spec fn view(&self) -> FuelModel {
        FuelModel { name: self.name@, density: self.density@ }
    }
}

/// A fuel is well formed when its density is a positive rational.
pub open spec fn fuel_wf(f: Fuel) -> bool {
    f.density.wf() && q_lt(q_zero(), f.density@)
}

impl Fuel {
    /// A validated fuel; `Err` exactly when the density is not a positive
    /// well-formed rational.
    pub fn new(name: String, density: Rat) -> (r: Result<Fuel, Error>)
        ensures
            r matches Ok(f) ==> fuel_wf(f) && f@.name == name@ && f@.density == density@,
            r is Ok <==> density.wf() && q_lt(q_zero(), density@),
            r is Err ==> r == Result::<Fuel, Error>::Err(Error::InvalidEngine),
    {
        if density.check_wf() && density.is_pos() {
            Ok(Fuel { name, density })
        } else {
            Err(Error::InvalidEngine)
        }
    }

    /// An exact copy of this fuel.
    pub fn dup(&self) -> (r: Fuel)
        ensures
            r == *self,
    {
        Fuel { name: self.name.clone(), density: self.density }
    }
}

} // verus!
