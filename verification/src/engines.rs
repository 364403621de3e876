//! Engines: immutable performance constants and their derived propellant
//! rates.

use vstd::prelude::*;

verus! {

use crate::Error;
use crate::fuels::{Fuel, FuelModel, fuel_wf};
use crate::rat::{
    Frac, Rat, m_mul, m_sum, fracs_of, q_eq, q_le, q_lt, q_mul, q_sum, q_wf, q_zero,
    lemma_q_sum_wf, lemma_q_eq_trans, lemma_q_mul_cong, lemma_q_add_cong, sum_rats,
};

/// An engine: per-fuel consumption rates, specific impulse (seconds), thrust
/// (kilonewtons), hardware mass (kilograms) and nominal burn time (seconds).
#[derive(Debug)]
pub struct Engine {
    pub name: String,
    pub fuel_consumption: Vec<(Fuel, Rat)>,
    pub isp: Rat,
    pub thrust: Rat,
    pub mass: Rat,
    pub burn_time: Rat,
}

/// Spec model of an engine.
pub struct EngineModel {
    pub name: Seq<char>,
    pub fuel_consumption: Seq<(FuelModel, Frac)>,
    pub isp: Frac,
    pub thrust: Frac,
    pub mass: Frac,
    pub burn_time: Frac,
}

/// Spec model of a consumption list.
pub open spec fn cons_model(cons: Seq<(Fuel, Rat)>) -> Seq<(FuelModel, Frac)> {
    cons.map_values(|p: (Fuel, Rat)| (p.0@, p.1@))
}

impl View for Engine {
    type V = EngineModel;

    open spec fn view(&self) -> EngineModel {
        EngineModel {
            name: self.name@,
            fuel_consumption: cons_model(self.fuel_consumption@),
            isp: self.isp@,
            thrust: self.thrust@,
            mass: self.mass@,
            burn_time: self.burn_time@,
        }
    }
}

/// Consumption entries: well-formed fuels, nonnegative well-formed rates and
/// pairwise distinct fuel names.
pub open spec fn cons_wf(cons: Seq<(Fuel, Rat)>) -> bool {
    &&& forall|i: int| 0 <= i < cons.len() ==> fuel_wf((#[trigger] cons[i]).0)
    &&& forall|i: int| 0 <= i < cons.len() ==> (#[trigger] cons[i]).1.wf() && q_le(
        q_zero(),
        cons[i].1@,
    )
    &&& forall|i: int, j: int| 0 <= i < j < cons.len() ==> (#[trigger] cons[i]).0@.name != (
    #[trigger] cons[j]).0@.name
}

/// The engine invariant: well-formed fields, positive specific impulse,
/// nonnegative thrust and burn time, well-formed consumption entries.
pub open spec fn engine_wf(e: Engine) -> bool {
    &&& e.isp.wf() && e.thrust.wf() && e.mass.wf() && e.burn_time.wf()
    &&& q_lt(q_zero(), e.isp@)
    &&& q_le(q_zero(), e.thrust@)
    &&& q_le(q_zero(), e.burn_time@)
    &&& cons_wf(e.fuel_consumption@)
}

/// Exact mass-per-second contribution of each consumption entry:
/// `density * rate`.
pub open spec fn q_rate_terms(cons: Seq<(FuelModel, Frac)>) -> Seq<Frac> {
    cons.map_values(|p: (FuelModel, Frac)| q_mul(p.0.density, p.1))
}

/// Exact propellant mass drained per second: the sum of `density * rate`
/// over all consumption entries.
pub open spec fn q_mps(cons: Seq<(FuelModel, Frac)>) -> Frac {
    q_sum(q_rate_terms(cons))
}

/// Exact propellant mass for a full burn: mass per second times burn time.
pub open spec fn q_full_burn(cons: Seq<(FuelModel, Frac)>, burn_time: Frac) -> Frac {
    q_mul(q_mps(cons), burn_time)
}

/// Reduced exact `density * rate` of one consumption entry.
pub open spec fn m_rate_term(p: (Fuel, Rat)) -> Option<Rat> {
    m_mul(p.0.density, p.1)
}

/// Mirror of building the first `i` per-entry rate terms; `None` as soon as
/// one exact product fails to fit.
pub open spec fn m_terms_prefix(cons: Seq<(Fuel, Rat)>, i: int) -> Option<Seq<Rat>>
    decreases i,
{
    if i <= 0 {
        Some(Seq::empty())
    } else {
        match m_terms_prefix(cons, i - 1) {
            Some(ts) => match m_rate_term(cons[i - 1]) {
                Some(t) => Some(ts.push(t)),
                None => None,
            },
            None => None,
        }
    }
}

/// Mirror of the whole mass-per-second computation.
pub open spec fn m_mps(cons: Seq<(Fuel, Rat)>) -> Option<Rat> {
    match m_terms_prefix(cons, cons.len() as int) {
        Some(ts) => m_sum(ts),
        None => None,
    }
}

/// Mirror of the full-burn propellant mass computation.
pub open spec fn m_full_burn(cons: Seq<(Fuel, Rat)>, burn_time: Rat) -> Option<Rat> {
    match m_mps(cons) {
        Some(ps) => m_mul(ps, burn_time),
        None => None,
    }
}

/// Mirror of building the first `i` per-fuel amounts `rate * burn_time`.
pub open spec fn m_amounts_prefix(cons: Seq<(Fuel, Rat)>, burn_time: Rat, i: int) -> Option<
    Seq<Rat>,
>
    decreases i,
{
    if i <= 0 {
        Some(Seq::empty())
    } else {
        match m_amounts_prefix(cons, burn_time, i - 1) {
            Some(ts) => match m_mul(cons[i - 1].1, burn_time) {
                Some(a) => Some(ts.push(a)),
                None => None,
            },
            None => None,
        }
    }
}

/// Mirror of the whole per-fuel requirement computation.
pub open spec fn m_props(cons: Seq<(Fuel, Rat)>, burn_time: Rat) -> Option<Seq<Rat>> {
    m_amounts_prefix(cons, burn_time, cons.len() as int)
}

/// Once an amount fails to fit, every longer prefix fails too.
pub proof fn lemma_m_amounts_none(cons: Seq<(Fuel, Rat)>, burn_time: Rat, i: int, j: int)
    requires
        0 <= i <= j,
        m_amounts_prefix(cons, burn_time, i) is None,
    ensures
        m_amounts_prefix(cons, burn_time, j) is None,
    decreases j - i,
{
    if j > i {
        lemma_m_amounts_none(cons, burn_time, i, j - 1);
    }
}

/// Once a rate term fails to fit, every longer prefix fails too.
pub proof fn lemma_m_terms_none(cons: Seq<(Fuel, Rat)>, i: int, j: int)
    requires
        0 <= i <= j,
        m_terms_prefix(cons, i) is None,
    ensures
        m_terms_prefix(cons, j) is None,
    decreases j - i,
{
    if j > i {
        lemma_m_terms_none(cons, i, j - 1);
    }
}

/// Runtime check of `cons_wf`.
fn cons_is_wf(cons: &Vec<(Fuel, Rat)>) -> (b: bool)
    ensures
        b == cons_wf(cons@),
{
    let n = cons.len();
    let mut i: usize = 0;
    while i < n
        invariant
            0 <= i <= n,
            n == cons@.len(),
            forall|k: int| 0 <= k < i ==> fuel_wf((#[trigger] cons@[k]).0),
            forall|k: int| 0 <= k < i ==> (#[trigger] cons@[k]).1.wf() && q_le(
                q_zero(),
                cons@[k].1@,
            ),
            forall|k: int, l: int| 0 <= k < i && k < l < n ==> (#[trigger] cons@[k]).0@.name
                != (#[trigger] cons@[l]).0@.name,
        decreases n - i,
    {
        if !(cons[i].0.density.check_wf() && cons[i].0.density.is_pos()) {
            return false;
        }
        if !(cons[i].1.check_wf() && cons[i].1.is_nonneg()) {
            return false;
        }
        let mut j: usize = i + 1;
        while j < n
            invariant
                i < j <= n,
                n == cons@.len(),
                forall|l: int| i < l < j ==> (#[trigger] cons@[l]).0@.name != cons@[
                    i as int].0@.name,
            decreases n - j,
        {
            if cons[i].0.name == cons[j].0.name {
                return false;
            }
            j = j + 1;
        }
        i = i + 1;
    }
    true
}

/// An exact copy of a consumption list.
fn dup_cons(cons: &Vec<(Fuel, Rat)>) -> (r: Vec<(Fuel, Rat)>)
    ensures
        r@ == cons@,
{
    let mut r: Vec<(Fuel, Rat)> = Vec::new();
    let mut i: usize = 0;
    while i < cons.len()
        invariant
            0 <= i <= cons@.len(),
            r@.len() == i,
            forall|k: int| 0 <= k < i ==> r@[k] == cons@[k],
        decreases cons@.len() - i,
    {
        let f = cons[i].0.dup();
        let rate = cons[i].1;
        r.push((f, rate));
        i = i + 1;
    }
    proof {
        assert(r@ =~= cons@);
    }
    r
}

impl Engine {
    /// A validated engine; `Err` exactly when some field breaks the engine
    /// invariant.
    pub fn new(
        name: String,
        fuel_consumption: Vec<(Fuel, Rat)>,
        isp: Rat,
        thrust: Rat,
        mass: Rat,
        burn_time: Rat,
    ) -> (r: Result<Engine, Error>)
        ensures
            r matches Ok(e) ==> engine_wf(e) && e.name@ == name@ && e.fuel_consumption@
                == fuel_consumption@ && e.isp == isp && e.thrust == thrust && e.mass == mass
                && e.burn_time == burn_time,
            r is Ok <==> {
                &&& isp.wf() && thrust.wf() && mass.wf() && burn_time.wf()
                &&& q_lt(q_zero(), isp@)
                &&& q_le(q_zero(), thrust@)
                &&& q_le(q_zero(), burn_time@)
                &&& cons_wf(fuel_consumption@)
            },
            r is Err ==> r == Result::<Engine, Error>::Err(Error::InvalidEngine),
    {
        let ok = isp.check_wf() && thrust.check_wf() && mass.check_wf() && burn_time.check_wf()
            && isp.is_pos() && thrust.is_nonneg() && burn_time.is_nonneg() && cons_is_wf(
            &fuel_consumption,
        );
        if ok {
            Ok(Engine { name, fuel_consumption, isp, thrust, mass, burn_time })
        } else {
            Err(Error::InvalidEngine)
        }
    }

    /// Exact propellant mass drained per second, summed over all fuels;
    /// `None` when an exact intermediate does not fit.
    pub fn propellant_mass_per_second(&self) -> (r: Option<Rat>)
        requires
            engine_wf(*self),
        ensures
            r matches Some(v) ==> v.wf() && q_eq(v@, q_mps(cons_model(self.fuel_consumption@))),
            r == m_mps(self.fuel_consumption@),
    {
        let mut terms: Vec<Rat> = Vec::new();
        let mut i: usize = 0;
        let ghost model = q_rate_terms(cons_model(self.fuel_consumption@));
        while i < self.fuel_consumption.len()
            invariant
                0 <= i <= self.fuel_consumption@.len(),
                engine_wf(*self),
                terms@.len() == i,
                model == q_rate_terms(cons_model(self.fuel_consumption@)),
                model.len() == self.fuel_consumption@.len(),
                m_terms_prefix(self.fuel_consumption@, i as int) == Some(terms@),
                forall|k: int| 0 <= k < i ==> (#[trigger] terms@[k]).wf() && q_eq(
                    terms@[k]@,
                    model[k],
                ),
            decreases self.fuel_consumption@.len() - i,
        {
            let t = self.fuel_consumption[i].0.density.checked_mul(&self.fuel_consumption[i].1);
            match t {
                Some(v) => {
                    terms.push(v);
                },
                None => {
                    proof {
                        assert(m_terms_prefix(self.fuel_consumption@, i + 1) is None);
                        lemma_m_terms_none(
                            self.fuel_consumption@,
                            i + 1,
                            self.fuel_consumption@.len() as int,
                        );
                    }
                    return None;
                },
            }
            i = i + 1;
        }
        let total = sum_rats(&terms);
        proof {
            if total is Some {
                let v = total->Some_0;
                let cons = cons_model(self.fuel_consumption@);
                lemma_cons_model_wf(self.fuel_consumption@);
                lemma_q_mps_wf(cons);
                assert forall|j: int| 0 <= j < fracs_of(terms@).len() implies q_wf(
                    #[trigger] fracs_of(terms@)[j],
                ) by {
                    assert(fracs_of(terms@)[j] == terms@[j]@);
                }
                lemma_q_sum_fracs_cong(terms@, model);
                lemma_q_sum_wf(fracs_of(terms@));
                lemma_q_sum_wf(model);
                lemma_q_eq_trans(v@, q_sum(fracs_of(terms@)), q_sum(model));
            }
        }
        total
    }

    /// Exact propellant mass drained over the engine's full burn; `None`
    /// when an exact intermediate does not fit.
    pub fn propellant_mass_for_full_burn(&self) -> (r: Option<Rat>)
        requires
            engine_wf(*self),
        ensures
            r matches Some(v) ==> v.wf() && q_eq(
                v@,
                q_full_burn(cons_model(self.fuel_consumption@), self.burn_time@),
            ),
            r == m_full_burn(self.fuel_consumption@, self.burn_time),
    {
        let per_second = self.propellant_mass_per_second();
        match per_second {
            Some(ps) => {
                let r = ps.checked_mul(&self.burn_time);
                proof {
                    if r is Some {
                        let v = r->Some_0;
                        let cons = cons_model(self.fuel_consumption@);
                        lemma_cons_model_wf(self.fuel_consumption@);
                        lemma_q_mps_wf(cons);
                        lemma_q_mul_cong(ps@, q_mps(cons), self.burn_time@, self.burn_time@);
                        lemma_pos_mul(ps@.d, self.burn_time@.d);
                        lemma_pos_mul(q_mps(cons).d, self.burn_time@.d);
                        lemma_q_eq_trans(
                            v@,
                            q_mul(ps@, self.burn_time@),
                            q_mul(q_mps(cons), self.burn_time@),
                        );
                    }
                }
                r
            },
            None => None,
        }
    }

    /// Exact propellant mass of each fuel needed for the full burn:
    /// `rate * burn_time` per entry, fuels kept in order; `None` when an
    /// exact product does not fit.
    pub fn propellants_required(&self) -> (r: Option<Vec<(Fuel, Rat)>>)
        requires
            engine_wf(*self),
        ensures
            r matches Some(v) ==> {
                &&& v@.len() == self.fuel_consumption@.len()
                &&& forall|k: int| 0 <= k < v@.len() ==> (#[trigger] v@[k]).0 == self
                    .fuel_consumption@[k].0
                &&& forall|k: int| 0 <= k < v@.len() ==> (#[trigger] v@[k]).1.wf() && q_eq(
                    v@[k].1@,
                    q_mul(cons_model(self.fuel_consumption@)[k].1, self.burn_time@),
                )
            },
            r is Some <==> m_props(self.fuel_consumption@, self.burn_time) is Some,
    {
        let mut out: Vec<(Fuel, Rat)> = Vec::new();
        let mut i: usize = 0;
        while i < self.fuel_consumption.len()
            invariant
                0 <= i <= self.fuel_consumption@.len(),
                engine_wf(*self),
                out@.len() == i,
                m_amounts_prefix(self.fuel_consumption@, self.burn_time, i as int) is Some,
                forall|k: int| 0 <= k < i ==> (#[trigger] out@[k]).0 == self.fuel_consumption@[
                    k].0,
                forall|k: int| 0 <= k < i ==> (#[trigger] out@[k]).1.wf() && q_eq(
                    out@[k].1@,
                    q_mul(cons_model(self.fuel_consumption@)[k].1, self.burn_time@),
                ),
            decreases self.fuel_consumption@.len() - i,
        {
            let amount = self.fuel_consumption[i].1.checked_mul(&self.burn_time);
            match amount {
                Some(a) => {
                    let f = self.fuel_consumption[i].0.dup();
                    out.push((f, a));
                },
                None => {
                    proof {
                        assert(m_amounts_prefix(
                            self.fuel_consumption@,
                            self.burn_time,
                            i + 1,
                        ) is None);
                        lemma_m_amounts_none(
                            self.fuel_consumption@,
                            self.burn_time,
                            i + 1,
                            self.fuel_consumption@.len() as int,
                        );
                    }
                    return None;
                },
            }
            i = i + 1;
        }
        Some(out)
    }

    /// Runtime check of the engine invariant.
    pub fn is_well_formed(&self) -> (b: bool)
        ensures
            b == engine_wf(*self),
    {
        self.isp.check_wf() && self.thrust.check_wf() && self.mass.check_wf()
            && self.burn_time.check_wf() && self.isp.is_pos() && self.thrust.is_nonneg()
            && self.burn_time.is_nonneg() && cons_is_wf(&self.fuel_consumption)
    }

    /// A copy of this engine with the burn time replaced; no other field
    /// changes.
    pub fn with_burn_time(&self, burn_time: Rat) -> (r: Engine)
        ensures
            r.name@ == self.name@,
            r.fuel_consumption@ == self.fuel_consumption@,
            r.isp == self.isp,
            r.thrust == self.thrust,
            r.mass == self.mass,
            r.burn_time == burn_time,
    {
        Engine {
            name: self.name.clone(),
            fuel_consumption: dup_cons(&self.fuel_consumption),
            isp: self.isp,
            thrust: self.thrust,
            mass: self.mass,
            burn_time,
        }
    }

    /// An exact copy of this engine.
    pub fn dup(&self) -> (r: Engine)
        ensures
            r.name@ == self.name@,
            r.fuel_consumption@ == self.fuel_consumption@,
            r.isp == self.isp,
            r.thrust == self.thrust,
            r.mass == self.mass,
            r.burn_time == self.burn_time,
    {
        Engine {
            name: self.name.clone(),
            fuel_consumption: dup_cons(&self.fuel_consumption),
            isp: self.isp,
            thrust: self.thrust,
            mass: self.mass,
            burn_time: self.burn_time,
        }
    }
}

/// The denominators inside an engine model are positive.
pub open spec fn eng_model_wf(m: EngineModel) -> bool {
    &&& m.isp.d > 0
    &&& m.thrust.d > 0
    &&& m.burn_time.d > 0
    &&& forall|i: int| 0 <= i < m.fuel_consumption.len() ==> (#[trigger] m.fuel_consumption[
        i]).0.density.d > 0 && m.fuel_consumption[i].1.d > 0
}

/// Sign information of an engine model: positive impulse and densities,
/// nonnegative thrust, burn time and rates, on top of `eng_model_wf`.
pub open spec fn eng_model_ok(m: EngineModel) -> bool {
    &&& eng_model_wf(m)
    &&& m.isp.n > 0
    &&& m.thrust.n >= 0
    &&& m.burn_time.n >= 0
    &&& forall|i: int| 0 <= i < m.fuel_consumption.len() ==> (#[trigger] m.fuel_consumption[
        i]).0.density.n > 0 && m.fuel_consumption[i].1.n >= 0
}

/// A well-formed engine has a sign-correct model.
pub proof fn lemma_engine_model_ok(e: Engine)
    requires
        engine_wf(e),
    ensures
        eng_model_ok(e@),
{
    lemma_engine_model_wf(e);
    assert forall|i: int| 0 <= i < e@.fuel_consumption.len() implies (#[trigger] e@
        .fuel_consumption[i]).0.density.n > 0 && e@.fuel_consumption[i].1.n >= 0 by {
        assert(e@.fuel_consumption[i] == (e.fuel_consumption@[i].0@, e.fuel_consumption@[
            i].1@));
        assert(fuel_wf(e.fuel_consumption@[i].0));
        assert(q_lt(q_zero(), e.fuel_consumption@[i].0.density@));
        assert(q_le(q_zero(), e.fuel_consumption@[i].1@));
    }
    assert(q_lt(q_zero(), e.isp@));
    assert(q_le(q_zero(), e.thrust@));
    assert(q_le(q_zero(), e.burn_time@));
}

/// The exact mass-per-second sum of sign-correct entries is nonnegative.
pub proof fn lemma_q_mps_nonneg(cons: Seq<(FuelModel, Frac)>)
    requires
        forall|i: int| 0 <= i < cons.len() ==> (#[trigger] cons[i]).0.density.d > 0 && cons[
            i].1.d > 0 && cons[i].0.density.n > 0 && cons[i].1.n >= 0,
    ensures
        q_le(q_zero(), q_mps(cons)),
{
    let terms = q_rate_terms(cons);
    assert forall|j: int| 0 <= j < terms.len() implies crate::rat::q_wf(#[trigger] terms[j])
        && q_le(q_zero(), terms[j]) by {
        assert(terms[j] == q_mul(cons[j].0.density, cons[j].1));
        assert(cons[j].0.density.d * cons[j].1.d > 0 && 0 * (cons[j].0.density.d * cons[
            j].1.d) <= (cons[j].0.density.n * cons[j].1.n) * 1) by (nonlinear_arith)
            requires
                cons[j].0.density.d > 0,
                cons[j].1.d > 0,
                cons[j].0.density.n > 0,
                cons[j].1.n >= 0,
        {}
    }
    crate::rat::lemma_q_sum_nonneg(terms);
}

/// A well-formed engine has a well-formed model.
pub proof fn lemma_engine_model_wf(e: Engine)
    requires
        engine_wf(e),
    ensures
        eng_model_wf(e@),
{
    assert forall|i: int| 0 <= i < e@.fuel_consumption.len() implies (#[trigger] e@
        .fuel_consumption[i]).0.density.d > 0 && e@.fuel_consumption[i].1.d > 0 by {
        assert(e@.fuel_consumption[i] == (e.fuel_consumption@[i].0@, e.fuel_consumption@[
            i].1@));
        assert(fuel_wf(e.fuel_consumption@[i].0));
        assert(e.fuel_consumption@[i].1.wf());
    }
}

/// The product of two positive integers is positive.
pub proof fn lemma_pos_mul(a: int, b: int)
    by (nonlinear_arith)
    requires
        a > 0,
        b > 0,
    ensures
        a * b > 0,
{
}

/// The model of a well-formed consumption list has positive denominators.
pub proof fn lemma_cons_model_wf(cons: Seq<(Fuel, Rat)>)
    requires
        cons_wf(cons),
    ensures
        forall|i: int| 0 <= i < cons_model(cons).len() ==> (#[trigger] cons_model(
            cons,
        )[i]).0.density.d > 0 && cons_model(cons)[i].1.d > 0,
{
    assert forall|i: int| 0 <= i < cons_model(cons).len() implies (#[trigger] cons_model(
        cons,
    )[i]).0.density.d > 0 && cons_model(cons)[i].1.d > 0 by {
        assert(cons_model(cons)[i] == (cons[i].0@, cons[i].1@));
        assert(fuel_wf(cons[i].0));
        assert(cons[i].1.wf());
    }
}

/// The exact mass-per-second sum of well-formed entries has a positive
/// denominator, as does each of its terms.
pub proof fn lemma_q_mps_wf(cons: Seq<(FuelModel, Frac)>)
    requires
        forall|i: int| 0 <= i < cons.len() ==> (#[trigger] cons[i]).0.density.d > 0 && cons[
            i].1.d > 0,
    ensures
        q_mps(cons).d > 0,
        forall|j: int| 0 <= j < q_rate_terms(cons).len() ==> (#[trigger] q_rate_terms(
            cons,
        )[j]).d > 0,
{
    let terms = q_rate_terms(cons);
    assert forall|j: int| 0 <= j < terms.len() implies (#[trigger] terms[j]).d > 0 by {
        assert(terms[j] == q_mul(cons[j].0.density, cons[j].1));
        assert(cons[j].0.density.d * cons[j].1.d > 0) by (nonlinear_arith)
            requires
                cons[j].0.density.d > 0,
                cons[j].1.d > 0,
        {}
    }
    lemma_q_sum_wf(terms);
}

/// Two elementwise-equal sequences of fractions have equal exact sums.
pub proof fn lemma_q_sum_fracs_cong(s: Seq<Rat>, model: Seq<Frac>)
    requires
        s.len() == model.len(),
        forall|k: int| 0 <= k < s.len() ==> (#[trigger] s[k]).wf() && q_eq(s[k]@, model[k]),
        forall|k: int| 0 <= k < model.len() ==> (#[trigger] model[k]).d > 0,
    ensures
        q_eq(q_sum(fracs_of(s)), q_sum(model)),
    decreases s.len(),
{
    if s.len() == 0 {
        assert(fracs_of(s) =~= Seq::<Frac>::empty());
        assert(model =~= Seq::<Frac>::empty());
    } else {
        let n = s.len() as int;
        lemma_q_sum_fracs_cong(s.drop_last(), model.drop_last());
        assert(fracs_of(s).drop_last() =~= fracs_of(s.drop_last()));
        lemma_q_add_cong(
            q_sum(fracs_of(s.drop_last())),
            q_sum(model.drop_last()),
            s[n - 1]@,
            model[n - 1],
        );
        assert(fracs_of(s).last() == s[n - 1]@);
        assert(model.last() == model[n - 1]);
    }
}

} // verus!
