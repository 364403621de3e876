//! Stages: simple stages, boosted stages and payload decorators, with the
//! derived quantities every variant shares.
//!
//! A stage is a set of simultaneously firing engines with a dry mass and a
//! wet mass.  `SimpleStage` burns all its engines for the stage's lifetime;
//! `BoostedStage` adds strap-on boosters that separate when their own burn
//! time elapses; `StageWithPayload` adds the inert mass carried above a
//! stage.  The three variants form the closed enum [`Stage`].

use vstd::prelude::*;

verus! {

use crate::Error;
use crate::fuels::{Fuel, FuelModel};
use crate::engines::{
    Engine, EngineModel, engine_wf, cons_model, m_full_burn, q_full_burn,
};
use crate::rat::{
    Frac, Rat, fracs_of, m_add, m_sum, q_add, q_eq, q_int, q_le, q_lt, q_max_fold, q_mul,
    q_sub, q_sum, q_wf, q_zero, lemma_q_sum_wf, lemma_q_eq_trans, lemma_q_add_cong, sum_rats,
    max_rats, x_max,
};

/// A dry structure and the engines that burn in parallel over the stage's
/// whole life.
#[derive(Debug)]
pub struct SimpleStage {
    pub dry_mass: Rat,
    pub engines: Vec<Engine>,
}

/// A core stage with `booster_count` identical strap-on boosters that burn
/// alongside it and separate when the booster burn time elapses.
#[derive(Debug)]
pub struct BoostedStage {
    pub core: SimpleStage,
    pub booster: SimpleStage,
    pub booster_count: usize,
}

/// A stage decorated with the inert mass of everything mounted above it.
#[derive(Debug)]
pub struct StageWithPayload {
    pub stage: Box<Stage>,
    pub payload_mass: Rat,
}

/// The closed set of stage variants.
#[derive(Debug)]
pub enum Stage {
    Simple(SimpleStage),
    Boosted(BoostedStage),
    WithPayload(StageWithPayload),
}

/// Spec model of a simple stage.
pub struct SimpleModel {
    pub dry_mass: Frac,
    pub engines: Seq<EngineModel>,
}

/// Spec model of a boosted stage.
pub struct BoostedModel {
    pub core: SimpleModel,
    pub booster: SimpleModel,
    pub booster_count: int,
}

/// Spec model of a stage.
pub enum StageModel {
    Simple(SimpleModel),
    Boosted(BoostedModel),
    WithPayload(Box<StageModel>, Frac),
}

/// Spec models of a list of engines.
pub open spec fn engines_model(s: Seq<Engine>) -> Seq<EngineModel> {
    s.map_values(|e: Engine| e@)
}

impl View for SimpleStage {
    type V = SimpleModel;

    open spec fn view(&self) -> SimpleModel {
        SimpleModel { dry_mass: self.dry_mass@, engines: engines_model(self.engines@) }
    }
}

impl View for BoostedStage {
    type V = BoostedModel;

    open spec fn view(&self) -> BoostedModel {
        BoostedModel {
            core: self.core@,
            booster: self.booster@,
            booster_count: self.booster_count as int,
        }
    }
}

/// Spec model of a stage value.
pub open spec fn stage_model(s: Stage) -> StageModel
    decreases s,
{
    match s {
        Stage::Simple(x) => StageModel::Simple(x@),
        Stage::Boosted(b) => StageModel::Boosted(b@),
        Stage::WithPayload(w) => StageModel::WithPayload(
            Box::new(stage_model(*w.stage)),
            w.payload_mass@,
        ),
    }
}

/// The simple-stage invariant: positive dry mass, at least one engine, every
/// engine well formed.
pub open spec fn simple_wf(s: SimpleStage) -> bool {
    &&& s.dry_mass.wf() && q_lt(q_zero(), s.dry_mass@)
    &&& s.engines@.len() > 0
    &&& forall|i: int| 0 <= i < s.engines@.len() ==> engine_wf(#[trigger] s.engines@[i])
}

/// The boosted-stage invariant: both parts well formed, a representable
/// booster count, and boosters that burn no longer than the core.
pub open spec fn boosted_wf(b: BoostedStage) -> bool {
    &&& simple_wf(b.core)
    &&& simple_wf(b.booster)
    &&& b.booster_count <= i64::MAX
    &&& q_le(q_burn_of(b.booster@.engines), q_burn_of(b.core@.engines))
}

/// The stage invariant over all variants; payload decorators carry a
/// nonnegative payload.
pub open spec fn stage_wf(s: Stage) -> bool
    decreases s,
{
    match s {
        Stage::Simple(x) => simple_wf(x),
        Stage::Boosted(b) => boosted_wf(b),
        Stage::WithPayload(w) => stage_wf(*w.stage) && w.payload_mass.wf() && q_le(
            q_zero(),
            w.payload_mass@,
        ),
    }
}

// ---------------------------------------------------------------------------
// Exact mathematics over models.
// ---------------------------------------------------------------------------

/// Burn time of an engine list: the largest burn time, or zero when empty.
pub open spec fn q_burn_of(engs: Seq<EngineModel>) -> Frac {
    q_max_fold(engs.map_values(|e: EngineModel| e.burn_time))
}

/// Full-burn propellant mass of each engine in a list.
pub open spec fn q_fb_terms(engs: Seq<EngineModel>) -> Seq<Frac> {
    engs.map_values(|e: EngineModel| q_full_burn(e.fuel_consumption, e.burn_time))
}

/// Total propellant mass a list of engines drains over its full burns.
pub open spec fn q_fb_sum(engs: Seq<EngineModel>) -> Frac {
    q_sum(q_fb_terms(engs))
}

/// Wet mass of a simple stage: dry mass plus all loaded propellant.
pub open spec fn q_simple_wet(m: SimpleModel) -> Frac {
    q_add(m.dry_mass, q_fb_sum(m.engines))
}

/// Engines of a list with every burn time replaced.
pub open spec fn set_burn_model(engs: Seq<EngineModel>, t: Frac) -> Seq<EngineModel> {
    engs.map_values(
        |e: EngineModel|
            EngineModel {
                name: e.name,
                fuel_consumption: e.fuel_consumption,
                isp: e.isp,
                thrust: e.thrust,
                mass: e.mass,
                burn_time: t,
            },
    )
}

/// Core burn time left once the boosters separate.
pub open spec fn q_remaining_burn(b: BoostedModel) -> Frac {
    q_sub(q_burn_of(b.core.engines), q_burn_of(b.booster.engines))
}

/// The continuation stage of a boosted stage: the core alone, its engines
/// burning for the remaining time.
pub open spec fn sep_model(b: BoostedModel) -> SimpleModel {
    SimpleModel {
        dry_mass: b.core.dry_mass,
        engines: set_burn_model(b.core.engines, q_remaining_burn(b)),
    }
}

/// An engine list repeated `n` times.
pub open spec fn repeat_engines(engs: Seq<EngineModel>, n: int) -> Seq<EngineModel>
    decreases n,
{
    if n <= 0 {
        Seq::empty()
    } else {
        repeat_engines(engs, n - 1) + engs
    }
}

/// Every engine firing during a stage, booster multiplicities included.
pub open spec fn s_engines(m: StageModel) -> Seq<EngineModel>
    decreases m,
{
    match m {
        StageModel::Simple(x) => x.engines,
        StageModel::Boosted(b) => b.core.engines + repeat_engines(
            b.booster.engines,
            b.booster_count,
        ),
        StageModel::WithPayload(inner, _) => s_engines(*inner),
    }
}

/// Exact wet mass of a stage.
pub open spec fn s_wet(m: StageModel) -> Frac
    decreases m,
{
    match m {
        StageModel::Simple(x) => q_simple_wet(x),
        StageModel::Boosted(b) => q_add(
            q_simple_wet(b.core),
            q_mul(q_simple_wet(b.booster), q_int(b.booster_count)),
        ),
        StageModel::WithPayload(inner, p) => q_add(s_wet(*inner), p),
    }
}

/// Exact dry mass of a stage.  For a boosted stage this is the wet mass of
/// the continuation stage (the core still holds its remaining propellant at
/// separation) plus the boosters' dry mass.
pub open spec fn s_dry(m: StageModel) -> Frac
    decreases m,
{
    match m {
        StageModel::Simple(x) => x.dry_mass,
        StageModel::Boosted(b) => q_add(
            q_simple_wet(sep_model(b)),
            q_mul(b.booster.dry_mass, q_int(b.booster_count)),
        ),
        StageModel::WithPayload(inner, p) => q_add(s_dry(*inner), p),
    }
}

/// Exact burn time of a stage as configured: for a boosted stage, the
/// booster burn time, since the configuration only exists until separation.
pub open spec fn s_burn(m: StageModel) -> Frac
    decreases m,
{
    match m {
        StageModel::Simple(x) => q_burn_of(x.engines),
        StageModel::Boosted(b) => q_burn_of(b.booster.engines),
        StageModel::WithPayload(inner, _) => s_burn(*inner),
    }
}

// ---------------------------------------------------------------------------
// Mirrors of the executable computations (exact success conditions).
// ---------------------------------------------------------------------------

/// The data of an engine list that its full-burn masses depend on.
pub open spec fn fb_data(engs: Seq<Engine>) -> Seq<(Seq<(crate::fuels::Fuel, Rat)>, Rat)> {
    engs.map_values(|e: Engine| (e.fuel_consumption@, e.burn_time))
}

/// The burn times of an engine list.
pub open spec fn burn_list(engs: Seq<Engine>) -> Seq<Rat> {
    engs.map_values(|e: Engine| e.burn_time)
}

/// Mirror of collecting the first `i` full-burn masses.
pub open spec fn m_fb_prefix(d: Seq<(Seq<(crate::fuels::Fuel, Rat)>, Rat)>, i: int) -> Option<
    Seq<Rat>,
>
    decreases i,
{
    if i <= 0 {
        Some(Seq::empty())
    } else {
        match m_fb_prefix(d, i - 1) {
            Some(ts) => match m_full_burn(d[i - 1].0, d[i - 1].1) {
                Some(t) => Some(ts.push(t)),
                None => None,
            },
            None => None,
        }
    }
}

/// Once a full-burn mass fails to fit, every longer prefix fails too.
pub proof fn lemma_m_fb_none(d: Seq<(Seq<(crate::fuels::Fuel, Rat)>, Rat)>, i: int, j: int)
    requires
        0 <= i <= j,
        m_fb_prefix(d, i) is None,
    ensures
        m_fb_prefix(d, j) is None,
    decreases j - i,
{
    if j > i {
        lemma_m_fb_none(d, i, j - 1);
    }
}

/// Mirror of the wet-mass computation of a simple stage.
pub open spec fn m_simple_wet_from(
    dry_mass: Rat,
    d: Seq<(Seq<(crate::fuels::Fuel, Rat)>, Rat)>,
) -> Option<Rat> {
    match m_fb_prefix(d, d.len() as int) {
        Some(ts) => match m_sum(ts) {
            Some(t) => m_add(dry_mass, t),
            None => None,
        },
        None => None,
    }
}

/// Mirror of `SimpleStage::wet_mass`.
pub open spec fn m_simple_wet(s: SimpleStage) -> Option<Rat> {
    m_simple_wet_from(s.dry_mass, fb_data(s.engines@))
}

/// Mirror of `SimpleStage::burn_time`: the exact fold, element
/// representation included.
pub open spec fn x_burn(s: SimpleStage) -> Rat {
    x_max(burn_list(s.engines@))
}

/// The error a simple-stage constructor reports, by the first failing check.
pub open spec fn simple_error(dry_mass: Rat, engines: Seq<Engine>) -> Error {
    if !(dry_mass.wf() && q_lt(q_zero(), dry_mass@)) {
        Error::NonPositiveDryMass
    } else if engines.len() == 0 {
        Error::NoEngines
    } else {
        Error::InvalidEngine
    }
}

impl SimpleStage {
    /// A validated simple stage; `Err` exactly when the dry mass is not
    /// positive, the engine list is empty, or an engine breaks its
    /// invariant.
    pub fn new(dry_mass: Rat, engines: Vec<Engine>) -> (r: Result<SimpleStage, Error>)
        ensures
            r matches Ok(s) ==> simple_wf(s) && s.dry_mass == dry_mass && s.engines@
                == engines@,
            r is Ok <==> {
                &&& dry_mass.wf() && q_lt(q_zero(), dry_mass@)
                &&& engines@.len() > 0
                &&& forall|i: int| 0 <= i < engines@.len() ==> engine_wf(
                    #[trigger] engines@[i],
                )
            },
            r matches Err(e) ==> e == simple_error(dry_mass, engines@),
    {
        if !(dry_mass.check_wf() && dry_mass.is_pos()) {
            return Err(Error::NonPositiveDryMass);
        }
        if engines.len() == 0 {
            return Err(Error::NoEngines);
        }
        let mut i: usize = 0;
        while i < engines.len()
            invariant
                0 <= i <= engines@.len(),
                forall|k: int| 0 <= k < i ==> engine_wf(#[trigger] engines@[k]),
                dry_mass.wf() && q_lt(q_zero(), dry_mass@),
                engines@.len() > 0,
            decreases engines@.len() - i,
        {
            if !engines[i].is_well_formed() {
                return Err(Error::InvalidEngine);
            }
            i = i + 1;
        }
        Ok(SimpleStage { dry_mass, engines })
    }

    /// The stage's dry mass.
    pub fn dry_mass(&self) -> (r: Rat)
        ensures
            r == self.dry_mass,
    {
        self.dry_mass
    }

    /// Exact wet mass: dry mass plus the propellant all engines drain over
    /// their full burns; `None` when an exact intermediate does not fit.
    pub fn wet_mass(&self) -> (r: Option<Rat>)
        requires
            simple_wf(*self),
        ensures
            r == m_simple_wet(*self),
            r matches Some(v) ==> v.wf() && q_eq(v@, q_simple_wet(self@)),
    {
        let ghost d = fb_data(self.engines@);
        let mut terms: Vec<Rat> = Vec::new();
        let mut i: usize = 0;
        while i < self.engines.len()
            invariant
                0 <= i <= self.engines@.len(),
                simple_wf(*self),
                d == fb_data(self.engines@),
                terms@.len() == i,
                m_fb_prefix(d, i as int) == Some(terms@),
                forall|k: int| 0 <= k < i ==> (#[trigger] terms@[k]).wf() && q_eq(
                    terms@[k]@,
                    q_fb_terms(self@.engines)[k],
                ),
            decreases self.engines@.len() - i,
        {
            proof {
                assert(engine_wf(self.engines@[i as int]));
                assert(d[i as int] == (self.engines@[i as int].fuel_consumption@, self.engines@[
                    i as int].burn_time));
                assert(q_fb_terms(self@.engines)[i as int] == q_full_burn(
                    self.engines@[i as int]@.fuel_consumption,
                    self.engines@[i as int]@.burn_time,
                ));
            }
            let fb = self.engines[i].propellant_mass_for_full_burn();
            match fb {
                Some(t) => {
                    terms.push(t);
                },
                None => {
                    proof {
                        assert(m_fb_prefix(d, i + 1) is None);
                        lemma_m_fb_none(d, i + 1, d.len() as int);
                    }
                    return None;
                },
            }
            i = i + 1;
        }
        let total = sum_rats(&terms);
        match total {
            Some(t) => {
                let r = self.dry_mass.checked_add(&t);
                proof {
                    if r is Some {
                        let v = r->Some_0;
                        let fbs = q_fb_terms(self@.engines);
                        lemma_simple_models_wf(*self);
                        lemma_fb_terms_wf(self@.engines);
                        assert forall|j: int| 0 <= j < fracs_of(terms@).len() implies q_wf(
                            #[trigger] fracs_of(terms@)[j],
                        ) by {
                            assert(fracs_of(terms@)[j] == terms@[j]@);
                        }
                        crate::engines::lemma_q_sum_fracs_cong(terms@, fbs);
                        lemma_q_sum_wf(fracs_of(terms@));
                        lemma_q_sum_wf(fbs);
                        lemma_q_eq_trans(t@, q_sum(fracs_of(terms@)), q_sum(fbs));
                        lemma_q_add_cong(self.dry_mass@, self.dry_mass@, t@, q_sum(fbs));
                        assert(q_wf(q_add(self.dry_mass@, t@))
                            && q_wf(q_add(self.dry_mass@, q_sum(fbs)))) by (nonlinear_arith)
                            requires
                                self.dry_mass@.d > 0,
                                t@.d > 0,
                                q_sum(fbs).d > 0,
                        {}
                        lemma_q_eq_trans(
                            v@,
                            q_add(self.dry_mass@, t@),
                            q_add(self.dry_mass@, q_sum(fbs)),
                        );
                    }
                }
                r
            },
            None => None,
        }
    }

    /// Burn time of the stage: the largest engine burn time, zero with no
    /// engines.
    pub fn burn_time(&self) -> (r: Rat)
        requires
            forall|i: int| 0 <= i < self.engines@.len() ==> engine_wf(
                #[trigger] self.engines@[i],
            ),
        ensures
            r == x_burn(*self),
            r.wf(),
            r@ == q_burn_of(self@.engines),
    {
        let mut burns: Vec<Rat> = Vec::new();
        let mut i: usize = 0;
        while i < self.engines.len()
            invariant
                0 <= i <= self.engines@.len(),
                forall|k: int| 0 <= k < self.engines@.len() ==> engine_wf(
                    #[trigger] self.engines@[k],
                ),
                burns@.len() == i,
                forall|k: int| 0 <= k < i ==> burns@[k] == burn_list(self.engines@)[k],
            decreases self.engines@.len() - i,
        {
            burns.push(self.engines[i].burn_time);
            i = i + 1;
        }
        proof {
            assert(burns@ =~= burn_list(self.engines@));
            assert forall|j: int| 0 <= j < burns@.len() implies (#[trigger] burns@[j]).wf() by {
                assert(burns@[j] == self.engines@[j].burn_time);
                assert(engine_wf(self.engines@[j]));
            }
        }
        let r = max_rats(&burns);
        proof {
            assert(fracs_of(burn_list(self.engines@)) =~= self@.engines.map_values(
                |e: EngineModel| e.burn_time,
            ));
        }
        r
    }

    /// A copy of this stage with every engine's burn time replaced; used to
    /// build the continuation stage after a booster separation.
    pub fn with_remaining_burn_time(&self, burn_time: Rat) -> (r: SimpleStage)
        ensures
            r.dry_mass == self.dry_mass,
            r@ == (SimpleModel {
                dry_mass: self@.dry_mass,
                engines: set_burn_model(self@.engines, burn_time@),
            }),
            burn_list(r.engines@) =~= Seq::new(self.engines@.len(), |i: int| burn_time),
            fb_data(r.engines@) =~= self.engines@.map_values(
                |e: Engine| (e.fuel_consumption@, burn_time),
            ),
            ti_list(r.engines@) == ti_list(self.engines@),
            (forall|i: int|
                0 <= i < self.engines@.len() ==> engine_wf(#[trigger] self.engines@[i]))
                && burn_time.wf() && q_le(q_zero(), burn_time@) ==> (forall|i: int|
                0 <= i < r.engines@.len() ==> engine_wf(#[trigger] r.engines@[i])),
    {
        let mut engines: Vec<Engine> = Vec::new();
        let mut i: usize = 0;
        while i < self.engines.len()
            invariant
                0 <= i <= self.engines@.len(),
                engines@.len() == i,
                forall|k: int| 0 <= k < i ==> {
                    let e = #[trigger] engines@[k];
                    let o = self.engines@[k];
                    &&& e.name@ == o.name@
                    &&& e.fuel_consumption@ == o.fuel_consumption@
                    &&& e.isp == o.isp
                    &&& e.thrust == o.thrust
                    &&& e.mass == o.mass
                    &&& e.burn_time == burn_time
                },
            decreases self.engines@.len() - i,
        {
            engines.push(self.engines[i].with_burn_time(burn_time));
            i = i + 1;
        }
        let r = SimpleStage { dry_mass: self.dry_mass, engines };
        proof {
            assert forall|k: int| 0 <= k < r.engines@.len() implies #[trigger] engines_model(
                r.engines@,
            )[k] == set_burn_model(self@.engines, burn_time@)[k] by {
                assert(engines_model(r.engines@)[k] == r.engines@[k]@);
                assert(cons_model(r.engines@[k].fuel_consumption@) == cons_model(
                    self.engines@[k].fuel_consumption@,
                ));
            }
            assert(engines_model(r.engines@) =~= set_burn_model(self@.engines, burn_time@));
            assert forall|k: int| 0 <= k < r.engines@.len() implies #[trigger] fb_data(
                r.engines@,
            )[k] == self.engines@.map_values(
                |e: Engine| (e.fuel_consumption@, burn_time),
            )[k] by {}
            assert forall|k: int| 0 <= k < r.engines@.len() implies #[trigger] burn_list(
                r.engines@,
            )[k] == burn_time by {}
            assert(ti_list(r.engines@) =~= ti_list(self.engines@));
            if (forall|i2: int|
                0 <= i2 < self.engines@.len() ==> engine_wf(#[trigger] self.engines@[i2]))
                && burn_time.wf() && q_le(q_zero(), burn_time@) {
                assert forall|i2: int| 0 <= i2 < r.engines@.len() implies engine_wf(
                    #[trigger] r.engines@[i2],
                ) by {
                    assert(engine_wf(self.engines@[i2]));
                    assert(crate::engines::cons_wf(r.engines@[i2].fuel_consumption@));
                }
            }
        }
        r
    }

    /// An exact copy of this stage (same model, same derived values).
    pub fn dup(&self) -> (r: SimpleStage)
        ensures
            r.dry_mass == self.dry_mass,
            r@ == self@,
            fb_data(r.engines@) == fb_data(self.engines@),
            burn_list(r.engines@) == burn_list(self.engines@),
            ti_list(r.engines@) == ti_list(self.engines@),
            simple_wf(*self) ==> simple_wf(r),
    {
        let mut engines: Vec<Engine> = Vec::new();
        let mut i: usize = 0;
        while i < self.engines.len()
            invariant
                0 <= i <= self.engines@.len(),
                engines@.len() == i,
                forall|k: int| 0 <= k < i ==> {
                    let e = #[trigger] engines@[k];
                    let o = self.engines@[k];
                    &&& e.name@ == o.name@
                    &&& e.fuel_consumption@ == o.fuel_consumption@
                    &&& e.isp == o.isp
                    &&& e.thrust == o.thrust
                    &&& e.mass == o.mass
                    &&& e.burn_time == o.burn_time
                },
            decreases self.engines@.len() - i,
        {
            engines.push(self.engines[i].dup());
            i = i + 1;
        }
        let r = SimpleStage { dry_mass: self.dry_mass, engines };
        proof {
            assert forall|k: int| 0 <= k < r.engines@.len() implies #[trigger] engines_model(
                r.engines@,
            )[k] == engines_model(self.engines@)[k] by {
                assert(cons_model(r.engines@[k].fuel_consumption@) == cons_model(
                    self.engines@[k].fuel_consumption@,
                ));
            }
            assert(engines_model(r.engines@) =~= engines_model(self.engines@));
            assert(fb_data(r.engines@) =~= fb_data(self.engines@));
            assert(burn_list(r.engines@) =~= burn_list(self.engines@));
            assert(ti_list(r.engines@) =~= ti_list(self.engines@));
            if simple_wf(*self) {
                assert forall|i2: int| 0 <= i2 < r.engines@.len() implies engine_wf(
                    #[trigger] r.engines@[i2],
                ) by {
                    assert(engine_wf(self.engines@[i2]));
                    assert(crate::engines::cons_wf(r.engines@[i2].fuel_consumption@));
                }
            }
        }
        r
    }
}

/// The full-burn terms of well-formed engine models have positive
/// denominators.
pub proof fn lemma_fb_terms_wf(engs: Seq<EngineModel>)
    requires
        forall|j: int| 0 <= j < engs.len() ==> crate::engines::eng_model_wf(
            #[trigger] engs[j],
        ),
    ensures
        forall|j: int| 0 <= j < q_fb_terms(engs).len() ==> (#[trigger] q_fb_terms(engs)[j]).d
            > 0,
{
    assert forall|j: int| 0 <= j < q_fb_terms(engs).len() implies (#[trigger] q_fb_terms(
        engs,
    )[j]).d > 0 by {
        assert(q_fb_terms(engs)[j] == q_full_burn(engs[j].fuel_consumption, engs[j].burn_time));
        crate::engines::lemma_q_mps_wf(engs[j].fuel_consumption);
        crate::engines::lemma_pos_mul(
            crate::engines::q_mps(engs[j].fuel_consumption).d,
            engs[j].burn_time.d,
        );
    }
}

/// A well-formed simple-stage model has a positive wet-mass denominator.
pub proof fn lemma_q_simple_wet_wf(m: SimpleModel)
    requires
        m.dry_mass.d > 0,
        forall|j: int| 0 <= j < m.engines.len() ==> crate::engines::eng_model_wf(
            #[trigger] m.engines[j],
        ),
    ensures
        q_simple_wet(m).d > 0,
        q_fb_sum(m.engines).d > 0,
{
    lemma_fb_terms_wf(m.engines);
    lemma_q_sum_wf(q_fb_terms(m.engines));
    crate::engines::lemma_pos_mul(m.dry_mass.d, q_fb_sum(m.engines).d);
}

/// Replacing a burn time by an equal rational does not change the exact
/// full-burn mass sum.
pub proof fn lemma_fb_sum_burn_cong(engs: Seq<EngineModel>, t1: Frac, t2: Frac)
    requires
        q_eq(t1, t2),
    ensures
        q_eq(q_fb_sum(set_burn_model(engs, t1)), q_fb_sum(set_burn_model(engs, t2))),
{
    let s1 = q_fb_terms(set_burn_model(engs, t1));
    let s2 = q_fb_terms(set_burn_model(engs, t2));
    assert forall|k: int| 0 <= k < s1.len() implies q_eq(#[trigger] s1[k], s2[k]) by {
        assert(s1[k] == q_full_burn(engs[k].fuel_consumption, t1));
        assert(s2[k] == q_full_burn(engs[k].fuel_consumption, t2));
        crate::rat::lemma_q_mul_cong(
            crate::engines::q_mps(engs[k].fuel_consumption),
            crate::engines::q_mps(engs[k].fuel_consumption),
            t1,
            t2,
        );
    }
    crate::rat::lemma_q_sum_cong(s1, s2);
}

/// Replacing a burn time by an equal rational does not change the exact wet
/// mass of a simple stage.
pub proof fn lemma_simple_wet_burn_cong(engs: Seq<EngineModel>, dry_mass: Frac, t1: Frac, t2: Frac)
    requires
        q_eq(t1, t2),
    ensures
        q_eq(
            q_simple_wet(SimpleModel { dry_mass: dry_mass, engines: set_burn_model(engs, t1) }),
            q_simple_wet(SimpleModel { dry_mass: dry_mass, engines: set_burn_model(engs, t2) }),
        ),
{
    lemma_fb_sum_burn_cong(engs, t1, t2);
    lemma_q_add_cong(
        dry_mass,
        dry_mass,
        q_fb_sum(set_burn_model(engs, t1)),
        q_fb_sum(set_burn_model(engs, t2)),
    );
}

// ---------------------------------------------------------------------------
// Boosted stages.
// ---------------------------------------------------------------------------

/// Mirror of the exact remaining core burn time after separation.
pub open spec fn m_sep_rt(b: BoostedStage) -> Option<Rat> {
    crate::rat::m_sub(x_burn(b.core), x_burn(b.booster))
}

/// Mirror of the wet mass of the continuation stage built at separation.
pub open spec fn m_sep_wet(b: BoostedStage) -> Option<Rat> {
    match m_sep_rt(b) {
        Some(rt) => m_simple_wet_from(
            b.core.dry_mass,
            b.core.engines@.map_values(|e: Engine| (e.fuel_consumption@, rt)),
        ),
        None => None,
    }
}

/// The exact rational of a small nonnegative count.
pub open spec fn m_count_rat(n: int) -> Rat {
    Rat { num: n as i64, den: 1 }
}

impl BoostedStage {
    /// A validated boosted stage; `Err` exactly when a part is ill formed,
    /// the booster count is not representable, or the boosters burn longer
    /// than the core.
    pub fn new(core: SimpleStage, booster: SimpleStage, booster_count: usize) -> (r: Result<
        BoostedStage,
        Error,
    >)
        ensures
            r matches Ok(b) ==> boosted_wf(b) && b.core == core && b.booster == booster
                && b.booster_count == booster_count,
            r is Ok <==> {
                &&& simple_wf(core)
                &&& simple_wf(booster)
                &&& booster_count <= i64::MAX
                &&& q_le(q_burn_of(booster@.engines), q_burn_of(core@.engines))
            },
    {
        if !core.is_well_formed() {
            return Err(Error::InvalidEngine);
        }
        if !booster.is_well_formed() {
            return Err(Error::InvalidEngine);
        }
        if (booster_count as u64) > (i64::MAX as u64) {
            return Err(Error::Overflow);
        }
        let cb = core.burn_time();
        let bb = booster.burn_time();
        if !bb.le(&cb) {
            return Err(Error::BoosterBurnExceedsCore);
        }
        Ok(BoostedStage { core, booster, booster_count })
    }

    /// The booster count as an exact rational.
    fn booster_count_rat(&self) -> (r: Rat)
        requires
            self.booster_count <= i64::MAX,
        ensures
            r == m_count_rat(self.booster_count as int),
            r.wf(),
            r@ == q_int(self.booster_count as int),
    {
        Rat { num: self.booster_count as i64, den: 1 }
    }

    /// The continuation stage once the boosters separate: the core alone,
    /// its engines set to the remaining burn time; `None` when the exact
    /// difference of burn times does not fit.
    pub fn stage_after_booster_separation(&self) -> (r: Option<SimpleStage>)
        requires
            boosted_wf(*self),
        ensures
            r is Some <==> m_sep_rt(*self) is Some,
            r matches Some(s) ==> {
                &&& simple_wf(s)
                &&& s.dry_mass == self.core.dry_mass
                &&& ti_list(s.engines@) == ti_list(self.core.engines@)
                &&& s@ == (SimpleModel {
                    dry_mass: self.core.dry_mass@,
                    engines: set_burn_model(self@.core.engines, m_sep_rt(*self)->Some_0@),
                })
                &&& q_eq(m_sep_rt(*self)->Some_0@, q_remaining_burn(self@))
                &&& m_simple_wet(s) == m_sep_wet(*self)
            },
    {
        let cb = self.core.burn_time();
        let bb = self.booster.burn_time();
        let rt = cb.checked_sub(&bb);
        match rt {
            Some(t) => {
                proof {
                    crate::rat::lemma_q_sub_nonneg(cb@, bb@, );
                    crate::rat::lemma_q_le_cong(
                        q_zero(),
                        q_zero(),
                        q_sub(cb@, bb@),
                        t@,
                    );
                }
                let s = self.core.with_remaining_burn_time(t);
                proof {
                    assert(fb_data(s.engines@) =~= self.core.engines@.map_values(
                        |e: Engine| (e.fuel_consumption@, t),
                    ));
                    assert(simple_wf(s));
                }
                Some(s)
            },
            None => None,
        }
    }

    /// Burn time of the boosted configuration: the boosters', since the
    /// configuration only lives until they separate.
    pub fn burn_time(&self) -> (r: Rat)
        requires
            boosted_wf(*self),
        ensures
            r == x_burn(self.booster),
            r.wf(),
            r@ == q_burn_of(self@.booster.engines),
    {
        self.booster.burn_time()
    }
}

// ---------------------------------------------------------------------------
// The stage capability set over all variants.
// ---------------------------------------------------------------------------

/// Mirror of the exact wet-mass computation of a stage.
pub open spec fn m_wet(s: Stage) -> Option<Rat>
    decreases s,
{
    match s {
        Stage::Simple(x) => m_simple_wet(x),
        Stage::Boosted(b) => match m_simple_wet(b.core) {
            Some(cw) => match m_simple_wet(b.booster) {
                Some(bw) => match crate::rat::m_mul(bw, m_count_rat(b.booster_count as int)) {
                    Some(t) => m_add(cw, t),
                    None => None,
                },
                None => None,
            },
            None => None,
        },
        Stage::WithPayload(w) => match m_wet(*w.stage) {
            Some(iw) => m_add(iw, w.payload_mass),
            None => None,
        },
    }
}

/// Mirror of the exact dry-mass computation of a stage.
pub open spec fn m_dry(s: Stage) -> Option<Rat>
    decreases s,
{
    match s {
        Stage::Simple(x) => Some(x.dry_mass),
        Stage::Boosted(b) => match m_sep_wet(b) {
            Some(sw) => match crate::rat::m_mul(
                b.booster.dry_mass,
                m_count_rat(b.booster_count as int),
            ) {
                Some(t) => m_add(sw, t),
                None => None,
            },
            None => None,
        },
        Stage::WithPayload(w) => match m_dry(*w.stage) {
            Some(id) => m_add(id, w.payload_mass),
            None => None,
        },
    }
}

/// Mirror of the burn-time fold of a stage.
pub open spec fn x_stage_burn(s: Stage) -> Rat
    decreases s,
{
    match s {
        Stage::Simple(x) => x_burn(x),
        Stage::Boosted(b) => x_burn(b.booster),
        Stage::WithPayload(w) => x_stage_burn(*w.stage),
    }
}

/// Whether following one separation step runs into no overflow.
pub open spec fn m_next_ok(s: Stage) -> bool
    decreases s,
{
    match s {
        Stage::Simple(_) => true,
        Stage::Boosted(b) => m_sep_rt(b) is Some,
        Stage::WithPayload(w) => m_next_ok(*w.stage),
    }
}

/// Model of the stage that follows a separation event; `None` for a
/// terminal stage.
pub open spec fn next_model(s: Stage) -> Option<StageModel>
    decreases s,
{
    match s {
        Stage::Simple(_) => None,
        Stage::Boosted(b) => Some(
            StageModel::Simple(
                SimpleModel {
                    dry_mass: b.core.dry_mass@,
                    engines: set_burn_model(b.core@.engines, m_sep_rt(b)->Some_0@),
                },
            ),
        ),
        Stage::WithPayload(w) => match next_model(*w.stage) {
            Some(n) => Some(StageModel::WithPayload(Box::new(n), w.payload_mass@)),
            None => None,
        },
    }
}

/// An optional rational with a payload added exactly.
pub open spec fn m_opt_add(o: Option<Rat>, p: Rat) -> Option<Rat> {
    match o {
        Some(v) => m_add(v, p),
        None => None,
    }
}

/// Thrust and impulse of the engines still firing after the next
/// separation event: the core alone, under any payload decorators.
pub open spec fn x_next_ti(s: Stage) -> Seq<(Rat, Rat)>
    decreases s,
{
    match s {
        Stage::Simple(_) => Seq::empty(),
        Stage::Boosted(b) => ti_list(b.core.engines@),
        Stage::WithPayload(w) => x_next_ti(*w.stage),
    }
}

/// Mirror of the exact wet mass of the stage after the next separation.
pub open spec fn m_next_wet(s: Stage) -> Option<Rat>
    decreases s,
{
    match s {
        Stage::Simple(_) => None,
        Stage::Boosted(b) => m_sep_wet(b),
        Stage::WithPayload(w) => m_opt_add(m_next_wet(*w.stage), w.payload_mass),
    }
}

/// Mirror of the exact dry mass of the stage after the next separation.
pub open spec fn m_next_dry(s: Stage) -> Option<Rat>
    decreases s,
{
    match s {
        Stage::Simple(_) => None,
        Stage::Boosted(b) => Some(b.core.dry_mass),
        Stage::WithPayload(w) => m_opt_add(m_next_dry(*w.stage), w.payload_mass),
    }
}

impl SimpleStage {
    /// Runtime check of the simple-stage invariant.
    pub fn is_well_formed(&self) -> (b: bool)
        ensures
            b == simple_wf(*self),
    {
        if !(self.dry_mass.check_wf() && self.dry_mass.is_pos()) {
            return false;
        }
        if self.engines.len() == 0 {
            return false;
        }
        let mut i: usize = 0;
        while i < self.engines.len()
            invariant
                0 <= i <= self.engines@.len(),
                forall|k: int| 0 <= k < i ==> engine_wf(#[trigger] self.engines@[k]),
            decreases self.engines@.len() - i,
        {
            if !self.engines[i].is_well_formed() {
                return false;
            }
            i = i + 1;
        }
        true
    }
}

impl Stage {
    /// Exact wet mass of the stage: its own and, for a boosted stage, its
    /// boosters'; `None` when an exact intermediate does not fit.
    pub fn wet_mass(&self) -> (r: Option<Rat>)
        requires
            stage_wf(*self),
        ensures
            r == m_wet(*self),
            r matches Some(v) ==> v.wf() && q_eq(v@, s_wet(stage_model(*self))),
        decreases *self,
    {
        match self {
            Stage::Simple(x) => x.wet_mass(),
            Stage::Boosted(b) => {
                let cw = match b.core.wet_mass() {
                    Some(v) => v,
                    None => {
                        return None;
                    },
                };
                let bw = match b.booster.wet_mass() {
                    Some(v) => v,
                    None => {
                        return None;
                    },
                };
                let count = b.booster_count_rat();
                let t = match bw.checked_mul(&count) {
                    Some(v) => v,
                    None => {
                        return None;
                    },
                };
                let r = cw.checked_add(&t);
                proof {
                    if r is Some {
                        let v = r->Some_0;
                        lemma_simple_models_wf(b.core);
                        lemma_simple_models_wf(b.booster);
                        lemma_q_simple_wet_wf(b.core@);
                        lemma_q_simple_wet_wf(b.booster@);
                        crate::rat::lemma_q_mul_cong(
                            bw@,
                            q_simple_wet(b.booster@),
                            count@,
                            q_int(b.booster_count as int),
                        );
                        crate::engines::lemma_pos_mul(bw@.d, count@.d);
                        crate::engines::lemma_pos_mul(q_simple_wet(b.booster@).d, 1);
                        lemma_q_eq_trans(
                            t@,
                            q_mul(bw@, count@),
                            q_mul(q_simple_wet(b.booster@), q_int(b.booster_count as int)),
                        );
                        lemma_q_add_cong(
                            cw@,
                            q_simple_wet(b.core@),
                            t@,
                            q_mul(q_simple_wet(b.booster@), q_int(b.booster_count as int)),
                        );
                        crate::engines::lemma_pos_mul(cw@.d, t@.d);
                        crate::engines::lemma_pos_mul(
                            q_simple_wet(b.core@).d,
                            q_mul(q_simple_wet(b.booster@), q_int(b.booster_count as int)).d,
                        );
                        lemma_q_eq_trans(
                            v@,
                            q_add(cw@, t@),
                            q_add(
                                q_simple_wet(b.core@),
                                q_mul(q_simple_wet(b.booster@), q_int(b.booster_count as int)),
                            ),
                        );
                    }
                }
                r
            },
            Stage::WithPayload(w) => {
                let iw = match w.stage.wet_mass() {
                    Some(v) => v,
                    None => {
                        return None;
                    },
                };
                let r = iw.checked_add(&w.payload_mass);
                proof {
                    if r is Some {
                        let v = r->Some_0;
                        let inner = stage_model(*w.stage);
                        lemma_s_wet_wf(*w.stage);
                        lemma_q_add_cong(iw@, s_wet(inner), w.payload_mass@, w.payload_mass@);
                        crate::engines::lemma_pos_mul(iw@.d, w.payload_mass@.d);
                        crate::engines::lemma_pos_mul(s_wet(inner).d, w.payload_mass@.d);
                        lemma_q_eq_trans(
                            v@,
                            q_add(iw@, w.payload_mass@),
                            q_add(s_wet(inner), w.payload_mass@),
                        );
                    }
                }
                r
            },
        }
    }

    /// Exact dry mass of the stage.  For a boosted stage: the wet mass of
    /// the continuation stage plus the boosters' dry mass; `None` when an
    /// exact intermediate does not fit.
    pub fn dry_mass(&self) -> (r: Option<Rat>)
        requires
            stage_wf(*self),
        ensures
            r == m_dry(*self),
            r matches Some(v) ==> v.wf() && q_eq(v@, s_dry(stage_model(*self))),
        decreases *self,
    {
        match self {
            Stage::Simple(x) => Some(x.dry_mass),
            Stage::Boosted(b) => {
                let sep = match b.stage_after_booster_separation() {
                    Some(s) => s,
                    None => {
                        return None;
                    },
                };
                let sw = match sep.wet_mass() {
                    Some(v) => v,
                    None => {
                        return None;
                    },
                };
                let count = b.booster_count_rat();
                let t = match b.booster.dry_mass.checked_mul(&count) {
                    Some(v) => v,
                    None => {
                        return None;
                    },
                };
                let r = sw.checked_add(&t);
                proof {
                    if r is Some {
                        let v = r->Some_0;
                        let rt = m_sep_rt(*b)->Some_0;
                        lemma_simple_models_wf(b.core);
                        assert forall|j: int| 0 <= j < sep@.engines.len() implies crate::engines::eng_model_wf(
                            #[trigger] sep@.engines[j],
                        ) by {
                            assert(sep@.engines[j] == set_burn_model(b.core@.engines, rt@)[j]);
                            assert(crate::engines::eng_model_wf(b.core@.engines[j]));
                        }
                        lemma_q_simple_wet_wf(sep@);
                        lemma_simple_wet_burn_cong(
                            b.core@.engines,
                            b.core.dry_mass@,
                            rt@,
                            q_remaining_burn(b@),
                        );
                        lemma_simple_models_wf(b.booster);
                        lemma_burn_of_wf(b.core@.engines);
                        lemma_burn_of_wf(b.booster@.engines);
                        crate::engines::lemma_pos_mul(
                            q_burn_of(b.core@.engines).d,
                            q_burn_of(b.booster@.engines).d,
                        );
                        assert(q_remaining_burn(b@).d > 0);
                        let sm = sep_model(b@);
                        assert forall|j: int| 0 <= j < sm.engines.len() implies crate::engines::eng_model_wf(
                            #[trigger] sm.engines[j],
                        ) by {
                            assert(crate::engines::eng_model_wf(b.core@.engines[j]));
                        }
                        lemma_q_simple_wet_wf(sm);
                        lemma_q_eq_trans(sw@, q_simple_wet(sep@), q_simple_wet(sm));
                        crate::rat::lemma_q_mul_cong(
                            b.booster.dry_mass@,
                            b.booster.dry_mass@,
                            count@,
                            q_int(b.booster_count as int),
                        );
                        crate::engines::lemma_pos_mul(b.booster.dry_mass@.d, count@.d);
                        lemma_q_eq_trans(
                            t@,
                            q_mul(b.booster.dry_mass@, count@),
                            q_mul(b.booster.dry_mass@, q_int(b.booster_count as int)),
                        );
                        lemma_q_add_cong(
                            sw@,
                            q_simple_wet(sm),
                            t@,
                            q_mul(b.booster.dry_mass@, q_int(b.booster_count as int)),
                        );
                        crate::engines::lemma_pos_mul(sw@.d, t@.d);
                        crate::engines::lemma_pos_mul(
                            q_simple_wet(sm).d,
                            q_mul(b.booster.dry_mass@, q_int(b.booster_count as int)).d,
                        );
                        lemma_q_eq_trans(
                            v@,
                            q_add(sw@, t@),
                            q_add(
                                q_simple_wet(sm),
                                q_mul(b.booster.dry_mass@, q_int(b.booster_count as int)),
                            ),
                        );
                    }
                }
                r
            },
            Stage::WithPayload(w) => {
                let id = match w.stage.dry_mass() {
                    Some(v) => v,
                    None => {
                        return None;
                    },
                };
                let r = id.checked_add(&w.payload_mass);
                proof {
                    if r is Some {
                        let v = r->Some_0;
                        let inner = stage_model(*w.stage);
                        lemma_s_dry_wf(*w.stage);
                        lemma_q_add_cong(id@, s_dry(inner), w.payload_mass@, w.payload_mass@);
                        crate::engines::lemma_pos_mul(id@.d, w.payload_mass@.d);
                        crate::engines::lemma_pos_mul(s_dry(inner).d, w.payload_mass@.d);
                        lemma_q_eq_trans(
                            v@,
                            q_add(id@, w.payload_mass@),
                            q_add(s_dry(inner), w.payload_mass@),
                        );
                    }
                }
                r
            },
        }
    }

    /// Burn time of the stage as configured.
    pub fn burn_time(&self) -> (r: Rat)
        requires
            stage_wf(*self),
        ensures
            r == x_stage_burn(*self),
            r.wf(),
            r@ == s_burn(stage_model(*self)),
        decreases *self,
    {
        match self {
            Stage::Simple(x) => x.burn_time(),
            Stage::Boosted(b) => b.burn_time(),
            Stage::WithPayload(w) => w.stage.burn_time(),
        }
    }

    /// The stage that follows the next separation event: `Ok(None)` for a
    /// terminal stage, `Err` when the exact remaining burn time does not
    /// fit.  A payload decorator passes the event through and keeps carrying
    /// its payload.
    pub fn next_stage(&self) -> (r: Result<Option<Stage>, Error>)
        requires
            stage_wf(*self),
        ensures
            r is Err <==> !m_next_ok(*self),
            r matches Err(e) ==> e == Error::Overflow,
            r matches Ok(o) ==> (o is Some <==> next_model(*self) is Some),
            r matches Ok(o) ==> (o matches Some(n) ==> stage_wf(n) && stage_model(n)
                == next_model(*self)->Some_0),
            r matches Ok(o) ==> (o matches Some(n) ==> x_ti(n) == x_next_ti(*self) && m_wet(n)
                == m_next_wet(*self) && m_dry(n) == m_next_dry(*self)),
        decreases *self,
    {
        match self {
            Stage::Simple(_) => Ok(None),
            Stage::Boosted(b) => {
                match b.stage_after_booster_separation() {
                    Some(s) => Ok(Some(Stage::Simple(s))),
                    None => Err(Error::Overflow),
                }
            },
            Stage::WithPayload(w) => {
                let inner = w.stage.next_stage();
                match inner {
                    Ok(Some(n)) => Ok(
                        Some(
                            Stage::WithPayload(
                                StageWithPayload {
                                    stage: Box::new(n),
                                    payload_mass: w.payload_mass,
                                },
                            ),
                        ),
                    ),
                    Ok(None) => Ok(None),
                    Err(e) => Err(e),
                }
            },
        }
    }
}

/// Exact propellant mass of fuel `name` one engine drains over its full
/// burn, summed over its matching consumption entries.
pub open spec fn q_eng_prop(cons: Seq<(FuelModel, Frac)>, burn: Frac, name: Seq<char>) -> Frac
    decreases cons.len(),
{
    if cons.len() == 0 {
        q_zero()
    } else {
        let rest = q_eng_prop(cons.drop_last(), burn, name);
        if cons.last().0.name == name {
            q_add(rest, q_mul(cons.last().1, burn))
        } else {
            rest
        }
    }
}

/// Exact propellant mass of fuel `name` a list of engines drains over
/// their full burns.
pub open spec fn q_props_amount(engs: Seq<EngineModel>, name: Seq<char>) -> Frac
    decreases engs.len(),
{
    if engs.len() == 0 {
        q_zero()
    } else {
        q_add(
            q_props_amount(engs.drop_last(), name),
            q_eng_prop(engs.last().fuel_consumption, engs.last().burn_time, name),
        )
    }
}

/// Whether fuel `name` occurs in a consumption list.
pub open spec fn cons_has_name(cons: Seq<(FuelModel, Frac)>, name: Seq<char>) -> bool {
    exists|j: int| 0 <= j < cons.len() && (#[trigger] cons[j]).0.name == name
}

/// Whether fuel `name` occurs in some engine of a list.
pub open spec fn engs_have_name(engs: Seq<EngineModel>, name: Seq<char>) -> bool {
    exists|i: int| 0 <= i < engs.len() && cons_has_name(
        (#[trigger] engs[i]).fuel_consumption,
        name,
    )
}

/// An absent fuel drains nothing from one engine.
pub proof fn lemma_q_eng_prop_absent(cons: Seq<(FuelModel, Frac)>, burn: Frac, name: Seq<char>)
    requires
        !cons_has_name(cons, name),
    ensures
        q_eng_prop(cons, burn, name) == q_zero(),
    decreases cons.len(),
{
    if cons.len() > 0 {
        assert(cons.last() == cons[cons.len() - 1]);
        assert(!cons_has_name(cons.drop_last(), name)) by {
            assert forall|j: int| 0 <= j < cons.drop_last().len() implies (#[trigger] cons
                .drop_last()[j]).0.name != name by {
                assert(cons.drop_last()[j] == cons[j]);
            }
        }
        lemma_q_eng_prop_absent(cons.drop_last(), burn, name);
    }
}

/// An absent fuel drains nothing from a list of engines.
pub proof fn lemma_q_props_amount_absent(engs: Seq<EngineModel>, name: Seq<char>)
    requires
        !engs_have_name(engs, name),
    ensures
        q_eq(q_props_amount(engs, name), q_zero()),
        q_props_amount(engs, name).d > 0,
    decreases engs.len(),
{
    if engs.len() == 0 {
    } else {
        assert(engs.last() == engs[engs.len() - 1]);
        assert(!engs_have_name(engs.drop_last(), name)) by {
            assert forall|i: int| 0 <= i < engs.drop_last().len() implies !cons_has_name(
                (#[trigger] engs.drop_last()[i]).fuel_consumption,
                name,
            ) by {
                assert(engs.drop_last()[i] == engs[i]);
            }
        }
        lemma_q_props_amount_absent(engs.drop_last(), name);
        lemma_q_eng_prop_absent(engs.last().fuel_consumption, engs.last().burn_time, name);
        let rest = q_props_amount(engs.drop_last(), name);
        assert(q_props_amount(engs, name) == q_add(rest, q_zero()));
        assert(q_eq(q_add(rest, q_zero()), q_zero()) && q_add(rest, q_zero()).d > 0)
            by (nonlinear_arith)
            requires
                rest.n * 1 == 0 * rest.d,
                rest.d > 0,
                q_add(rest, q_zero()).n == rest.n * 1 + 0 * rest.d,
                q_add(rest, q_zero()).d == rest.d * 1,
        {}
    }
}

/// The per-fuel totals of well-formed engine models have positive
/// denominators.
pub proof fn lemma_q_eng_prop_wf(cons: Seq<(FuelModel, Frac)>, burn: Frac, name: Seq<char>)
    requires
        burn.d > 0,
        forall|j: int| 0 <= j < cons.len() ==> (#[trigger] cons[j]).1.d > 0,
    ensures
        q_eng_prop(cons, burn, name).d > 0,
    decreases cons.len(),
{
    if cons.len() > 0 {
        assert(cons.last() == cons[cons.len() - 1]);
        assert forall|j: int| 0 <= j < cons.drop_last().len() implies (#[trigger] cons
            .drop_last()[j]).1.d > 0 by {
            assert(cons.drop_last()[j] == cons[j]);
        }
        lemma_q_eng_prop_wf(cons.drop_last(), burn, name);
        if cons.last().0.name == name {
            crate::engines::lemma_pos_mul(cons.last().1.d, burn.d);
            crate::engines::lemma_pos_mul(
                q_eng_prop(cons.drop_last(), burn, name).d,
                q_mul(cons.last().1, burn).d,
            );
        }
    }
}

/// The per-fuel total of a list of well-formed engine models has a
/// positive denominator.
pub proof fn lemma_q_props_amount_wf(engs: Seq<EngineModel>, name: Seq<char>)
    requires
        forall|i: int| 0 <= i < engs.len() ==> crate::engines::eng_model_wf(
            #[trigger] engs[i],
        ),
    ensures
        q_props_amount(engs, name).d > 0,
    decreases engs.len(),
{
    if engs.len() > 0 {
        assert(engs.last() == engs[engs.len() - 1]);
        assert forall|i: int| 0 <= i < engs.drop_last().len() implies crate::engines::eng_model_wf(
            #[trigger] engs.drop_last()[i],
        ) by {
            assert(engs.drop_last()[i] == engs[i]);
        }
        lemma_q_props_amount_wf(engs.drop_last(), name);
        assert(crate::engines::eng_model_wf(engs.last()));
        assert forall|j: int| 0 <= j < engs.last().fuel_consumption.len() implies (
        #[trigger] engs.last().fuel_consumption[j]).1.d > 0 by {}
        lemma_q_eng_prop_wf(engs.last().fuel_consumption, engs.last().burn_time, name);
        crate::engines::lemma_pos_mul(
            q_props_amount(engs.drop_last(), name).d,
            q_eng_prop(engs.last().fuel_consumption, engs.last().burn_time, name).d,
        );
    }
}

/// Mirror of merging one consumption entry into a running per-fuel total.
pub open spec fn m_pair_amount(acc: Rat, pair: (Fuel, Rat), burn: Rat, name: Seq<char>) -> Option<
    Rat,
> {
    if pair.0@.name == name {
        match crate::rat::m_mul(pair.1, burn) {
            Some(t) => m_add(acc, t),
            None => None,
        }
    } else {
        Some(acc)
    }
}

/// Mirror of merging the first `j` entries of one engine into a running
/// per-fuel total.
pub open spec fn m_eng_amount_prefix(
    cons: Seq<(Fuel, Rat)>,
    burn: Rat,
    name: Seq<char>,
    acc: Rat,
    j: int,
) -> Option<Rat>
    decreases j,
{
    if j <= 0 {
        Some(acc)
    } else {
        match m_eng_amount_prefix(cons, burn, name, acc, j - 1) {
            Some(a) => m_pair_amount(a, cons[j - 1], burn, name),
            None => None,
        }
    }
}

/// Mirror of the per-fuel total over the first `i` engines.
pub open spec fn m_amount_prefix(
    d: Seq<(Seq<(Fuel, Rat)>, Rat)>,
    name: Seq<char>,
    i: int,
) -> Option<Rat>
    decreases i,
{
    if i <= 0 {
        Some(Rat { num: 0, den: 1 })
    } else {
        match m_amount_prefix(d, name, i - 1) {
            Some(a) => m_eng_amount_prefix(d[i - 1].0, d[i - 1].1, name, a, d[i - 1].0.len() as int),
            None => None,
        }
    }
}

/// Mirror of the whole per-fuel total computation.
pub open spec fn m_amount(d: Seq<(Seq<(Fuel, Rat)>, Rat)>, name: Seq<char>) -> Option<Rat> {
    m_amount_prefix(d, name, d.len() as int)
}

/// Once a per-fuel merge fails to fit, every longer entry prefix fails too.
pub proof fn lemma_m_eng_amount_none(
    cons: Seq<(Fuel, Rat)>,
    burn: Rat,
    name: Seq<char>,
    acc: Rat,
    i: int,
    j: int,
)
    requires
        0 <= i <= j,
        m_eng_amount_prefix(cons, burn, name, acc, i) is None,
    ensures
        m_eng_amount_prefix(cons, burn, name, acc, j) is None,
    decreases j - i,
{
    if j > i {
        lemma_m_eng_amount_none(cons, burn, name, acc, i, j - 1);
    }
}

/// Once a per-fuel total fails to fit, every longer engine prefix fails
/// too.
pub proof fn lemma_m_amount_none(d: Seq<(Seq<(Fuel, Rat)>, Rat)>, name: Seq<char>, i: int, j: int)
    requires
        0 <= i <= j,
        m_amount_prefix(d, name, i) is None,
    ensures
        m_amount_prefix(d, name, j) is None,
    decreases j - i,
{
    if j > i {
        lemma_m_amount_none(d, name, i, j - 1);
    }
}

/// A failed merge step sinks the whole per-fuel total computation.
proof fn lemma_amount_fails(
    d: Seq<(Seq<(Fuel, Rat)>, Rat)>,
    name: Seq<char>,
    eacc: Rat,
    i: int,
    j: int,
)
    requires
        0 <= i < d.len(),
        0 <= j < d[i].0.len(),
        m_amount_prefix(d, name, i) == Some(eacc),
        m_eng_amount_prefix(d[i].0, d[i].1, name, eacc, j + 1) is None,
    ensures
        m_amount(d, name) is None,
{
    lemma_m_eng_amount_none(d[i].0, d[i].1, name, eacc, j + 1, d[i].0.len() as int);
    assert(m_amount_prefix(d, name, i + 1) is None);
    lemma_m_amount_none(d, name, i + 1, d.len() as int);
}

/// Exact mass of fuel `name` drained over the full burns of a list of
/// engines.
fn amount_for(engs: &Vec<Engine>, name: &String) -> (r: Option<Rat>)
    requires
        forall|k: int| 0 <= k < engs@.len() ==> engine_wf(#[trigger] engs@[k]),
    ensures
        r == m_amount(fb_data(engs@), name@),
        r matches Some(v) ==> v.wf() && q_eq(
            v@,
            q_props_amount(engines_model(engs@), name@),
        ),
{
    let ghost model = engines_model(engs@);
    let ghost d = fb_data(engs@);
    proof {
        assert forall|k: int| 0 <= k < model.len() implies crate::engines::eng_model_wf(
            #[trigger] model[k],
        ) by {
            assert(model[k] == engs@[k]@);
            crate::engines::lemma_engine_model_wf(engs@[k]);
        }
    }
    let mut acc = Rat::zero();
    let mut i: usize = 0;
    while i < engs.len()
        invariant
            0 <= i <= engs@.len(),
            model == engines_model(engs@),
            d == fb_data(engs@),
            forall|k: int| 0 <= k < engs@.len() ==> engine_wf(#[trigger] engs@[k]),
            forall|k: int| 0 <= k < model.len() ==> crate::engines::eng_model_wf(
                #[trigger] model[k],
            ),
            acc.wf(),
            m_amount_prefix(d, name@, i as int) == Some(acc),
            q_eq(acc@, q_props_amount(model.take(i as int), name@)),
        decreases engs@.len() - i,
    {
        let ghost outer = q_props_amount(model.take(i as int), name@);
        let ghost cons = model[i as int].fuel_consumption;
        let ghost burn = model[i as int].burn_time;
        let ghost eacc = acc;
        proof {
            assert forall|k: int| 0 <= k < model.take(i as int).len() implies crate::engines::eng_model_wf(
                #[trigger] model.take(i as int)[k],
            ) by {
                assert(model.take(i as int)[k] == model[k]);
            }
            lemma_q_props_amount_wf(model.take(i as int), name@);
            assert(cons.take(0) =~= Seq::<(FuelModel, Frac)>::empty());
            crate::rat::lemma_q_add_zero(outer);
            lemma_q_eq_trans(acc@, outer, q_add(outer, q_zero()));
        }
        let mut j: usize = 0;
        while j < engs[i].fuel_consumption.len()
            invariant
                0 <= j <= cons.len(),
                i < engs@.len(),
                model == engines_model(engs@),
                forall|k: int| 0 <= k < engs@.len() ==> engine_wf(#[trigger] engs@[k]),
                forall|k: int| 0 <= k < model.len() ==> crate::engines::eng_model_wf(
                    #[trigger] model[k],
                ),
                cons == model[i as int].fuel_consumption,
                burn == model[i as int].burn_time,
                cons.len() == engs@[i as int].fuel_consumption@.len(),
                d == fb_data(engs@),
                d[i as int] == (engs@[i as int].fuel_consumption@, engs@[
                    i as int].burn_time),
                m_amount_prefix(d, name@, i as int) == Some(eacc),
                m_eng_amount_prefix(d[i as int].0, d[i as int].1, name@, eacc, j as int)
                    == Some(acc),
                outer == q_props_amount(model.take(i as int), name@),
                outer.d > 0,
                acc.wf(),
                q_eq(acc@, q_add(outer, q_eng_prop(cons.take(j as int), burn, name@))),
            decreases cons.len() - j,
        {
            proof {
                assert(crate::engines::eng_model_wf(model[i as int]));
                assert(d[i as int].0[j as int] == engs@[i as int].fuel_consumption@[
                    j as int]);
                assert(cons[j as int] == (engs@[i as int].fuel_consumption@[j as int].0@, engs@[
                    i as int].fuel_consumption@[j as int].1@));
                assert(cons.take(j + 1).drop_last() =~= cons.take(j as int));
                assert(cons.take(j + 1).last() == cons[j as int]);
                assert forall|t: int| 0 <= t < cons.take(j as int).len() implies (
                #[trigger] cons.take(j as int)[t]).1.d > 0 by {
                    assert(cons.take(j as int)[t] == cons[t]);
                }
                lemma_q_eng_prop_wf(cons.take(j as int), burn, name@);
            }
            if engs[i].fuel_consumption[j].0.name == *name {
                let amt = match engs[i].fuel_consumption[j].1.checked_mul(&engs[i].burn_time) {
                    Some(a) => a,
                    None => {
                        proof {
                            assert(m_pair_amount(acc, d[i as int].0[j as int], d[
                                i as int].1, name@) is None);
                            assert(m_eng_amount_prefix(
                                d[i as int].0,
                                d[i as int].1,
                                name@,
                                eacc,
                                j + 1,
                            ) is None);
                            lemma_amount_fails(d, name@, eacc, i as int, j as int);
                        }
                        return None;
                    },
                };
                let newacc = match acc.checked_add(&amt) {
                    Some(a) => a,
                    None => {
                        proof {
                            assert(m_pair_amount(acc, d[i as int].0[j as int], d[
                                i as int].1, name@) is None);
                            assert(m_eng_amount_prefix(
                                d[i as int].0,
                                d[i as int].1,
                                name@,
                                eacc,
                                j + 1,
                            ) is None);
                            lemma_amount_fails(d, name@, eacc, i as int, j as int);
                        }
                        return None;
                    },
                };
                proof {
                    let ej = q_eng_prop(cons.take(j as int), burn, name@);
                    let term = q_mul(cons[j as int].1, burn);
                    assert(q_eng_prop(cons.take(j + 1), burn, name@) == q_add(ej, term));
                    crate::engines::lemma_pos_mul(cons[j as int].1.d, burn.d);
                    crate::engines::lemma_pos_mul(outer.d, ej.d);
                    lemma_q_add_cong(acc@, q_add(outer, ej), amt@, term);
                    crate::engines::lemma_pos_mul(acc@.d, amt@.d);
                    crate::engines::lemma_pos_mul(q_add(outer, ej).d, term.d);
                    lemma_q_eq_trans(
                        newacc@,
                        q_add(acc@, amt@),
                        q_add(q_add(outer, ej), term),
                    );
                    crate::rat::lemma_q_add_assoc(outer, ej, term);
                    crate::engines::lemma_pos_mul(ej.d, term.d);
                    crate::engines::lemma_pos_mul(outer.d, q_add(ej, term).d);
                    lemma_q_eq_trans(
                        newacc@,
                        q_add(q_add(outer, ej), term),
                        q_add(outer, q_add(ej, term)),
                    );
                }
                acc = newacc;
            } else {
                proof {
                    assert(cons[j as int].0.name != name@);
                    assert(q_eng_prop(cons.take(j + 1), burn, name@) == q_eng_prop(
                        cons.take(j as int),
                        burn,
                        name@,
                    ));
                }
            }
            j = j + 1;
        }
        proof {
            assert(cons.take(cons.len() as int) =~= cons);
            assert(model.take(i + 1).drop_last() =~= model.take(i as int));
            assert(model.take(i + 1).last() == model[i as int]);
            assert(q_props_amount(model.take(i + 1), name@) == q_add(
                outer,
                q_eng_prop(cons, burn, name@),
            ));
        }
        i = i + 1;
    }
    proof {
        assert(model.take(model.len() as int) =~= model);
    }
    Some(acc)
}

/// Whether a fuel with this name is already in the list.
fn contains_name(v: &Vec<Fuel>, name: &String) -> (b: bool)
    ensures
        b == exists|k: int| 0 <= k < v@.len() && (#[trigger] v@[k])@.name == name@,
{
    let mut k: usize = 0;
    while k < v.len()
        invariant
            0 <= k <= v@.len(),
            forall|t: int| 0 <= t < k ==> (#[trigger] v@[t])@.name != name@,
        decreases v@.len() - k,
    {
        if v[k].name == *name {
            return true;
        }
        k = k + 1;
    }
    false
}

/// The names of a list of fuels.
pub open spec fn fuel_names(fs: Seq<Fuel>) -> Seq<Seq<char>> {
    fs.map_values(|f: Fuel| f@.name)
}

/// A name list extended by one name, unless it is already present.
pub open spec fn add_name(ns: Seq<Seq<char>>, nm: Seq<char>) -> Seq<Seq<char>> {
    if ns.contains(nm) {
        ns
    } else {
        ns.push(nm)
    }
}

/// Names collected from the first `j` entries of one engine.
pub open spec fn cons_names(ns: Seq<Seq<char>>, cons: Seq<(Fuel, Rat)>, j: int) -> Seq<Seq<char>>
    decreases j,
{
    if j <= 0 {
        ns
    } else {
        add_name(cons_names(ns, cons, j - 1), cons[j - 1].0@.name)
    }
}

/// Names collected from the first `i` engines.
pub open spec fn engs_names(
    ns: Seq<Seq<char>>,
    d: Seq<(Seq<(Fuel, Rat)>, Rat)>,
    i: int,
) -> Seq<Seq<char>>
    decreases i,
{
    if i <= 0 {
        ns
    } else {
        cons_names(engs_names(ns, d, i - 1), d[i - 1].0, d[i - 1].0.len() as int)
    }
}

/// The distinct fuel names of an engine list, in order of first
/// appearance.
pub open spec fn name_list(d: Seq<(Seq<(Fuel, Rat)>, Rat)>) -> Seq<Seq<char>> {
    engs_names(Seq::empty(), d, d.len() as int)
}

/// Whether the exact per-fuel total fits for every fuel of an engine list.
pub open spec fn m_props_ok(d: Seq<(Seq<(Fuel, Rat)>, Rat)>) -> bool {
    forall|t: int| 0 <= t < name_list(d).len() ==> m_amount(d, #[trigger] name_list(d)[t])
        is Some
}

/// Extending a name list keeps every present name and adds the new one.
pub proof fn lemma_add_name_facts(ns: Seq<Seq<char>>, nm: Seq<char>)
    ensures
        add_name(ns, nm).contains(nm),
        forall|x: Seq<char>| ns.contains(x) ==> #[trigger] add_name(ns, nm).contains(x),
{
    let r = add_name(ns, nm);
    if !ns.contains(nm) {
        assert(r[r.len() - 1] == nm);
        assert(r.contains(nm));
    }
    assert forall|x: Seq<char>| ns.contains(x) implies #[trigger] r.contains(x) by {
        let idx = choose|idx: int| 0 <= idx < ns.len() && ns[idx] == x;
        assert(r[idx] == x);
    }
}

/// Collecting one engine's names keeps every present name and covers every
/// entry seen so far.
pub proof fn lemma_cons_names_facts(ns: Seq<Seq<char>>, cons: Seq<(Fuel, Rat)>, j: int)
    requires
        0 <= j <= cons.len(),
    ensures
        forall|x: Seq<char>| ns.contains(x) ==> #[trigger] cons_names(ns, cons, j).contains(
            x,
        ),
        forall|j2: int| 0 <= j2 < j ==> cons_names(ns, cons, j).contains(
            (#[trigger] cons[j2]).0@.name,
        ),
    decreases j,
{
    if j > 0 {
        lemma_cons_names_facts(ns, cons, j - 1);
        lemma_add_name_facts(cons_names(ns, cons, j - 1), cons[j - 1].0@.name);
    }
}

/// Collecting every engine's names covers every consumption entry.
pub proof fn lemma_engs_names_facts(ns: Seq<Seq<char>>, d: Seq<(Seq<(Fuel, Rat)>, Rat)>, i: int)
    requires
        0 <= i <= d.len(),
    ensures
        forall|x: Seq<char>| ns.contains(x) ==> #[trigger] engs_names(ns, d, i).contains(x),
        forall|i2: int, j2: int|
            0 <= i2 < i && 0 <= j2 < d[i2].0.len() ==> engs_names(ns, d, i).contains(
                (#[trigger] d[i2].0[j2]).0@.name,
            ),
    decreases i,
{
    if i > 0 {
        lemma_engs_names_facts(ns, d, i - 1);
        lemma_cons_names_facts(engs_names(ns, d, i - 1), d[i - 1].0, d[i - 1].0.len() as int);
        assert forall|i2: int, j2: int|
            0 <= i2 < i && 0 <= j2 < d[i2].0.len() implies engs_names(ns, d, i).contains(
            (#[trigger] d[i2].0[j2]).0@.name,
        ) by {
            if i2 < i - 1 {
                assert(engs_names(ns, d, i - 1).contains(d[i2].0[j2].0@.name));
            } else {
                assert(cons_names(engs_names(ns, d, i - 1), d[i - 1].0, d[
                    i - 1].0.len() as int).contains(d[i2].0[j2].0@.name));
            }
        }
    }
}

/// Every fuel name occurring in the engines is listed in the result.
pub open spec fn props_complete(engs: Seq<EngineModel>, v: Seq<(Fuel, Rat)>) -> bool {
    forall|nm: Seq<char>|
        #[trigger] engs_have_name(engs, nm) ==> exists|k: int|
            0 <= k < v.len() && (#[trigger] v[k]).0@.name == nm
}

/// Whether a fuel name is present in a list of fuels, as the name list
/// sees it.
pub proof fn lemma_contains_bridge(fs: Seq<Fuel>, nm: Seq<char>)
    ensures
        fuel_names(fs).contains(nm) == exists|k: int|
            0 <= k < fs.len() && (#[trigger] fs[k])@.name == nm,
{
    if fuel_names(fs).contains(nm) {
        let idx = choose|idx: int|
            0 <= idx < fuel_names(fs).len() && fuel_names(fs)[idx] == nm;
        assert(fs[idx]@.name == nm);
    }
    if exists|k: int| 0 <= k < fs.len() && (#[trigger] fs[k])@.name == nm {
        let k = choose|k: int| 0 <= k < fs.len() && (#[trigger] fs[k])@.name == nm;
        assert(fuel_names(fs)[k] == nm);
        assert(fuel_names(fs).contains(nm));
    }
}

impl Stage {
    /// Total propellant mass required per fuel over the stage's full burn,
    /// fuels in order of first appearance and each listed once; `None`
    /// when an exact intermediate does not fit.
    #[verifier::rlimit(100)]
    #[verifier::spinoff_prover]
    pub fn propellants_required(&self) -> (r: Option<Vec<(Fuel, Rat)>>)
        requires
            stage_wf(*self),
        ensures
            r is Some <==> m_props_ok(x_fb(*self)),
            r matches Some(v) ==> forall|a: int, b: int|
                0 <= a < b < v@.len() ==> (#[trigger] v@[a]).0@.name != (#[trigger] v@[
                    b]).0@.name,
            r matches Some(v) ==> forall|k: int|
                0 <= k < v@.len() ==> (#[trigger] v@[k]).1.wf() && q_eq(
                    v@[k].1@,
                    q_props_amount(s_engines(stage_model(*self)), v@[k].0@.name),
                ),
            r matches Some(v) ==> forall|k: int|
                0 <= k < v@.len() ==> engs_have_name(
                    s_engines(stage_model(*self)),
                    (#[trigger] v@[k]).0@.name,
                ),
            r matches Some(v) ==> props_complete(s_engines(stage_model(*self)), v@),
    {
        let engs = self.engines();
        let ghost model = s_engines(stage_model(*self));
        let ghost d = x_fb(*self);
        let mut fuels: Vec<Fuel> = Vec::new();
        let mut i: usize = 0;
        while i < engs.len()
            invariant
                0 <= i <= engs@.len(),
                engines_model(engs@) == model,
                d == fb_data(engs@),
                d == x_fb(*self),
                d.len() == engs@.len(),
                forall|k: int| 0 <= k < engs@.len() ==> engine_wf(#[trigger] engs@[k]),
                forall|a: int, b: int| 0 <= a < b < fuels@.len() ==> (#[trigger] fuels@[
                    a])@.name != (#[trigger] fuels@[b])@.name,
                forall|k: int| 0 <= k < fuels@.len() ==> engs_have_name(
                    model,
                    (#[trigger] fuels@[k])@.name,
                ),
                fuel_names(fuels@) == engs_names(Seq::<Seq<char>>::empty(), d, i as int),
            decreases engs@.len() - i,
        {
            let ghost start_ns = engs_names(Seq::<Seq<char>>::empty(), d, i as int);
            let mut j: usize = 0;
            while j < engs[i].fuel_consumption.len()
                invariant
                    0 <= j <= engs@[i as int].fuel_consumption@.len(),
                    i < engs@.len(),
                    engines_model(engs@) == model,
                    d == fb_data(engs@),
                    d.len() == engs@.len(),
                    d[i as int].0 == engs@[i as int].fuel_consumption@,
                    start_ns == engs_names(Seq::<Seq<char>>::empty(), d, i as int),
                    forall|k: int| 0 <= k < engs@.len() ==> engine_wf(#[trigger] engs@[k]),
                    forall|a: int, b: int| 0 <= a < b < fuels@.len() ==> (#[trigger] fuels@[
                        a])@.name != (#[trigger] fuels@[b])@.name,
                    forall|k: int| 0 <= k < fuels@.len() ==> engs_have_name(
                        model,
                        (#[trigger] fuels@[k])@.name,
                    ),
                    fuel_names(fuels@) == cons_names(start_ns, d[i as int].0, j as int),
                decreases engs@[i as int].fuel_consumption@.len() - j,
            {
                let ghost nm = engs@[i as int].fuel_consumption@[j as int].0@.name;
                proof {
                    assert(d[i as int].0[j as int] == engs@[i as int].fuel_consumption@[
                        j as int]);
                    lemma_contains_bridge(fuels@, nm);
                }
                if !contains_name(&fuels, &engs[i].fuel_consumption[j].0.name) {
                    let f = engs[i].fuel_consumption[j].0.dup();
                    let ghost old_fuels = fuels@;
                    proof {
                        assert(model[i as int] == engs@[i as int]@);
                        assert(model[i as int].fuel_consumption[j as int] == (engs@[
                            i as int].fuel_consumption@[j as int].0@, engs@[
                            i as int].fuel_consumption@[j as int].1@));
                        assert(cons_has_name(model[i as int].fuel_consumption, f@.name));
                        assert(engs_have_name(model, f@.name));
                    }
                    fuels.push(f);
                    proof {
                        assert(!fuel_names(old_fuels).contains(nm));
                        assert(fuel_names(fuels@) =~= fuel_names(old_fuels).push(nm));
                        assert(fuel_names(fuels@) == add_name(fuel_names(old_fuels), nm));
                        assert(fuel_names(fuels@) == cons_names(
                            start_ns,
                            d[i as int].0,
                            j + 1,
                        ));
                    }
                } else {
                    proof {
                        assert(fuel_names(fuels@).contains(nm));
                        assert(add_name(fuel_names(fuels@), nm) == fuel_names(fuels@));
                        assert(fuel_names(fuels@) == cons_names(
                            start_ns,
                            d[i as int].0,
                            j + 1,
                        ));
                    }
                }
                j = j + 1;
            }
            proof {
                assert(fuel_names(fuels@) == engs_names(
                    Seq::<Seq<char>>::empty(),
                    d,
                    i as int + 1,
                ));
            }
            i = i + 1;
        }
        let mut out: Vec<(Fuel, Rat)> = Vec::new();
        let mut k: usize = 0;
        while k < fuels.len()
            invariant
                0 <= k <= fuels@.len(),
                engines_model(engs@) == model,
                d == fb_data(engs@),
                d == x_fb(*self),
                fuel_names(fuels@) == name_list(d),
                fuels@.len() == name_list(d).len(),
                forall|t: int| 0 <= t < engs@.len() ==> engine_wf(#[trigger] engs@[t]),
                forall|a: int, b: int| 0 <= a < b < fuels@.len() ==> (#[trigger] fuels@[
                    a])@.name != (#[trigger] fuels@[b])@.name,
                forall|t: int| 0 <= t < fuels@.len() ==> engs_have_name(
                    model,
                    (#[trigger] fuels@[t])@.name,
                ),
                out@.len() == k,
                forall|t: int| 0 <= t < k ==> m_amount(
                    d,
                    (#[trigger] fuels@[t])@.name,
                ) is Some,
                forall|t: int| 0 <= t < k ==> (#[trigger] out@[t]).0@.name == fuels@[
                    t]@.name,
                forall|t: int| 0 <= t < k ==> (#[trigger] out@[t]).1.wf() && q_eq(
                    out@[t].1@,
                    q_props_amount(model, out@[t].0@.name),
                ),
            decreases fuels@.len() - k,
        {
            let a = match amount_for(&engs, &fuels[k].name) {
                Some(v) => v,
                None => {
                    proof {
                        assert(name_list(d)[k as int] == fuels@[k as int]@.name);
                        assert(m_amount(d, name_list(d)[k as int]) is None);
                        assert(!m_props_ok(d));
                    }
                    return None;
                },
            };
            let f = fuels[k].dup();
            out.push((f, a));
            k = k + 1;
        }
        proof {
            assert forall|t: int| 0 <= t < name_list(d).len() implies m_amount(
                d,
                #[trigger] name_list(d)[t],
            ) is Some by {
                assert(name_list(d)[t] == fuels@[t]@.name);
                assert(m_amount(d, fuels@[t]@.name) is Some);
            }
            assert(m_props_ok(d));
            assert forall|nm: Seq<char>|
                #[trigger] engs_have_name(s_engines(stage_model(*self)), nm) implies exists|
                k2: int,
            | 0 <= k2 < out@.len() && (#[trigger] out@[k2]).0@.name == nm by {
                let i2 = choose|i2: int|
                    0 <= i2 < model.len() && cons_has_name(
                        (#[trigger] model[i2]).fuel_consumption,
                        nm,
                    );
                let j2 = choose|j2: int|
                    0 <= j2 < model[i2].fuel_consumption.len()
                        && (#[trigger] model[i2].fuel_consumption[j2]).0.name == nm;
                assert(model[i2] == engs@[i2]@);
                assert(model[i2].fuel_consumption[j2] == (engs@[i2].fuel_consumption@[
                    j2].0@, engs@[i2].fuel_consumption@[j2].1@));
                assert(d[i2].0[j2] == engs@[i2].fuel_consumption@[j2]);
                assert(d[i2].0[j2].0@.name == nm);
                lemma_engs_names_facts(Seq::<Seq<char>>::empty(), d, d.len() as int);
                assert(name_list(d).contains(nm));
                let t = choose|t: int|
                    0 <= t < name_list(d).len() && name_list(d)[t] == nm;
                assert(fuel_names(fuels@)[t] == nm);
                assert(fuels@[t]@.name == nm);
                assert(out@[t].0@.name == nm);
            }
            assert(props_complete(model, out@));
        }
        Some(out)
    }
}

/// The burn-time fold of engine models has a positive denominator.
pub proof fn lemma_burn_of_wf(engs: Seq<EngineModel>)
    requires
        forall|j: int| 0 <= j < engs.len() ==> crate::engines::eng_model_wf(
            #[trigger] engs[j],
        ),
    ensures
        q_burn_of(engs).d > 0,
        q_le(q_zero(), q_burn_of(engs)),
{
    let burns = engs.map_values(|e: EngineModel| e.burn_time);
    assert forall|j: int| 0 <= j < burns.len() implies q_wf(#[trigger] burns[j]) by {
        assert(burns[j] == engs[j].burn_time);
    }
    crate::rat::lemma_q_max_fold_bounds(burns);
}

/// The exact wet mass of a well-formed stage has a positive denominator.
pub proof fn lemma_s_wet_wf(s: Stage)
    requires
        stage_wf(s),
    ensures
        s_wet(stage_model(s)).d > 0,
    decreases s,
{
    match s {
        Stage::Simple(x) => {
            lemma_simple_models_wf(x);
            lemma_q_simple_wet_wf(x@);
        },
        Stage::Boosted(b) => {
            lemma_simple_models_wf(b.core);
            lemma_simple_models_wf(b.booster);
            lemma_q_simple_wet_wf(b.core@);
            lemma_q_simple_wet_wf(b.booster@);
            crate::engines::lemma_pos_mul(q_simple_wet(b.booster@).d, 1);
            crate::engines::lemma_pos_mul(
                q_simple_wet(b.core@).d,
                q_mul(q_simple_wet(b.booster@), q_int(b.booster_count as int)).d,
            );
        },
        Stage::WithPayload(w) => {
            lemma_s_wet_wf(*w.stage);
            crate::engines::lemma_pos_mul(s_wet(stage_model(*w.stage)).d, w.payload_mass@.d);
        },
    }
}

/// The exact dry mass of a well-formed stage has a positive denominator.
pub proof fn lemma_s_dry_wf(s: Stage)
    requires
        stage_wf(s),
    ensures
        s_dry(stage_model(s)).d > 0,
    decreases s,
{
    match s {
        Stage::Simple(x) => {},
        Stage::Boosted(b) => {
            lemma_simple_models_wf(b.core);
            lemma_simple_models_wf(b.booster);
            lemma_burn_of_wf(b.core@.engines);
            lemma_burn_of_wf(b.booster@.engines);
            crate::engines::lemma_pos_mul(
                q_burn_of(b.core@.engines).d,
                q_burn_of(b.booster@.engines).d,
            );
            assert(q_remaining_burn(b@).d > 0);
            let sm = sep_model(b@);
            assert forall|j: int| 0 <= j < sm.engines.len() implies crate::engines::eng_model_wf(
                #[trigger] sm.engines[j],
            ) by {
                assert(crate::engines::eng_model_wf(b.core@.engines[j]));
            }
            lemma_q_simple_wet_wf(sm);
            crate::engines::lemma_pos_mul(b.booster.dry_mass@.d, 1);
            crate::engines::lemma_pos_mul(
                q_simple_wet(sm).d,
                q_mul(b.booster.dry_mass@, q_int(b.booster_count as int)).d,
            );
        },
        Stage::WithPayload(w) => {
            lemma_s_dry_wf(*w.stage);
            crate::engines::lemma_pos_mul(s_dry(stage_model(*w.stage)).d, w.payload_mass@.d);
        },
    }
}

// ---------------------------------------------------------------------------
// Flattened engine lists and the quantities derived from them.
// ---------------------------------------------------------------------------

/// The thrust and specific impulse of each engine in a list.
pub open spec fn ti_list(engs: Seq<Engine>) -> Seq<(Rat, Rat)> {
    engs.map_values(|e: Engine| (e.thrust, e.isp))
}

/// A thrust/impulse list repeated `n` times.
pub open spec fn repeat_ti(d: Seq<(Rat, Rat)>, n: int) -> Seq<(Rat, Rat)>
    decreases n,
{
    if n <= 0 {
        Seq::empty()
    } else {
        repeat_ti(d, n - 1) + d
    }
}

/// Thrust and impulse of every engine firing during a stage, booster
/// multiplicities included.
pub open spec fn x_ti(s: Stage) -> Seq<(Rat, Rat)>
    decreases s,
{
    match s {
        Stage::Simple(x) => ti_list(x.engines@),
        Stage::Boosted(b) => ti_list(b.core.engines@) + repeat_ti(
            ti_list(b.booster.engines@),
            b.booster_count as int,
        ),
        Stage::WithPayload(w) => x_ti(*w.stage),
    }
}

/// A consumption/burn-time list repeated `n` times.
pub open spec fn repeat_fb(d: Seq<(Seq<(Fuel, Rat)>, Rat)>, n: int) -> Seq<
    (Seq<(Fuel, Rat)>, Rat),
>
    decreases n,
{
    if n <= 0 {
        Seq::empty()
    } else {
        repeat_fb(d, n - 1) + d
    }
}

/// Consumption entries and burn time of every engine firing during a
/// stage, booster multiplicities included.
pub open spec fn x_fb(s: Stage) -> Seq<(Seq<(Fuel, Rat)>, Rat)>
    decreases s,
{
    match s {
        Stage::Simple(x) => fb_data(x.engines@),
        Stage::Boosted(b) => fb_data(b.core.engines@) + repeat_fb(
            fb_data(b.booster.engines@),
            b.booster_count as int,
        ),
        Stage::WithPayload(w) => x_fb(*w.stage),
    }
}

/// Exact sum of the thrusts of an engine list.
pub open spec fn q_thrust_sum(engs: Seq<EngineModel>) -> Frac {
    q_sum(engs.map_values(|e: EngineModel| e.thrust))
}

/// Exact sum of thrust over specific impulse of an engine list.
pub open spec fn q_ti_sum(engs: Seq<EngineModel>) -> Frac {
    q_sum(engs.map_values(|e: EngineModel| crate::rat::q_div(e.thrust, e.isp)))
}

/// Thrust-weighted combined specific impulse of simultaneously firing
/// engines.
pub open spec fn q_isp_of(engs: Seq<EngineModel>) -> Frac {
    crate::rat::q_div(q_thrust_sum(engs), q_ti_sum(engs))
}

/// Exact sum of thrusts scaled from kilonewtons to newtons.
pub open spec fn q_t1000_sum(engs: Seq<EngineModel>) -> Frac {
    q_sum(engs.map_values(|e: EngineModel| q_mul(e.thrust, q_int(1000))))
}

/// Standard gravity as used throughout: 9.82 m/s².
pub open spec fn q_gravity() -> Frac {
    Frac { n: 491, d: 50 }
}

/// Thrust-to-weight ratio at full load.
pub open spec fn q_twr(m: StageModel) -> Frac {
    crate::rat::q_div(crate::rat::q_div(q_t1000_sum(s_engines(m)), s_wet(m)), q_gravity())
}

/// Peak acceleration in gravities, reached with the propellant spent.
pub open spec fn q_max_g(m: StageModel) -> Frac {
    crate::rat::q_div(crate::rat::q_div(q_t1000_sum(s_engines(m)), s_dry(m)), q_gravity())
}

/// Standard gravity as an exact rational.
pub fn gravity() -> (r: Rat)
    ensures
        r.wf(),
        r@ == q_gravity(),
{
    Rat { num: 491, den: 50 }
}

/// Mirror of summing a thrust list.
pub open spec fn thrusts_of(d: Seq<(Rat, Rat)>) -> Seq<Rat> {
    d.map_values(|p: (Rat, Rat)| p.0)
}

/// Mirror of building the first `i` thrust-over-impulse terms.
pub open spec fn m_ti_prefix(d: Seq<(Rat, Rat)>, i: int) -> Option<Seq<Rat>>
    decreases i,
{
    if i <= 0 {
        Some(Seq::empty())
    } else {
        match m_ti_prefix(d, i - 1) {
            Some(ts) => match crate::rat::m_div(d[i - 1].0, d[i - 1].1) {
                Some(t) => Some(ts.push(t)),
                None => None,
            },
            None => None,
        }
    }
}

/// Once a thrust-over-impulse term fails, every longer prefix fails too.
pub proof fn lemma_m_ti_none(d: Seq<(Rat, Rat)>, i: int, j: int)
    requires
        0 <= i <= j,
        m_ti_prefix(d, i) is None,
    ensures
        m_ti_prefix(d, j) is None,
    decreases j - i,
{
    if j > i {
        lemma_m_ti_none(d, i, j - 1);
    }
}

/// Mirror of the combined-impulse computation over a thrust/impulse list.
pub open spec fn m_isp(d: Seq<(Rat, Rat)>) -> Option<Rat> {
    match m_sum(thrusts_of(d)) {
        Some(ts) => match m_ti_prefix(d, d.len() as int) {
            Some(terms) => match m_sum(terms) {
                Some(ds) => crate::rat::m_div(ts, ds),
                None => None,
            },
            None => None,
        },
        None => None,
    }
}

/// Mirror of building the first `i` scaled thrusts.
pub open spec fn m_t1000_prefix(d: Seq<(Rat, Rat)>, i: int) -> Option<Seq<Rat>>
    decreases i,
{
    if i <= 0 {
        Some(Seq::empty())
    } else {
        match m_t1000_prefix(d, i - 1) {
            Some(ts) => match crate::rat::m_mul(d[i - 1].0, Rat { num: 1000, den: 1 }) {
                Some(t) => Some(ts.push(t)),
                None => None,
            },
            None => None,
        }
    }
}

/// Once a scaled thrust fails, every longer prefix fails too.
pub proof fn lemma_m_t1000_none(d: Seq<(Rat, Rat)>, i: int, j: int)
    requires
        0 <= i <= j,
        m_t1000_prefix(d, i) is None,
    ensures
        m_t1000_prefix(d, j) is None,
    decreases j - i,
{
    if j > i {
        lemma_m_t1000_none(d, i, j - 1);
    }
}

/// Mirror of the scaled-thrust sum.
pub open spec fn m_t1000_sum(d: Seq<(Rat, Rat)>) -> Option<Rat> {
    match m_t1000_prefix(d, d.len() as int) {
        Some(ts) => m_sum(ts),
        None => None,
    }
}

/// Mirror of the thrust-to-weight computation of a stage.
pub open spec fn m_twr(s: Stage) -> Option<Rat> {
    match m_t1000_sum(x_ti(s)) {
        Some(ts) => match m_wet(s) {
            Some(w) => match crate::rat::m_div(ts, w) {
                Some(q) => crate::rat::m_div(q, Rat { num: 491, den: 50 }),
                None => None,
            },
            None => None,
        },
        None => None,
    }
}

/// Mirror of the peak-acceleration computation of a stage.
pub open spec fn m_max_g(s: Stage) -> Option<Rat> {
    match m_t1000_sum(x_ti(s)) {
        Some(ts) => match m_dry(s) {
            Some(dm) => match crate::rat::m_div(ts, dm) {
                Some(q) => crate::rat::m_div(q, Rat { num: 491, den: 50 }),
                None => None,
            },
            None => None,
        },
        None => None,
    }
}

/// An exact copy of a list of engines.
fn dup_engines(v: &Vec<Engine>) -> (r: Vec<Engine>)
    ensures
        r@.len() == v@.len(),
        forall|k: int| 0 <= k < v@.len() ==> {
            let e = #[trigger] r@[k];
            let o = v@[k];
            &&& e.name@ == o.name@
            &&& e.fuel_consumption@ == o.fuel_consumption@
            &&& e.isp == o.isp
            &&& e.thrust == o.thrust
            &&& e.mass == o.mass
            &&& e.burn_time == o.burn_time
        },
        engines_model(r@) == engines_model(v@),
        ti_list(r@) == ti_list(v@),
        fb_data(r@) == fb_data(v@),
        forall|k: int| 0 <= k < v@.len() ==> (engine_wf(#[trigger] v@[k]) ==> engine_wf(
            r@[k],
        )),
{
    let mut engines: Vec<Engine> = Vec::new();
    let mut i: usize = 0;
    while i < v.len()
        invariant
            0 <= i <= v@.len(),
            engines@.len() == i,
            forall|k: int| 0 <= k < i ==> {
                let e = #[trigger] engines@[k];
                let o = v@[k];
                &&& e.name@ == o.name@
                &&& e.fuel_consumption@ == o.fuel_consumption@
                &&& e.isp == o.isp
                &&& e.thrust == o.thrust
                &&& e.mass == o.mass
                &&& e.burn_time == o.burn_time
            },
        decreases v@.len() - i,
    {
        engines.push(v[i].dup());
        i = i + 1;
    }
    proof {
        assert forall|k: int| 0 <= k < v@.len() implies #[trigger] engines_model(engines@)[k]
            == engines_model(v@)[k] by {
            assert(cons_model(engines@[k].fuel_consumption@) == cons_model(
                v@[k].fuel_consumption@,
            ));
        }
        assert(engines_model(engines@) =~= engines_model(v@));
        assert(ti_list(engines@) =~= ti_list(v@));
        assert(fb_data(engines@) =~= fb_data(v@));
        assert forall|k: int| 0 <= k < v@.len() && engine_wf(#[trigger] v@[k]) implies engine_wf(
            engines@[k],
        ) by {
            assert(crate::engines::cons_wf(engines@[k].fuel_consumption@));
        }
    }
    engines
}

impl SimpleStage {
    /// The engines of the stage, as a fresh list.
    pub fn engines(&self) -> (r: Vec<Engine>)
        ensures
            engines_model(r@) == self@.engines,
            ti_list(r@) == ti_list(self.engines@),
            fb_data(r@) == fb_data(self.engines@),
            r@.len() == self.engines@.len(),
            simple_wf(*self) ==> forall|k: int| 0 <= k < r@.len() ==> engine_wf(
                #[trigger] r@[k],
            ),
    {
        let r = dup_engines(&self.engines);
        proof {
            if simple_wf(*self) {
                assert forall|k: int| 0 <= k < r@.len() implies engine_wf(#[trigger] r@[k]) by {
                    assert(engine_wf(self.engines@[k]));
                }
            }
        }
        r
    }

    /// This stage with two verniers appended, their burn time tied to the
    /// first engine's; `Err` exactly when the stage or the vernier is ill
    /// formed.
    pub fn with_verniers(self, vernier: Engine) -> (r: Result<SimpleStage, Error>)
        ensures
            r matches Ok(s) ==> {
                &&& simple_wf(s)
                &&& s.dry_mass == self.dry_mass
                &&& s.engines@.len() == self.engines@.len() + 2
                &&& forall|k: int| 0 <= k < self.engines@.len() ==> s.engines@[k] == self
                    .engines@[k]
                &&& forall|k: int| self.engines@.len() <= k < s.engines@.len() ==> {
                    let e = #[trigger] s.engines@[k];
                    &&& e.name@ == vernier.name@
                    &&& e.fuel_consumption@ == vernier.fuel_consumption@
                    &&& e.isp == vernier.isp
                    &&& e.thrust == vernier.thrust
                    &&& e.mass == vernier.mass
                    &&& e.burn_time == self.engines@[0].burn_time
                }
            },
            r is Ok <==> simple_wf(self) && engine_wf(vernier),
    {
        if !self.is_well_formed() {
            return Err(Error::InvalidEngine);
        }
        if !vernier.is_well_formed() {
            return Err(Error::InvalidEngine);
        }
        let bt = self.engines[0].burn_time;
        let v1 = vernier.with_burn_time(bt);
        let v2 = v1.dup();
        let mut s = self;
        proof {
            assert(engine_wf(s.engines@[0]));
            assert(crate::engines::cons_wf(v1.fuel_consumption@));
            assert(engine_wf(v1));
            assert(crate::engines::cons_wf(v2.fuel_consumption@));
            assert(engine_wf(v2));
        }
        s.engines.push(v1);
        s.engines.push(v2);
        Ok(s)
    }
}

impl Stage {
    /// Every engine firing during this stage, booster multiplicities
    /// included, as a fresh list.
    pub fn engines(&self) -> (r: Vec<Engine>)
        requires
            stage_wf(*self),
        ensures
            engines_model(r@) == s_engines(stage_model(*self)),
            ti_list(r@) == x_ti(*self),
            fb_data(r@) == x_fb(*self),
            forall|k: int| 0 <= k < r@.len() ==> engine_wf(#[trigger] r@[k]),
        decreases *self,
    {
        match self {
            Stage::Simple(x) => {
                let r = x.engines();
                r
            },
            Stage::Boosted(b) => {
                let mut r = b.core.engines();
                let booster = b.booster.engines();
                let mut n: usize = 0;
                while n < b.booster_count
                    invariant
                        0 <= n <= b.booster_count,
                        engines_model(booster@) == b.booster@.engines,
                        ti_list(booster@) == ti_list(b.booster.engines@),
                        fb_data(booster@) == fb_data(b.booster.engines@),
                        forall|k: int| 0 <= k < booster@.len() ==> engine_wf(
                            #[trigger] booster@[k],
                        ),
                        engines_model(r@) =~= b.core@.engines + repeat_engines(
                            b.booster@.engines,
                            n as int,
                        ),
                        ti_list(r@) =~= ti_list(b.core.engines@) + repeat_ti(
                            ti_list(b.booster.engines@),
                            n as int,
                        ),
                        fb_data(r@) =~= fb_data(b.core.engines@) + repeat_fb(
                            fb_data(b.booster.engines@),
                            n as int,
                        ),
                        forall|k: int| 0 <= k < r@.len() ==> engine_wf(#[trigger] r@[k]),
                    decreases b.booster_count - n,
                {
                    let ghost old_r = r@;
                    let mut chunk = dup_engines(&booster);
                    proof {
                        assert forall|k: int| 0 <= k < chunk@.len() implies engine_wf(
                            #[trigger] chunk@[k],
                        ) by {
                            assert(engine_wf(booster@[k]));
                        }
                    }
                    r.append(&mut chunk);
                    proof {
                        assert(engines_model(r@) =~= engines_model(old_r) + engines_model(
                            booster@,
                        ));
                        assert(ti_list(r@) =~= ti_list(old_r) + ti_list(booster@));
                        assert(fb_data(r@) =~= fb_data(old_r) + fb_data(booster@));
                        assert(engines_model(r@) =~= b.core@.engines + repeat_engines(
                            b.booster@.engines,
                            n as int + 1,
                        ));
                        assert(ti_list(r@) =~= ti_list(b.core.engines@) + repeat_ti(
                            ti_list(b.booster.engines@),
                            n as int + 1,
                        ));
                        assert(fb_data(r@) =~= fb_data(b.core.engines@) + repeat_fb(
                            fb_data(b.booster.engines@),
                            n as int + 1,
                        ));
                    }
                    n = n + 1;
                }
                r
            },
            Stage::WithPayload(w) => {
                let r = w.stage.engines();
                r
            },
        }
    }

    /// An exact copy of this stage (same model, same well-formedness, same
    /// exact behaviour at separation).
    pub fn dup(&self) -> (r: Stage)
        ensures
            stage_model(r) == stage_model(*self),
            stage_wf(*self) ==> stage_wf(r),
            m_next_ok(r) == m_next_ok(*self),
            next_model(r) == next_model(*self),
            m_wet(r) == m_wet(*self),
            m_dry(r) == m_dry(*self),
            m_next_wet(r) == m_next_wet(*self),
            m_next_dry(r) == m_next_dry(*self),
            x_ti(r) == x_ti(*self),
            x_next_ti(r) == x_next_ti(*self),
        decreases *self,
    {
        match self {
            Stage::Simple(x) => Stage::Simple(x.dup()),
            Stage::Boosted(b) => {
                let core = b.core.dup();
                let booster = b.booster.dup();
                let r = Stage::Boosted(
                    BoostedStage { core, booster, booster_count: b.booster_count },
                );
                proof {
                    assert(x_burn(core) == x_burn(b.core));
                    assert(x_burn(booster) == x_burn(b.booster));
                    assert(core@ == b.core@);
                    assert(core.engines@.map_values(
                        |e: Engine| (e.fuel_consumption@, m_sep_rt(*b)->Some_0),
                    ) =~= b.core.engines@.map_values(
                        |e: Engine| (e.fuel_consumption@, m_sep_rt(*b)->Some_0),
                    )) by {
                        assert forall|k: int| 0 <= k < core.engines@.len() implies core
                            .engines@[k].fuel_consumption@ == b.core.engines@[
                            k].fuel_consumption@ by {
                            assert(fb_data(core.engines@)[k] == fb_data(b.core.engines@)[k]);
                        }
                    }
                }
                r
            },
            Stage::WithPayload(w) => {
                let inner = w.stage.dup();
                Stage::WithPayload(
                    StageWithPayload { stage: Box::new(inner), payload_mass: w.payload_mass },
                )
            },
        }
    }

    /// Combined specific impulse of the engines firing during this stage:
    /// total thrust over the sum of thrust over impulse; `None` when the
    /// total thrust is zero or an exact intermediate does not fit.
    pub fn isp(&self) -> (r: Option<Rat>)
        requires
            stage_wf(*self),
        ensures
            r == m_isp(x_ti(*self)),
            r matches Some(v) ==> v.wf() && q_eq(v@, q_isp_of(s_engines(stage_model(*self)))),
    {
        let engs = self.engines();
        let ghost d = x_ti(*self);
        let ghost model = s_engines(stage_model(*self));
        let mut thrusts: Vec<Rat> = Vec::new();
        let mut i: usize = 0;
        while i < engs.len()
            invariant
                0 <= i <= engs@.len(),
                ti_list(engs@) == d,
                engines_model(engs@) == model,
                forall|k: int| 0 <= k < engs@.len() ==> engine_wf(#[trigger] engs@[k]),
                thrusts@.len() == i,
                forall|k: int| 0 <= k < i ==> thrusts@[k] == engs@[k].thrust,
            decreases engs@.len() - i,
        {
            thrusts.push(engs[i].thrust);
            i = i + 1;
        }
        proof {
            assert(thrusts@ =~= thrusts_of(d));
            assert forall|k: int| 0 <= k < thrusts@.len() implies (#[trigger] thrusts@[
                k]).wf() by {
                assert(engine_wf(engs@[k]));
            }
        }
        let tsum = match sum_rats(&thrusts) {
            Some(v) => v,
            None => {
                return None;
            },
        };
        let mut terms: Vec<Rat> = Vec::new();
        let mut j: usize = 0;
        while j < engs.len()
            invariant
                0 <= j <= engs@.len(),
                ti_list(engs@) == d,
                d == x_ti(*self),
                model == s_engines(stage_model(*self)),
                m_sum(thrusts_of(d)) is Some,
                engines_model(engs@) == model,
                forall|k: int| 0 <= k < engs@.len() ==> engine_wf(#[trigger] engs@[k]),
                terms@.len() == j,
                m_ti_prefix(d, j as int) == Some(terms@),
                forall|k: int| 0 <= k < j ==> (#[trigger] terms@[k]).wf() && q_eq(
                    terms@[k]@,
                    crate::rat::q_div(model[k].thrust, model[k].isp),
                ),
            decreases engs@.len() - j,
        {
            proof {
                assert(d[j as int] == (engs@[j as int].thrust, engs@[j as int].isp));
                assert(model[j as int] == engs@[j as int]@);
                assert(engine_wf(engs@[j as int]));
            }
            let t = engs[j].thrust.checked_div(&engs[j].isp);
            match t {
                Some(v) => {
                    terms.push(v);
                },
                None => {
                    proof {
                        assert(m_ti_prefix(d, j + 1) is None);
                        lemma_m_ti_none(d, j + 1, d.len() as int);
                    }
                    return None;
                },
            }
            j = j + 1;
        }
        let dsum = match sum_rats(&terms) {
            Some(v) => v,
            None => {
                return None;
            },
        };
        let r = tsum.checked_div(&dsum);
        proof {
            if r is Some {
                let v = r->Some_0;
                lemma_flat_models_wf(engs@);
                let tmodel = model.map_values(|e: EngineModel| e.thrust);
                assert forall|k: int| 0 <= k < fracs_of(thrusts@).len() implies #[trigger] fracs_of(
                    thrusts@,
                )[k] == tmodel[k] by {
                    assert(fracs_of(thrusts@)[k] == thrusts@[k]@);
                    assert(tmodel[k] == model[k].thrust);
                    assert(model[k] == engs@[k]@);
                }
                assert(fracs_of(thrusts@) =~= tmodel);
                assert(q_eq(tsum@, q_thrust_sum(model)));
                let dmodel = model.map_values(
                    |e: EngineModel| crate::rat::q_div(e.thrust, e.isp),
                );
                assert forall|k: int| 0 <= k < dmodel.len() implies (#[trigger] dmodel[k]).d
                    > 0 by {
                    assert(dmodel[k] == crate::rat::q_div(model[k].thrust, model[k].isp));
                    assert(crate::engines::eng_model_wf(model[k]) && model[k].isp.n > 0);
                    crate::engines::lemma_pos_mul(model[k].thrust.d, model[k].isp.n);
                }
                crate::engines::lemma_q_sum_fracs_cong(terms@, dmodel);
                assert forall|k: int| 0 <= k < fracs_of(terms@).len() implies q_wf(
                    #[trigger] fracs_of(terms@)[k],
                ) by {
                    assert(fracs_of(terms@)[k] == terms@[k]@);
                }
                lemma_q_sum_wf(fracs_of(terms@));
                lemma_q_sum_wf(dmodel);
                lemma_q_eq_trans(dsum@, q_sum(fracs_of(terms@)), q_sum(dmodel));
                assert forall|k: int| 0 <= k < tmodel.len() implies q_wf(#[trigger] tmodel[
                    k]) by {
                    assert(tmodel[k] == model[k].thrust);
                }
                lemma_q_sum_wf(tmodel);
                crate::rat::lemma_q_div_cong(tsum@, q_thrust_sum(model), dsum@, q_ti_sum(model));
                assert forall|k: int| 0 <= k < dmodel.len() implies q_le(
                    q_zero(),
                    #[trigger] dmodel[k],
                ) by {
                    assert(dmodel[k] == crate::rat::q_div(model[k].thrust, model[k].isp));
                    assert(model[k] == engs@[k]@);
                    assert(engine_wf(engs@[k]));
                    assert(q_le(q_zero(), engs@[k].thrust@));
                    assert(0 * (model[k].thrust.d * model[k].isp.n) <= (model[k].thrust.n
                        * model[k].isp.d) * 1) by (nonlinear_arith)
                        requires
                            model[k].thrust.n >= 0,
                            model[k].thrust.d > 0,
                            model[k].isp.d > 0,
                            model[k].isp.n > 0,
                    {}
                }
                crate::rat::lemma_q_sum_nonneg(dmodel);
                assert(q_ti_sum(model).n >= 0);
                assert(q_ti_sum(model).n > 0 && dsum@.n > 0) by (nonlinear_arith)
                    requires
                        dsum@.n * q_ti_sum(model).d == q_ti_sum(model).n * dsum@.d,
                        dsum@.n != 0,
                        dsum@.d > 0,
                        q_ti_sum(model).d > 0,
                        q_ti_sum(model).n >= 0,
                {}
                crate::engines::lemma_pos_mul(tsum@.d, dsum@.n);
                crate::engines::lemma_pos_mul(q_thrust_sum(model).d, q_ti_sum(model).n);
                lemma_q_eq_trans(
                    v@,
                    crate::rat::q_div(tsum@, dsum@),
                    q_isp_of(model),
                );
            }
        }
        r
    }
}

/// The thrust models of a flattened well-formed engine list are well formed.
pub proof fn lemma_flat_models_wf(engs: Seq<Engine>)
    requires
        forall|k: int| 0 <= k < engs.len() ==> engine_wf(#[trigger] engs[k]),
    ensures
        forall|k: int| 0 <= k < engines_model(engs).len() ==> crate::engines::eng_model_wf(
            #[trigger] engines_model(engs)[k],
        ) && engines_model(engs)[k].isp.n > 0,
{
    assert forall|k: int| 0 <= k < engines_model(engs).len() implies crate::engines::eng_model_wf(
        #[trigger] engines_model(engs)[k],
    ) && engines_model(engs)[k].isp.n > 0 by {
        assert(engines_model(engs)[k] == engs[k]@);
        crate::engines::lemma_engine_model_wf(engs[k]);
        assert(q_lt(q_zero(), engs[k].isp@));
    }
}

/// The full-burn mass sum of sign-correct engine models is nonnegative.
pub proof fn lemma_fb_sum_nonneg(engs: Seq<EngineModel>)
    requires
        forall|j: int| 0 <= j < engs.len() ==> crate::engines::eng_model_ok(
            #[trigger] engs[j],
        ),
    ensures
        q_le(q_zero(), q_fb_sum(engs)),
{
    let terms = q_fb_terms(engs);
    assert forall|j: int| 0 <= j < terms.len() implies q_wf(#[trigger] terms[j]) && q_le(
        q_zero(),
        terms[j],
    ) by {
        assert(terms[j] == q_full_burn(engs[j].fuel_consumption, engs[j].burn_time));
        crate::engines::lemma_q_mps_nonneg(engs[j].fuel_consumption);
        crate::engines::lemma_q_mps_wf(engs[j].fuel_consumption);
        crate::rat::lemma_q_mul_nonneg(
            crate::engines::q_mps(engs[j].fuel_consumption),
            engs[j].burn_time,
        );
        crate::engines::lemma_pos_mul(
            crate::engines::q_mps(engs[j].fuel_consumption).d,
            engs[j].burn_time.d,
        );
    }
    crate::rat::lemma_q_sum_nonneg(terms);
}

/// The models of a well-formed simple stage's engines are sign-correct.
pub proof fn lemma_simple_models_ok(s: SimpleStage)
    requires
        forall|i: int| 0 <= i < s.engines@.len() ==> engine_wf(#[trigger] s.engines@[i]),
    ensures
        forall|j: int| 0 <= j < s@.engines.len() ==> crate::engines::eng_model_ok(
            #[trigger] s@.engines[j],
        ),
{
    assert forall|j: int| 0 <= j < s@.engines.len() implies crate::engines::eng_model_ok(
        #[trigger] s@.engines[j],
    ) by {
        assert(s@.engines[j] == s.engines@[j]@);
        crate::engines::lemma_engine_model_ok(s.engines@[j]);
    }
}

/// The exact wet mass of a well-formed simple-stage model is positive.
pub proof fn lemma_q_simple_wet_pos(s: SimpleStage)
    requires
        simple_wf(s),
    ensures
        q_simple_wet(s@).d > 0,
        q_simple_wet(s@).n > 0,
{
    lemma_simple_models_wf(s);
    lemma_simple_models_ok(s);
    lemma_q_simple_wet_wf(s@);
    lemma_fb_sum_nonneg(s@.engines);
    assert(q_simple_wet(s@).n > 0) by (nonlinear_arith)
        requires
            s@.dry_mass.n > 0,
            s@.dry_mass.d > 0,
            q_fb_sum(s@.engines).n >= 0,
            q_fb_sum(s@.engines).d > 0,
            q_simple_wet(s@).n == s@.dry_mass.n * q_fb_sum(s@.engines).d + q_fb_sum(
                s@.engines,
            ).n * s@.dry_mass.d,
    {}
}

/// The exact wet mass of every well-formed stage is positive.
pub proof fn lemma_s_wet_pos(s: Stage)
    requires
        stage_wf(s),
    ensures
        s_wet(stage_model(s)).d > 0,
        s_wet(stage_model(s)).n > 0,
    decreases s,
{
    lemma_s_wet_wf(s);
    match s {
        Stage::Simple(x) => {
            lemma_q_simple_wet_pos(x);
        },
        Stage::Boosted(b) => {
            lemma_q_simple_wet_pos(b.core);
            lemma_q_simple_wet_pos(b.booster);
            let bw = q_mul(q_simple_wet(b.booster@), q_int(b.booster_count as int));
            assert(bw.n >= 0 && bw.d > 0) by (nonlinear_arith)
                requires
                    q_simple_wet(b.booster@).n > 0,
                    q_simple_wet(b.booster@).d > 0,
                    b.booster_count as int >= 0,
                    bw.n == q_simple_wet(b.booster@).n * (b.booster_count as int),
                    bw.d == q_simple_wet(b.booster@).d * 1,
            {}
            assert(s_wet(stage_model(s)).n > 0) by (nonlinear_arith)
                requires
                    q_simple_wet(b.core@).n > 0,
                    q_simple_wet(b.core@).d > 0,
                    bw.n >= 0,
                    bw.d > 0,
                    s_wet(stage_model(s)).n == q_simple_wet(b.core@).n * bw.d + bw.n
                        * q_simple_wet(b.core@).d,
            {}
        },
        Stage::WithPayload(w) => {
            lemma_s_wet_pos(*w.stage);
            let iw = s_wet(stage_model(*w.stage));
            assert(s_wet(stage_model(s)).n > 0) by (nonlinear_arith)
                requires
                    iw.n > 0,
                    iw.d > 0,
                    w.payload_mass@.n >= 0,
                    w.payload_mass@.d > 0,
                    s_wet(stage_model(s)).n == iw.n * w.payload_mass@.d + w.payload_mass@.n
                        * iw.d,
            {}
        },
    }
}

/// The exact dry mass of every well-formed stage is positive.
pub proof fn lemma_s_dry_pos(s: Stage)
    requires
        stage_wf(s),
    ensures
        s_dry(stage_model(s)).d > 0,
        s_dry(stage_model(s)).n > 0,
    decreases s,
{
    lemma_s_dry_wf(s);
    match s {
        Stage::Simple(x) => {},
        Stage::Boosted(b) => {
            lemma_simple_models_wf(b.core);
            lemma_simple_models_ok(b.core);
            lemma_simple_models_wf(b.booster);
            lemma_simple_models_ok(b.booster);
            lemma_burn_of_wf(b.core@.engines);
            lemma_burn_of_wf(b.booster@.engines);
            crate::engines::lemma_pos_mul(
                q_burn_of(b.core@.engines).d,
                q_burn_of(b.booster@.engines).d,
            );
            crate::rat::lemma_q_sub_nonneg(
                q_burn_of(b.core@.engines),
                q_burn_of(b.booster@.engines),
            );
            let t = q_remaining_burn(b@);
            let sm = sep_model(b@);
            assert forall|j: int| 0 <= j < sm.engines.len() implies crate::engines::eng_model_ok(
                #[trigger] sm.engines[j],
            ) && crate::engines::eng_model_wf(sm.engines[j]) by {
                assert(crate::engines::eng_model_ok(b.core@.engines[j]));
                assert(sm.engines[j].burn_time == t);
                assert(t.n >= 0 && t.d > 0);
            }
            assert(q_lt(q_zero(), b.core.dry_mass@));
            assert(sm.dry_mass == b.core.dry_mass@);
            assert(0 * b.core.dry_mass@.d < b.core.dry_mass@.n * 1);
            assert(sm.dry_mass.n > 0);
            lemma_q_simple_wet_wf(sm);
            lemma_fb_sum_nonneg(sm.engines);
            assert(q_simple_wet(sm).n > 0) by (nonlinear_arith)
                requires
                    sm.dry_mass.n > 0,
                    sm.dry_mass.d > 0,
                    q_fb_sum(sm.engines).n >= 0,
                    q_fb_sum(sm.engines).d > 0,
                    q_simple_wet(sm).n == sm.dry_mass.n * q_fb_sum(sm.engines).d + q_fb_sum(
                        sm.engines,
                    ).n * sm.dry_mass.d,
            {}
            let bd = q_mul(b@.booster.dry_mass, q_int(b@.booster_count));
            assert(bd.n >= 0 && bd.d > 0) by (nonlinear_arith)
                requires
                    b@.booster.dry_mass.n > 0,
                    b@.booster.dry_mass.d > 0,
                    b@.booster_count >= 0,
                    bd.n == b@.booster.dry_mass.n * b@.booster_count,
                    bd.d == b@.booster.dry_mass.d * 1,
            {}
            assert(s_dry(stage_model(s)).n > 0) by (nonlinear_arith)
                requires
                    q_simple_wet(sm).n > 0,
                    q_simple_wet(sm).d > 0,
                    bd.n >= 0,
                    bd.d > 0,
                    s_dry(stage_model(s)).n == q_simple_wet(sm).n * bd.d + bd.n
                        * q_simple_wet(sm).d,
            {}
        },
        Stage::WithPayload(w) => {
            lemma_s_dry_pos(*w.stage);
            let id = s_dry(stage_model(*w.stage));
            assert(s_dry(stage_model(s)).n > 0) by (nonlinear_arith)
                requires
                    id.n > 0,
                    id.d > 0,
                    w.payload_mass@.n >= 0,
                    w.payload_mass@.d > 0,
                    s_dry(stage_model(s)).n == id.n * w.payload_mass@.d + w.payload_mass@.n
                        * id.d,
            {}
        },
    }
}

impl Stage {
    /// Sum of thrusts in newtons over the stage's engines.
    fn t1000_sum(&self) -> (r: Option<Rat>)
        requires
            stage_wf(*self),
        ensures
            r == m_t1000_sum(x_ti(*self)),
            r matches Some(v) ==> v.wf() && q_eq(v@, q_t1000_sum(s_engines(stage_model(
                *self,
            )))),
    {
        let engs = self.engines();
        let ghost d = x_ti(*self);
        let ghost model = s_engines(stage_model(*self));
        let thousand = Rat { num: 1000, den: 1 };
        let mut terms: Vec<Rat> = Vec::new();
        let mut i: usize = 0;
        while i < engs.len()
            invariant
                0 <= i <= engs@.len(),
                ti_list(engs@) == d,
                d == x_ti(*self),
                model == s_engines(stage_model(*self)),
                engines_model(engs@) == model,
                thousand == (Rat { num: 1000, den: 1 }),
                forall|k: int| 0 <= k < engs@.len() ==> engine_wf(#[trigger] engs@[k]),
                terms@.len() == i,
                m_t1000_prefix(d, i as int) == Some(terms@),
                forall|k: int| 0 <= k < i ==> (#[trigger] terms@[k]).wf() && q_eq(
                    terms@[k]@,
                    q_mul(model[k].thrust, q_int(1000)),
                ),
            decreases engs@.len() - i,
        {
            proof {
                assert(d[i as int] == (engs@[i as int].thrust, engs@[i as int].isp));
                assert(model[i as int] == engs@[i as int]@);
                assert(engine_wf(engs@[i as int]));
                assert(thousand.wf() && thousand@ == q_int(1000));
            }
            let t = engs[i].thrust.checked_mul(&thousand);
            match t {
                Some(v) => {
                    terms.push(v);
                },
                None => {
                    proof {
                        assert(m_t1000_prefix(d, i + 1) is None);
                        lemma_m_t1000_none(d, i + 1, d.len() as int);
                    }
                    return None;
                },
            }
            i = i + 1;
        }
        let r = sum_rats(&terms);
        proof {
            if r is Some {
                let v = r->Some_0;
                lemma_flat_models_wf(engs@);
                let smodel = model.map_values(|e: EngineModel| q_mul(e.thrust, q_int(1000)));
                assert forall|k: int| 0 <= k < smodel.len() implies (#[trigger] smodel[k]).d
                    > 0 by {
                    assert(smodel[k] == q_mul(model[k].thrust, q_int(1000)));
                    crate::engines::lemma_pos_mul(model[k].thrust.d, 1);
                }
                crate::engines::lemma_q_sum_fracs_cong(terms@, smodel);
                assert forall|k: int| 0 <= k < fracs_of(terms@).len() implies q_wf(
                    #[trigger] fracs_of(terms@)[k],
                ) by {
                    assert(fracs_of(terms@)[k] == terms@[k]@);
                }
                lemma_q_sum_wf(fracs_of(terms@));
                lemma_q_sum_wf(smodel);
                lemma_q_eq_trans(v@, q_sum(fracs_of(terms@)), q_sum(smodel));
            }
        }
        r
    }

    /// Thrust-to-weight ratio at liftoff (full propellant load); `None`
    /// when an exact intermediate does not fit.
    pub fn twr(&self) -> (r: Option<Rat>)
        requires
            stage_wf(*self),
        ensures
            r == m_twr(*self),
            r matches Some(v) ==> v.wf() && q_eq(v@, q_twr(stage_model(*self))),
    {
        let ts = match self.t1000_sum() {
            Some(v) => v,
            None => {
                return None;
            },
        };
        let w = match self.wet_mass() {
            Some(v) => v,
            None => {
                return None;
            },
        };
        let q = match ts.checked_div(&w) {
            Some(v) => v,
            None => {
                return None;
            },
        };
        let g = gravity();
        let r = q.checked_div(&g);
        proof {
            if r is Some {
                let v = r->Some_0;
                let model = stage_model(*self);
                lemma_s_wet_pos(*self);
                lemma_q_t1000_sum_wf(s_engines(model), *self);
                crate::rat::lemma_q_div_cong(ts@, q_t1000_sum(s_engines(model)), w@, s_wet(model));
                assert(w@.n > 0) by (nonlinear_arith)
                    requires
                        w@.n * s_wet(model).d == s_wet(model).n * w@.d,
                        s_wet(model).n > 0,
                        s_wet(model).d > 0,
                        w@.d > 0,
                {}
                crate::engines::lemma_pos_mul(ts@.d, w@.n);
                crate::engines::lemma_pos_mul(
                    q_t1000_sum(s_engines(model)).d,
                    s_wet(model).n,
                );
                lemma_q_eq_trans(
                    q@,
                    crate::rat::q_div(ts@, w@),
                    crate::rat::q_div(q_t1000_sum(s_engines(model)), s_wet(model)),
                );
                crate::rat::lemma_q_div_cong(
                    q@,
                    crate::rat::q_div(q_t1000_sum(s_engines(model)), s_wet(model)),
                    g@,
                    q_gravity(),
                );
                crate::engines::lemma_pos_mul(q@.d, g@.n);
                crate::engines::lemma_pos_mul(
                    crate::rat::q_div(q_t1000_sum(s_engines(model)), s_wet(model)).d,
                    491,
                );
                lemma_q_eq_trans(
                    v@,
                    crate::rat::q_div(q@, g@),
                    q_twr(model),
                );
            }
        }
        r
    }

    /// Peak acceleration in gravities, with the stage's propellant spent;
    /// `None` when an exact intermediate does not fit.
    pub fn max_g_force(&self) -> (r: Option<Rat>)
        requires
            stage_wf(*self),
        ensures
            r == m_max_g(*self),
            r matches Some(v) ==> v.wf() && q_eq(v@, q_max_g(stage_model(*self))),
    {
        let ts = match self.t1000_sum() {
            Some(v) => v,
            None => {
                return None;
            },
        };
        let dm = match self.dry_mass() {
            Some(v) => v,
            None => {
                return None;
            },
        };
        let q = match ts.checked_div(&dm) {
            Some(v) => v,
            None => {
                return None;
            },
        };
        let g = gravity();
        let r = q.checked_div(&g);
        proof {
            if r is Some {
                let v = r->Some_0;
                let model = stage_model(*self);
                lemma_s_dry_pos(*self);
                lemma_q_t1000_sum_wf(s_engines(model), *self);
                crate::rat::lemma_q_div_cong(ts@, q_t1000_sum(s_engines(model)), dm@, s_dry(model));
                assert(dm@.n > 0) by (nonlinear_arith)
                    requires
                        dm@.n * s_dry(model).d == s_dry(model).n * dm@.d,
                        s_dry(model).n > 0,
                        s_dry(model).d > 0,
                        dm@.d > 0,
                {}
                crate::engines::lemma_pos_mul(ts@.d, dm@.n);
                crate::engines::lemma_pos_mul(
                    q_t1000_sum(s_engines(model)).d,
                    s_dry(model).n,
                );
                lemma_q_eq_trans(
                    q@,
                    crate::rat::q_div(ts@, dm@),
                    crate::rat::q_div(q_t1000_sum(s_engines(model)), s_dry(model)),
                );
                crate::rat::lemma_q_div_cong(
                    q@,
                    crate::rat::q_div(q_t1000_sum(s_engines(model)), s_dry(model)),
                    g@,
                    q_gravity(),
                );
                crate::engines::lemma_pos_mul(q@.d, g@.n);
                crate::engines::lemma_pos_mul(
                    crate::rat::q_div(q_t1000_sum(s_engines(model)), s_dry(model)).d,
                    491,
                );
                lemma_q_eq_trans(
                    v@,
                    crate::rat::q_div(q@, g@),
                    q_max_g(model),
                );
            }
        }
        r
    }
}

/// The scaled-thrust sum of a well-formed stage's engines has a positive
/// denominator.
pub proof fn lemma_q_t1000_sum_wf(engs: Seq<EngineModel>, s: Stage)
    requires
        stage_wf(s),
        engs == s_engines(stage_model(s)),
    ensures
        q_t1000_sum(engs).d > 0,
    decreases s,
{
    lemma_s_engines_wf(s);
    let smodel = engs.map_values(|e: EngineModel| q_mul(e.thrust, q_int(1000)));
    assert forall|k: int| 0 <= k < smodel.len() implies q_wf(#[trigger] smodel[k]) by {
        assert(smodel[k] == q_mul(engs[k].thrust, q_int(1000)));
        assert(crate::engines::eng_model_wf(engs[k]));
        crate::engines::lemma_pos_mul(engs[k].thrust.d, 1);
    }
    lemma_q_sum_wf(smodel);
}

/// The flattened engine models of a well-formed stage are well formed and
/// sign-correct.
pub proof fn lemma_s_engines_wf(s: Stage)
    requires
        stage_wf(s),
    ensures
        forall|k: int| 0 <= k < s_engines(stage_model(s)).len() ==> crate::engines::eng_model_wf(
            #[trigger] s_engines(stage_model(s))[k],
        ) && crate::engines::eng_model_ok(s_engines(stage_model(s))[k]),
    decreases s,
{
    let engs = s_engines(stage_model(s));
    match s {
        Stage::Simple(x) => {
            lemma_simple_models_wf(x);
            lemma_simple_models_ok(x);
            assert forall|k: int| 0 <= k < engs.len() implies crate::engines::eng_model_wf(
                #[trigger] engs[k],
            ) && crate::engines::eng_model_ok(engs[k]) by {
                assert(engs[k] == x@.engines[k]);
            }
        },
        Stage::Boosted(b) => {
            lemma_simple_models_wf(b.core);
            lemma_simple_models_ok(b.core);
            lemma_simple_models_wf(b.booster);
            lemma_simple_models_ok(b.booster);
            lemma_repeat_engines_ok(b.booster@.engines, b.booster_count as int);
            let rep = repeat_engines(b.booster@.engines, b.booster_count as int);
            assert forall|k: int| 0 <= k < engs.len() implies crate::engines::eng_model_wf(
                #[trigger] engs[k],
            ) && crate::engines::eng_model_ok(engs[k]) by {
                if k < b.core@.engines.len() {
                    assert(engs[k] == b.core@.engines[k]);
                } else {
                    assert(engs[k] == rep[k - b.core@.engines.len()]);
                }
            }
        },
        Stage::WithPayload(w) => {
            lemma_s_engines_wf(*w.stage);
            assert forall|k: int| 0 <= k < engs.len() implies crate::engines::eng_model_wf(
                #[trigger] engs[k],
            ) && crate::engines::eng_model_ok(engs[k]) by {
                assert(engs[k] == s_engines(stage_model(*w.stage))[k]);
            }
        },
    }
}

/// Elements of a repeated engine list all come from the original list.
pub proof fn lemma_repeat_engines_ok(engs: Seq<EngineModel>, n: int)
    requires
        forall|k: int| 0 <= k < engs.len() ==> crate::engines::eng_model_wf(
            #[trigger] engs[k],
        ) && crate::engines::eng_model_ok(engs[k]),
    ensures
        forall|k: int| 0 <= k < repeat_engines(engs, n).len() ==> crate::engines::eng_model_wf(
            #[trigger] repeat_engines(engs, n)[k],
        ) && crate::engines::eng_model_ok(repeat_engines(engs, n)[k]),
    decreases n,
{
    if n > 0 {
        lemma_repeat_engines_ok(engs, n - 1);
        assert forall|k: int| 0 <= k < repeat_engines(engs, n).len() implies crate::engines::eng_model_wf(
            #[trigger] repeat_engines(engs, n)[k],
        ) && crate::engines::eng_model_ok(repeat_engines(engs, n)[k]) by {
            if k < repeat_engines(engs, n - 1).len() {
                assert(repeat_engines(engs, n)[k] == repeat_engines(engs, n - 1)[k]);
            } else {
                assert(repeat_engines(engs, n)[k] == engs[k - repeat_engines(
                    engs,
                    n - 1,
                ).len()]);
            }
        }
    }
}

/// A terminal stage produces no further flight entries: a simple stage, or
/// a payload decorator over one.
pub open spec fn terminal(m: StageModel) -> bool
    decreases m,
{
    match m {
        StageModel::Simple(_) => true,
        StageModel::Boosted(_) => false,
        StageModel::WithPayload(inner, _) => terminal(*inner),
    }
}

/// A stage has a following flight entry exactly when it is not terminal.
pub proof fn lemma_next_model_terminal(s: Stage)
    ensures
        (next_model(s) is None) == terminal(stage_model(s)),
    decreases s,
{
    match s {
        Stage::Simple(_) => {},
        Stage::Boosted(_) => {},
        Stage::WithPayload(w) => {
            lemma_next_model_terminal(*w.stage);
        },
    }
}

/// The stage after a separation event is terminal: only one separation
/// happens per boosted stage.
pub proof fn lemma_next_model_once(s: Stage)
    ensures
        next_model(s) matches Some(m) ==> terminal(m),
    decreases s,
{
    match s {
        Stage::Simple(_) => {},
        Stage::Boosted(_) => {},
        Stage::WithPayload(w) => {
            lemma_next_model_once(*w.stage);
        },
    }
}

// ---------------------------------------------------------------------------
// Laws.
// ---------------------------------------------------------------------------

/// For every well-formed simple stage, the exact difference between wet and
/// dry mass is the propellant its engines drain over their full burns.
pub proof fn lemma_simple_wet_dry_difference(s: SimpleStage)
    requires
        simple_wf(s),
    ensures
        q_eq(q_sub(q_simple_wet(s@), s@.dry_mass), q_fb_sum(s@.engines)),
{
    lemma_simple_models_wf(s);
    lemma_q_simple_wet_wf(s@);
    crate::rat::lemma_q_add_sub(s@.dry_mass, q_fb_sum(s@.engines));
}

/// For every well-formed boosted stage: the continuation stage's wet mass
/// (built with any exact value of the remaining burn time) plus the
/// separated boosters' dry mass is exactly the boosted stage's dry mass.
pub proof fn lemma_booster_separation_roundtrip(b: BoostedStage, t: Frac)
    requires
        boosted_wf(b),
        q_wf(t),
        q_eq(t, q_remaining_burn(b@)),
    ensures
        q_eq(
            q_add(
                q_simple_wet(
                    SimpleModel {
                        dry_mass: b@.core.dry_mass,
                        engines: set_burn_model(b@.core.engines, t),
                    },
                ),
                q_mul(b@.booster.dry_mass, q_int(b@.booster_count)),
            ),
            s_dry(StageModel::Boosted(b@)),
        ),
{
    lemma_simple_models_wf(b.core);
    lemma_simple_wet_burn_cong(b@.core.engines, b@.core.dry_mass, t, q_remaining_burn(b@));
    lemma_q_add_cong(
        q_simple_wet(
            SimpleModel {
                dry_mass: b@.core.dry_mass,
                engines: set_burn_model(b@.core.engines, t),
            },
        ),
        q_simple_wet(sep_model(b@)),
        q_mul(b@.booster.dry_mass, q_int(b@.booster_count)),
        q_mul(b@.booster.dry_mass, q_int(b@.booster_count)),
    );
}

/// Carrying more inert mass can only lower a stage's mass ratio: for
/// masses `0 < b <= a` and added payload `delta >= 0`, the ratio
/// `(a + delta) / (b + delta)` is at most `a / b`, and strictly below it
/// when `delta > 0` and `b < a`.  Every flight entry's wet and dry mass
/// are its stage's plus the payload it carries, so with a heavier payload
/// each entry's Tsiolkovsky mass ratio — and with it the stage's exact
/// delta-v factor — can only fall.
pub proof fn lemma_mass_ratio_monotonicity(a: Frac, b: Frac, delta: Frac)
    requires
        q_wf(a),
        q_wf(b),
        q_wf(delta),
        q_lt(q_zero(), b),
        q_le(b, a),
        q_le(q_zero(), delta),
    ensures
        q_le(crate::rat::q_div(q_add(a, delta), q_add(b, delta)), crate::rat::q_div(a, b)),
        q_lt(q_zero(), delta) && q_lt(b, a) ==> q_lt(
            crate::rat::q_div(q_add(a, delta), q_add(b, delta)),
            crate::rat::q_div(a, b),
        ),
{
    let qa = q_add(a, delta);
    let qb = q_add(b, delta);
    assert(qb.n > 0 && qb.d > 0 && qa.d > 0) by (nonlinear_arith)
        requires
            qb.n == b.n * delta.d + delta.n * b.d,
            qb.d == b.d * delta.d,
            qa.d == a.d * delta.d,
            b.n > 0,
            delta.n >= 0,
            a.d > 0,
            b.d > 0,
            delta.d > 0,
    {}
    let dd2 = delta.d * delta.d;
    let s1 = delta.n * delta.d;
    let s2 = a.d * b.d;
    let u = a.d * b.n;
    let v = a.n * b.d;
    let anbn = (a.n * b.n) * s2;
    let shared = anbn * dd2;
    let scale = s1 * s2;
    assert(qa.n * qb.d == (a.n * delta.d) * (b.d * delta.d) + (delta.n * a.d) * (b.d
        * delta.d)) by (nonlinear_arith)
        requires
            qa.n == a.n * delta.d + delta.n * a.d,
            qb.d == b.d * delta.d,
    {}
    assert((a.n * delta.d) * (b.d * delta.d) == v * dd2) by (nonlinear_arith)
        requires
            v == a.n * b.d,
            dd2 == delta.d * delta.d,
    {}
    assert((delta.n * a.d) * (b.d * delta.d) == s1 * s2) by (nonlinear_arith)
        requires
            s1 == delta.n * delta.d,
            s2 == a.d * b.d,
    {}
    assert(qa.n * qb.d == v * dd2 + s1 * s2);
    assert((qa.n * qb.d) * u == (v * dd2) * u + (s1 * s2) * u) by (nonlinear_arith)
        requires
            qa.n * qb.d == v * dd2 + s1 * s2,
    {}
    assert((v * dd2) * u == (v * u) * dd2) by (nonlinear_arith) {}
    assert(v * u == anbn) by (nonlinear_arith)
        requires
            v == a.n * b.d,
            u == a.d * b.n,
            anbn == (a.n * b.n) * (a.d * b.d),
            s2 == a.d * b.d,
    {}
    assert((qa.n * qb.d) * (a.d * b.n) == shared + scale * u);
    assert(qa.d * qb.n == (a.d * delta.d) * (b.n * delta.d) + (a.d * delta.d) * (delta.n
        * b.d)) by (nonlinear_arith)
        requires
            qa.d == a.d * delta.d,
            qb.n == b.n * delta.d + delta.n * b.d,
    {}
    assert((a.d * delta.d) * (b.n * delta.d) == u * dd2) by (nonlinear_arith)
        requires
            u == a.d * b.n,
            dd2 == delta.d * delta.d,
    {}
    assert((a.d * delta.d) * (delta.n * b.d) == s1 * s2) by (nonlinear_arith)
        requires
            s1 == delta.n * delta.d,
            s2 == a.d * b.d,
    {}
    assert(qa.d * qb.n == u * dd2 + s1 * s2);
    assert(v * (qa.d * qb.n) == v * (u * dd2) + v * (s1 * s2)) by (nonlinear_arith)
        requires
            qa.d * qb.n == u * dd2 + s1 * s2,
    {}
    assert(v * (u * dd2) == (v * u) * dd2) by (nonlinear_arith) {}
    assert(v * (s1 * s2) == (s1 * s2) * v) by (nonlinear_arith) {}
    assert((a.n * b.d) * (qa.d * qb.n) == shared + scale * v);
    assert(u == b.n * a.d) by (nonlinear_arith)
        requires
            u == a.d * b.n,
    {}
    assert(u <= v);
    if q_lt(q_zero(), delta) && q_lt(b, a) {
        assert(u < v);
    }
    assert(scale >= 0) by (nonlinear_arith)
        requires
            scale == (delta.n * delta.d) * (a.d * b.d),
            delta.n >= 0,
            delta.d > 0,
            a.d > 0,
            b.d > 0,
    {}
    assert(scale * u <= scale * v) by (nonlinear_arith)
        requires
            scale >= 0,
            u <= v,
    {}
    if q_lt(q_zero(), delta) && q_lt(b, a) {
        assert(scale > 0) by (nonlinear_arith)
            requires
                scale == (delta.n * delta.d) * (a.d * b.d),
                delta.n > 0,
                delta.d > 0,
                a.d > 0,
                b.d > 0,
        {}
        assert(scale * u < scale * v) by (nonlinear_arith)
            requires
                scale > 0,
                u < v,
        {}
    }
}

/// The wet or dry mass under a larger payload is the mass under the
/// smaller payload plus the payload difference.
pub proof fn lemma_q_payload_shift(w: Frac, p1: Frac, p2: Frac)
    ensures
        q_eq(q_add(w, p2), q_add(q_add(w, p1), q_sub(p2, p1))),
{
    let lhs = q_add(w, p2);
    let rhs = q_add(q_add(w, p1), q_sub(p2, p1));
    let pp1 = p1.d * p1.d;
    let pp2 = p2.d * p2.d;
    let ww = w.d * w.d;
    let c1 = (w.n * pp1) * (pp2 * w.d);
    let c2 = (p2.n * pp1) * (ww * p2.d);
    let ee = (p1.n * p1.d) * (ww * pp2);
    let xx = w.n * p1.d;
    let yy = p1.n * w.d;
    let uu = p2.n * p1.d;
    let vv = p1.n * p2.d;
    let bb = p2.d * p1.d;
    let ll = w.d * p2.d;
    let dd = w.d * p1.d;
    // the left-hand product, term by term
    assert(rhs.d == (w.d * p1.d) * (p2.d * p1.d));
    assert(rhs.d == pp1 * ll) by (nonlinear_arith)
        requires
            rhs.d == (w.d * p1.d) * (p2.d * p1.d),
            pp1 == p1.d * p1.d,
            ll == w.d * p2.d,
    {}
    assert(lhs.n * rhs.d == (w.n * p2.d) * (pp1 * ll) + (p2.n * w.d) * (pp1 * ll))
        by (nonlinear_arith)
        requires
            lhs.n == w.n * p2.d + p2.n * w.d,
            rhs.d == pp1 * ll,
    {}
    assert((w.n * p2.d) * (pp1 * ll) == c1) by (nonlinear_arith)
        requires
            ll == w.d * p2.d,
            pp2 == p2.d * p2.d,
            c1 == (w.n * pp1) * (pp2 * w.d),
    {}
    assert((p2.n * w.d) * (pp1 * ll) == c2) by (nonlinear_arith)
        requires
            ll == w.d * p2.d,
            ww == w.d * w.d,
            c2 == (p2.n * pp1) * (ww * p2.d),
    {}
    assert(lhs.n * rhs.d == c1 + c2);
    // the right-hand product, term by term
    assert(rhs.n == (w.n * p1.d + p1.n * w.d) * (p2.d * p1.d) + (p2.n * p1.d - p1.n
        * p2.d) * (w.d * p1.d));
    assert(rhs.n == (xx + yy) * bb + (uu - vv) * dd) by (nonlinear_arith)
        requires
            rhs.n == (w.n * p1.d + p1.n * w.d) * (p2.d * p1.d) + (p2.n * p1.d - p1.n * p2.d)
                * (w.d * p1.d),
            xx == w.n * p1.d,
            yy == p1.n * w.d,
            uu == p2.n * p1.d,
            vv == p1.n * p2.d,
            bb == p2.d * p1.d,
            dd == w.d * p1.d,
    {}
    assert(lhs.d == ll);
    assert(rhs.n * ll == (xx * bb) * ll + (yy * bb) * ll + (uu * dd) * ll - (vv * dd) * ll)
        by (nonlinear_arith)
        requires
            rhs.n == (xx + yy) * bb + (uu - vv) * dd,
    {}
    assert(xx * bb == (w.n * pp1) * p2.d) by (nonlinear_arith)
        requires
            xx == w.n * p1.d,
            bb == p2.d * p1.d,
            pp1 == p1.d * p1.d,
    {}
    assert(((w.n * pp1) * p2.d) * ll == c1) by (nonlinear_arith)
        requires
            ll == w.d * p2.d,
            pp2 == p2.d * p2.d,
            c1 == (w.n * pp1) * (pp2 * w.d),
    {}
    assert(yy * bb == (p1.n * p1.d) * ll) by (nonlinear_arith)
        requires
            yy == p1.n * w.d,
            bb == p2.d * p1.d,
            ll == w.d * p2.d,
    {}
    assert(((p1.n * p1.d) * ll) * ll == ee) by (nonlinear_arith)
        requires
            ll == w.d * p2.d,
            ww == w.d * w.d,
            pp2 == p2.d * p2.d,
            ee == (p1.n * p1.d) * (ww * pp2),
    {}
    assert(uu * dd == (p2.n * pp1) * w.d) by (nonlinear_arith)
        requires
            uu == p2.n * p1.d,
            dd == w.d * p1.d,
            pp1 == p1.d * p1.d,
    {}
    assert(((p2.n * pp1) * w.d) * ll == c2) by (nonlinear_arith)
        requires
            ll == w.d * p2.d,
            ww == w.d * w.d,
            c2 == (p2.n * pp1) * (ww * p2.d),
    {}
    assert(vv * dd == (p1.n * p1.d) * ll) by (nonlinear_arith)
        requires
            vv == p1.n * p2.d,
            dd == w.d * p1.d,
            ll == w.d * p2.d,
    {}
    assert(rhs.n * lhs.d == c1 + ee + c2 - ee);
}

/// The models of a well-formed simple stage's engines are well formed.
pub proof fn lemma_simple_models_wf(s: SimpleStage)
    requires
        forall|i: int| 0 <= i < s.engines@.len() ==> engine_wf(#[trigger] s.engines@[i]),
    ensures
        forall|j: int| 0 <= j < s@.engines.len() ==> crate::engines::eng_model_wf(
            #[trigger] s@.engines[j],
        ),
{
    assert forall|j: int| 0 <= j < s@.engines.len() implies crate::engines::eng_model_wf(
        #[trigger] s@.engines[j],
    ) by {
        assert(s@.engines[j] == s.engines@[j]@);
        crate::engines::lemma_engine_model_wf(s.engines@[j]);
    }
}

} // verus!
