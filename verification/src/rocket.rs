//! Rockets: an ordered stack of stages plus a top payload, the derived
//! flight sequence, and the payload-capacity search schedule.
//!
//! The flight sequence expands each stacked stage into the entries it
//! contributes in flight: the stage itself, decorated with the mass of
//! everything above it, and — for a boosted stage — the continuation stage
//! that remains after booster separation, carrying the same payload.

use vstd::prelude::*;

verus! {

use crate::Error;
use crate::rat::{
    Rat, Frac, fracs_of, m_add, q_add, q_eq, q_le, q_lt, q_max_fold, q_wf, q_zero,
    lemma_q_max_fold_bounds, lemma_q_max_fold_cong, sum_rats, max_rats,
};
use crate::stages::{
    Stage, StageModel, StageWithPayload, stage_model, stage_wf, m_wet, m_dry, m_next_ok,
    next_model, m_next_wet, m_next_dry, m_opt_add, x_ti, x_next_ti, m_t1000_sum, m_max_g,
    terminal, lemma_next_model_terminal, lemma_s_wet_pos, s_wet, q_max_g,
    lemma_s_dry_pos, lemma_q_t1000_sum_wf, s_engines, s_dry, q_t1000_sum,
};
use crate::rat::{m_div, x_max};

/// A rocket: stages from bottom to top, and the mass of the final payload
/// carried above the topmost stage.
#[derive(Debug)]
pub struct Rocket {
    pub stages: Vec<Stage>,
    pub payload_mass: Rat,
}

/// The rocket invariant: every stacked stage well formed, the payload mass
/// a nonnegative rational.
pub open spec fn rocket_wf(r: Rocket) -> bool {
    &&& forall|i: int| 0 <= i < r.stages@.len() ==> stage_wf(#[trigger] r.stages@[i])
    &&& r.payload_mass.wf()
    &&& q_le(q_zero(), r.payload_mass@)
}

/// Models of a list of stages.
pub open spec fn models_of(s: Seq<Stage>) -> Seq<StageModel> {
    s.map_values(|x: Stage| stage_model(x))
}

/// Whether the exact wet masses of the first `i` stacked stages all fit.
pub open spec fn m_wets_ok(stages: Seq<Stage>, i: int) -> bool
    decreases i,
{
    if i <= 0 {
        true
    } else {
        m_wets_ok(stages, i - 1) && m_wet(stages[i - 1]) is Some
    }
}

/// Once a wet mass fails to fit, it fails for every longer prefix.
pub proof fn lemma_m_wets_ok_down(stages: Seq<Stage>, i: int, j: int)
    requires
        0 <= i <= j,
        !m_wets_ok(stages, i),
    ensures
        !m_wets_ok(stages, j),
    decreases j - i,
{
    if j > i {
        lemma_m_wets_ok_down(stages, i, j - 1);
    }
}

/// Exact payload carried by stacked stage `k`: the rocket's payload mass
/// plus the wet masses of every stage above `k`, accumulated from the top.
pub open spec fn m_pay(stages: Seq<Stage>, pm: Rat, k: int) -> Option<Rat>
    decreases stages.len() - k,
{
    if k >= stages.len() - 1 {
        Some(pm)
    } else {
        match m_pay(stages, pm, k + 1) {
            Some(a) => match m_wet(stages[k + 1]) {
                Some(w) => m_add(a, w),
                None => None,
            },
            None => None,
        }
    }
}

/// Once a payload sum fails to fit, it fails for every lower stage too.
pub proof fn lemma_m_pay_none_down(stages: Seq<Stage>, pm: Rat, t: int, k: int)
    requires
        k <= t,
        m_pay(stages, pm, t) is None,
    ensures
        m_pay(stages, pm, k) is None,
    decreases t - k,
{
    if k < t {
        lemma_m_pay_none_down(stages, pm, t, k + 1);
    }
}

/// The flight entries one stacked stage contributes, as models: the stage
/// under its payload, then — unless it is terminal — its continuation
/// under the same payload.  `None` when the separation arithmetic fails.
pub open spec fn chain_models(s: Stage, p: Rat) -> Option<Seq<StageModel>> {
    if !m_next_ok(s) {
        None
    } else {
        let e0 = StageModel::WithPayload(Box::new(stage_model(s)), p@);
        match next_model(s) {
            None => Some(seq![e0]),
            Some(nm) => Some(seq![e0, StageModel::WithPayload(Box::new(nm), p@)]),
        }
    }
}

/// Models of the flight entries of the first `k` stacked stages.
pub open spec fn flight_prefix(stages: Seq<Stage>, pm: Rat, k: int) -> Option<Seq<StageModel>>
    decreases k,
{
    if k <= 0 {
        Some(Seq::empty())
    } else {
        match flight_prefix(stages, pm, k - 1) {
            Some(acc) => match m_pay(stages, pm, k - 1) {
                Some(p) => match chain_models(stages[k - 1], p) {
                    Some(ch) => Some(acc + ch),
                    None => None,
                },
                None => None,
            },
            None => None,
        }
    }
}

/// Once the flight expansion fails, it fails for every longer prefix.
pub proof fn lemma_flight_prefix_none(stages: Seq<Stage>, pm: Rat, i: int, j: int)
    requires
        0 <= i <= j,
        flight_prefix(stages, pm, i) is None,
    ensures
        flight_prefix(stages, pm, j) is None,
    decreases j - i,
{
    if j > i {
        lemma_flight_prefix_none(stages, pm, i, j - 1);
    }
}

/// Models of the whole flight sequence of a rocket, or `None` when an exact
/// intermediate does not fit.
pub open spec fn flight_models(stages: Seq<Stage>, pm: Rat) -> Option<Seq<StageModel>> {
    if m_wets_ok(stages, stages.len() as int) {
        flight_prefix(stages, pm, stages.len() as int)
    } else {
        None
    }
}

/// The exact data of one flight entry that its derived performance
/// figures depend on: the thrust/impulse pairs of its engines and its
/// exact wet and dry masses.
pub struct EntrySig {
    pub ti: Seq<(Rat, Rat)>,
    pub wet: Option<Rat>,
    pub dry: Option<Rat>,
}

/// The signature of a flight entry.
pub open spec fn entry_sig(e: Stage) -> EntrySig {
    EntrySig { ti: x_ti(e), wet: m_wet(e), dry: m_dry(e) }
}

/// The signatures of a list of flight entries.
pub open spec fn sigs_of(s: Seq<Stage>) -> Seq<EntrySig> {
    s.map_values(|e: Stage| entry_sig(e))
}

/// The entry signatures one stacked stage contributes under payload `p`.
pub open spec fn chain_sigs(s: Stage, p: Rat) -> Seq<EntrySig> {
    let e0 = EntrySig {
        ti: x_ti(s),
        wet: m_opt_add(m_wet(s), p),
        dry: m_opt_add(m_dry(s), p),
    };
    match next_model(s) {
        None => seq![e0],
        Some(_) => seq![
            e0,
            EntrySig {
                ti: x_next_ti(s),
                wet: m_opt_add(m_next_wet(s), p),
                dry: m_opt_add(m_next_dry(s), p),
            },
        ],
    }
}

/// Entry signatures of the flight entries of the first `k` stacked stages;
/// meaningful wherever the flight expansion itself exists.
pub open spec fn flight_sigs_prefix(stages: Seq<Stage>, pm: Rat, k: int) -> Seq<EntrySig>
    decreases k,
{
    if k <= 0 {
        Seq::empty()
    } else {
        flight_sigs_prefix(stages, pm, k - 1) + (match m_pay(stages, pm, k - 1) {
            Some(p) => chain_sigs(stages[k - 1], p),
            None => Seq::empty(),
        })
    }
}

/// Entry signatures of the whole flight sequence.
pub open spec fn flight_sigs(stages: Seq<Stage>, pm: Rat) -> Seq<EntrySig> {
    flight_sigs_prefix(stages, pm, stages.len() as int)
}

/// Exact peak acceleration of a flight entry, from its signature.
pub open spec fn m_sig_max_g(sig: EntrySig) -> Option<Rat> {
    match m_t1000_sum(sig.ti) {
        Some(ts) => match sig.dry {
            Some(dm) => match m_div(ts, dm) {
                Some(q) => m_div(q, Rat { num: 491, den: 50 }),
                None => None,
            },
            None => None,
        },
        None => None,
    }
}

/// Mirror of collecting the first `t` exact peak accelerations.
pub open spec fn m_gs_prefix(sigs: Seq<EntrySig>, t: int) -> Option<Seq<Rat>>
    decreases t,
{
    if t <= 0 {
        Some(Seq::empty())
    } else {
        match m_gs_prefix(sigs, t - 1) {
            Some(gs) => match m_sig_max_g(sigs[t - 1]) {
                Some(g) => Some(gs.push(g)),
                None => None,
            },
            None => None,
        }
    }
}

/// Once an exact acceleration fails to fit, every longer prefix fails too.
pub proof fn lemma_m_gs_none(sigs: Seq<EntrySig>, i: int, j: int)
    requires
        0 <= i <= j,
        m_gs_prefix(sigs, i) is None,
    ensures
        m_gs_prefix(sigs, j) is None,
    decreases j - i,
{
    if j > i {
        lemma_m_gs_none(sigs, i, j - 1);
    }
}

/// Mirror of the whole peak-acceleration computation of a rocket: the
/// flight expansion, then every entry's exact acceleration, folded into
/// the largest value (zero for the empty rocket).
pub open spec fn m_rocket_max_g(stages: Seq<Stage>, pm: Rat) -> Option<Rat> {
    match flight_models(stages, pm) {
        Some(_) => {
            let sigs = flight_sigs(stages, pm);
            match m_gs_prefix(sigs, sigs.len() as int) {
                Some(gs) => Some(x_max(gs)),
                None => None,
            }
        },
        None => None,
    }
}

/// Number of flight entries the first `i` stacked stages expand into: one
/// each, and one more for every boosted stage among them.
pub open spec fn expansion_len(stages: Seq<Stage>, i: int) -> int
    decreases i,
{
    if i <= 0 {
        0
    } else {
        expansion_len(stages, i - 1) + (if terminal(stage_model(stages[i - 1])) {
            1int
        } else {
            2int
        })
    }
}

/// Number of boosted stages among the first `i` stacked stages.
pub open spec fn boosted_count(stages: Seq<Stage>, i: int) -> int
    decreases i,
{
    if i <= 0 {
        0
    } else {
        boosted_count(stages, i - 1) + (if terminal(stage_model(stages[i - 1])) {
            0int
        } else {
            1int
        })
    }
}

/// The flight sequence is exactly one entry per stacked stage plus one per
/// boosted stage among them.
pub proof fn lemma_expansion_len(stages: Seq<Stage>, i: int)
    requires
        0 <= i,
    ensures
        expansion_len(stages, i) == i + boosted_count(stages, i),
    decreases i,
{
    if i > 0 {
        lemma_expansion_len(stages, i - 1);
    }
}

/// A successful flight expansion has exactly `expansion_len` entries.
pub proof fn lemma_flight_prefix_len(stages: Seq<Stage>, pm: Rat, k: int)
    requires
        0 <= k <= stages.len(),
    ensures
        flight_prefix(stages, pm, k) matches Some(v) ==> v.len() == expansion_len(stages, k),
    decreases k,
{
    if k > 0 {
        lemma_flight_prefix_len(stages, pm, k - 1);
        if flight_prefix(stages, pm, k) is Some {
            lemma_next_model_terminal(stages[k - 1]);
        }
    }
}

impl Rocket {
    /// The flight sequence, bottom to top: each stacked stage decorated
    /// with the exact mass it carries (all wet masses above it plus the
    /// rocket's payload mass), and, after each boosted entry, its
    /// continuation stage under the same payload.  `Err` exactly when an
    /// exact intermediate does not fit.
    #[verifier::rlimit(100)]
    pub fn stages(&self) -> (r: Result<Vec<Stage>, Error>)
        requires
            rocket_wf(*self),
        ensures
            r is Ok <==> flight_models(self.stages@, self.payload_mass) is Some,
            r matches Err(e) ==> e == Error::Overflow,
            r matches Ok(v) ==> {
                &&& models_of(v@) == flight_models(self.stages@, self.payload_mass)->Some_0
                &&& sigs_of(v@) == flight_sigs(self.stages@, self.payload_mass)
                &&& v@.len() == expansion_len(self.stages@, self.stages@.len() as int)
                &&& forall|i: int| 0 <= i < v@.len() ==> stage_wf(#[trigger] v@[i])
            },
    {
        let n = self.stages.len();
        let mut wets: Vec<Rat> = Vec::new();
        let mut i: usize = 0;
        while i < n
            invariant
                0 <= i <= n,
                n == self.stages@.len(),
                rocket_wf(*self),
                wets@.len() == i,
                m_wets_ok(self.stages@, i as int),
                forall|k: int| 0 <= k < i ==> Some(#[trigger] wets@[k]) == m_wet(
                    self.stages@[k],
                ),
                forall|k: int| 0 <= k < i ==> (#[trigger] wets@[k]).wf() && q_le(
                    q_zero(),
                    wets@[k]@,
                ),
            decreases n - i,
        {
            proof {
                assert(stage_wf(self.stages@[i as int]));
            }
            let w = self.stages[i].wet_mass();
            match w {
                Some(v) => {
                    proof {
                        lemma_s_wet_pos(self.stages@[i as int]);
                        let sw = s_wet(stage_model(self.stages@[i as int]));
                        assert(v@.n > 0) by (nonlinear_arith)
                            requires
                                v@.n * sw.d == sw.n * v@.d,
                                sw.n > 0,
                                sw.d > 0,
                                v@.d > 0,
                        {}
                    }
                    wets.push(v);
                },
                None => {
                    proof {
                        assert(!m_wets_ok(self.stages@, i + 1));
                        lemma_m_wets_ok_down(self.stages@, i + 1, n as int);
                    }
                    return Err(Error::Overflow);
                },
            }
            i = i + 1;
        }
        let mut pays_rev: Vec<Rat> = Vec::new();
        let mut acc = self.payload_mass;
        let mut j: usize = 0;
        while j < n
            invariant
                0 <= j <= n,
                n == self.stages@.len(),
                rocket_wf(*self),
                wets@.len() == n,
                m_wets_ok(self.stages@, n as int),
                forall|k: int| 0 <= k < n ==> Some(#[trigger] wets@[k]) == m_wet(
                    self.stages@[k],
                ),
                forall|k: int| 0 <= k < n ==> (#[trigger] wets@[k]).wf() && q_le(
                    q_zero(),
                    wets@[k]@,
                ),
                pays_rev@.len() == j,
                acc.wf(),
                q_le(q_zero(), acc@),
                j == 0 ==> acc == self.payload_mass,
                j > 0 ==> Some(acc) == m_pay(self.stages@, self.payload_mass, n - j),
                forall|t: int| 0 <= t < j ==> Some(#[trigger] pays_rev@[t]) == m_pay(
                    self.stages@,
                    self.payload_mass,
                    n - 1 - t,
                ),
                forall|t: int| 0 <= t < j ==> (#[trigger] pays_rev@[t]).wf() && q_le(
                    q_zero(),
                    pays_rev@[t]@,
                ),
            decreases n - j,
        {
            if j > 0 {
                let w = wets[n - j];
                let next_acc = acc.checked_add(&w);
                match next_acc {
                    Some(v) => {
                        proof {
                            assert(Some(acc) == m_pay(
                                self.stages@,
                                self.payload_mass,
                                n - j,
                            ));
                            assert(Some(v) == m_pay(
                                self.stages@,
                                self.payload_mass,
                                n - j - 1,
                            ));
                            assert(q_le(q_zero(), v@)) by (nonlinear_arith)
                                requires
                                    v@.n * q_add(acc@, w@).d == q_add(acc@, w@).n * v@.d,
                                    0 * acc@.d <= acc@.n * 1,
                                    0 * w@.d <= w@.n * 1,
                                    acc@.d > 0,
                                    w@.d > 0,
                                    v@.d > 0,
                                    q_add(acc@, w@).n == acc@.n * w@.d + w@.n * acc@.d,
                                    q_add(acc@, w@).d == acc@.d * w@.d,
                            {}
                        }
                        acc = v;
                    },
                    None => {
                        proof {
                            assert(m_pay(self.stages@, self.payload_mass, n - j - 1) is None);
                            lemma_m_pay_none_down(
                                self.stages@,
                                self.payload_mass,
                                n - j - 1,
                                0,
                            );
                            assert(flight_prefix(self.stages@, self.payload_mass, 1) is None);
                            lemma_flight_prefix_none(
                                self.stages@,
                                self.payload_mass,
                                1,
                                n as int,
                            );
                        }
                        return Err(Error::Overflow);
                    },
                }
            }
            pays_rev.push(acc);
            j = j + 1;
        }
        let mut result: Vec<Stage> = Vec::new();
        let mut k: usize = 0;
        while k < n
            invariant
                0 <= k <= n,
                n == self.stages@.len(),
                rocket_wf(*self),
                pays_rev@.len() == n,
                m_wets_ok(self.stages@, n as int),
                forall|t: int| 0 <= t < n ==> Some(#[trigger] pays_rev@[t]) == m_pay(
                    self.stages@,
                    self.payload_mass,
                    n - 1 - t,
                ),
                forall|t: int| 0 <= t < n ==> (#[trigger] pays_rev@[t]).wf() && q_le(
                    q_zero(),
                    pays_rev@[t]@,
                ),
                flight_prefix(self.stages@, self.payload_mass, k as int) == Some(
                    models_of(result@),
                ),
                flight_sigs_prefix(self.stages@, self.payload_mass, k as int) == sigs_of(
                    result@,
                ),
                result@.len() == expansion_len(self.stages@, k as int),
                forall|t: int| 0 <= t < result@.len() ==> stage_wf(#[trigger] result@[t]),
            decreases n - k,
        {
            let p = pays_rev[n - 1 - k];
            proof {
                assert(Some(p) == m_pay(self.stages@, self.payload_mass, k as int));
                assert(stage_wf(self.stages@[k as int]));
            }
            let s = self.stages[k].dup();
            let e0 = Stage::WithPayload(StageWithPayload { stage: Box::new(s), payload_mass: p });
            let ghost pre_models = models_of(result@);
            let ghost pre_sigs = sigs_of(result@);
            let nxt = e0.next_stage();
            match nxt {
                Err(_) => {
                    proof {
                        assert(!m_next_ok(e0));
                        assert(!m_next_ok(self.stages@[k as int]));
                        assert(chain_models(self.stages@[k as int], p) is None);
                        assert(flight_prefix(
                            self.stages@,
                            self.payload_mass,
                            k as int + 1,
                        ) is None);
                        lemma_flight_prefix_none(
                            self.stages@,
                            self.payload_mass,
                            k as int + 1,
                            n as int,
                        );
                    }
                    return Err(Error::Overflow);
                },
                Ok(opt) => {
                    proof {
                        lemma_next_model_terminal(self.stages@[k as int]);
                    }
                    result.push(e0);
                    match opt {
                        Some(nx) => {
                            result.push(nx);
                        },
                        None => {},
                    }
                    proof {
                        let ch = chain_models(self.stages@[k as int], p)->Some_0;
                        assert(models_of(result@) =~= pre_models + ch);
                        assert(flight_prefix(self.stages@, self.payload_mass, k as int + 1)
                            == Some(models_of(result@)));
                        let chs = chain_sigs(self.stages@[k as int], p);
                        assert(entry_sig(e0) == chs[0]);
                        assert(sigs_of(result@) =~= pre_sigs + chs);
                        assert(flight_sigs_prefix(
                            self.stages@,
                            self.payload_mass,
                            k as int + 1,
                        ) == sigs_of(result@));
                    }
                },
            }
            k = k + 1;
        }
        proof {
            lemma_flight_prefix_len(self.stages@, self.payload_mass, n as int);
        }
        Ok(result)
    }

    /// The largest peak acceleration over the flight sequence, in
    /// gravities; zero for an empty rocket.  `Err` exactly when the flight
    /// sequence or one of its exact accelerations does not fit.
    pub fn max_g_force(&self) -> (r: Result<Rat, Error>)
        requires
            rocket_wf(*self),
        ensures
            r is Ok <==> m_rocket_max_g(self.stages@, self.payload_mass) is Some,
            r matches Ok(g) ==> g == m_rocket_max_g(self.stages@, self.payload_mass)->Some_0,
            r matches Err(e) ==> e == Error::Overflow,
            r matches Ok(g) ==> {
                &&& g.wf()
                &&& q_le(q_zero(), g@)
                &&& flight_models(self.stages@, self.payload_mass) matches Some(ms) && q_eq(
                    g@,
                    q_max_fold(ms.map_values(|m: StageModel| q_max_g(m))),
                )
            },
            self.stages@.len() == 0 ==> (r matches Ok(g) && q_eq(g@, q_zero())),
    {
        let entries = match self.stages() {
            Ok(v) => v,
            Err(e) => {
                return Err(e);
            },
        };
        let ghost ms = flight_models(self.stages@, self.payload_mass)->Some_0;
        let ghost sigs = flight_sigs(self.stages@, self.payload_mass);
        let mut gs: Vec<Rat> = Vec::new();
        let mut i: usize = 0;
        while i < entries.len()
            invariant
                0 <= i <= entries@.len(),
                models_of(entries@) == ms,
                sigs_of(entries@) == sigs,
                flight_models(self.stages@, self.payload_mass) == Some(ms),
                sigs == flight_sigs(self.stages@, self.payload_mass),
                ms.len() == entries@.len(),
                sigs.len() == entries@.len(),
                forall|t: int| 0 <= t < entries@.len() ==> stage_wf(#[trigger] entries@[t]),
                gs@.len() == i,
                m_gs_prefix(sigs, i as int) == Some(gs@),
                forall|t: int| 0 <= t < i ==> (#[trigger] gs@[t]).wf() && q_eq(
                    gs@[t]@,
                    q_max_g(ms[t]),
                ),
            decreases entries@.len() - i,
        {
            proof {
                assert(stage_wf(entries@[i as int]));
                assert(stage_model(entries@[i as int]) == ms[i as int]);
                assert(entry_sig(entries@[i as int]) == sigs[i as int]);
                assert(m_max_g(entries@[i as int]) == m_sig_max_g(sigs[i as int]));
            }
            let g = entries[i].max_g_force();
            match g {
                Some(v) => {
                    gs.push(v);
                },
                None => {
                    proof {
                        assert(m_gs_prefix(sigs, i + 1) is None);
                        lemma_m_gs_none(sigs, i + 1, sigs.len() as int);
                    }
                    return Err(Error::Overflow);
                },
            }
            i = i + 1;
        }
        let r = max_rats(&gs);
        proof {
            let gfr = fracs_of(gs@);
            let mfr = ms.map_values(|m: StageModel| q_max_g(m));
            assert forall|t: int| 0 <= t < gfr.len() implies q_wf(#[trigger] gfr[t]) && q_wf(
                mfr[t],
            ) && q_eq(gfr[t], mfr[t]) by {
                assert(gfr[t] == gs@[t]@);
                assert(mfr[t] == q_max_g(ms[t]));
                assert(stage_wf(entries@[t]) && stage_model(entries@[t]) == ms[t]);
                lemma_s_dry_pos(entries@[t]);
                lemma_q_t1000_sum_wf(s_engines(ms[t]), entries@[t]);
                crate::engines::lemma_pos_mul(q_t1000_sum(s_engines(ms[t])).d, s_dry(ms[t]).n);
                crate::engines::lemma_pos_mul(
                    crate::rat::q_div(q_t1000_sum(s_engines(ms[t])), s_dry(ms[t])).d,
                    491,
                );
            }
            lemma_q_max_fold_cong(gfr, mfr);
            lemma_q_max_fold_bounds(gfr);
            assert(m_gs_prefix(sigs, sigs.len() as int) == Some(gs@));
            assert(m_rocket_max_g(self.stages@, self.payload_mass) == Some(x_max(gs@)));
        }
        Ok(r)
    }

    /// This rocket with one more stage stacked on top; the payload mass
    /// resets to zero, as the new top stage now carries what comes above.
    pub fn with_payload(self, payload: Stage) -> (r: Rocket)
        ensures
            r.stages@ == self.stages@.push(payload),
            r.payload_mass.wf(),
            r.payload_mass@ == q_zero(),
    {
        let mut stages = self.stages;
        stages.push(payload);
        Rocket { stages, payload_mass: Rat::zero() }
    }

    /// This rocket with the final payload mass replaced.
    pub fn with_payload_mass(self, payload_mass: Rat) -> (r: Rocket)
        ensures
            r.stages@ == self.stages@,
            r.payload_mass == payload_mass,
    {
        Rocket { stages: self.stages, payload_mass }
    }
}

/// Every entry of a flight expansion is a payload decorator.
pub proof fn lemma_flight_entries_decorated(stages: Seq<Stage>, pm: Rat, k: int)
    requires
        0 <= k <= stages.len(),
    ensures
        flight_prefix(stages, pm, k) matches Some(v) ==> forall|t: int|
            0 <= t < v.len() ==> (#[trigger] v[t]) is WithPayload,
    decreases k,
{
    if k > 0 {
        lemma_flight_entries_decorated(stages, pm, k - 1);
        if flight_prefix(stages, pm, k) is Some {
            let acc = flight_prefix(stages, pm, k - 1)->Some_0;
            let v = flight_prefix(stages, pm, k)->Some_0;
            let p = m_pay(stages, pm, k - 1)->Some_0;
            let ch = chain_models(stages[k - 1], p)->Some_0;
            assert forall|t: int| 0 <= t < v.len() implies (#[trigger] v[t])
                is WithPayload by {
                if t < acc.len() {
                    assert(v[t] == acc[t]);
                } else {
                    assert(v[t] == ch[t - acc.len()]);
                }
            }
        }
    }
}

// ---------------------------------------------------------------------------
// Payload-capacity search.
// ---------------------------------------------------------------------------

/// The stepped search schedule for payload capacity: +10 below 50, +50
/// below 500, +100 beyond.
pub open spec fn sched_next(p: int) -> int {
    if p < 50 {
        p + 10
    } else if p < 500 {
        p + 50
    } else {
        p + 100
    }
}

/// The search outcome after at most `fuel` probes, driven by a predicate
/// `f` that says whether the rocket still beats the delta-v target at a
/// given payload: while `f` holds, remember the probe and advance the
/// schedule; at the first failure, return the last passing probe.
pub open spec fn search_from(f: spec_fn(int) -> bool, probe: int, best: int, fuel: nat) -> Option<
    int,
>
    decreases fuel,
{
    if fuel == 0 {
        None
    } else if !f(probe) {
        Some(best)
    } else {
        search_from(f, sched_next(probe), probe, (fuel - 1) as nat)
    }
}

/// What a finished search from a consistent state guarantees.
pub proof fn lemma_search_from(f: spec_fn(int) -> bool, probe: int, best: int, fuel: nat)
    ensures
        search_from(f, probe, best, fuel) matches Some(r) ==> (r == best && !f(probe)) || (f(r)
            && !f(sched_next(r))),
    decreases fuel,
{
    if fuel > 0 && f(probe) {
        lemma_search_from(f, sched_next(probe), probe, (fuel - 1) as nat);
    }
}

/// The payload a finished search returns either still beats the target
/// while the next scheduled payload does not, or is zero because already
/// the empty payload misses the target.
pub proof fn lemma_payload_search_correct(f: spec_fn(int) -> bool, fuel: nat)
    ensures
        search_from(f, 0, 0, fuel) matches Some(r) ==> (f(r) && !f(sched_next(r))) || (r == 0
            && !f(0)),
{
    lemma_search_from(f, 0, 0, fuel);
}

/// One run of the payload-capacity search, stepped from outside: the
/// caller evaluates, for each probe, whether the rocket's total delta-v
/// still beats the target, and feeds the answer back.
#[derive(Debug)]
pub struct PayloadSearch {
    pub probe: u64,
    pub best: u64,
}

impl PayloadSearch {
    /// A fresh search: first probe zero, best payload so far zero.
    pub fn new() -> (s: PayloadSearch)
        ensures
            s.probe == 0,
            s.best == 0,
    {
        PayloadSearch { probe: 0, best: 0 }
    }

    /// Advance by one probe.  `above_target` reports whether the rocket
    /// beats the target with `probe` as its payload mass: if so the search
    /// remembers the probe and moves to the next scheduled payload;
    /// otherwise it finishes and returns the best payload found.
    pub fn step(&mut self, above_target: bool) -> (r: Option<u64>)
        requires
            old(self).probe <= u64::MAX - 100,
        ensures
            above_target ==> r is None && final(self).best == old(self).probe
                && final(self).probe == sched_next(old(self).probe as int),
            !above_target ==> r == Some(old(self).best) && *final(self) == *old(self),
    {
        if above_target {
            self.best = self.probe;
            if self.probe < 50 {
                self.probe = self.probe + 10;
            } else if self.probe < 500 {
                self.probe = self.probe + 50;
            } else {
                self.probe = self.probe + 100;
            }
            None
        } else {
            Some(self.best)
        }
    }
}

} // verus!
