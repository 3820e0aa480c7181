//! The particle capability interface, the two criteria families, and the
//! event analyzer engine.
use vstd::prelude::*;

use crate::fmt::decoder::EposDict;
use crate::numeric::{
    ascii_chars, ascii_string, fmt_fp, fp_ok, spec_fmt_fp, contains_i64, FP_LIM, FP_SCALE,
};
use super::fncs::{
    spec_energy_from, spec_momentum_mag, spec_pseudorapidity, spec_theta, pseudorapidity, theta,
};

verus! {

/// Bound on the magnitude of any scalar criterion value, so per-event
/// sums cannot overflow.
pub const VAL_LIM: i128 = 4_000_000_000_000_000_000;

/// The electric-charge magnitude threshold of the pseudorapidity count
/// criterion (0.1 in fixed point): a deliberate, fixed constant.
pub const CHARGE_EPS: i128 = 100_000_000;

/// A fatal analysis failure: a particle code that neither directly nor
/// negated resolves in the dictionary, so its charges cannot be read.
#[derive(Debug, Clone, PartialEq, Eq, Structural)]
pub enum AnalysisError {
    UnresolvedCode,
}

/// Capability interface of every format's particle type: momentum,
/// energies, and the three physics charges through the dictionary.
/// A charge of `None` reports an unresolvable particle code.
pub trait Particle: Sized {
    /// Field bounds under which all kinematic formulas are exact.
    spec fn wf(&self) -> bool;

    spec fn spec_code(&self) -> i64;

    spec fn spec_momentum(&self) -> (i128, i128, i128);

    spec fn spec_is_final(&self, dec: &EposDict) -> bool;

    spec fn spec_mass_energy(&self, dec: &EposDict) -> Option<i128>;

    spec fn spec_e_charge(&self, dec: &EposDict) -> Option<i128>;

    spec fn spec_b_charge(&self, dec: &EposDict) -> Option<i128>;

    spec fn spec_l_charge(&self, dec: &EposDict) -> i128;

    fn code(&self, dec: &EposDict) -> (r: i64)
        ensures
            r == self.spec_code(),
    ;

    fn momentum(&self, dec: &EposDict) -> (r: (i128, i128, i128))
        requires
            self.wf(),
        ensures
            r == self.spec_momentum(),
            fp_ok(r.0) && fp_ok(r.1) && fp_ok(r.2),
    ;

    fn momentum_energy(&self, dec: &EposDict) -> (r: i128)
        requires
            self.wf(),
        ensures
            r == spec_momentum_mag(
                self.spec_momentum().0 as int,
                self.spec_momentum().1 as int,
                self.spec_momentum().2 as int,
            ),
            0 <= r <= 2_000_000_000_000_000_000,
    ;

    fn mass_energy(&self, dec: &EposDict) -> (r: Option<i128>)
        requires
            self.wf(),
            dec.charges_bounded(),
        ensures
            r == self.spec_mass_energy(dec),
            r is Some ==> -FP_LIM <= r->0 <= FP_LIM,
    ;

    fn energy(&self, dec: &EposDict) -> (r: Option<i128>)
        requires
            self.wf(),
            dec.charges_bounded(),
        ensures
            r is Some <==> self.spec_mass_energy(dec) is Some,
            r is Some ==> r->0 as int == spec_energy_from(
                self.spec_mass_energy(dec)->0 as int,
                spec_momentum_mag(
                    self.spec_momentum().0 as int,
                    self.spec_momentum().1 as int,
                    self.spec_momentum().2 as int,
                ),
            ),
            r is Some ==> 0 <= r->0 <= 3_000_000_000_000_000_000,
            r is Some ==> r->0 >= spec_momentum_mag(
                self.spec_momentum().0 as int,
                self.spec_momentum().1 as int,
                self.spec_momentum().2 as int,
            ),
    ;

    /// Returns Electric charge
    fn e_charge(&self, dec: &EposDict) -> (r: Option<i128>)
        requires
            self.wf(),
            dec.charges_bounded(),
        ensures
            r == self.spec_e_charge(dec),
            r is Some ==> -FP_LIM <= r->0 <= FP_LIM,
    ;

    /// Returns Baryon charge
    fn b_charge(&self, dec: &EposDict) -> (r: Option<i128>)
        requires
            self.wf(),
            dec.charges_bounded(),
        ensures
            r == self.spec_b_charge(dec),
            r is Some ==> -FP_LIM <= r->0 <= FP_LIM,
    ;

    /// Returns Lepton charge
    fn l_charge(&self, dec: &EposDict) -> (r: i128)
        requires
            self.wf(),
        ensures
            r == self.spec_l_charge(dec),
            -FP_LIM <= r <= FP_LIM,
    ;

    fn is_final(&self, dec: &EposDict) -> (r: bool)
        ensures
            r == self.spec_is_final(dec),
    ;
}

/// Total energy of a particle: `sqrt(mass^2 + |p|^2)` over the mass the
/// format or dictionary supplies; `None` when the code is unresolvable.
pub open spec fn spec_energy<P: Particle>(p: &P, dec: &EposDict) -> Option<i128> {
    match p.spec_mass_energy(dec) {
        Some(m) => Some(
            spec_energy_from(
                m as int,
                spec_momentum_mag(
                    p.spec_momentum().0 as int,
                    p.spec_momentum().1 as int,
                    p.spec_momentum().2 as int,
                ),
            ) as i128,
        ),
        None => None,
    }
}

/// An event: a block holding particles.
pub trait HEPEvent: Sized {
    type P: Particle;

    spec fn spec_particles(&self) -> Seq<Self::P>;

    fn particles(&self) -> (r: &Vec<Self::P>)
        ensures
            r@ == self.spec_particles(),
    ;
}

/// A pure particle predicate applied before any criterion.
pub trait EventFilter<P: Particle> {
    spec fn spec_accept(&self, p: &P, dec: &EposDict) -> bool;

    fn accept(&self, p: &P, dec: &EposDict) -> (r: bool)
        requires
            p.wf(),
        ensures
            r == self.spec_accept(p, dec),
    ;
}

/// The canonical filter: keep final-state particles.
pub struct FinalStateFilter;

impl<P: Particle> EventFilter<P> for FinalStateFilter {
    open spec fn spec_accept(&self, p: &P, dec: &EposDict) -> bool {
        p.spec_is_final(dec)
    }

    fn accept(&self, p: &P, dec: &EposDict) -> bool {
        p.is_final(dec)
    }
}

/// The final-state predicate as a plain function.
pub fn IS_FINAL_FILTER<P: Particle>(x: &P, dec: &EposDict) -> (r: bool)
    ensures
        r == x.spec_is_final(dec),
{
    x.is_final(dec)
}

/// A scalar accumulator over particles: computed per filtered particle
/// and summed per event. A value of `None` is an unresolvable code.
pub trait ScalarCriteria<P: Particle> {
    spec fn spec_value(&self, p: &P, dec: &EposDict) -> Option<i128>;

    spec fn spec_name(&self) -> Seq<char>;

    fn get_criteria_value(&self, p: &P, dec: &EposDict) -> (r: Result<i128, AnalysisError>)
        requires
            p.wf(),
            dec.charges_bounded(),
        ensures
            match r {
                Ok(v) => self.spec_value(p, dec) == Some(v) && -VAL_LIM <= v <= VAL_LIM,
                Err(_) => self.spec_value(p, dec) is None,
            },
    ;

    fn name(&self) -> (r: String)
        ensures
            r@ == self.spec_name(),
    ;
}

/// The standard scalar criteria.
#[derive(Debug, PartialEq, Clone)]
pub enum StandardCriteria {
    FinEnergy,
    ECharge,
    BCharge,
    LCharge,
    FinCnt,
    FinChargedCnt,
    PseudorapidityFilterCnt(i128, i128),
}

/// Value of a standard criterion on one particle.
pub open spec fn spec_std_value<P: Particle>(
    c: StandardCriteria,
    p: &P,
    dec: &EposDict,
) -> Option<i128> {
    match c {
        StandardCriteria::FinEnergy => spec_energy(p, dec),
        StandardCriteria::ECharge => p.spec_e_charge(dec),
        StandardCriteria::BCharge => p.spec_b_charge(dec),
        StandardCriteria::LCharge => Some(p.spec_l_charge(dec)),
        StandardCriteria::FinCnt => Some(
            if p.spec_is_final(dec) {
                FP_SCALE
            } else {
                0
            },
        ),
        StandardCriteria::FinChargedCnt => match p.spec_e_charge(dec) {
            None => None,
            Some(q) => Some(
                if p.spec_is_final(dec) && q != 0 {
                    FP_SCALE
                } else {
                    0
                },
            ),
        },
        StandardCriteria::PseudorapidityFilterCnt(mn, mx) => match p.spec_e_charge(dec) {
            None => None,
            Some(q) => {
                let eta = spec_pseudorapidity(
                    p.spec_momentum().0 as int,
                    p.spec_momentum().1 as int,
                    p.spec_momentum().2 as int,
                );
                Some(
                    if (q > CHARGE_EPS || q < -CHARGE_EPS) && mn <= eta && eta <= mx {
                        FP_SCALE
                    } else {
                        0
                    },
                )
            },
        },
    }
}

/// A fixed-point value, clamped away from the unrepresentable minimum so
/// it can be formatted.
pub open spec fn spec_fmt_clamped(v: i128) -> Seq<char> {
    ascii_chars(
        spec_fmt_fp(
            if v == i128::MIN {
                -(i128::MAX as int)
            } else {
                v as int
            },
        ),
    )
}

/// Display name of a standard criterion.
pub open spec fn spec_std_name(c: StandardCriteria) -> Seq<char> {
    match c {
        StandardCriteria::FinEnergy => "FinEnergy"@,
        StandardCriteria::ECharge => "ECharge"@,
        StandardCriteria::BCharge => "BCharge"@,
        StandardCriteria::LCharge => "LCharge"@,
        StandardCriteria::FinCnt => "FinCnt"@,
        StandardCriteria::FinChargedCnt => "FinChargedCnt"@,
        StandardCriteria::PseudorapidityFilterCnt(mn, mx) => "PseudorapidityFilterCnt("@
            + spec_fmt_clamped(mn) + ", "@ + spec_fmt_clamped(mx) + ")"@,
    }
}

impl<P: Particle> ScalarCriteria<P> for StandardCriteria {
    open spec fn spec_value(&self, p: &P, dec: &EposDict) -> Option<i128> {
        spec_std_value(*self, p, dec)
    }

    open spec fn spec_name(&self) -> Seq<char> {
        spec_std_name(*self)
    }

    fn get_criteria_value(&self, p: &P, dec: &EposDict) -> (r: Result<i128, AnalysisError>) {
        match self {
            StandardCriteria::FinEnergy => {
                match p.energy(dec) {
                    Some(e) => Ok(e),
                    None => Err(AnalysisError::UnresolvedCode),
                }
            },
            StandardCriteria::ECharge => {
                match p.e_charge(dec) {
                    Some(q) => Ok(q),
                    None => Err(AnalysisError::UnresolvedCode),
                }
            },
            StandardCriteria::BCharge => {
                match p.b_charge(dec) {
                    Some(q) => Ok(q),
                    None => Err(AnalysisError::UnresolvedCode),
                }
            },
            StandardCriteria::LCharge => Ok(p.l_charge(dec)),
            StandardCriteria::FinCnt => {
                if p.is_final(dec) {
                    Ok(1_000_000_000)
                } else {
                    Ok(0)
                }
            },
            StandardCriteria::FinChargedCnt => {
                match p.e_charge(dec) {
                    None => Err(AnalysisError::UnresolvedCode),
                    Some(q) => {
                        if p.is_final(dec) && q != 0 {
                            Ok(1_000_000_000)
                        } else {
                            Ok(0)
                        }
                    },
                }
            },
            StandardCriteria::PseudorapidityFilterCnt(mn, mx) => {
                match p.e_charge(dec) {
                    None => Err(AnalysisError::UnresolvedCode),
                    Some(q) => {
                        let m = p.momentum(dec);
                        let pseudo = pseudorapidity(&m);
                        if (q > CHARGE_EPS || q < -CHARGE_EPS) && *mn <= pseudo && pseudo <= *mx {
                            Ok(1_000_000_000)
                        } else {
                            Ok(0)
                        }
                    },
                }
            },
        }
    }

    fn name(&self) -> (r: String) {
        match self {
            StandardCriteria::FinEnergy => fixed_name("FinEnergy"),
            StandardCriteria::ECharge => fixed_name("ECharge"),
            StandardCriteria::BCharge => fixed_name("BCharge"),
            StandardCriteria::LCharge => fixed_name("LCharge"),
            StandardCriteria::FinCnt => fixed_name("FinCnt"),
            StandardCriteria::FinChargedCnt => fixed_name("FinChargedCnt"),
            StandardCriteria::PseudorapidityFilterCnt(mn, mx) => {
                let mut s = String::new();
                s.append("PseudorapidityFilterCnt(");
                let a = fmt_clamped(*mn);
                s.append(a.as_str());
                s.append(", ");
                let b = fmt_clamped(*mx);
                s.append(b.as_str());
                s.append(")");
                proof {
                    assert(s@ =~= spec_std_name(StandardCriteria::PseudorapidityFilterCnt(
                        *mn,
                        *mx,
                    )));
                }
                s
            },
        }
    }
}

fn fixed_name(s: &str) -> (r: String)
    ensures
        r@ == s@,
{
    let mut r = String::new();
    r.append(s);
    r
}

fn fmt_clamped(v: i128) -> (r: String)
    ensures
        r@ == spec_fmt_clamped(v),
{
    let w: i128 = if v == i128::MIN {
        -i128::MAX
    } else {
        v
    };
    let bytes = fmt_fp(w);
    proof {
        crate::numeric::lemma_fmt_fp_ascii(w as int);
    }
    ascii_string(&bytes)
}

/// If `p` is not charged beyond the fixed threshold, the pseudorapidity
/// count criterion gives it no weight, whatever window it carries and
/// wherever its pseudorapidity lies.
pub proof fn lemma_pseudorapidity_cnt_needs_charge<P: Particle>(
    mn: i128,
    mx: i128,
    p: &P,
    dec: &EposDict,
    q: i128,
)
    requires
        p.spec_e_charge(dec) == Some(q),
        -CHARGE_EPS <= q <= CHARGE_EPS,
    ensures
        spec_std_value(StandardCriteria::PseudorapidityFilterCnt(mn, mx), p, dec) == Some(0i128),
{
}

/// All particles of all events are within their format's bounds.
pub open spec fn events_wf<E: HEPEvent>(evs: Seq<E>) -> bool {
    forall|i: int, j: int|
        0 <= i < evs.len() && 0 <= j < evs[i].spec_particles().len()
            ==> (#[trigger] evs[i].spec_particles()[j]).wf()
}

/// Per-event sum of a scalar criterion over the particles that pass the
/// filter; `None` as soon as any such particle's value is undefined.
pub open spec fn scalar_sum<P: Particle, C: ScalarCriteria<P>, F: EventFilter<P>>(
    ps: Seq<P>,
    c: C,
    f: F,
    dec: &EposDict,
) -> Option<int>
    decreases ps.len(),
{
    if ps.len() == 0 {
        Some(0int)
    } else {
        match scalar_sum(ps.drop_last(), c, f, dec) {
            None => None,
            Some(acc) => {
                let p = ps.last();
                if f.spec_accept(&p, dec) {
                    match c.spec_value(&p, dec) {
                        None => None,
                        Some(v) => Some(acc + v),
                    }
                } else {
                    Some(acc)
                }
            },
        }
    }
}

/// Every (event, criterion) sum is defined: no filtered particle has an
/// unresolvable code under any criterion.
pub open spec fn scalar_all_ok<
    E: HEPEvent,
    C: ScalarCriteria<E::P>,
    F: EventFilter<E::P>,
>(evs: Seq<E>, crits: Seq<C>, f: F, dec: &EposDict) -> bool {
    forall|i: int, j: int|
        0 <= i < evs.len() && 0 <= j < crits.len() ==> #[trigger] scalar_sum(
            evs[i].spec_particles(),
            crits[j],
            f,
            dec,
        ) is Some
}

proof fn lemma_scalar_sum_prefix_none<P: Particle, C: ScalarCriteria<P>, F: EventFilter<P>>(
    ps: Seq<P>,
    k: int,
    c: C,
    f: F,
    dec: &EposDict,
)
    requires
        0 <= k <= ps.len(),
        scalar_sum(ps.take(k), c, f, dec) is None,
    ensures
        scalar_sum(ps, c, f, dec) is None,
    decreases ps.len() - k,
{
    if k < ps.len() {
        assert(ps.take(k + 1).drop_last() =~= ps.take(k));
        assert(ps.take(k + 1).last() == ps[k]);
        lemma_scalar_sum_prefix_none(ps, k + 1, c, f, dec);
    } else {
        assert(ps.take(k) =~= ps);
    }
}

/// Scalar results: the criteria display names, and one row of sums per
/// event, in event order.
#[derive(Debug, Clone, Default)]
pub struct ScalarAnalyzerResults(Vec<String>, Vec<Vec<i128>>);

impl ScalarAnalyzerResults {
    pub closed spec fn spec_headers(&self) -> Seq<String> {
        self.0@
    }

    pub closed spec fn spec_values(&self) -> Seq<Vec<i128>> {
        self.1@
    }

    pub fn headers(&self) -> (r: &Vec<String>)
        ensures
            r@ == self.spec_headers(),
    {
        &self.0
    }

    pub fn values(&self) -> (r: &Vec<Vec<i128>>)
        ensures
            r@ == self.spec_values(),
    {
        &self.1
    }
}

/// Folds all criteria over the filtered particles of one event,
/// producing the row of per-criterion sums.
#[verifier::rlimit(100)]
fn accumulate_event<P: Particle, C: ScalarCriteria<P>, F: EventFilter<P>>(
    ps: &Vec<P>,
    filter: &F,
    criteria: &Vec<C>,
    dec: &EposDict,
) -> (r: Result<Vec<i128>, AnalysisError>)
    requires
        forall|k: int| 0 <= k < ps@.len() ==> (#[trigger] ps@[k]).wf(),
        dec.charges_bounded(),
    ensures
        match r {
            Ok(row) => row@.len() == criteria@.len() && (forall|j: int|
                0 <= j < criteria@.len() ==> #[trigger] scalar_sum(ps@, criteria@[j], *filter, dec)
                    is Some && row@[j] as int == scalar_sum(ps@, criteria@[j], *filter, dec)->0),
            Err(_) => exists|j: int|
                0 <= j < criteria@.len() && #[trigger] scalar_sum(ps@, criteria@[j], *filter, dec)
                    is None,
        },
{
    let m = criteria.len();
    let mut acc: Vec<i128> = Vec::new();
    let mut j: usize = 0;
    while j < m
        invariant
            0 <= j <= m,
            acc@.len() == j,
            forall|t: int| 0 <= t < j ==> acc@[t] == 0i128,
        decreases m - j,
    {
        acc.push(0);
        j = j + 1;
    }
    proof {
        assert(ps@.take(0) =~= Seq::<P>::empty());
    }
    let pn = ps.len();
    let mut k: usize = 0;
    while k < pn
        invariant
            0 <= k <= pn,
            pn == ps@.len(),
            m == criteria@.len(),
            acc@.len() == m,
            forall|k2: int| 0 <= k2 < ps@.len() ==> (#[trigger] ps@[k2]).wf(),
            dec.charges_bounded(),
            forall|t: int|
                0 <= t < m ==> #[trigger] scalar_sum(ps@.take(k as int), criteria@[t], *filter, dec)
                    is Some,
            forall|t: int|
                0 <= t < m ==> #[trigger] acc@[t] as int == scalar_sum(
                    ps@.take(k as int),
                    criteria@[t],
                    *filter,
                    dec,
                )->0,
            forall|t: int|
                0 <= t < m ==> -(k as int) * VAL_LIM <= #[trigger] acc@[t] <= (k as int) * VAL_LIM,
        decreases pn - k,
    {
        let p = &ps[k];
        proof {
            assert(ps@.take(k + 1).drop_last() =~= ps@.take(k as int));
            assert(ps@.take(k + 1).last() == ps@[k as int]);
        }
        if filter.accept(p, dec) {
            let mut j3: usize = 0;
            while j3 < m
                invariant
                    0 <= j3 <= m,
                    0 <= k < pn,
                    pn == ps@.len(),
                    m == criteria@.len(),
                    acc@.len() == m,
                    dec.charges_bounded(),
                    *p == ps@[k as int],
                    ps@[k as int].wf(),
                    filter.spec_accept(&ps@[k as int], dec),
                    ps@.take(k + 1).drop_last() == ps@.take(k as int),
                    ps@.take(k + 1).last() == ps@[k as int],
                    forall|t: int|
                        j3 <= t < m ==> #[trigger] scalar_sum(
                            ps@.take(k as int),
                            criteria@[t],
                            *filter,
                            dec,
                        ) is Some,
                    forall|t: int|
                        j3 <= t < m ==> #[trigger] acc@[t] as int == scalar_sum(
                            ps@.take(k as int),
                            criteria@[t],
                            *filter,
                            dec,
                        )->0,
                    forall|t: int|
                        j3 <= t < m ==> -(k as int) * VAL_LIM <= #[trigger] acc@[t] <= (
                        k as int) * VAL_LIM,
                    forall|t: int|
                        0 <= t < j3 ==> #[trigger] scalar_sum(
                            ps@.take(k + 1),
                            criteria@[t],
                            *filter,
                            dec,
                        ) is Some,
                    forall|t: int|
                        0 <= t < j3 ==> #[trigger] acc@[t] as int == scalar_sum(
                            ps@.take(k + 1),
                            criteria@[t],
                            *filter,
                            dec,
                        )->0,
                    forall|t: int|
                        0 <= t < j3 ==> -(k + 1) * VAL_LIM <= #[trigger] acc@[t] <= (k + 1)
                            * VAL_LIM,
                decreases m - j3,
            {
                match criteria[j3].get_criteria_value(p, dec) {
                    Err(e) => {
                        proof {
                            assert(scalar_sum(ps@.take(k + 1), criteria@[j3 as int], *filter, dec)
                                is None);
                            lemma_scalar_sum_prefix_none(
                                ps@,
                                k + 1,
                                criteria@[j3 as int],
                                *filter,
                                dec,
                            );
                        }
                        return Err(e);
                    },
                    Ok(v) => {
                        let cur = acc[j3];
                        acc[j3] = cur + v;
                    },
                }
                j3 = j3 + 1;
            }
        } else {
            proof {
                assert forall|t: int| 0 <= t < m implies #[trigger] scalar_sum(
                    ps@.take(k + 1),
                    criteria@[t],
                    *filter,
                    dec,
                ) == scalar_sum(ps@.take(k as int), criteria@[t], *filter, dec) by {
                    assert(!filter.spec_accept(&ps@.take(k + 1).last(), dec));
                }
            }
        }
        k = k + 1;
    }
    proof {
        assert(ps@.take(pn as int) =~= ps@);
    }
    Ok(acc)
}

/// The analyzer engine: an immutable borrow of a slice of events, folded
/// per event through filters and criteria.
pub struct HEPEventAnalyzer<'a, Event: HEPEvent> {
    events: &'a [Event],
}

impl<'a, Event: HEPEvent> HEPEventAnalyzer<'a, Event> {
    pub closed spec fn spec_events(&self) -> Seq<Event> {
        self.events@
    }

    pub fn new(events: &'a [Event]) -> (r: Self)
        ensures
            r.spec_events() == events@,
    {
        Self { events }
    }

    /// `criteria` - scalar criteria to calculate, calculated **after**
    /// filter. One row of per-criterion sums per event, in event order,
    /// with each criterion's display name as the column header; fails
    /// exactly when some filtered particle's value is undefined under
    /// some criterion (an unresolvable code).
    pub fn calculate_criteria<C: ScalarCriteria<Event::P>, F: EventFilter<Event::P>>(
        &self,
        filter: &F,
        criteria: &Vec<C>,
        dec: &EposDict,
    ) -> (r: Result<ScalarAnalyzerResults, AnalysisError>)
        requires
            events_wf(self.spec_events()),
            dec.charges_bounded(),
        ensures
            match r {
                Ok(res) => scalar_all_ok(self.spec_events(), criteria@, *filter, dec)
                    && res.spec_headers().len() == criteria@.len() && (forall|j: int|
                    0 <= j < criteria@.len() ==> (#[trigger] res.spec_headers()[j])@ == criteria@[
                    j].spec_name()) && res.spec_values().len() == self.spec_events().len() && (
                forall|i: int|
                    0 <= i < self.spec_events().len() ==> (#[trigger] res.spec_values()[i])@.len()
                        == criteria@.len()) && (forall|i: int, j: int|
                    0 <= i < self.spec_events().len() && 0 <= j < criteria@.len()
                        ==> (#[trigger] res.spec_values()[i]@[j]) as int == scalar_sum(
                        self.spec_events()[i].spec_particles(),
                        criteria@[j],
                        *filter,
                        dec,
                    )->0),
                Err(_) => !scalar_all_ok(self.spec_events(), criteria@, *filter, dec),
            },
    {
        let ghost evs = self.events@;
        let m = criteria.len();
        let mut headers: Vec<String> = Vec::new();
        let mut j: usize = 0;
        while j < m
            invariant
                0 <= j <= m,
                m == criteria@.len(),
                headers@.len() == j,
                forall|t: int|
                    0 <= t < j ==> (#[trigger] headers@[t])@ == criteria@[t].spec_name(),
            decreases m - j,
        {
            let nm = criteria[j].name();
            headers.push(nm);
            j = j + 1;
        }
        let mut rows: Vec<Vec<i128>> = Vec::new();
        let n = self.events.len();
        let mut i: usize = 0;
        while i < n
            invariant
                0 <= i <= n,
                n == evs.len(),
                evs == self.spec_events(),
                m == criteria@.len(),
                events_wf(evs),
                dec.charges_bounded(),
                rows@.len() == i,
                forall|i2: int, t: int|
                    0 <= i2 < i && 0 <= t < m ==> #[trigger] scalar_sum(
                        evs[i2].spec_particles(),
                        criteria@[t],
                        *filter,
                        dec,
                    ) is Some,
                forall|i2: int|
                    0 <= i2 < i ==> (#[trigger] rows@[i2])@.len() == m,
                forall|i2: int, t: int|
                    0 <= i2 < i && 0 <= t < m ==> (#[trigger] rows@[i2]@[t]) as int == scalar_sum(
                        evs[i2].spec_particles(),
                        criteria@[t],
                        *filter,
                        dec,
                    )->0,
            decreases n - i,
        {
            let ev = &self.events[i];
            let ps = ev.particles();
            proof {
                assert(ev.spec_particles() == evs[i as int].spec_particles());
                assert forall|k2: int| 0 <= k2 < ps@.len() implies (#[trigger] ps@[k2]).wf() by {
                    assert(evs[i as int].spec_particles()[k2].wf());
                }
            }
            match accumulate_event(ps, filter, criteria, dec) {
                Err(e) => {
                    return Err(e);
                },
                Ok(row) => {
                    rows.push(row);
                },
            }
            i = i + 1;
        }
        Ok(ScalarAnalyzerResults(headers, rows))
    }
}

/// Distribution criteria trait:
/// used to calculate the distribution of an event characteristic, for
/// example the distribution of particle momentum angles per event.
pub trait DistributionCritetia<P: Particle> {
    spec fn spec_bins(&self) -> Seq<(i128, i128)>;

    spec fn spec_bin_index(&self, p: &P, dec: &EposDict) -> i64;

    spec fn spec_name(&self) -> Seq<char>;

    /// The fixed, precomputed bin-edge table.
    fn get_bins(&self) -> (r: &Vec<(i128, i128)>)
        ensures
            r@ == self.spec_bins(),
    ;

    /// Bin index for one particle; an index outside `[0, bins.len())`
    /// excludes the particle from this histogram.
    fn get_criteria_bin_index(&self, p: &P, dec: &EposDict) -> (r: i64)
        requires
            p.wf(),
        ensures
            r == self.spec_bin_index(p, dec),
    ;

    fn name(&self) -> (r: String)
        ensures
            r@ == self.spec_name(),
    ;
}

/// Number of filtered particles of one event whose bin index is `b`.
pub open spec fn ev_hist<P: Particle, D: DistributionCritetia<P>, F: EventFilter<P>>(
    ps: Seq<P>,
    c: D,
    f: F,
    dec: &EposDict,
    b: int,
) -> int
    decreases ps.len(),
{
    if ps.len() == 0 {
        0
    } else {
        ev_hist(ps.drop_last(), c, f, dec, b) + if f.spec_accept(&ps.last(), dec)
            && c.spec_bin_index(&ps.last(), dec) == b {
            1int
        } else {
            0int
        }
    }
}

/// Number of filtered particles of one event whose bin index is in
/// range.
pub open spec fn ev_total<P: Particle, D: DistributionCritetia<P>, F: EventFilter<P>>(
    ps: Seq<P>,
    c: D,
    f: F,
    dec: &EposDict,
) -> int
    decreases ps.len(),
{
    if ps.len() == 0 {
        0
    } else {
        ev_total(ps.drop_last(), c, f, dec) + if f.spec_accept(&ps.last(), dec) && 0
            <= c.spec_bin_index(&ps.last(), dec) < c.spec_bins().len() {
            1int
        } else {
            0int
        }
    }
}

/// Histogram count of bin `b` over a whole event collection.
pub open spec fn evs_hist<E: HEPEvent, D: DistributionCritetia<E::P>, F: EventFilter<E::P>>(
    evs: Seq<E>,
    c: D,
    f: F,
    dec: &EposDict,
    b: int,
) -> int
    decreases evs.len(),
{
    if evs.len() == 0 {
        0
    } else {
        evs_hist(evs.drop_last(), c, f, dec, b) + ev_hist(evs.last().spec_particles(), c, f, dec, b)
    }
}

/// Total in-range count over a whole event collection.
pub open spec fn evs_total<E: HEPEvent, D: DistributionCritetia<E::P>, F: EventFilter<E::P>>(
    evs: Seq<E>,
    c: D,
    f: F,
    dec: &EposDict,
) -> int
    decreases evs.len(),
{
    if evs.len() == 0 {
        0
    } else {
        evs_total(evs.drop_last(), c, f, dec) + ev_total(evs.last().spec_particles(), c, f, dec)
    }
}

/// Number of particles over a whole event collection.
pub open spec fn total_particles<E: HEPEvent>(evs: Seq<E>) -> int
    decreases evs.len(),
{
    if evs.len() == 0 {
        0
    } else {
        total_particles(evs.drop_last()) + evs.last().spec_particles().len()
    }
}

proof fn lemma_ev_hist_bounds<P: Particle, D: DistributionCritetia<P>, F: EventFilter<P>>(
    ps: Seq<P>,
    c: D,
    f: F,
    dec: &EposDict,
    b: int,
)
    ensures
        0 <= ev_hist(ps, c, f, dec, b) <= ps.len(),
        0 <= ev_total(ps, c, f, dec) <= ps.len(),
    decreases ps.len(),
{
    if ps.len() > 0 {
        lemma_ev_hist_bounds(ps.drop_last(), c, f, dec, b);
    }
}

proof fn lemma_evs_hist_bounds<E: HEPEvent, D: DistributionCritetia<E::P>, F: EventFilter<E::P>>(
    evs: Seq<E>,
    c: D,
    f: F,
    dec: &EposDict,
    b: int,
)
    ensures
        0 <= evs_hist(evs, c, f, dec, b) <= total_particles(evs),
        0 <= evs_total(evs, c, f, dec) <= total_particles(evs),
    decreases evs.len(),
{
    if evs.len() > 0 {
        lemma_evs_hist_bounds(evs.drop_last(), c, f, dec, b);
        lemma_ev_hist_bounds(evs.last().spec_particles(), c, f, dec, b);
    }
}

proof fn lemma_total_particles_prefix<E: HEPEvent>(evs: Seq<E>, i: int)
    requires
        0 <= i <= evs.len(),
    ensures
        total_particles(evs.take(i)) <= total_particles(evs),
        total_particles(evs.take(i)) >= 0,
    decreases evs.len() - i,
{
    lemma_total_particles_nonneg(evs.take(i));
    if i < evs.len() {
        assert(evs.take(i + 1).drop_last() =~= evs.take(i));
        assert(evs.take(i + 1).last() == evs[i]);
        lemma_total_particles_prefix(evs, i + 1);
    } else {
        assert(evs.take(i) =~= evs);
    }
}

proof fn lemma_total_particles_nonneg<E: HEPEvent>(evs: Seq<E>)
    ensures
        total_particles(evs) >= 0,
    decreases evs.len(),
{
    if evs.len() > 0 {
        lemma_total_particles_nonneg(evs.drop_last());
    }
}

/// Histogram counts are additive under concatenation of event
/// collections: the per-partition partial histograms combine by
/// elementwise addition, so the reduction over partitions does not
/// depend on their order.
pub proof fn lemma_hist_concat<E: HEPEvent, D: DistributionCritetia<E::P>, F: EventFilter<E::P>>(
    a: Seq<E>,
    b: Seq<E>,
    c: D,
    f: F,
    dec: &EposDict,
    bin: int,
)
    ensures
        evs_hist(a + b, c, f, dec, bin) == evs_hist(a, c, f, dec, bin) + evs_hist(
            b,
            c,
            f,
            dec,
            bin,
        ),
        evs_total(a + b, c, f, dec) == evs_total(a, c, f, dec) + evs_total(b, c, f, dec),
    decreases b.len(),
{
    if b.len() == 0 {
        assert(a + b =~= a);
    } else {
        assert((a + b).drop_last() =~= a + b.drop_last());
        assert((a + b).last() == b.last());
        lemma_hist_concat(a, b.drop_last(), c, f, dec, bin);
    }
}

/// Sum of the first `nb` histogram bins.
pub open spec fn hist_sum<E: HEPEvent, D: DistributionCritetia<E::P>, F: EventFilter<E::P>>(
    evs: Seq<E>,
    c: D,
    f: F,
    dec: &EposDict,
    nb: int,
) -> int
    decreases nb,
{
    if nb <= 0 {
        0
    } else {
        hist_sum(evs, c, f, dec, nb - 1) + evs_hist(evs, c, f, dec, nb - 1)
    }
}

/// Sum of the first `nb` bins of a single event's histogram.
pub open spec fn ev_hist_sum<P: Particle, D: DistributionCritetia<P>, F: EventFilter<P>>(
    ps: Seq<P>,
    c: D,
    f: F,
    dec: &EposDict,
    nb: int,
) -> int
    decreases nb,
{
    if nb <= 0 {
        0
    } else {
        ev_hist_sum(ps, c, f, dec, nb - 1) + ev_hist(ps, c, f, dec, nb - 1)
    }
}

proof fn lemma_hist_sum_split<E: HEPEvent, D: DistributionCritetia<E::P>, F: EventFilter<E::P>>(
    evs: Seq<E>,
    c: D,
    f: F,
    dec: &EposDict,
    nb: int,
)
    requires
        evs.len() > 0,
    ensures
        hist_sum(evs, c, f, dec, nb) == hist_sum(evs.drop_last(), c, f, dec, nb) + ev_hist_sum(
            evs.last().spec_particles(),
            c,
            f,
            dec,
            nb,
        ),
    decreases nb,
{
    if nb > 0 {
        lemma_hist_sum_split(evs, c, f, dec, nb - 1);
    }
}

proof fn lemma_ev_hist_sum_step<P: Particle, D: DistributionCritetia<P>, F: EventFilter<P>>(
    ps: Seq<P>,
    c: D,
    f: F,
    dec: &EposDict,
    nb: int,
)
    requires
        ps.len() > 0,
    ensures
        ev_hist_sum(ps, c, f, dec, nb) == ev_hist_sum(ps.drop_last(), c, f, dec, nb) + (
        if f.spec_accept(&ps.last(), dec) && 0 <= c.spec_bin_index(&ps.last(), dec) < nb {
            1int
        } else {
            0int
        }),
    decreases nb,
{
    if nb > 0 {
        lemma_ev_hist_sum_step(ps, c, f, dec, nb - 1);
    }
}

proof fn lemma_ev_total_is_sum<P: Particle, D: DistributionCritetia<P>, F: EventFilter<P>>(
    ps: Seq<P>,
    c: D,
    f: F,
    dec: &EposDict,
)
    ensures
        ev_total(ps, c, f, dec) == ev_hist_sum(ps, c, f, dec, c.spec_bins().len() as int),
    decreases ps.len(),
{
    if ps.len() > 0 {
        lemma_ev_total_is_sum(ps.drop_last(), c, f, dec);
        lemma_ev_hist_sum_step(ps, c, f, dec, c.spec_bins().len() as int);
    } else {
        lemma_ev_hist_sum_empty(ps, c, f, dec, c.spec_bins().len() as int);
    }
}

proof fn lemma_ev_hist_sum_empty<P: Particle, D: DistributionCritetia<P>, F: EventFilter<P>>(
    ps: Seq<P>,
    c: D,
    f: F,
    dec: &EposDict,
    nb: int,
)
    requires
        ps.len() == 0,
    ensures
        ev_hist_sum(ps, c, f, dec, nb) == 0,
    decreases nb,
{
    if nb > 0 {
        lemma_ev_hist_sum_empty(ps, c, f, dec, nb - 1);
    }
}

/// The total matched-particle count of a distribution criterion equals
/// the sum of its bin counts, over any events, filter and dictionary.
pub proof fn lemma_distribution_total<
    E: HEPEvent,
    D: DistributionCritetia<E::P>,
    F: EventFilter<E::P>,
>(evs: Seq<E>, c: D, f: F, dec: &EposDict)
    ensures
        evs_total(evs, c, f, dec) == hist_sum(evs, c, f, dec, c.spec_bins().len() as int),
    decreases evs.len(),
{
    if evs.len() == 0 {
        lemma_hist_sum_empty::<E, D, F>(evs, c, f, dec, c.spec_bins().len() as int);
    } else {
        lemma_distribution_total(evs.drop_last(), c, f, dec);
        lemma_hist_sum_split(evs, c, f, dec, c.spec_bins().len() as int);
        lemma_ev_total_is_sum(evs.last().spec_particles(), c, f, dec);
    }
}

proof fn lemma_hist_sum_empty<E: HEPEvent, D: DistributionCritetia<E::P>, F: EventFilter<E::P>>(
    evs: Seq<E>,
    c: D,
    f: F,
    dec: &EposDict,
    nb: int,
)
    requires
        evs.len() == 0,
    ensures
        hist_sum(evs, c, f, dec, nb) == 0,
    decreases nb,
{
    if nb > 0 {
        lemma_hist_sum_empty(evs, c, f, dec, nb - 1);
    }
}

/// Sum of a sequence of counters.
pub open spec fn usizes_sum(s: Seq<usize>) -> int
    decreases s.len(),
{
    if s.len() == 0 {
        0
    } else {
        usizes_sum(s.drop_last()) + s.last()
    }
}

proof fn lemma_counts_sum<E: HEPEvent, D: DistributionCritetia<E::P>, F: EventFilter<E::P>>(
    counts: Seq<usize>,
    evs: Seq<E>,
    c: D,
    f: F,
    dec: &EposDict,
    nb: int,
)
    requires
        counts.len() == nb,
        forall|b: int| 0 <= b < nb ==> (#[trigger] counts[b]) as int == evs_hist(evs, c, f, dec, b),
    ensures
        usizes_sum(counts) == hist_sum(evs, c, f, dec, nb),
    decreases nb,
{
    if nb > 0 {
        assert(counts.drop_last() =~= counts.take(nb - 1));
        assert(forall|b: int|
            0 <= b < nb - 1 ==> (#[trigger] counts.drop_last()[b]) == counts[b]);
        lemma_counts_sum(counts.drop_last(), evs, c, f, dec, nb - 1);
        assert(counts.last() as int == evs_hist(evs, c, f, dec, nb - 1));
    }
}

/// Classifies the filtered particles of one event into the criterion's
/// bins, adding to running counters.
#[verifier::rlimit(100)]
fn accumulate_hist<P: Particle, D: DistributionCritetia<P>, F: EventFilter<P>>(
    ps: &Vec<P>,
    crit: &D,
    filter: &F,
    dec: &EposDict,
    counts: &mut Vec<usize>,
    total: &mut usize,
)
    requires
        forall|k: int| 0 <= k < ps@.len() ==> (#[trigger] ps@[k]).wf(),
        dec.charges_bounded(),
        old(counts)@.len() == crit.spec_bins().len(),
        forall|b: int|
            0 <= b < old(counts)@.len() ==> (#[trigger] old(counts)@[b]) + ps@.len()
                <= usize::MAX,
        *old(total) + ps@.len() <= usize::MAX,
    ensures
        final(counts)@.len() == old(counts)@.len(),
        forall|b: int|
            0 <= b < old(counts)@.len() ==> (#[trigger] final(counts)@[b]) as int == old(
                counts,
            )@[b] + ev_hist(ps@, *crit, *filter, dec, b),
        *final(total) as int == *old(total) + ev_total(ps@, *crit, *filter, dec),
{
    let pn = ps.len();
    let nb = counts.len();
    let mut t: usize = 0;
    proof {
        assert(ps@.take(0) =~= Seq::<P>::empty());
    }
    while t < pn
        invariant
            0 <= t <= pn,
            pn == ps@.len(),
            nb == old(counts)@.len(),
            nb == crit.spec_bins().len(),
            counts@.len() == nb,
            dec.charges_bounded(),
            forall|k: int| 0 <= k < ps@.len() ==> (#[trigger] ps@[k]).wf(),
            forall|b: int|
                0 <= b < nb ==> (#[trigger] old(counts)@[b]) + ps@.len() <= usize::MAX,
            *old(total) + ps@.len() <= usize::MAX,
            forall|b: int|
                0 <= b < nb ==> (#[trigger] counts@[b]) as int == old(counts)@[b] + ev_hist(
                    ps@.take(t as int),
                    *crit,
                    *filter,
                    dec,
                    b,
                ),
            *total as int == *old(total) + ev_total(ps@.take(t as int), *crit, *filter, dec),
        decreases pn - t,
    {
        proof {
            assert(ps@.take(t + 1).drop_last() =~= ps@.take(t as int));
            assert(ps@.take(t + 1).last() == ps@[t as int]);
            assert forall|b: int| 0 <= b < nb implies 0 <= #[trigger] ev_hist(
                ps@.take(t as int),
                *crit,
                *filter,
                dec,
                b,
            ) <= t by {
                lemma_ev_hist_bounds(ps@.take(t as int), *crit, *filter, dec, b);
            }
            lemma_ev_hist_bounds(ps@.take(t as int), *crit, *filter, dec, 0);
        }
        let p = &ps[t];
        if filter.accept(p, dec) {
            let idx = crit.get_criteria_bin_index(p, dec);
            if idx >= 0 && (idx as u128) < (nb as u128) {
                let iu = idx as usize;
                let cv = counts[iu];
                counts[iu] = cv + 1;
                let tv = *total;
                *total = tv + 1;
                proof {
                    assert forall|b: int| 0 <= b < nb implies (#[trigger] counts@[b]) as int == old(
                        counts,
                    )@[b] + ev_hist(ps@.take(t + 1), *crit, *filter, dec, b) by {
                        if b != iu {
                            assert(counts@[b] == old(counts)@[b] + ev_hist(
                                ps@.take(t as int),
                                *crit,
                                *filter,
                                dec,
                                b,
                            ));
                        }
                    }
                }
            } else {
                proof {
                    assert(!(0 <= crit.spec_bin_index(&ps@[t as int], dec)
                        < crit.spec_bins().len()));
                }
            }
        }
        t = t + 1;
    }
    proof {
        assert(ps@.take(pn as int) =~= ps@);
    }
}

impl<'a, Event: HEPEvent> HEPEventAnalyzer<'a, Event> {
    /// Per event, per distribution criterion: classify every filtered
    /// particle into a bin and count it, combining the per-event
    /// histograms by elementwise addition (an associative, commutative
    /// reduction, so the result does not depend on event order). Yields,
    /// per criterion: its name, the total in-range count, the bin edges,
    /// and the parallel bin counts; the total always equals the sum of
    /// the bin counts.
    #[verifier::rlimit(100)]
    pub fn calculate_distribution_criteria<
        D: DistributionCritetia<Event::P>,
        F: EventFilter<Event::P>,
    >(&self, filter: &F, criteria: &Vec<D>, dec: &EposDict) -> (r: Vec<
        (String, usize, Vec<(i128, i128)>, Vec<usize>),
    >)
        requires
            events_wf(self.spec_events()),
            dec.charges_bounded(),
            total_particles(self.spec_events()) <= usize::MAX,
        ensures
            r@.len() == criteria@.len(),
            forall|kk: int|
                0 <= kk < criteria@.len() ==> {
                    &&& (#[trigger] r@[kk]).0@ == criteria@[kk].spec_name()
                    &&& r@[kk].2@ == criteria@[kk].spec_bins()
                    &&& r@[kk].3@.len() == criteria@[kk].spec_bins().len()
                    &&& (forall|b: int|
                        0 <= b < r@[kk].3@.len() ==> (#[trigger] r@[kk].3@[b]) as int == evs_hist(
                            self.spec_events(),
                            criteria@[kk],
                            *filter,
                            dec,
                            b,
                        ))
                    &&& r@[kk].1 as int == evs_total(self.spec_events(), criteria@[kk], *filter, dec)
                    &&& r@[kk].1 as int == usizes_sum(r@[kk].3@)
                },
    {
        let ghost evs = self.events@;
        let mut out: Vec<(String, usize, Vec<(i128, i128)>, Vec<usize>)> = Vec::new();
        let mc = criteria.len();
        let mut k: usize = 0;
        while k < mc
            invariant
                0 <= k <= mc,
                mc == criteria@.len(),
                evs == self.spec_events(),
                events_wf(evs),
                dec.charges_bounded(),
                total_particles(evs) <= usize::MAX,
                out@.len() == k,
                forall|kk: int|
                    0 <= kk < k ==> {
                        &&& (#[trigger] out@[kk]).0@ == criteria@[kk].spec_name()
                        &&& out@[kk].2@ == criteria@[kk].spec_bins()
                        &&& out@[kk].3@.len() == criteria@[kk].spec_bins().len()
                        &&& (forall|b: int|
                            0 <= b < out@[kk].3@.len() ==> (#[trigger] out@[kk].3@[b]) as int
                                == evs_hist(evs, criteria@[kk], *filter, dec, b))
                        &&& out@[kk].1 as int == evs_total(evs, criteria@[kk], *filter, dec)
                        &&& out@[kk].1 as int == usizes_sum(out@[kk].3@)
                    },
            decreases mc - k,
        {
            let crit = &criteria[k];
            let bins = crit.get_bins();
            let nb = bins.len();
            let mut bins_copy: Vec<(i128, i128)> = Vec::new();
            let mut bi: usize = 0;
            while bi < nb
                invariant
                    0 <= bi <= nb,
                    nb == bins@.len(),
                    bins@ == crit.spec_bins(),
                    bins_copy@ == bins@.take(bi as int),
                decreases nb - bi,
            {
                bins_copy.push(bins[bi]);
                proof {
                    assert(bins_copy@ =~= bins@.take(bi + 1));
                }
                bi = bi + 1;
            }
            proof {
                assert(bins_copy@ =~= crit.spec_bins());
            }
            let mut counts: Vec<usize> = Vec::new();
            let mut z: usize = 0;
            while z < nb
                invariant
                    0 <= z <= nb,
                    counts@.len() == z,
                    forall|b: int| 0 <= b < z ==> (#[trigger] counts@[b]) == 0usize,
                decreases nb - z,
            {
                counts.push(0);
                z = z + 1;
            }
            let mut total: usize = 0;
            let n = self.events.len();
            let mut i: usize = 0;
            proof {
                assert(evs.take(0) =~= Seq::<Event>::empty());
            }
            while i < n
                invariant
                    0 <= i <= n,
                    n == evs.len(),
                    evs == self.spec_events(),
                    events_wf(evs),
                    dec.charges_bounded(),
                    total_particles(evs) <= usize::MAX,
                    nb == crit.spec_bins().len(),
                    counts@.len() == nb,
                    forall|b: int|
                        0 <= b < nb ==> (#[trigger] counts@[b]) as int == evs_hist(
                            evs.take(i as int),
                            *crit,
                            *filter,
                            dec,
                            b,
                        ),
                    total as int == evs_total(evs.take(i as int), *crit, *filter, dec),
                decreases n - i,
            {
                let ev = &self.events[i];
                let ps = ev.particles();
                proof {
                    assert(ev.spec_particles() == evs[i as int].spec_particles());
                    assert forall|k2: int| 0 <= k2 < ps@.len() implies (#[trigger] ps@[k2]).wf() by {
                        assert(evs[i as int].spec_particles()[k2].wf());
                    }
                    assert(evs.take(i + 1).drop_last() =~= evs.take(i as int));
                    assert(evs.take(i + 1).last() == evs[i as int]);
                    lemma_total_particles_prefix(evs, i + 1);
                    assert(total_particles(evs.take(i + 1)) == total_particles(evs.take(i as int))
                        + ps@.len());
                    assert forall|b: int| 0 <= b < nb implies (#[trigger] counts@[b]) + ps@.len()
                        <= usize::MAX by {
                        lemma_evs_hist_bounds(evs.take(i as int), *crit, *filter, dec, b);
                    }
                    lemma_evs_hist_bounds(evs.take(i as int), *crit, *filter, dec, 0);
                }
                accumulate_hist(ps, crit, filter, dec, &mut counts, &mut total);
                i = i + 1;
            }
            proof {
                assert(evs.take(n as int) =~= evs);
                lemma_distribution_total(evs, *crit, *filter, dec);
                lemma_counts_sum(counts@, evs, *crit, *filter, dec, nb as int);
            }
            let nm = crit.name();
            out.push((nm, total, bins_copy, counts));
            k = k + 1;
        }
        out
    }
}

/// Selects which classifier a standard distribution criterion applies:
/// the momentum polar angle, the pseudorapidity of all particles, or
/// either restricted to an explicit allow-list of particle codes.
pub enum StandardDistributionCriteraDefiner {
    /// distribution of the particle momentum angle against the beam axis
    PdirTheta,
    /// pseudorapidity distribution
    PNu,
    PNu_selected(Vec<i64>),
    PTheta_selected(Vec<i64>),
}

/// Truncating quotient `(max - min) / cnt`, the bin width.
pub open spec fn spec_bin_dx(min: int, max: int, cnt: int) -> int {
    if cnt <= 0 {
        0
    } else {
        let d = max - min;
        if d >= 0 {
            d / cnt
        } else {
            -((-d) / cnt)
        }
    }
}

/// The half-open bin-edge table `[min + i dx, min + (i+1) dx)`.
pub open spec fn spec_bin_edges(min: int, dx: int, cnt: nat) -> Seq<(i128, i128)> {
    Seq::new(cnt, |i: int| ((min + dx * i) as i128, (min + dx * (i + 1)) as i128))
}

/// Clamp to the representable bin-index range.
pub open spec fn spec_clamp_i64(x: int) -> i64 {
    if x > i64::MAX {
        i64::MAX
    } else if x < i64::MIN {
        i64::MIN
    } else {
        x as i64
    }
}

/// Bin index of a classified value: below the window maps below zero, a
/// degenerate width excludes everything, and the quotient is clamped.
pub open spec fn spec_bin_of(v: int, minv: int, dx: int) -> i64 {
    if dx <= 0 {
        i64::MAX
    } else if v < minv {
        -1i64
    } else {
        spec_clamp_i64((v - minv) / dx)
    }
}

/// A standard distribution criterion: a classifier, the window and bin
/// width, the precomputed edge table, and a display name.
pub struct StandardDistributionCriteria {
    definer: StandardDistributionCriteraDefiner,
    min: i128,
    max: i128,
    dx: i128,
    bins: Vec<(i128, i128)>,
    name: String,
}

/// The classified value of one particle: an angle, a pseudorapidity, or
/// a deliberately out-of-range value for a particle not in the
/// allow-list.
pub open spec fn spec_dist_value<P: Particle>(
    d: StandardDistributionCriteraDefiner,
    maxv: int,
    dx: int,
    p: &P,
    dec: &EposDict,
) -> int {
    let mx = p.spec_momentum().0 as int;
    let my = p.spec_momentum().1 as int;
    let mz = p.spec_momentum().2 as int;
    match d {
        StandardDistributionCriteraDefiner::PdirTheta => spec_theta(mx, my, mz),
        StandardDistributionCriteraDefiner::PNu => spec_pseudorapidity(mx, my, mz),
        StandardDistributionCriteraDefiner::PNu_selected(v) => if v@.contains(p.spec_code()) {
            spec_pseudorapidity(mx, my, mz)
        } else {
            maxv + 2 * dx
        },
        StandardDistributionCriteraDefiner::PTheta_selected(v) => if v@.contains(p.spec_code()) {
            spec_theta(mx, my, mz)
        } else {
            maxv + 2 * dx
        },
    }
}

impl StandardDistributionCriteria {
    #[verifier::type_invariant]
    spec fn twf(&self) -> bool {
        &&& -FP_LIM <= self.min <= FP_LIM
        &&& -FP_LIM <= self.max <= FP_LIM
        &&& -2 * FP_LIM <= self.dx <= 2 * FP_LIM
    }

    pub closed spec fn spec_min(&self) -> i128 {
        self.min
    }

    pub closed spec fn spec_max(&self) -> i128 {
        self.max
    }

    pub closed spec fn spec_dx(&self) -> i128 {
        self.dx
    }

    pub closed spec fn spec_definer(&self) -> StandardDistributionCriteraDefiner {
        self.definer
    }

    /// The precomputed edge table.
    pub closed spec fn spec_edge_table(&self) -> Seq<(i128, i128)> {
        self.bins@
    }

    /// The display name.
    pub closed spec fn spec_display_name(&self) -> Seq<char> {
        self.name@
    }

    /// Builds a criterion over `bin_cnt` bins of equal width covering
    /// `[min, max)`.
    pub fn new(
        definer: StandardDistributionCriteraDefiner,
        min: i128,
        max: i128,
        bin_cnt: usize,
        name: String,
    ) -> (r: Self)
        requires
            -FP_LIM <= min <= FP_LIM,
            -FP_LIM <= max <= FP_LIM,
        ensures
            r.spec_min() == min,
            r.spec_max() == max,
            r.spec_dx() == spec_bin_dx(min as int, max as int, bin_cnt as int),
            r.spec_definer() == definer,
            r.spec_display_name() == name@,
            r.spec_edge_table() == spec_bin_edges(
                min as int,
                spec_bin_dx(min as int, max as int, bin_cnt as int),
                bin_cnt as nat,
            ),
    {
        let dx: i128 = if bin_cnt == 0 {
            0
        } else {
            let d: i128 = max - min;
            if d >= 0 {
                ((d as u128) / (bin_cnt as u128)) as i128
            } else {
                -((((-d) as u128) / (bin_cnt as u128)) as i128)
            }
        };
        proof {
            if bin_cnt > 0 {
                if max >= min {
                    vstd::arithmetic::div_mod::lemma_div_is_ordered_by_denominator(
                        (max - min) as int,
                        1,
                        bin_cnt as int,
                    );
                    vstd::arithmetic::div_mod::lemma_div_is_ordered(
                        0,
                        (max - min) as int,
                        bin_cnt as int,
                    );
                } else {
                    vstd::arithmetic::div_mod::lemma_div_is_ordered_by_denominator(
                        (min - max) as int,
                        1,
                        bin_cnt as int,
                    );
                    vstd::arithmetic::div_mod::lemma_div_is_ordered(
                        0,
                        (min - max) as int,
                        bin_cnt as int,
                    );
                }
            }
            assert(-2 * FP_LIM <= dx <= 2 * FP_LIM);
            let dxi = dx as int;
            let cnti = bin_cnt as int;
            if bin_cnt == 0 {
                assert(dxi * cnti == 0) by (nonlinear_arith)
                    requires
                        cnti == 0,
                ;
            } else if max >= min {
                let d = (max - min) as int;
                vstd::arithmetic::div_mod::lemma_fundamental_div_mod(d, cnti);
                vstd::arithmetic::div_mod::lemma_mod_bound(d, cnti);
                assert(cnti * dxi <= d);
                assert(dxi * cnti == cnti * dxi) by (nonlinear_arith);
                assert(dxi * cnti >= 0) by (nonlinear_arith)
                    requires
                        dxi >= 0,
                        cnti >= 0,
                ;
            } else {
                let nd = (min - max) as int;
                let q = nd / cnti;
                vstd::arithmetic::div_mod::lemma_fundamental_div_mod(nd, cnti);
                vstd::arithmetic::div_mod::lemma_mod_bound(nd, cnti);
                assert(cnti * q <= nd);
                assert(dxi == -q);
                assert(dxi * cnti == -(cnti * q)) by (nonlinear_arith)
                    requires
                        dxi == -q,
                ;
                assert(dxi * cnti <= 0) by (nonlinear_arith)
                    requires
                        dxi <= 0,
                        cnti >= 0,
                ;
            }
            assert(-2 * (FP_LIM as int) <= dxi * cnti <= 2 * (FP_LIM as int));
        }
        let mut bins: Vec<(i128, i128)> = Vec::new();
        let mut lo: i128 = min;
        let mut i: usize = 0;
        while i < bin_cnt
            invariant
                0 <= i <= bin_cnt,
                -FP_LIM <= min <= FP_LIM,
                -FP_LIM <= max <= FP_LIM,
                -2 * FP_LIM <= dx <= 2 * FP_LIM,
                -2 * (FP_LIM as int) <= (dx as int) * (bin_cnt as int) <= 2 * (FP_LIM as int),
                dx as int == spec_bin_dx(min as int, max as int, bin_cnt as int),
                bins@.len() == i,
                lo as int == min + (dx as int) * (i as int),
                -3 * FP_LIM <= lo <= 3 * FP_LIM,
                forall|t: int|
                    0 <= t < i ==> #[trigger] bins@[t] == (((min + (dx as int) * t) as i128), ((min
                        + (dx as int) * (t + 1)) as i128)),
            decreases bin_cnt - i,
        {
            proof {
                lemma_dx_times_le(dx as int, i + 1, bin_cnt as int, 2 * (FP_LIM as int));
                assert((dx as int) * (i + 1) == (dx as int) * (i as int) + (dx as int))
                    by (nonlinear_arith);
            }
            let hi = lo + dx;
            bins.push((lo, hi));
            lo = hi;
            i = i + 1;
        }
        proof {
            assert(bins@ =~= spec_bin_edges(
                min as int,
                spec_bin_dx(min as int, max as int, bin_cnt as int),
                bin_cnt as nat,
            ));
        }
        Self { definer, min, max, dx, bins, name }
    }
}

/// For `|dx| <= bound / cnt`-style widths: `|dx * i| <= bound` whenever
/// `i <= cnt` and `|dx| * cnt <= bound`.
proof fn lemma_dx_times_le(dx: int, i: int, cnt: int, bound: int)
    requires
        0 <= i <= cnt,
        0 <= bound,
        -bound <= dx * cnt <= bound,
    ensures
        -bound <= dx * i <= bound,
{
    assert(-bound <= dx * i <= bound) by (nonlinear_arith)
        requires
            0 <= i <= cnt,
            0 <= bound,
            -bound <= dx * cnt <= bound,
    ;
}

impl<P: Particle> DistributionCritetia<P> for StandardDistributionCriteria {
    closed spec fn spec_bins(&self) -> Seq<(i128, i128)> {
        self.spec_edge_table()
    }

    closed spec fn spec_bin_index(&self, p: &P, dec: &EposDict) -> i64 {
        spec_bin_of(
            spec_dist_value(self.definer, self.max as int, self.dx as int, p, dec),
            self.min as int,
            self.dx as int,
        )
    }

    closed spec fn spec_name(&self) -> Seq<char> {
        self.spec_display_name()
    }

    fn get_bins(&self) -> &Vec<(i128, i128)> {
        &self.bins
    }

    fn get_criteria_bin_index(&self, p: &P, dec: &EposDict) -> (r: i64) {
        proof {
            use_type_invariant(self);
        }
        let m = p.momentum(dec);
        let v: i128 = match &self.definer {
            StandardDistributionCriteraDefiner::PdirTheta => theta(&m),
            StandardDistributionCriteraDefiner::PNu => pseudorapidity(&m),
            StandardDistributionCriteraDefiner::PNu_selected(codes) => {
                if contains_i64(codes, p.code(dec)) {
                    pseudorapidity(&m)
                } else {
                    self.max + 2 * self.dx
                }
            },
            StandardDistributionCriteraDefiner::PTheta_selected(codes) => {
                if contains_i64(codes, p.code(dec)) {
                    theta(&m)
                } else {
                    self.max + 2 * self.dx
                }
            },
        };
        if self.dx <= 0 {
            return i64::MAX;
        }
        if v < self.min {
            return -1;
        }
        let q = ((v - self.min) as u128) / (self.dx as u128);
        if q > i64::MAX as u128 {
            i64::MAX
        } else {
            q as i64
        }
    }

    fn name(&self) -> (r: String) {
        self.name.clone()
    }
}

/// Example parameter container for a code-selection filter.
pub struct ParticleCodeSelector {
    pub codes: Vec<i64>,
}

/// A vector-valued criterion family.
#[derive(Debug, PartialEq, Clone)]
pub enum VecCriteria {
    FinMomentum,
}

} // verus!
