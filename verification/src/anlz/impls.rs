//! `Particle` and `HEPEvent` implementations for every format's record
//! types, including the dictionary lookups that resolve a code (or its
//! negation, for an antiparticle) into charges and mass.
use vstd::prelude::*;

use super::generic::{HEPEvent, Particle};
use crate::fmt::decoder::{dict_at, dict_has, entry_fp_ok, EntryV, EposDict, EposDictParticle};
use crate::fmt::oscar::{OSCEposBlock, OscarParticle};
use crate::fmt::phqmd::{PHQMDBlock, PHQMDParticle, CHARGE_COL_LIM};
use crate::fmt::qgsm::{QGSMBlock, QGSMParticle, QGSM_COL_LIM};
use super::fncs::{energy_from, momentum_mag};
use crate::numeric::{fp_ok, FP_LIM, FP_SCALE};

verus! {

/// An optional fixed-point field, with the unknown sentinel read as zero.
pub open spec fn opt_or0(x: Option<i128>) -> i128 {
    match x {
        Some(v) => v,
        None => 0,
    }
}

/// The negation of a code, usable as a lookup key (the unrepresentable
/// minimum has no negation and never resolves as an antiparticle).
pub open spec fn neg_code(code: i64) -> i64 {
    (-(code as int)) as i64
}

/// Electric charge resolved through the dictionary: the entry under the
/// code, or the negated charge of the entry under the negated code;
/// `None` when neither resolves.
pub open spec fn spec_lookup_e_charge(dec: &EposDict, code: i64) -> Option<i128> {
    let ev = dec.entries_view();
    if dict_has(ev, code) {
        Some(opt_or0(dict_at(ev, code).charge))
    } else if code != i64::MIN && dict_has(ev, neg_code(code)) {
        Some(((-(opt_or0(dict_at(ev, neg_code(code)).charge) as int)) as i128))
    } else {
        None
    }
}

pub fn lookup_e_charge(dec: &EposDict, code: i64) -> (r: Option<i128>)
    requires
        dec.charges_bounded(),
    ensures
        r == spec_lookup_e_charge(dec, code),
        r is Some ==> -FP_LIM <= r->0 <= FP_LIM,
{
    match dec.get(&code) {
        Some(pd) => Some(
            match pd.charge {
                Some(q) => q,
                None => 0,
            },
        ),
        None => {
            if code == i64::MIN {
                return None;
            }
            let neg = -code;
            match dec.get(&neg) {
                Some(pd) => Some(
                    -(match pd.charge {
                        Some(q) => q,
                        None => 0,
                    }),
                ),
                None => None,
            }
        },
    }
}

/// Sign of a quark-flavor indicator; an unknown indicator counts as zero.
pub open spec fn sgn3(x: Option<i64>) -> int {
    match x {
        Some(v) => if v > 0 {
            1int
        } else if v < 0 {
            -1int
        } else {
            0int
        },
        None => 0int,
    }
}

/// Baryon charge of a dictionary entry's code: for a nucleus code
/// (magnitude above 1e9), the mass-number digit group signed by the
/// code's sign; otherwise the mean of the three sign-valued flavor
/// indicators, negated for a nonpositive code.
pub open spec fn spec_b_formula(
    code: i64,
    f1: Option<i64>,
    f2: Option<i64>,
    f3: Option<i64>,
) -> i128 {
    let a = if code >= 0 {
        code as int
    } else {
        -(code as int)
    };
    if a > 1000000000 {
        let mag = ((a % 10000) / 10) * (FP_SCALE as int);
        (if code >= 0 {
            mag
        } else {
            -mag
        }) as i128
    } else {
        let sum = sgn3(f1) + sgn3(f2) + sgn3(f3);
        let mag = (if sum >= 0 {
            sum
        } else {
            -sum
        }) * (FP_SCALE as int) / 3;
        let v = if sum >= 0 {
            mag
        } else {
            -mag
        };
        (if code > 0 {
            v
        } else {
            -v
        }) as i128
    }
}

/// Baryon charge of one entry; an entry without a PDG code cannot give
/// one.
pub open spec fn spec_entry_b_charge(e: EntryV) -> Option<i128> {
    match e.id_PDG {
        None => None,
        Some(code) => Some(spec_b_formula(code, e.ifl1, e.ifl2, e.ifl3)),
    }
}

fn sgn3_exec(x: &Option<i64>) -> (r: i128)
    ensures
        r as int == sgn3(*x),
{
    match x {
        Some(v) => {
            if *v > 0 {
                1
            } else if *v < 0 {
                -1
            } else {
                0
            }
        },
        None => 0,
    }
}

/// Computes the baryon charge of one dictionary entry.
pub fn entry_b_charge(pd: &EposDictParticle) -> (r: Option<i128>)
    ensures
        r == spec_entry_b_charge(pd@),
        r is Some ==> -FP_LIM <= r->0 <= FP_LIM,
{
    let code = match pd.id_PDG {
        Some(c) => c,
        None => {
            return None;
        },
    };
    let a: i128 = if code >= 0 {
        code as i128
    } else {
        -(code as i128)
    };
    if a > 1000000000 {
        let au = a as u128;
        let magd = ((au % 10000) / 10) as i128;
        proof {
            vstd::arithmetic::div_mod::lemma_mod_bound(a as int, 10000);
            vstd::arithmetic::div_mod::lemma_div_is_ordered(a as int % 10000, 9999, 10);
            vstd::arithmetic::div_mod::lemma_div_is_ordered(0, a as int % 10000, 10);
        }
        let mag = magd * 1_000_000_000;
        if code >= 0 {
            Some(mag)
        } else {
            Some(-mag)
        }
    } else {
        let sum: i128 = sgn3_exec(&pd.ifl1) + sgn3_exec(&pd.ifl2) + sgn3_exec(&pd.ifl3);
        let sabs: u128 = if sum >= 0 {
            sum as u128
        } else {
            (-sum) as u128
        };
        let mag = ((sabs * 1_000_000_000) / 3) as i128;
        let v: i128 = if sum >= 0 {
            mag
        } else {
            -mag
        };
        if code > 0 {
            Some(v)
        } else {
            Some(-v)
        }
    }
}

/// Baryon charge resolved through the dictionary, negated when only the
/// negated code resolves.
pub open spec fn spec_lookup_b_charge(dec: &EposDict, code: i64) -> Option<i128> {
    let ev = dec.entries_view();
    if dict_has(ev, code) {
        spec_entry_b_charge(dict_at(ev, code))
    } else if code != i64::MIN && dict_has(ev, neg_code(code)) {
        match spec_entry_b_charge(dict_at(ev, neg_code(code))) {
            Some(v) => Some(((-(v as int)) as i128)),
            None => None,
        }
    } else {
        None
    }
}

pub fn lookup_b_charge(dec: &EposDict, code: i64) -> (r: Option<i128>)
    requires
        dec.charges_bounded(),
    ensures
        r == spec_lookup_b_charge(dec, code),
        r is Some ==> -FP_LIM <= r->0 <= FP_LIM,
{
    match dec.get(&code) {
        Some(pd) => entry_b_charge(pd),
        None => {
            if code == i64::MIN {
                return None;
            }
            let neg = -code;
            match dec.get(&neg) {
                Some(pd) => match entry_b_charge(pd) {
                    Some(v) => Some(-v),
                    None => None,
                },
                None => None,
            }
        },
    }
}

/// Mass resolved through the dictionary (the same for a particle and its
/// antiparticle); `None` when neither code resolves.
pub open spec fn spec_lookup_mass(dec: &EposDict, code: i64) -> Option<i128> {
    let ev = dec.entries_view();
    if dict_has(ev, code) {
        Some(opt_or0(dict_at(ev, code).mass))
    } else if code != i64::MIN && dict_has(ev, neg_code(code)) {
        Some(opt_or0(dict_at(ev, neg_code(code)).mass))
    } else {
        None
    }
}

pub fn lookup_mass(dec: &EposDict, code: i64) -> (r: Option<i128>)
    requires
        dec.charges_bounded(),
    ensures
        r == spec_lookup_mass(dec, code),
        r is Some ==> -FP_LIM <= r->0 <= FP_LIM,
{
    match dec.get(&code) {
        Some(pd) => Some(
            match pd.mass {
                Some(m) => m,
                None => 0,
            },
        ),
        None => {
            if code == i64::MIN {
                return None;
            }
            let neg = -code;
            match dec.get(&neg) {
                Some(pd) => Some(
                    match pd.mass {
                        Some(m) => m,
                        None => 0,
                    },
                ),
                None => None,
            }
        },
    }
}

/// Lepton charge from the lepton set: the sign follows which of the code
/// or its negation is listed; zero otherwise.
pub open spec fn spec_lookup_l_charge(dec: &EposDict, code: i64) -> i128 {
    if dec.leptons_view().contains(code) {
        FP_SCALE
    } else if code != i64::MIN && dec.leptons_view().contains(neg_code(code)) {
        ((-(FP_SCALE as int)) as i128)
    } else {
        0
    }
}

pub fn lookup_l_charge(dec: &EposDict, code: i64) -> (r: i128)
    ensures
        r == spec_lookup_l_charge(dec, code),
        -FP_SCALE <= r <= FP_SCALE,
{
    if dec.is_lepton(&code) {
        1_000_000_000
    } else {
        if code == i64::MIN {
            return 0;
        }
        let neg = -code;
        if dec.is_lepton(&neg) {
            -1_000_000_000
        } else {
            0
        }
    }
}

impl Particle for EposDictParticle {
    open spec fn wf(&self) -> bool {
        entry_fp_ok(self@)
    }

    open spec fn spec_code(&self) -> i64 {
        match self.id_PDG {
            Some(c) => c,
            None => 0,
        }
    }

    open spec fn spec_momentum(&self) -> (i128, i128, i128) {
        (0, 0, 0)
    }

    open spec fn spec_is_final(&self, dec: &EposDict) -> bool {
        true
    }

    open spec fn spec_mass_energy(&self, dec: &EposDict) -> Option<i128> {
        self.mass
    }

    open spec fn spec_e_charge(&self, dec: &EposDict) -> Option<i128> {
        self.charge
    }

    open spec fn spec_b_charge(&self, dec: &EposDict) -> Option<i128> {
        spec_entry_b_charge(self@)
    }

    open spec fn spec_l_charge(&self, dec: &EposDict) -> i128 {
        self.lepton_charge
    }

    fn code(&self, dec: &EposDict) -> i64 {
        match self.id_PDG {
            Some(c) => c,
            None => 0,
        }
    }

    fn momentum(&self, dec: &EposDict) -> (i128, i128, i128) {
        (0, 0, 0)
    }

    fn momentum_energy(&self, dec: &EposDict) -> i128 {
        momentum_mag(0, 0, 0)
    }

    fn mass_energy(&self, dec: &EposDict) -> Option<i128> {
        self.mass
    }

    fn energy(&self, dec: &EposDict) -> Option<i128> {
        match self.mass {
            Some(m) => Some(energy_from(m, momentum_mag(0, 0, 0))),
            None => None,
        }
    }

    fn e_charge(&self, dec: &EposDict) -> Option<i128> {
        self.charge
    }

    fn b_charge(&self, dec: &EposDict) -> Option<i128> {
        entry_b_charge(self)
    }

    fn l_charge(&self, dec: &EposDict) -> i128 {
        self.lepton_charge
    }

    fn is_final(&self, dec: &EposDict) -> bool {
        true
    }
}

impl Particle for OscarParticle {
    open spec fn wf(&self) -> bool {
        fp_ok(self.p.0) && fp_ok(self.p.1) && fp_ok(self.p.2) && fp_ok(self.p0) && fp_ok(self.mass)
            && fp_ok(self.coords.0) && fp_ok(self.coords.1) && fp_ok(self.coords.2) && fp_ok(
            self.time,
        )
    }

    open spec fn spec_code(&self) -> i64 {
        self.code
    }

    open spec fn spec_momentum(&self) -> (i128, i128, i128) {
        self.p
    }

    open spec fn spec_is_final(&self, dec: &EposDict) -> bool {
        self.state == 0
    }

    open spec fn spec_mass_energy(&self, dec: &EposDict) -> Option<i128> {
        Some(self.mass)
    }

    open spec fn spec_e_charge(&self, dec: &EposDict) -> Option<i128> {
        spec_lookup_e_charge(dec, self.code)
    }

    open spec fn spec_b_charge(&self, dec: &EposDict) -> Option<i128> {
        spec_lookup_b_charge(dec, self.code)
    }

    open spec fn spec_l_charge(&self, dec: &EposDict) -> i128 {
        spec_lookup_l_charge(dec, self.code)
    }

    fn code(&self, dec: &EposDict) -> i64 {
        self.code
    }

    fn momentum(&self, dec: &EposDict) -> (i128, i128, i128) {
        self.p
    }

    fn momentum_energy(&self, dec: &EposDict) -> i128 {
        momentum_mag(self.p.0, self.p.1, self.p.2)
    }

    fn mass_energy(&self, dec: &EposDict) -> Option<i128> {
        Some(self.mass)
    }

    fn energy(&self, dec: &EposDict) -> Option<i128> {
        Some(energy_from(self.mass, momentum_mag(self.p.0, self.p.1, self.p.2)))
    }

    fn e_charge(&self, dec: &EposDict) -> Option<i128> {
        lookup_e_charge(dec, self.code)
    }

    fn b_charge(&self, dec: &EposDict) -> Option<i128> {
        lookup_b_charge(dec, self.code)
    }

    fn l_charge(&self, dec: &EposDict) -> i128 {
        lookup_l_charge(dec, self.code)
    }

    fn is_final(&self, dec: &EposDict) -> bool {
        self.state == 0
    }
}

impl HEPEvent for OSCEposBlock {
    type P = OscarParticle;

    open spec fn spec_particles(&self) -> Seq<OscarParticle> {
        self.event@
    }

    fn particles(&self) -> &Vec<OscarParticle> {
        &self.event
    }
}

impl Particle for PHQMDParticle {
    open spec fn wf(&self) -> bool {
        fp_ok(self.p.0) && fp_ok(self.p.1) && fp_ok(self.p.2) && fp_ok(self.E) && -CHARGE_COL_LIM
            <= self.charge <= CHARGE_COL_LIM
    }

    open spec fn spec_code(&self) -> i64 {
        self.code
    }

    open spec fn spec_momentum(&self) -> (i128, i128, i128) {
        self.p
    }

    open spec fn spec_is_final(&self, dec: &EposDict) -> bool {
        true
    }

    open spec fn spec_mass_energy(&self, dec: &EposDict) -> Option<i128> {
        spec_lookup_mass(dec, self.code)
    }

    open spec fn spec_e_charge(&self, dec: &EposDict) -> Option<i128> {
        Some((((self.charge as int) * (FP_SCALE as int)) as i128))
    }

    open spec fn spec_b_charge(&self, dec: &EposDict) -> Option<i128> {
        spec_lookup_b_charge(dec, self.code)
    }

    open spec fn spec_l_charge(&self, dec: &EposDict) -> i128 {
        spec_lookup_l_charge(dec, self.code)
    }

    fn code(&self, dec: &EposDict) -> i64 {
        self.code
    }

    fn momentum(&self, dec: &EposDict) -> (i128, i128, i128) {
        self.p
    }

    fn momentum_energy(&self, dec: &EposDict) -> i128 {
        momentum_mag(self.p.0, self.p.1, self.p.2)
    }

    fn mass_energy(&self, dec: &EposDict) -> Option<i128> {
        lookup_mass(dec, self.code)
    }

    fn energy(&self, dec: &EposDict) -> Option<i128> {
        match lookup_mass(dec, self.code) {
            Some(m) => Some(energy_from(m, momentum_mag(self.p.0, self.p.1, self.p.2))),
            None => None,
        }
    }

    fn e_charge(&self, dec: &EposDict) -> Option<i128> {
        Some((self.charge as i128) * 1_000_000_000)
    }

    fn b_charge(&self, dec: &EposDict) -> Option<i128> {
        lookup_b_charge(dec, self.code)
    }

    fn l_charge(&self, dec: &EposDict) -> i128 {
        lookup_l_charge(dec, self.code)
    }

    fn is_final(&self, dec: &EposDict) -> bool {
        true
    }
}

impl HEPEvent for PHQMDBlock {
    type P = PHQMDParticle;

    open spec fn spec_particles(&self) -> Seq<PHQMDParticle> {
        self.event@
    }

    fn particles(&self) -> &Vec<PHQMDParticle> {
        &self.event
    }
}

impl Particle for QGSMParticle {
    open spec fn wf(&self) -> bool {
        fp_ok(self.p.0) && fp_ok(self.p.1) && fp_ok(self.p.2) && fp_ok(self.p_lab_z) && fp_ok(
            self.mass,
        ) && -QGSM_COL_LIM <= self.charge <= QGSM_COL_LIM && -QGSM_COL_LIM <= self.lepton_number
            <= QGSM_COL_LIM && -QGSM_COL_LIM <= self.strangeness <= QGSM_COL_LIM && -QGSM_COL_LIM
            <= self.baryon_number <= QGSM_COL_LIM
    }

    open spec fn spec_code(&self) -> i64 {
        self.code
    }

    open spec fn spec_momentum(&self) -> (i128, i128, i128) {
        self.p
    }

    open spec fn spec_is_final(&self, dec: &EposDict) -> bool {
        true
    }

    open spec fn spec_mass_energy(&self, dec: &EposDict) -> Option<i128> {
        Some(self.mass)
    }

    open spec fn spec_e_charge(&self, dec: &EposDict) -> Option<i128> {
        Some((((self.charge as int) * (FP_SCALE as int)) as i128))
    }

    open spec fn spec_b_charge(&self, dec: &EposDict) -> Option<i128> {
        Some((((self.baryon_number as int) * (FP_SCALE as int)) as i128))
    }

    open spec fn spec_l_charge(&self, dec: &EposDict) -> i128 {
        (((self.lepton_number as int) * (FP_SCALE as int)) as i128)
    }

    fn code(&self, dec: &EposDict) -> i64 {
        self.code
    }

    fn momentum(&self, dec: &EposDict) -> (i128, i128, i128) {
        self.p
    }

    fn momentum_energy(&self, dec: &EposDict) -> i128 {
        momentum_mag(self.p.0, self.p.1, self.p.2)
    }

    fn mass_energy(&self, dec: &EposDict) -> Option<i128> {
        Some(self.mass)
    }

    fn energy(&self, dec: &EposDict) -> Option<i128> {
        Some(energy_from(self.mass, momentum_mag(self.p.0, self.p.1, self.p.2)))
    }

    fn e_charge(&self, dec: &EposDict) -> Option<i128> {
        Some((self.charge as i128) * 1_000_000_000)
    }

    fn b_charge(&self, dec: &EposDict) -> Option<i128> {
        Some((self.baryon_number as i128) * 1_000_000_000)
    }

    fn l_charge(&self, dec: &EposDict) -> i128 {
        (self.lepton_number as i128) * 1_000_000_000
    }

    fn is_final(&self, dec: &EposDict) -> bool {
        true
    }
}

impl HEPEvent for QGSMBlock {
    type P = QGSMParticle;

    open spec fn spec_particles(&self) -> Seq<QGSMParticle> {
        self.event@
    }

    fn particles(&self) -> &Vec<QGSMParticle> {
        &self.event
    }
}

} // verus!
