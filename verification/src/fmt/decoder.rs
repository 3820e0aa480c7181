//! The particle dictionary: a table mapping an integer particle code (in
//! one of several coding schemes) to its physical properties, plus a set
//! of codes flagged as leptons.
//!
//! Table text is line oriented: comment lines begin with `!`, short lines
//! are skipped, fields are whitespace-delimited, and the value `99` is the
//! "unknown" sentinel that maps a field to `None`.
use vstd::prelude::*;

use crate::numeric::{
    spec_parse_fixed, spec_parse_i64, spec_tokens, spec_trim, tokens, trim, parse_i64, parse_fixed,
    fp_ok, FP_SCALE,
};

verus! {

/// Ghost image of one dictionary entry, with byte strings as sequences.
pub ghost struct EntryV {
    pub id_EPOS: Option<i64>,
    pub id_PDG: Option<i64>,
    pub id_QGSJET: Option<i64>,
    pub id_GHEISHA: Option<i64>,
    pub id_SIBYLL: Option<i64>,
    pub name: Seq<u8>,
    pub ifl1: Option<i64>,
    pub ifl2: Option<i64>,
    pub ifl3: Option<i64>,
    pub counter: Option<i64>,
    pub mass: Option<i128>,
    pub charge: Option<i128>,
    pub width: Option<i128>,
    pub multiplicity: Option<i64>,
    pub degeneracy: Option<i64>,
    pub status: Seq<u8>,
    pub lepton_charge: i128,
}

/// One row of the particle table. Column order follows the table format:
/// five scheme-specific codes, the display name, three quark-flavor
/// indicators, a counter, mass, electric charge and width, multiplicity,
/// degeneracy, and a status tag.
#[derive(Debug, Clone)]
pub struct EposDictParticle {
    pub id_EPOS: Option<i64>,
    pub id_PDG: Option<i64>,
    pub id_QGSJET: Option<i64>,
    pub id_GHEISHA: Option<i64>,
    pub id_SIBYLL: Option<i64>,
    pub name: Vec<u8>,
    pub ifl1: Option<i64>,
    pub ifl2: Option<i64>,
    pub ifl3: Option<i64>,
    pub counter: Option<i64>,
    pub mass: Option<i128>,
    pub charge: Option<i128>,
    pub width: Option<i128>,
    pub multiplicity: Option<i64>,
    pub degeneracy: Option<i64>,
    pub status: Vec<u8>,
    pub lepton_charge: i128,
}

impl View for EposDictParticle {
    type V = EntryV;

    open spec fn view(&self) -> EntryV {
        EntryV {
            id_EPOS: self.id_EPOS,
            id_PDG: self.id_PDG,
            id_QGSJET: self.id_QGSJET,
            id_GHEISHA: self.id_GHEISHA,
            id_SIBYLL: self.id_SIBYLL,
            name: self.name@,
            ifl1: self.ifl1,
            ifl2: self.ifl2,
            ifl3: self.ifl3,
            counter: self.counter,
            mass: self.mass,
            charge: self.charge,
            width: self.width,
            multiplicity: self.multiplicity,
            degeneracy: self.degeneracy,
            status: self.status@,
            lepton_charge: self.lepton_charge,
        }
    }
}

/// A fatal dictionary-table failure: a field that should be numeric does
/// not parse.
#[derive(Debug, Clone, PartialEq, Eq, Structural)]
pub enum DictError {
    BadField,
}

/// The sentinel `99` marking an unknown field.
pub open spec fn is_sentinel(t: Seq<u8>) -> bool {
    t.len() == 2 && t[0] == 57 && t[1] == 57
}

/// An integer column: the sentinel maps to no value, anything else must
/// parse; the outer `None` is a fatal field failure.
pub open spec fn spec_cleared_i64(t: Seq<u8>) -> Option<Option<i64>> {
    if is_sentinel(t) {
        Some(None)
    } else {
        match spec_parse_i64(t) {
            Some(v) => Some(Some(v)),
            None => None,
        }
    }
}

/// A fixed-point column, with the same sentinel handling.
pub open spec fn spec_cleared_fp(t: Seq<u8>) -> Option<Option<i128>> {
    if is_sentinel(t) {
        Some(None)
    } else {
        match spec_parse_fixed(t) {
            Some(v) => Some(Some(v)),
            None => None,
        }
    }
}

/// Every numeric column of the row parses (or is the sentinel).
pub open spec fn row_ok(toks: Seq<Seq<u8>>) -> bool {
    toks.len() >= 16 && spec_cleared_i64(toks[0]) is Some && spec_cleared_i64(toks[1]) is Some
        && spec_cleared_i64(toks[2]) is Some && spec_cleared_i64(toks[3]) is Some
        && spec_cleared_i64(toks[4]) is Some && spec_cleared_i64(toks[6]) is Some
        && spec_cleared_i64(toks[7]) is Some && spec_cleared_i64(toks[8]) is Some
        && spec_cleared_i64(toks[9]) is Some && spec_cleared_fp(toks[10]) is Some
        && spec_cleared_fp(toks[11]) is Some && spec_cleared_fp(toks[12]) is Some
        && spec_cleared_i64(toks[13]) is Some && spec_cleared_i64(toks[14]) is Some
}

/// The entry described by a well-formed row.
pub open spec fn spec_row(toks: Seq<Seq<u8>>) -> EntryV {
    EntryV {
        id_EPOS: spec_cleared_i64(toks[0])->0,
        id_PDG: spec_cleared_i64(toks[1])->0,
        id_QGSJET: spec_cleared_i64(toks[2])->0,
        id_GHEISHA: spec_cleared_i64(toks[3])->0,
        id_SIBYLL: spec_cleared_i64(toks[4])->0,
        name: toks[5],
        ifl1: spec_cleared_i64(toks[6])->0,
        ifl2: spec_cleared_i64(toks[7])->0,
        ifl3: spec_cleared_i64(toks[8])->0,
        counter: spec_cleared_i64(toks[9])->0,
        mass: spec_cleared_fp(toks[10])->0,
        charge: spec_cleared_fp(toks[11])->0,
        width: spec_cleared_fp(toks[12])->0,
        multiplicity: spec_cleared_i64(toks[13])->0,
        degeneracy: spec_cleared_i64(toks[14])->0,
        status: toks[15],
        lepton_charge: 0,
    }
}

fn cleared_i64(t: &Vec<u8>) -> (r: Option<Option<i64>>)
    ensures
        r == spec_cleared_i64(t@),
{
    if t.len() == 2 && t[0] == 57 && t[1] == 57 {
        Some(None)
    } else {
        match parse_i64(t) {
            Some(v) => Some(Some(v)),
            None => None,
        }
    }
}

fn cleared_fp(t: &Vec<u8>) -> (r: Option<Option<i128>>)
    ensures
        r == spec_cleared_fp(t@),
{
    if t.len() == 2 && t[0] == 57 && t[1] == 57 {
        Some(None)
    } else {
        match parse_fixed(t) {
            Some(v) => Some(Some(v)),
            None => None,
        }
    }
}

impl EposDictParticle {
    /// Builds an entry from its parts.
    pub fn new(
        id_EPOS: Option<i64>,
        id_PDG: Option<i64>,
        id_QGSJET: Option<i64>,
        id_GHEISHA: Option<i64>,
        id_SIBYLL: Option<i64>,
        name: Vec<u8>,
        ifl1: Option<i64>,
        ifl2: Option<i64>,
        ifl3: Option<i64>,
        counter: Option<i64>,
        mass: Option<i128>,
        charge: Option<i128>,
        width: Option<i128>,
        multiplicity: Option<i64>,
        degeneracy: Option<i64>,
        status: Vec<u8>,
        lepton_charge: i128,
    ) -> (r: Self)
        ensures
            r.id_EPOS == id_EPOS,
            r.id_PDG == id_PDG,
            r.id_QGSJET == id_QGSJET,
            r.id_GHEISHA == id_GHEISHA,
            r.id_SIBYLL == id_SIBYLL,
            r.name == name,
            r.ifl1 == ifl1,
            r.ifl2 == ifl2,
            r.ifl3 == ifl3,
            r.counter == counter,
            r.mass == mass,
            r.charge == charge,
            r.width == width,
            r.multiplicity == multiplicity,
            r.degeneracy == degeneracy,
            r.status == status,
            r.lepton_charge == lepton_charge,
    {
        Self {
            id_EPOS,
            id_PDG,
            id_QGSJET,
            id_GHEISHA,
            id_SIBYLL,
            name,
            ifl1,
            ifl2,
            ifl3,
            counter,
            mass,
            charge,
            width,
            multiplicity,
            degeneracy,
            status,
            lepton_charge,
        }
    }

    /// Reads one table row. A row with fewer than 16 tokens is skipped
    /// (`Ok(None)`); a numeric field that fails to parse is fatal.
    pub fn from_str(s: &Vec<u8>) -> (r: Result<Option<Self>, DictError>)
        ensures
            ({
                let toks = spec_tokens(s@);
                match r {
                    Ok(Some(e)) => row_ok(toks) && e@ == spec_row(toks),
                    Ok(None) => toks.len() < 16,
                    Err(_) => toks.len() >= 16 && !row_ok(toks),
                }
            }),
    {
        let tv = tokens(s);
        let ghost toks = spec_tokens(s@);
        proof {
            assert(tv.deep_view() == toks);
        }
        if tv.len() < 16 {
            return Ok(None);
        }
        proof {
            assert forall|i: int| 0 <= i < 16 implies (#[trigger] tv@[i])@ == toks[i] by {
                assert(tv.deep_view()[i] == tv@[i]@);
            }
        }
        let id_EPOS = match cleared_i64(&tv[0]) {
            Some(v) => v,
            None => {
                return Err(DictError::BadField);
            },
        };
        let id_PDG = match cleared_i64(&tv[1]) {
            Some(v) => v,
            None => {
                return Err(DictError::BadField);
            },
        };
        let id_QGSJET = match cleared_i64(&tv[2]) {
            Some(v) => v,
            None => {
                return Err(DictError::BadField);
            },
        };
        let id_GHEISHA = match cleared_i64(&tv[3]) {
            Some(v) => v,
            None => {
                return Err(DictError::BadField);
            },
        };
        let id_SIBYLL = match cleared_i64(&tv[4]) {
            Some(v) => v,
            None => {
                return Err(DictError::BadField);
            },
        };
        let ifl1 = match cleared_i64(&tv[6]) {
            Some(v) => v,
            None => {
                return Err(DictError::BadField);
            },
        };
        let ifl2 = match cleared_i64(&tv[7]) {
            Some(v) => v,
            None => {
                return Err(DictError::BadField);
            },
        };
        let ifl3 = match cleared_i64(&tv[8]) {
            Some(v) => v,
            None => {
                return Err(DictError::BadField);
            },
        };
        let counter = match cleared_i64(&tv[9]) {
            Some(v) => v,
            None => {
                return Err(DictError::BadField);
            },
        };
        let mass = match cleared_fp(&tv[10]) {
            Some(v) => v,
            None => {
                return Err(DictError::BadField);
            },
        };
        let charge = match cleared_fp(&tv[11]) {
            Some(v) => v,
            None => {
                return Err(DictError::BadField);
            },
        };
        let width = match cleared_fp(&tv[12]) {
            Some(v) => v,
            None => {
                return Err(DictError::BadField);
            },
        };
        let multiplicity = match cleared_i64(&tv[13]) {
            Some(v) => v,
            None => {
                return Err(DictError::BadField);
            },
        };
        let degeneracy = match cleared_i64(&tv[14]) {
            Some(v) => v,
            None => {
                return Err(DictError::BadField);
            },
        };
        let name = tv[5].clone();
        let status = tv[15].clone();
        let e = Self {
            id_EPOS,
            id_PDG,
            id_QGSJET,
            id_GHEISHA,
            id_SIBYLL,
            name,
            ifl1,
            ifl2,
            ifl3,
            counter,
            mass,
            charge,
            width,
            multiplicity,
            degeneracy,
            status,
            lepton_charge: 0,
        };
        Ok(Some(e))
    }
}

/// The active particle-code scheme for a run.
#[derive(Clone)]
pub enum DctCoding {
    EPOS,
    PDG,
}

/// First index whose code equals `c`, or `-1`.
pub open spec fn find_code(s: Seq<(i64, EntryV)>, c: i64) -> int
    decreases s.len(),
{
    if s.len() == 0 {
        -1
    } else if s[0].0 == c {
        0
    } else {
        let r = find_code(s.drop_first(), c);
        if r < 0 {
            -1
        } else {
            1 + r
        }
    }
}

pub proof fn lemma_find_code_bounds(s: Seq<(i64, EntryV)>, c: i64)
    ensures
        -1 <= find_code(s, c) < s.len(),
        find_code(s, c) >= 0 ==> s[find_code(s, c)].0 == c,
        find_code(s, c) < 0 ==> forall|i: int| 0 <= i < s.len() ==> (#[trigger] s[i]).0 != c,
        forall|i: int| 0 <= i < find_code(s, c) ==> (#[trigger] s[i]).0 != c,
    decreases s.len(),
{
    if s.len() > 0 && s[0].0 != c {
        let t = s.drop_first();
        lemma_find_code_bounds(t, c);
        assert forall|i: int| 1 <= i < s.len() implies (#[trigger] s[i]) == t[i - 1] by {
            assert(t[i - 1] == s[i]);
        }
    }
}

/// The mapping holds `c`.
pub open spec fn dict_has(s: Seq<(i64, EntryV)>, c: i64) -> bool {
    find_code(s, c) >= 0
}

/// The entry stored under `c` (the first such, where duplicates exist).
pub open spec fn dict_at(s: Seq<(i64, EntryV)>, c: i64) -> EntryV {
    s[find_code(s, c)].1
}

proof fn lemma_find_code_push(s: Seq<(i64, EntryV)>, c: i64, e: EntryV)
    ensures
        find_code(s.push((c, e)), c) == if dict_has(s, c) {
            find_code(s, c)
        } else {
            s.len() as int
        },
    decreases s.len(),
{
    lemma_find_code_bounds(s, c);
    if s.len() == 0 {
        assert(s.push((c, e))[0] == (c, e));
    } else {
        if s[0].0 == c {
        } else {
            assert(s.push((c, e)).drop_first() =~= s.drop_first().push((c, e)));
            lemma_find_code_push(s.drop_first(), c, e);
            lemma_find_code_bounds(s.drop_first(), c);
        }
    }
}

/// Appending a code that the table does not yet hold makes it resolve to
/// exactly the appended entry afterwards (while a code already present
/// is kept as it is by `insert_code`, which only reports the collision).
pub proof fn lemma_added_code_resolves(s: Seq<(i64, EntryV)>, c: i64, e: EntryV)
    requires
        !dict_has(s, c),
    ensures
        dict_has(s.push((c, e)), c),
        dict_at(s.push((c, e)), c) == e,
{
    lemma_find_code_push(s, c, e);
    assert(s.push((c, e))[s.len() as int] == (c, e));
}

/// Replaces the entry under `c`, or appends a new pair.
pub open spec fn dict_upsert(s: Seq<(i64, EntryV)>, c: i64, e: EntryV) -> Seq<(i64, EntryV)> {
    let i = find_code(s, c);
    if i >= 0 {
        s.update(i, (c, e))
    } else {
        s.push((c, e))
    }
}

/// The particle dictionary: a code-to-entry table and the set of codes
/// flagged as leptons. Built once from ordered table loads and read-only
/// afterwards.
#[derive(Debug)]
pub struct EposDict {
    entries: Vec<(i64, EposDictParticle)>,
    leptons: Vec<i64>,
}

/// Fixed-point fields of an entry are within the parse bound, so charge
/// arithmetic on it cannot overflow.
pub open spec fn entry_fp_ok(e: EntryV) -> bool {
    &&& (e.mass is Some ==> fp_ok(e.mass->0))
    &&& (e.charge is Some ==> fp_ok(e.charge->0))
    &&& fp_ok(e.lepton_charge)
}

/// All entries of a table slice are within the fixed-point bounds.
pub open spec fn entries_fp_ok(s: Seq<(i64, EntryV)>) -> bool {
    forall|i: int| 0 <= i < s.len() ==> entry_fp_ok((#[trigger] s[i]).1)
}

proof fn lemma_row_fp_ok(toks: Seq<Seq<u8>>)
    requires
        row_ok(toks),
    ensures
        entry_fp_ok(spec_row(toks)),
{
    crate::numeric::lemma_parse_fixed_bounds(toks[10]);
    crate::numeric::lemma_parse_fixed_bounds(toks[11]);
}

proof fn lemma_upsert_fp(s: Seq<(i64, EntryV)>, c: i64, e: EntryV)
    requires
        entries_fp_ok(s),
        entry_fp_ok(e),
    ensures
        entries_fp_ok(dict_upsert(s, c, e)),
{
    lemma_find_code_bounds(s, c);
    let t = dict_upsert(s, c, e);
    assert forall|i: int| 0 <= i < t.len() implies entry_fp_ok((#[trigger] t[i]).1) by {
        if find_code(s, c) >= 0 {
            if i != find_code(s, c) {
                assert(t[i] == s[i]);
            }
        } else {
            if i < s.len() {
                assert(t[i] == s[i]);
            }
        }
    }
}

proof fn lemma_upload_run_fp(
    lines: Seq<Seq<u8>>,
    n: int,
    coding: DctCoding,
    leps: Option<Seq<i64>>,
)
    ensures
        upload_run(lines, n, coding, leps) is Some ==> entries_fp_ok(
            upload_run(lines, n, coding, leps)->0,
        ),
    decreases n,
{
    if n > 0 {
        lemma_upload_run_fp(lines, n - 1, coding, leps);
        if upload_run(lines, n, coding, leps) is Some {
            let st = upload_run(lines, n - 1, coding, leps)->0;
            let line = lines[n - 1];
            let t = spec_trim(line);
            if t.len() > 0 && t[0] == 33 {
            } else if t.len() < 10 {
            } else {
                let toks = spec_tokens(t);
                if toks.len() < 16 {
                } else {
                    let e0 = spec_row(toks);
                    let code = dict_code_of(e0, coding);
                    let e = with_lepton_charge(e0, code, leps);
                    lemma_row_fp_ok(toks);
                    assert(entry_fp_ok(e));
                    lemma_upsert_fp(st, code, e);
                }
            }
        }
    }
}

proof fn lemma_nuclei_charge_fp(code: i64)
    ensures
        0 <= nuclei_charge(code) <= 999_000_000_000,
{
    let a = if code >= 0 {
        code as int
    } else {
        -(code as int)
    };
    vstd::arithmetic::div_mod::lemma_mod_bound(a, 10000000);
    vstd::arithmetic::div_mod::lemma_div_is_ordered(0, a % 10000000, 10000);
    assert((a % 10000000) / 10000 <= 999) by {
        if (a % 10000000) / 10000 > 999 {
            vstd::arithmetic::div_mod::lemma_fundamental_div_mod(a % 10000000, 10000);
            vstd::arithmetic::div_mod::lemma_mod_bound(a % 10000000, 10000);
            assert(10000 * ((a % 10000000) / 10000) >= 10000 * 1000) by (nonlinear_arith)
                requires
                    (a % 10000000) / 10000 >= 1000,
            ;
        }
    }
    assert(((a % 10000000) / 10000) * 1_000_000_000 <= 999_000_000_000) by (nonlinear_arith)
        requires
            0 <= (a % 10000000) / 10000 <= 999,
    ;
}

proof fn lemma_nuclei_run_fp(st0: Seq<(i64, EntryV)>, lines: Seq<Seq<u8>>, n: int)
    requires
        entries_fp_ok(st0),
    ensures
        nuclei_run(st0, lines, n) is Some ==> entries_fp_ok(nuclei_run(st0, lines, n)->0),
    decreases n,
{
    if n > 0 {
        lemma_nuclei_run_fp(st0, lines, n - 1);
        if nuclei_run(st0, lines, n) is Some {
            let st = nuclei_run(st0, lines, n - 1)->0;
            let line = lines[n - 1];
            let t = spec_trim(line);
            if t.len() > 0 && t[0] == 33 {
            } else {
                let toks = spec_tokens(t);
                if toks.len() < 3 {
                } else {
                    match spec_parse_i64(toks[0]) {
                        None => {},
                        Some(code) => match spec_parse_fixed(toks[2]) {
                            None => {},
                            Some(mass) => {
                                if !dict_has(st, code) {
                                    crate::numeric::lemma_parse_fixed_bounds(toks[2]);
                                    lemma_nuclei_charge_fp(code);
                                    let e = nuclei_entry(code, toks[1], mass);
                                    assert(entry_fp_ok(e));
                                    let t2 = st.push((code, e));
                                    assert forall|i: int|
                                        0 <= i < t2.len() implies entry_fp_ok(
                                        (#[trigger] t2[i]).1,
                                    ) by {
                                        if i < st.len() {
                                            assert(t2[i] == st[i]);
                                        }
                                    }
                                }
                            },
                        },
                    }
                }
            }
        }
    }
}

/// Ghost image of a code/entry table.
pub open spec fn pairs_view(s: Seq<(i64, EposDictParticle)>) -> Seq<(i64, EntryV)> {
    s.map_values(|p: (i64, EposDictParticle)| (p.0, p.1@))
}

impl EposDict {
    /// The table as a sequence of code/entry pairs, in insertion order.
    pub closed spec fn entries_view(&self) -> Seq<(i64, EntryV)> {
        pairs_view(self.entries@)
    }

    /// The codes flagged as leptons.
    pub closed spec fn leptons_view(&self) -> Seq<i64> {
        self.leptons@
    }

    /// All stored entries are within the fixed-point bounds.
    pub open spec fn charges_bounded(&self) -> bool {
        entries_fp_ok(self.entries_view())
    }

    pub open spec fn spec_contains(&self, c: i64) -> bool {
        dict_has(self.entries_view(), c)
    }

    pub open spec fn spec_get(&self, c: i64) -> EntryV {
        dict_at(self.entries_view(), c)
    }

    /// Looks a code up in the table.
    pub fn get(&self, k: &i64) -> (r: Option<&EposDictParticle>)
        ensures
            match r {
                Some(e) => self.spec_contains(*k) && e@ == self.spec_get(*k) && (
                self.charges_bounded() ==> entry_fp_ok(e@)),
                None => !self.spec_contains(*k),
            },
    {
        let ghost sv = self.entries_view();
        proof {
            lemma_find_code_bounds(sv, *k);
        }
        let n = self.entries.len();
        let mut i: usize = 0;
        while i < n
            invariant
                0 <= i <= n,
                n == self.entries@.len(),
                sv == self.entries_view(),
                forall|j: int| 0 <= j < i ==> (#[trigger] sv[j]).0 != *k,
                -1 <= find_code(sv, *k) < sv.len(),
                find_code(sv, *k) >= 0 ==> sv[find_code(sv, *k)].0 == *k,
                find_code(sv, *k) < 0 ==> forall|j: int| 0 <= j < sv.len() ==> (#[trigger] sv[j]).0
                    != *k,
                forall|j: int| 0 <= j < find_code(sv, *k) ==> (#[trigger] sv[j]).0 != *k,
            decreases n - i,
        {
            if self.entries[i].0 == *k {
                proof {
                    assert(sv[i as int].0 == *k);
                    assert(find_code(sv, *k) == i);
                }
                return Some(&self.entries[i].1);
            }
            proof {
                assert(sv[i as int].0 != *k);
            }
            i = i + 1;
        }
        None
    }

    /// Whether `k` is a lepton code.
    pub fn is_lepton(&self, k: &i64) -> (r: bool)
        ensures
            r == self.leptons_view().contains(*k),
    {
        let n = self.leptons.len();
        let mut i: usize = 0;
        while i < n
            invariant
                0 <= i <= n,
                n == self.leptons@.len(),
                forall|j: int| 0 <= j < i ==> self.leptons@[j] != *k,
            decreases n - i,
        {
            if self.leptons[i] == *k {
                return true;
            }
            i = i + 1;
        }
        proof {
            assert(!self.leptons@.contains(*k));
        }
        false
    }

    /// All codes of the table, in insertion order.
    pub fn codes(&self) -> (r: Vec<i64>)
        ensures
            r@ == self.entries_view().map_values(|p: (i64, EntryV)| p.0),
    {
        let n = self.entries.len();
        let mut r: Vec<i64> = Vec::new();
        let mut i: usize = 0;
        while i < n
            invariant
                0 <= i <= n,
                n == self.entries@.len(),
                r@.len() == i,
                forall|j: int| 0 <= j < i ==> r@[j] == (#[trigger] self.entries@[j]).0,
            decreases n - i,
        {
            r.push(self.entries[i].0);
            i = i + 1;
        }
        proof {
            assert(r@ =~= self.entries_view().map_values(|p: (i64, EntryV)| p.0));
        }
        r
    }

    /// Adds a code to the table. A code already present is kept as it is
    /// (the table is append-only); the result reports that collision so
    /// the caller can diagnose it.
    pub fn insert_code(&mut self, code: i64, particle: EposDictParticle, is_lepto: bool) -> (r:
        bool)
        ensures
            r == old(self).spec_contains(code),
            r ==> *final(self) == *old(self),
            !r ==> final(self).entries_view() == old(self).entries_view().push((code, particle@)),
            !r ==> final(self).leptons_view() == if is_lepto {
                old(self).leptons_view().push(code)
            } else {
                old(self).leptons_view()
            },
            old(self).charges_bounded() && entry_fp_ok(particle@)
                ==> final(self).charges_bounded(),
    {
        let ghost sv = self.entries_view();
        proof {
            lemma_find_code_bounds(sv, code);
        }
        let n = self.entries.len();
        let mut i: usize = 0;
        while i < n
            invariant
                0 <= i <= n,
                n == self.entries@.len(),
                sv == self.entries_view(),
                forall|j: int| 0 <= j < i ==> (#[trigger] sv[j]).0 != code,
                find_code(sv, code) < 0 ==> forall|j: int| 0 <= j < sv.len() ==> (#[trigger] sv[j]).0
                    != code,
                forall|j: int| 0 <= j < find_code(sv, code) ==> (#[trigger] sv[j]).0 != code,
                -1 <= find_code(sv, code) < sv.len(),
                find_code(sv, code) >= 0 ==> sv[find_code(sv, code)].0 == code,
            decreases n - i,
        {
            if self.entries[i].0 == code {
                proof {
                    assert(sv[i as int].0 == code);
                }
                return true;
            }
            proof {
                assert(sv[i as int].0 != code);
            }
            i = i + 1;
        }
        self.entries.push((code, particle));
        proof {
            assert(self.entries_view() =~= sv.push((code, self.entries@.last().1@)));
        }
        if is_lepto {
            self.leptons.push(code);
        }
        false
    }
}

proof fn lemma_upload_run_none(
    lines: Seq<Seq<u8>>,
    i: int,
    n: int,
    coding: DctCoding,
    leps: Option<Seq<i64>>,
)
    requires
        0 <= i <= n,
        upload_run(lines, i, coding, leps) is None,
    ensures
        upload_run(lines, n, coding, leps) is None,
    decreases n - i,
{
    if i < n {
        lemma_upload_run_none(lines, i + 1, n, coding, leps);
    }
}

proof fn lemma_nuclei_run_none(st0: Seq<(i64, EntryV)>, lines: Seq<Seq<u8>>, i: int, n: int)
    requires
        0 <= i <= n,
        nuclei_run(st0, lines, i) is None,
    ensures
        nuclei_run(st0, lines, n) is None,
    decreases n - i,
{
    if i < n {
        lemma_nuclei_run_none(st0, lines, i + 1, n);
    }
}

fn vec_contains_i64(v: &Vec<i64>, x: i64) -> (r: bool)
    ensures
        r == v@.contains(x),
{
    let n = v.len();
    let mut i: usize = 0;
    while i < n
        invariant
            0 <= i <= n,
            n == v@.len(),
            forall|j: int| 0 <= j < i ==> v@[j] != x,
        decreases n - i,
    {
        if v[i] == x {
            return true;
        }
        i = i + 1;
    }
    proof {
        assert(!v@.contains(x));
    }
    false
}

fn has_code(entries: &Vec<(i64, EposDictParticle)>, code: i64) -> (r: bool)
    ensures
        r == dict_has(pairs_view(entries@), code),
{
    let ghost sv = pairs_view(entries@);
    proof {
        lemma_find_code_bounds(sv, code);
    }
    let n = entries.len();
    let mut i: usize = 0;
    while i < n
        invariant
            0 <= i <= n,
            n == entries@.len(),
            sv == pairs_view(entries@),
            forall|j: int| 0 <= j < i ==> (#[trigger] sv[j]).0 != code,
            -1 <= find_code(sv, code) < sv.len(),
            find_code(sv, code) >= 0 ==> sv[find_code(sv, code)].0 == code,
            find_code(sv, code) < 0 ==> forall|j: int| 0 <= j < sv.len() ==> (#[trigger] sv[j]).0
                != code,
            forall|j: int| 0 <= j < find_code(sv, code) ==> (#[trigger] sv[j]).0 != code,
        decreases n - i,
    {
        if entries[i].0 == code {
            proof {
                assert(sv[i as int].0 == code);
            }
            return true;
        }
        proof {
            assert(sv[i as int].0 != code);
        }
        i = i + 1;
    }
    false
}

/// Replaces the first entry under `code`, or appends a new pair.
fn upsert_entry(entries: &mut Vec<(i64, EposDictParticle)>, code: i64, e: EposDictParticle)
    ensures
        pairs_view(final(entries)@) == dict_upsert(pairs_view(old(entries)@), code, e@),
{
    let ghost sv = pairs_view(entries@);
    proof {
        lemma_find_code_bounds(sv, code);
    }
    let n = entries.len();
    let mut i: usize = 0;
    while i < n
        invariant
            0 <= i <= n,
            n == entries@.len(),
            sv == pairs_view(entries@),
            entries@ == old(entries)@,
            forall|j: int| 0 <= j < i ==> (#[trigger] sv[j]).0 != code,
            -1 <= find_code(sv, code) < sv.len(),
            find_code(sv, code) >= 0 ==> sv[find_code(sv, code)].0 == code,
            find_code(sv, code) < 0 ==> forall|j: int| 0 <= j < sv.len() ==> (#[trigger] sv[j]).0
                != code,
            forall|j: int| 0 <= j < find_code(sv, code) ==> (#[trigger] sv[j]).0 != code,
        decreases n - i,
    {
        if entries[i].0 == code {
            proof {
                assert(sv[i as int].0 == code);
                assert(find_code(sv, code) == i);
            }
            entries[i] = (code, e);
            proof {
                assert(pairs_view(entries@) =~= sv.update(i as int, (code, e@)));
            }
            return ;
        }
        proof {
            assert(sv[i as int].0 != code);
        }
        i = i + 1;
    }
    entries.push((code, e));
    proof {
        assert(pairs_view(entries@) =~= sv.push((code, e@)));
    }
}

/// Scheme-specific code of a row; a row without one falls back to `99`.
pub open spec fn dict_code_of(e: EntryV, coding: DctCoding) -> i64 {
    match coding {
        DctCoding::EPOS => match e.id_EPOS {
            Some(c) => c,
            None => 99,
        },
        DctCoding::PDG => match e.id_PDG {
            Some(c) => c,
            None => 99,
        },
    }
}

/// Marks a row as a lepton (sign following the code) when its code is in
/// the lepton set.
pub open spec fn with_lepton_charge(e: EntryV, code: i64, leps: Option<Seq<i64>>) -> EntryV {
    match leps {
        Some(l) => if l.contains(code) {
            EntryV { lepton_charge: if code > 0 {
                FP_SCALE as i128
            } else {
                -FP_SCALE as i128
            }, ..e }
        } else {
            e
        },
        None => e,
    }
}

/// One line of the main particle table: comments and short lines are
/// skipped, a malformed row is skipped, a bad numeric field is fatal;
/// a row replaces any earlier row with the same code.
pub open spec fn upload_step(
    st: Seq<(i64, EntryV)>,
    line: Seq<u8>,
    coding: DctCoding,
    leps: Option<Seq<i64>>,
) -> Option<Seq<(i64, EntryV)>> {
    let t = spec_trim(line);
    if t.len() > 0 && t[0] == 33 {
        Some(st)
    } else if t.len() < 10 {
        Some(st)
    } else {
        let toks = spec_tokens(t);
        if toks.len() < 16 {
            Some(st)
        } else if !row_ok(toks) {
            None
        } else {
            let e0 = spec_row(toks);
            let code = dict_code_of(e0, coding);
            let e = with_lepton_charge(e0, code, leps);
            Some(dict_upsert(st, code, e))
        }
    }
}

/// The table built from the first `n` lines.
pub open spec fn upload_run(
    lines: Seq<Seq<u8>>,
    n: int,
    coding: DctCoding,
    leps: Option<Seq<i64>>,
) -> Option<Seq<(i64, EntryV)>>
    decreases n,
{
    if n <= 0 {
        Some(Seq::empty())
    } else {
        match upload_run(lines, n - 1, coding, leps) {
            None => None,
            Some(st) => upload_step(st, lines[n - 1], coding, leps),
        }
    }
}

/// Electric charge synthesized for a nucleus code, from the charge digit
/// group of the code's magnitude.
pub open spec fn nuclei_charge(code: i64) -> i128 {
    let a = if code >= 0 {
        code as int
    } else {
        -(code as int)
    };
    (((a % 10000000) / 10000) * (FP_SCALE as int)) as i128
}

/// The status tag given to synthesized nucleus rows.
pub open spec fn nuclei_status() -> Seq<u8> {
    seq![78u8, 117u8, 99u8, 108u8, 101u8, 105u8]
}

/// The entry synthesized for one nuclei-table row.
pub open spec fn nuclei_entry(code: i64, name: Seq<u8>, mass: i128) -> EntryV {
    EntryV {
        id_EPOS: Some(code),
        id_PDG: Some(code),
        id_QGSJET: None,
        id_GHEISHA: None,
        id_SIBYLL: None,
        name: name,
        ifl1: None,
        ifl2: None,
        ifl3: None,
        counter: None,
        mass: Some(mass),
        charge: Some(nuclei_charge(code)),
        width: None,
        multiplicity: None,
        degeneracy: None,
        status: nuclei_status(),
        lepton_charge: 0,
    }
}

/// One line of the nuclei table: comments and short rows are skipped, a
/// bad numeric field is fatal, and a code already present is kept as it
/// is (appending never overwrites).
pub open spec fn nuclei_step(st: Seq<(i64, EntryV)>, line: Seq<u8>) -> Option<Seq<(i64, EntryV)>> {
    let t = spec_trim(line);
    if t.len() > 0 && t[0] == 33 {
        Some(st)
    } else {
        let toks = spec_tokens(t);
        if toks.len() < 3 {
            Some(st)
        } else {
            match spec_parse_i64(toks[0]) {
                None => None,
                Some(code) => match spec_parse_fixed(toks[2]) {
                    None => None,
                    Some(mass) => if dict_has(st, code) {
                        Some(st)
                    } else {
                        Some(st.push((code, nuclei_entry(code, toks[1], mass))))
                    },
                },
            }
        }
    }
}

/// The table extended by the first `n` nuclei lines.
pub open spec fn nuclei_run(st0: Seq<(i64, EntryV)>, lines: Seq<Seq<u8>>, n: int) -> Option<
    Seq<(i64, EntryV)>,
>
    decreases n,
{
    if n <= 0 {
        Some(st0)
    } else {
        match nuclei_run(st0, lines, n - 1) {
            None => None,
            Some(st) => nuclei_step(st, lines[n - 1]),
        }
    }
}

/// The name with every leading antiparticle marker removed.
pub open spec fn strip_minus(s: Seq<u8>) -> Seq<u8>
    decreases s.len(),
{
    if s.len() > 0 && s[0] == 45 {
        strip_minus(s.drop_first())
    } else {
        s
    }
}

/// Linear name resolution: the first entry whose name matches directly
/// wins; with a leading antiparticle marker, a match against the stripped
/// name yields the negated code.
pub open spec fn spec_resolve(
    s: Seq<(i64, EntryV)>,
    name: Seq<u8>,
    antip: Seq<u8>,
    isanti: bool,
) -> Option<i64>
    decreases s.len(),
{
    if s.len() == 0 {
        None
    } else if s[0].1.name == name {
        Some(s[0].0)
    } else if isanti && s[0].0 != i64::MIN && s[0].1.name == antip {
        Some((-(s[0].0 as int)) as i64)
    } else {
        spec_resolve(s.drop_first(), name, antip, isanti)
    }
}

fn eq_bytes(a: &Vec<u8>, b: &Vec<u8>) -> (r: bool)
    ensures
        r == (a@ == b@),
{
    if a.len() != b.len() {
        proof {
            assert(a@.len() != b@.len());
        }
        return false;
    }
    let n = a.len();
    let mut i: usize = 0;
    while i < n
        invariant
            0 <= i <= n,
            n == a@.len() == b@.len(),
            forall|j: int| 0 <= j < i ==> a@[j] == b@[j],
        decreases n - i,
    {
        if a[i] != b[i] {
            return false;
        }
        i = i + 1;
    }
    proof {
        assert(a@ =~= b@);
    }
    true
}

impl EposDict {
    /// Builds the dictionary from the lines of one particle table, under
    /// the given coding scheme, optionally marking the given codes as
    /// leptons. A later row replaces an earlier row with the same code.
    pub fn upload(lines: &Vec<Vec<u8>>, as_code: DctCoding, leptons: Option<Vec<i64>>) -> (r:
        Result<Self, DictError>)
        ensures
            ({
                let ls = lines.deep_view();
                let leps = match leptons {
                    Some(v) => Some(v@),
                    None => None,
                };
                match r {
                    Ok(d) => upload_run(ls, ls.len() as int, as_code, leps) is Some
                        && d.entries_view() == upload_run(ls, ls.len() as int, as_code, leps)->0
                        && d.charges_bounded() && d.leptons_view() == (match leptons {
                        Some(v) => v@,
                        None => Seq::<i64>::empty(),
                    }),
                    Err(_) => upload_run(ls, ls.len() as int, as_code, leps) is None,
                }
            }),
    {
        let ghost ls = lines.deep_view();
        let ghost leps: Option<Seq<i64>> = match leptons {
            Some(ref v) => Some(v@),
            None => None,
        };
        let mut entries: Vec<(i64, EposDictParticle)> = Vec::new();
        let n = lines.len();
        let mut i: usize = 0;
        proof {
            assert(pairs_view(entries@) =~= Seq::<(i64, EntryV)>::empty());
        }
        while i < n
            invariant
                0 <= i <= n,
                n == lines@.len(),
                ls == lines.deep_view(),
                leps == (match leptons {
                    Some(v) => Some(v@),
                    None => None::<Seq<i64>>,
                }),
                upload_run(ls, i as int, as_code, leps) is Some,
                pairs_view(entries@) == upload_run(ls, i as int, as_code, leps)->0,
            decreases n - i,
        {
            proof {
                assert(ls[i as int] == lines@[i as int]@);
            }
            let t = trim(&lines[i]);
            if t.len() > 0 && t[0] == 33 {
            } else if t.len() < 10 {
            } else {
                match EposDictParticle::from_str(&t) {
                    Err(err) => {
                        proof {
                            lemma_upload_run_none(ls, i + 1, ls.len() as int, as_code, leps);
                        }
                        return Err(err);
                    },
                    Ok(None) => {},
                    Ok(Some(e)) => {
                        let mut e = e;
                        let code: i64 = match as_code {
                            DctCoding::EPOS => match e.id_EPOS {
                                Some(c) => c,
                                None => 99,
                            },
                            DctCoding::PDG => match e.id_PDG {
                                Some(c) => c,
                                None => 99,
                            },
                        };
                        let mut is_lep: bool = false;
                        match leptons {
                            Some(ref lp) => {
                                if vec_contains_i64(lp, code) {
                                    is_lep = true;
                                }
                            },
                            None => {},
                        }
                        if is_lep {
                            e.lepton_charge = if code > 0 {
                                1_000_000_000i128
                            } else {
                                -1_000_000_000i128
                            };
                        }
                        let ghost toks = spec_tokens(spec_trim(ls[i as int]));
                        proof {
                            assert(e@ == with_lepton_charge(spec_row(toks), code, leps));
                        }
                        upsert_entry(&mut entries, code, e);
                    },
                }
            }
            i = i + 1;
        }
        let lept: Vec<i64> = match leptons {
            Some(v) => v,
            None => Vec::new(),
        };
        proof {
            if lept@.len() == 0 {
                assert(lept@ =~= Seq::<i64>::empty());
            }
            lemma_upload_run_fp(ls, ls.len() as int, as_code, leps);
        }
        Ok(Self { entries, leptons: lept })
    }

    /// Extends the dictionary with the lines of a nuclei table: each row
    /// gives a code, a name and a mass, and charge is synthesized from
    /// the code. A code already present is kept unchanged (reported by a
    /// diagnostic inside `insert_code`'s contract), never overwritten.
    pub fn upload_nuclei(&mut self, lines: &Vec<Vec<u8>>) -> (r: Result<(), DictError>)
        ensures
            final(self).leptons_view() == old(self).leptons_view(),
            old(self).charges_bounded() ==> final(self).charges_bounded(),
            ({
                let ls = lines.deep_view();
                match r {
                    Ok(_) => nuclei_run(old(self).entries_view(), ls, ls.len() as int) is Some
                        && final(self).entries_view() == nuclei_run(
                        old(self).entries_view(),
                        ls,
                        ls.len() as int,
                    )->0,
                    Err(_) => nuclei_run(old(self).entries_view(), ls, ls.len() as int) is None,
                }
            }),
    {
        let ghost ls = lines.deep_view();
        let ghost st0 = self.entries_view();
        let n = lines.len();
        let mut i: usize = 0;
        while i < n
            invariant
                0 <= i <= n,
                n == lines@.len(),
                ls == lines.deep_view(),
                st0 == old(self).entries_view(),
                self.leptons@ == old(self).leptons@,
                nuclei_run(st0, ls, i as int) is Some,
                self.entries_view() == nuclei_run(st0, ls, i as int)->0,
                old(self).charges_bounded() ==> self.charges_bounded(),
            decreases n - i,
        {
            proof {
                assert(ls[i as int] == lines@[i as int]@);
            }
            let t = trim(&lines[i]);
            if t.len() > 0 && t[0] == 33 {
            } else {
                let toks = tokens(&t);
                let ghost tk = spec_tokens(spec_trim(ls[i as int]));
                proof {
                    assert(toks.deep_view() == tk);
                }
                if toks.len() < 3 {
                } else {
                    proof {
                        assert(toks@[0]@ == tk[0] && toks@[1]@ == tk[1] && toks@[2]@ == tk[2]);
                    }
                    let code = match parse_i64(&toks[0]) {
                        Some(c) => c,
                        None => {
                            proof {
                                lemma_nuclei_run_none(st0, ls, i + 1, ls.len() as int);
                            }
                            return Err(DictError::BadField);
                        },
                    };
                    let mass = match parse_fixed(&toks[2]) {
                        Some(m) => m,
                        None => {
                            proof {
                                lemma_nuclei_run_none(st0, ls, i + 1, ls.len() as int);
                            }
                            return Err(DictError::BadField);
                        },
                    };
                    let a: i128 = if code >= 0 {
                        code as i128
                    } else {
                        -(code as i128)
                    };
                    let charge: i128 = ((a % 10000000) / 10000) * 1_000_000_000i128;
                    proof {
                        assert(a >= 0);
                        assert(charge == nuclei_charge(code));
                    }
                    let name = toks[1].clone();
                    let mut status: Vec<u8> = Vec::new();
                    status.push(78);
                    status.push(117);
                    status.push(99);
                    status.push(108);
                    status.push(101);
                    status.push(105);
                    proof {
                        assert(status@ =~= nuclei_status());
                    }
                    let v = EposDictParticle {
                        id_EPOS: Some(code),
                        id_PDG: Some(code),
                        id_QGSJET: None,
                        id_GHEISHA: None,
                        id_SIBYLL: None,
                        name: name,
                        ifl1: None,
                        ifl2: None,
                        ifl3: None,
                        counter: None,
                        mass: Some(mass),
                        charge: Some(charge),
                        width: None,
                        multiplicity: None,
                        degeneracy: None,
                        status: status,
                        lepton_charge: 0,
                    };
                    proof {
                        assert(v@ == nuclei_entry(code, tk[1], mass));
                    }
                    let ghost prev = self.entries_view();
                    proof {
                        crate::numeric::lemma_parse_fixed_bounds(tk[2]);
                        lemma_nuclei_charge_fp(code);
                    }
                    let existed = self.insert_code(code, v, false);
                    proof {
                        if existed {
                            assert(self.entries_view() == prev);
                        } else {
                            assert(self.entries_view() == prev.push((code, nuclei_entry(
                                code,
                                tk[1],
                                mass,
                            ))));
                        }
                        lemma_find_code_bounds(prev, code);
                    }
                }
            }
            i = i + 1;
        }
        Ok(())
    }

    /// Resolves a display name to its code by a linear scan; a leading
    /// `-` resolves via the stripped name to the negated code.
    pub fn get_particle_code(&self, name: &Vec<u8>) -> (r: Option<i64>)
        ensures
            r == spec_resolve(
                self.entries_view(),
                name@,
                strip_minus(name@),
                name@.len() > 0 && name@[0] == 45,
            ),
    {
        let isantip = name.len() > 0 && name[0] == 45;
        let mut k: usize = 0;
        proof {
            assert(name@.skip(0) =~= name@);
        }
        while k < name.len() && name[k] == 45
            invariant
                0 <= k <= name@.len(),
                strip_minus(name@) == strip_minus(name@.skip(k as int)),
            decreases name@.len() - k,
        {
            proof {
                assert(name@.skip(k as int).drop_first() =~= name@.skip(k + 1));
            }
            k = k + 1;
        }
        let mut antip: Vec<u8> = Vec::new();
        let mut j: usize = k;
        while j < name.len()
            invariant
                k <= j <= name@.len(),
                antip@ == name@.subrange(k as int, j as int),
            decreases name@.len() - j,
        {
            antip.push(name[j]);
            proof {
                assert(antip@ =~= name@.subrange(k as int, j + 1));
            }
            j = j + 1;
        }
        proof {
            assert(name@.skip(k as int) =~= name@.subrange(k as int, name@.len() as int));
            assert(antip@ =~= strip_minus(name@));
        }
        let ghost sv = self.entries_view();
        let ghost nm = name@;
        let ghost ap = strip_minus(name@);
        let n = self.entries.len();
        let mut i: usize = 0;
        proof {
            assert(sv.skip(0) =~= sv);
        }
        while i < n
            invariant
                0 <= i <= n,
                n == self.entries@.len(),
                sv == self.entries_view(),
                nm == name@,
                ap == strip_minus(name@),
                antip@ == ap,
                isantip == (name@.len() > 0 && name@[0] == 45),
                spec_resolve(sv, nm, ap, isantip) == spec_resolve(
                    sv.skip(i as int),
                    nm,
                    ap,
                    isantip,
                ),
            decreases n - i,
        {
            proof {
                assert(sv.skip(i as int)[0] == sv[i as int]);
                assert(sv.skip(i as int).drop_first() =~= sv.skip(i + 1));
            }
            if eq_bytes(&self.entries[i].1.name, name) {
                return Some(self.entries[i].0);
            }
            if isantip && self.entries[i].0 != i64::MIN && eq_bytes(&self.entries[i].1.name, &antip)
                {
                let c = self.entries[i].0;
                return Some(-c);
            }
            i = i + 1;
        }
        proof {
            assert(sv.skip(n as int) =~= Seq::<(i64, EntryV)>::empty());
        }
        None
    }
}

} // verus!
