//! QGSM format reader and interpreter.
//!
//! The first lines may carry a run banner (holding `Results of QGSM`)
//! and a collision-energy line (holding `sqrt(s)=`); event blocks then
//! follow: a five-token header line (event id, particle count, impact
//! parameter and its components), then particle lines of eleven or more
//! tokens. Lines of an unexpected token count are skipped; a numeric
//! field that fails to parse is fatal; the last event is flushed at end
//! of stream.
use vstd::prelude::*;

use super::decoder::EposDict;
use super::generic::{DataBlock, GenericDataContainer, ParseError};
use crate::numeric::{
    fp_ok, lemma_find_sub_props, lemma_parse_fixed_bounds, parse_fixed, parse_i64, parse_usize,
    spec_find_sub, spec_parse_fixed, spec_parse_i64, spec_parse_usize, spec_tokens, spec_trim,
    find_sub, tokens, trim,
};

verus! {

/// Bound on the integral charge-like columns, so that scaling them to
/// fixed point cannot overflow.
pub const QGSM_COL_LIM: i64 = 1_000_000_000;

/// One QGSM particle record.
#[derive(Debug, Clone, Copy, PartialEq, Eq)]
pub struct QGSMParticle {
    pub charge: i64,
    pub lepton_number: i64,
    pub strangeness: i64,
    pub baryon_number: i64,
    pub code: i64,
    pub p: (i128, i128, i128),
    pub p_lab_z: i128,
    pub mass: i128,
}

impl QGSMParticle {
    /// Field bounds that keep kinematics and charge scaling exact.
    pub open spec fn wf(&self) -> bool {
        fp_ok(self.p.0) && fp_ok(self.p.1) && fp_ok(self.p.2) && fp_ok(self.p_lab_z) && fp_ok(
            self.mass,
        ) && -QGSM_COL_LIM <= self.charge <= QGSM_COL_LIM && -QGSM_COL_LIM <= self.lepton_number
            <= QGSM_COL_LIM && -QGSM_COL_LIM <= self.strangeness <= QGSM_COL_LIM && -QGSM_COL_LIM
            <= self.baryon_number <= QGSM_COL_LIM
    }
}

/// The particle encoded by the first eleven tokens of a line (the tenth
/// is unused by the format), or `None` when a field fails to parse or a
/// charge column is out of bounds.
pub open spec fn spec_qgsm_particle(toks: Seq<Seq<u8>>) -> Option<QGSMParticle> {
    if toks.len() < 11 {
        None
    } else {
        let charge = spec_parse_i64(toks[0]);
        let lepton = spec_parse_i64(toks[1]);
        let strange = spec_parse_i64(toks[2]);
        let baryon = spec_parse_i64(toks[3]);
        let code = spec_parse_i64(toks[4]);
        let px = spec_parse_fixed(toks[5]);
        let py = spec_parse_fixed(toks[6]);
        let pz = spec_parse_fixed(toks[7]);
        let plz = spec_parse_fixed(toks[8]);
        let mass = spec_parse_fixed(toks[10]);
        if charge is Some && -QGSM_COL_LIM <= charge->0 <= QGSM_COL_LIM && lepton is Some
            && -QGSM_COL_LIM <= lepton->0 <= QGSM_COL_LIM && strange is Some && -QGSM_COL_LIM
            <= strange->0 <= QGSM_COL_LIM && baryon is Some && -QGSM_COL_LIM <= baryon->0
            <= QGSM_COL_LIM && code is Some && px is Some && py is Some && pz is Some && plz is Some
            && mass is Some {
            Some(
                QGSMParticle {
                    charge: charge->0,
                    lepton_number: lepton->0,
                    strangeness: strange->0,
                    baryon_number: baryon->0,
                    code: code->0,
                    p: (px->0, py->0, pz->0),
                    p_lab_z: plz->0,
                    mass: mass->0,
                },
            )
        } else {
            None
        }
    }
}

/// Reads a particle from the tokens of one line.
pub fn qgsm_particle_from_tokens(toks: &Vec<Vec<u8>>) -> (r: Result<QGSMParticle, ParseError>)
    requires
        toks.deep_view().len() >= 11,
    ensures
        match r {
            Ok(p) => spec_qgsm_particle(toks.deep_view()) == Some(p) && p.wf(),
            Err(e) => spec_qgsm_particle(toks.deep_view()) is None && e == ParseError::Field,
        },
{
    proof {
        assert forall|i: int| 0 <= i < 11 implies (#[trigger] toks@[i])@ == toks.deep_view()[i] by {
            assert(toks.deep_view()[i] == toks@[i]@);
        }
    }
    let charge = match parse_i64(&toks[0]) {
        Some(v) => v,
        None => {
            return Err(ParseError::Field);
        },
    };
    let lepton_number = match parse_i64(&toks[1]) {
        Some(v) => v,
        None => {
            return Err(ParseError::Field);
        },
    };
    let strangeness = match parse_i64(&toks[2]) {
        Some(v) => v,
        None => {
            return Err(ParseError::Field);
        },
    };
    let baryon_number = match parse_i64(&toks[3]) {
        Some(v) => v,
        None => {
            return Err(ParseError::Field);
        },
    };
    if charge < -QGSM_COL_LIM || charge > QGSM_COL_LIM || lepton_number < -QGSM_COL_LIM
        || lepton_number > QGSM_COL_LIM || strangeness < -QGSM_COL_LIM || strangeness > QGSM_COL_LIM
        || baryon_number < -QGSM_COL_LIM || baryon_number > QGSM_COL_LIM {
        return Err(ParseError::Field);
    }
    let code = match parse_i64(&toks[4]) {
        Some(v) => v,
        None => {
            return Err(ParseError::Field);
        },
    };
    let px = match parse_fixed(&toks[5]) {
        Some(v) => v,
        None => {
            return Err(ParseError::Field);
        },
    };
    let py = match parse_fixed(&toks[6]) {
        Some(v) => v,
        None => {
            return Err(ParseError::Field);
        },
    };
    let pz = match parse_fixed(&toks[7]) {
        Some(v) => v,
        None => {
            return Err(ParseError::Field);
        },
    };
    let p_lab_z = match parse_fixed(&toks[8]) {
        Some(v) => v,
        None => {
            return Err(ParseError::Field);
        },
    };
    let mass = match parse_fixed(&toks[10]) {
        Some(v) => v,
        None => {
            return Err(ParseError::Field);
        },
    };
    proof {
        lemma_parse_fixed_bounds(toks.deep_view()[5]);
        lemma_parse_fixed_bounds(toks.deep_view()[6]);
        lemma_parse_fixed_bounds(toks.deep_view()[7]);
        lemma_parse_fixed_bounds(toks.deep_view()[8]);
        lemma_parse_fixed_bounds(toks.deep_view()[10]);
    }
    Ok(
        QGSMParticle {
            charge,
            lepton_number,
            strangeness,
            baryon_number,
            code,
            p: (px, py, pz),
            p_lab_z,
            mass,
        },
    )
}

/// Block header of a QGSM event.
#[derive(Debug, Clone, Copy, PartialEq, Eq)]
pub struct QGSMBlockHeader {
    pub event_id: usize,
    /// Count of particles in the event description
    pub nout: usize,
    /// impact parameter
    pub b: i128,
    pub bx: i128,
    pub by: i128,
}

/// One QGSM event block.
#[derive(Debug)]
pub struct QGSMBlock {
    /// Block Header
    pub header: QGSMBlockHeader,
    /// Particles
    pub event: Vec<QGSMParticle>,
}

impl QGSMBlock {
    pub open spec fn bview(&self) -> (QGSMBlockHeader, Seq<QGSMParticle>) {
        (self.header, self.event@)
    }

    pub open spec fn wf(&self) -> bool {
        forall|i: int| 0 <= i < self.event@.len() ==> (#[trigger] self.event@[i]).wf()
    }
}

impl DataBlock<QGSMBlockHeader> for QGSMBlock {
    fn get_header(&self) -> &QGSMBlockHeader {
        &self.header
    }
}

/// Run-level header of a QGSM stream.
#[derive(Debug)]
pub struct QGSMHeader {
    /// Collision Energy
    pub snn: i128,
    /// QGSM run banner line.
    pub event_signature: Vec<u8>,
}

/// Ghost image of a decoder state.
pub ghost struct QgSt {
    pub header: Option<(i128, Seq<u8>)>,
    pub cur: Option<(QGSMBlockHeader, Seq<QGSMParticle>)>,
    pub events: Seq<(QGSMBlockHeader, Seq<QGSMParticle>)>,
}

/// The run banner pattern.
pub open spec fn results_pat() -> Seq<u8> {
    seq![82u8, 101u8, 115u8, 117u8, 108u8, 116u8, 115u8, 32u8, 111u8, 102u8, 32u8, 81u8, 71u8, 83u8, 77u8]
}

/// The collision-energy marker.
pub open spec fn sqrts_pat() -> Seq<u8> {
    seq![115u8, 113u8, 114u8, 116u8, 40u8, 115u8, 41u8, 61u8]
}

/// Moves a block being accumulated, if any, to the finished events.
pub open spec fn qg_flush(st: QgSt) -> QgSt {
    match st.cur {
        Some(c) => QgSt { header: st.header, cur: None, events: st.events.push(c) },
        None => st,
    }
}

/// One line of a QGSM stream. Within the first four lines, the run
/// banner sets the header (energy 0 until the `sqrt(s)=` line supplies
/// it, between the marker and the next `)`); an energy line before the
/// banner is fatal. Past them, a five-token line opens a new event and a
/// line of eleven or more tokens inside a block adds a particle.
pub open spec fn qg_step(st: QgSt, line: Seq<u8>, idx: int) -> Result<QgSt, ParseError> {
    if idx <= 3 && spec_find_sub(line, results_pat()) is Some {
        Ok(QgSt { header: Some((0, spec_trim(line))), cur: st.cur, events: st.events })
    } else if idx <= 3 && spec_find_sub(line, sqrts_pat()) is Some {
        let i = spec_find_sub(line, sqrts_pat())->0;
        let after = line.skip(i + 8);
        match spec_find_sub(after, seq![41u8]) {
            None => Ok(st),
            Some(j) => {
                let seg = spec_trim(after.take(j));
                match spec_parse_fixed(seg) {
                    None => Err(ParseError::Field),
                    Some(v) => match st.header {
                        None => Err(ParseError::MissingHeader),
                        Some((_old, sig)) => Ok(
                            QgSt { header: Some((v, sig)), cur: st.cur, events: st.events },
                        ),
                    },
                }
            },
        }
    } else if idx > 3 {
        let toks = spec_tokens(line);
        if toks.len() == 5 {
            let eid = spec_parse_usize(toks[0]);
            let nout = spec_parse_usize(toks[1]);
            let b = spec_parse_fixed(toks[2]);
            let bx = spec_parse_fixed(toks[3]);
            let by = spec_parse_fixed(toks[4]);
            if eid is Some && nout is Some && b is Some && bx is Some && by is Some {
                let st1 = qg_flush(st);
                Ok(
                    QgSt {
                        header: st1.header,
                        cur: Some(
                            (
                                QGSMBlockHeader {
                                    event_id: eid->0,
                                    nout: nout->0,
                                    b: b->0,
                                    bx: bx->0,
                                    by: by->0,
                                },
                                Seq::empty(),
                            ),
                        ),
                        events: st1.events,
                    },
                )
            } else {
                Err(ParseError::Field)
            }
        } else if toks.len() >= 6 {
            match st.cur {
                None => Ok(st),
                Some((hd, ps)) => {
                    if toks.len() < 11 {
                        Ok(st)
                    } else {
                        match spec_qgsm_particle(toks) {
                            None => Err(ParseError::Field),
                            Some(p) => Ok(
                                QgSt { header: st.header, cur: Some((hd, ps.push(p))), events: st.events },
                            ),
                        }
                    }
                },
            }
        } else {
            Ok(st)
        }
    } else {
        Ok(st)
    }
}

pub open spec fn qg_init() -> QgSt {
    QgSt { header: None, cur: None, events: Seq::empty() }
}

/// The state after the first `n` lines.
pub open spec fn qg_run(lines: Seq<Seq<u8>>, n: int) -> Result<QgSt, ParseError>
    decreases n,
{
    if n <= 0 {
        Ok(qg_init())
    } else {
        match qg_run(lines, n - 1) {
            Err(e) => Err(e),
            Ok(st) => qg_step(st, lines[n - 1], n - 1),
        }
    }
}

/// The decoded file, or the fatal error.
pub open spec fn qg_result(lines: Seq<Seq<u8>>) -> Result<
    ((i128, Seq<u8>), Seq<(QGSMBlockHeader, Seq<QGSMParticle>)>),
    ParseError,
> {
    match qg_run(lines, lines.len() as int) {
        Err(e) => Err(e),
        Ok(st) => {
            let stf = qg_flush(st);
            match stf.header {
                None => Err(ParseError::MissingHeader),
                Some(h) => Ok((h, stf.events)),
            }
        },
    }
}

proof fn lemma_qg_run_err(lines: Seq<Seq<u8>>, i: int, n: int)
    requires
        0 <= i <= n,
        qg_run(lines, i) is Err,
    ensures
        qg_run(lines, n) is Err,
        qg_run(lines, n) == qg_run(lines, i),
    decreases n - i,
{
    if i < n {
        lemma_qg_run_err(lines, i + 1, n);
    }
}

/// A decoded QGSM stream.
#[derive(Debug)]
pub struct QGSMDataFile {
    header: QGSMHeader,
    events: Vec<QGSMBlock>,
}

impl QGSMDataFile {
    /// Ghost image of the whole file.
    pub closed spec fn fview(&self) -> ((i128, Seq<u8>), Seq<(QGSMBlockHeader, Seq<QGSMParticle>)>) {
        (
            (self.header.snn, self.header.event_signature@),
            self.events@.map_values(|b: QGSMBlock| b.bview()),
        )
    }

    /// Every particle of every block is within the parse bounds.
    pub open spec fn wf(&self) -> bool {
        forall|i: int| 0 <= i < self.spec_blocks().len() ==> (#[trigger] self.spec_blocks()[i]).wf()
    }
}

/// Executable decoder state, whose ghost image is a `QgSt`.
struct QgState {
    header: Option<QGSMHeader>,
    cur: Option<(QGSMBlockHeader, Vec<QGSMParticle>)>,
    events: Vec<QGSMBlock>,
}

impl QgState {
    spec fn view(&self) -> QgSt {
        QgSt {
            header: match self.header {
                Some(h) => Some((h.snn, h.event_signature@)),
                None => None,
            },
            cur: match self.cur {
                Some(c) => Some((c.0, c.1@)),
                None => None,
            },
            events: self.events@.map_values(|b: QGSMBlock| b.bview()),
        }
    }

    spec fn wf(&self) -> bool {
        &&& (match self.cur {
            Some(c) => forall|j: int| 0 <= j < c.1@.len() ==> (#[trigger] c.1@[j]).wf(),
            None => true,
        })
        &&& (forall|j: int| 0 <= j < self.events@.len() ==> (#[trigger] self.events@[j]).wf())
    }

    fn flush(&mut self)
        ensures
            final(self).view() == qg_flush(old(self).view()),
            old(self).wf() ==> final(self).wf(),
    {
        let mut cur: Option<(QGSMBlockHeader, Vec<QGSMParticle>)> = None;
        core::mem::swap(&mut cur, &mut self.cur);
        match cur {
            Some(c) => {
                let ghost prev = self.events@.map_values(|b: QGSMBlock| b.bview());
                self.events.push(QGSMBlock { header: c.0, event: c.1 });
                proof {
                    assert(self.events@.map_values(|b: QGSMBlock| b.bview()) =~= prev.push(
                        (c.0, c.1@),
                    ));
                }
            },
            None => {},
        }
    }
}

/// Applies one line to the decoder state, per `qg_step`.
#[verifier::rlimit(50)]
fn qg_step_exec(
    stx: &mut QgState,
    line: &Vec<u8>,
    idx: usize,
    results: &Vec<u8>,
    sqrts: &Vec<u8>,
) -> (r: Result<(), ParseError>)
    requires
        results@ == results_pat(),
        sqrts@ == sqrts_pat(),
    ensures
        match r {
            Ok(_) => qg_step(old(stx).view(), line@, idx as int) == Ok::<QgSt, ParseError>(
                final(stx).view(),
            ) && (old(stx).wf() ==> final(stx).wf()),
            Err(e) => qg_step(old(stx).view(), line@, idx as int) == Err::<QgSt, ParseError>(e),
        },
{
    if idx <= 3 {
        let has_results = match find_sub(line, results) {
            Some(_) => true,
            None => false,
        };
        if has_results {
            let sig = trim(line);
            stx.header = Some(QGSMHeader { snn: 0, event_signature: sig });
            return Ok(());
        }
        let sq = find_sub(line, sqrts);
        match sq {
            Some(ix) => {
                let ln: usize = line.len();
                proof {
                    lemma_find_sub_props(line@, sqrts_pat());
                    assert(ix + 8 <= ln);
                }
                let mut after: Vec<u8> = Vec::new();
                let mut k: usize = ix + 8;
                while k < line.len()
                    invariant
                        ix + 8 <= k <= line@.len(),
                        after@ == line@.subrange(ix + 8, k as int),
                    decreases line@.len() - k,
                {
                    after.push(line[k]);
                    proof {
                        assert(after@ =~= line@.subrange(ix + 8, k + 1));
                    }
                    k = k + 1;
                }
                proof {
                    assert(after@ =~= line@.skip(ix + 8));
                }
                let mut close: Vec<u8> = Vec::new();
                close.push(41);
                proof {
                    assert(close@ =~= seq![41u8]);
                }
                match find_sub(&after, &close) {
                    None => Ok(()),
                    Some(j) => {
                        let mut seg: Vec<u8> = Vec::new();
                        let mut k2: usize = 0;
                        proof {
                            lemma_find_sub_props(after@, seq![41u8]);
                        }
                        while k2 < j
                            invariant
                                0 <= k2 <= j <= after@.len(),
                                seg@ == after@.subrange(0, k2 as int),
                            decreases j - k2,
                        {
                            seg.push(after[k2]);
                            proof {
                                assert(seg@ =~= after@.subrange(0, k2 + 1));
                            }
                            k2 = k2 + 1;
                        }
                        proof {
                            assert(seg@ =~= after@.take(j as int));
                        }
                        let segt = trim(&seg);
                        match parse_fixed(&segt) {
                            None => Err(ParseError::Field),
                            Some(v) => {
                                let mut hdr: Option<QGSMHeader> = None;
                                core::mem::swap(&mut hdr, &mut stx.header);
                                match hdr {
                                    None => Err(ParseError::MissingHeader),
                                    Some(h) => {
                                        stx.header = Some(
                                            QGSMHeader {
                                                snn: v,
                                                event_signature: h.event_signature,
                                            },
                                        );
                                        Ok(())
                                    },
                                }
                            },
                        }
                    },
                }
            },
            None => {
                // first lines that carry neither marker are skipped
                Ok(())
            },
        }
    } else {
        let toks = tokens(line);
        let ghost tk = spec_tokens(line@);
        proof {
            assert(toks.deep_view() == tk);
            assert(toks@.len() == tk.len());
        }
        if toks.len() == 5 {
            proof {
                assert forall|i: int| 0 <= i < 5 implies (#[trigger] toks@[i])@ == tk[i] by {
                    assert(toks.deep_view()[i] == toks@[i]@);
                }
            }
            let eid = match parse_usize(&toks[0]) {
                Some(v) => v,
                None => {
                    return Err(ParseError::Field);
                },
            };
            let nout = match parse_usize(&toks[1]) {
                Some(v) => v,
                None => {
                    return Err(ParseError::Field);
                },
            };
            let b = match parse_fixed(&toks[2]) {
                Some(v) => v,
                None => {
                    return Err(ParseError::Field);
                },
            };
            let bx = match parse_fixed(&toks[3]) {
                Some(v) => v,
                None => {
                    return Err(ParseError::Field);
                },
            };
            let by = match parse_fixed(&toks[4]) {
                Some(v) => v,
                None => {
                    return Err(ParseError::Field);
                },
            };
            stx.flush();
            let fresh: Vec<QGSMParticle> = Vec::new();
            proof {
                assert(fresh@ =~= Seq::<QGSMParticle>::empty());
            }
            stx.cur = Some((QGSMBlockHeader { event_id: eid, nout, b, bx, by }, fresh));
            Ok(())
        } else if toks.len() >= 6 {
            let has_cur = match stx.cur {
                Some(_) => true,
                None => false,
            };
            if !has_cur {
                Ok(())
            } else if toks.len() < 11 {
                Ok(())
            } else {
                match qgsm_particle_from_tokens(&toks) {
                    Err(e) => Err(e),
                    Ok(p) => {
                        match stx.cur {
                            Some(ref mut c) => {
                                c.1.push(p);
                            },
                            None => {},
                        }
                        Ok(())
                    },
                }
            }
        } else {
            Ok(())
        }
    }
}

fn results_vec() -> (v: Vec<u8>)
    ensures
        v@ == results_pat(),
{
    let mut v: Vec<u8> = Vec::new();
    v.push(82);
    v.push(101);
    v.push(115);
    v.push(117);
    v.push(108);
    v.push(116);
    v.push(115);
    v.push(32);
    v.push(111);
    v.push(102);
    v.push(32);
    v.push(81);
    v.push(71);
    v.push(83);
    v.push(77);
    proof {
        assert(v@ =~= results_pat());
    }
    v
}

fn sqrts_vec() -> (v: Vec<u8>)
    ensures
        v@ == sqrts_pat(),
{
    let mut v: Vec<u8> = Vec::new();
    v.push(115);
    v.push(113);
    v.push(114);
    v.push(116);
    v.push(40);
    v.push(115);
    v.push(41);
    v.push(61);
    proof {
        assert(v@ =~= sqrts_pat());
    }
    v
}

impl GenericDataContainer for QGSMDataFile {
    type Header = QGSMHeader;

    type BlockHeader = QGSMBlockHeader;

    type Block = QGSMBlock;

    closed spec fn spec_header(&self) -> QGSMHeader {
        self.header
    }

    closed spec fn spec_blocks(&self) -> Seq<QGSMBlock> {
        self.events@
    }

    fn get_header(&self) -> &QGSMHeader {
        &self.header
    }

    fn get_blocks(&self) -> &Vec<QGSMBlock> {
        &self.events
    }

    fn borrow_blocks(self) -> Vec<QGSMBlock> {
        self.events
    }

    /// Decodes a QGSM stream per `qg_result`.
    fn upload(lines: &Vec<Vec<u8>>, _decoder: &EposDict) -> (r: Result<Self, ParseError>)
        ensures
            match r {
                Ok(df) => qg_result(lines.deep_view()) == Ok::<_, ParseError>(df.fview())
                    && df.wf(),
                Err(e) => qg_result(lines.deep_view()) == Err::<
                    ((i128, Seq<u8>), Seq<(QGSMBlockHeader, Seq<QGSMParticle>)>),
                    ParseError,
                >(e),
            },
    {
        let ghost ls = lines.deep_view();
        let mut stx = QgState { header: None, cur: None, events: Vec::new() };
        let n = lines.len();
        let mut i: usize = 0;
        let results: Vec<u8> = results_vec();
        let sqrts: Vec<u8> = sqrts_vec();
        proof {
            assert(stx.view().events =~= Seq::<(QGSMBlockHeader, Seq<QGSMParticle>)>::empty());
            assert(stx.view() == qg_init());
        }
        while i < n
            invariant
                0 <= i <= n,
                n == lines@.len(),
                ls == lines.deep_view(),
                results@ == results_pat(),
                sqrts@ == sqrts_pat(),
                qg_run(ls, i as int) is Ok,
                stx.view() == qg_run(ls, i as int)->Ok_0,
                stx.wf(),
            decreases n - i,
        {
            proof {
                assert(ls[i as int] == lines@[i as int]@);
            }
            match qg_step_exec(&mut stx, &lines[i], i, &results, &sqrts) {
                Ok(_) => {},
                Err(e) => {
                    proof {
                        lemma_qg_run_err(ls, i + 1, ls.len() as int);
                    }
                    return Err(e);
                },
            }
            i = i + 1;
        }
        stx.flush();
        match stx.header {
            Some(h) => Ok(Self { header: h, events: stx.events }),
            None => Err(ParseError::MissingHeader),
        }
    }

    fn push_back(&mut self, mut t: Self) {
        self.events.append(&mut t.events);
    }
}

} // verus!
