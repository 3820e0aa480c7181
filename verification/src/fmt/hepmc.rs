//! HepMC-style format reader and interpreter.
//!
//! Lines are dispatched by their first token letter after trimming: a
//! `HepMC` banner opens the stream, `E` lines open a new event (event id
//! second token, particle count fourth), `W` lines set the weight of the
//! current event, `P` lines add a particle. Lines of an unexpected token
//! count are skipped; a numeric field that fails to parse is fatal; the
//! last event is flushed at end of stream.
use vstd::prelude::*;

use super::decoder::EposDict;
use super::generic::{DataBlock, GenericDataContainer, ParseError};
use crate::numeric::{
    fp_ok, lemma_parse_fixed_bounds, parse_fixed, parse_i64, parse_usize, spec_parse_fixed,
    spec_parse_i64, spec_parse_usize, spec_starts_with, spec_tokens, spec_trim, starts_with,
    tokens, trim,
};

verus! {

/// One HepMC particle record.
#[derive(Debug, Clone, Copy, PartialEq, Eq)]
pub struct HepMCParticle {
    pub code: i64,
    pub status: i64,
    pub mass: i128,
    pub energy: i128,
    pub p: (i128, i128, i128),
}

impl HepMCParticle {
    /// Field bounds that keep kinematics exact.
    pub open spec fn wf(&self) -> bool {
        fp_ok(self.p.0) && fp_ok(self.p.1) && fp_ok(self.p.2) && fp_ok(self.energy) && fp_ok(
            self.mass,
        )
    }
}

/// The particle encoded by the first ten tokens of a `P` line (the first
/// is the letter itself), or `None` when a field fails to parse.
pub open spec fn spec_hepmc_particle(toks: Seq<Seq<u8>>) -> Option<HepMCParticle> {
    if toks.len() < 10 {
        None
    } else {
        let code = spec_parse_i64(toks[3]);
        let px = spec_parse_fixed(toks[4]);
        let py = spec_parse_fixed(toks[5]);
        let pz = spec_parse_fixed(toks[6]);
        let energy = spec_parse_fixed(toks[7]);
        let mass = spec_parse_fixed(toks[8]);
        let status = spec_parse_i64(toks[9]);
        if code is Some && px is Some && py is Some && pz is Some && energy is Some && mass is Some
            && status is Some {
            Some(
                HepMCParticle {
                    code: code->0,
                    status: status->0,
                    mass: mass->0,
                    energy: energy->0,
                    p: (px->0, py->0, pz->0),
                },
            )
        } else {
            None
        }
    }
}

/// Reads a particle from the tokens of one `P` line.
pub fn hepmc_particle_from_tokens(toks: &Vec<Vec<u8>>) -> (r: Result<HepMCParticle, ParseError>)
    requires
        toks.deep_view().len() >= 10,
    ensures
        match r {
            Ok(p) => spec_hepmc_particle(toks.deep_view()) == Some(p) && p.wf(),
            Err(e) => spec_hepmc_particle(toks.deep_view()) is None && e == ParseError::Field,
        },
{
    proof {
        assert forall|i: int| 0 <= i < 10 implies (#[trigger] toks@[i])@ == toks.deep_view()[i] by {
            assert(toks.deep_view()[i] == toks@[i]@);
        }
    }
    let code = match parse_i64(&toks[3]) {
        Some(v) => v,
        None => {
            return Err(ParseError::Field);
        },
    };
    let px = match parse_fixed(&toks[4]) {
        Some(v) => v,
        None => {
            return Err(ParseError::Field);
        },
    };
    let py = match parse_fixed(&toks[5]) {
        Some(v) => v,
        None => {
            return Err(ParseError::Field);
        },
    };
    let pz = match parse_fixed(&toks[6]) {
        Some(v) => v,
        None => {
            return Err(ParseError::Field);
        },
    };
    let energy = match parse_fixed(&toks[7]) {
        Some(v) => v,
        None => {
            return Err(ParseError::Field);
        },
    };
    let mass = match parse_fixed(&toks[8]) {
        Some(v) => v,
        None => {
            return Err(ParseError::Field);
        },
    };
    let status = match parse_i64(&toks[9]) {
        Some(v) => v,
        None => {
            return Err(ParseError::Field);
        },
    };
    proof {
        lemma_parse_fixed_bounds(toks.deep_view()[4]);
        lemma_parse_fixed_bounds(toks.deep_view()[5]);
        lemma_parse_fixed_bounds(toks.deep_view()[6]);
        lemma_parse_fixed_bounds(toks.deep_view()[7]);
        lemma_parse_fixed_bounds(toks.deep_view()[8]);
    }
    Ok(HepMCParticle { code, status, mass, energy, p: (px, py, pz) })
}

/// Block header of a HepMC event.
#[derive(Debug, Clone, Copy, PartialEq, Eq)]
pub struct HepMCBlockHeader {
    pub event_id: usize,
    /// Count of particles in the event description
    pub nout: usize,
    /// weight
    pub weight: i128,
}

/// One HepMC event block.
#[derive(Debug)]
pub struct HepMCBlock {
    /// Block Header
    pub header: HepMCBlockHeader,
    /// Particles
    pub event: Vec<HepMCParticle>,
}

impl HepMCBlock {
    pub open spec fn bview(&self) -> (HepMCBlockHeader, Seq<HepMCParticle>) {
        (self.header, self.event@)
    }

    pub open spec fn wf(&self) -> bool {
        forall|i: int| 0 <= i < self.event@.len() ==> (#[trigger] self.event@[i]).wf()
    }
}

impl DataBlock<HepMCBlockHeader> for HepMCBlock {
    fn get_header(&self) -> &HepMCBlockHeader {
        &self.header
    }
}

/// Run-level header of a HepMC stream: the banner carries no fields the
/// analysis reads.
#[derive(Debug, Clone, Copy, PartialEq, Eq, Structural)]
pub struct HepMCHeader {}

/// Ghost image of a decoder state.
pub ghost struct HmSt {
    pub seen: bool,
    pub cur: Option<(HepMCBlockHeader, Seq<HepMCParticle>)>,
    pub events: Seq<(HepMCBlockHeader, Seq<HepMCParticle>)>,
}

pub open spec fn hepmc_pat() -> Seq<u8> {
    seq![72u8, 101u8, 112u8, 77u8, 67u8]
}

/// Moves a block being accumulated, if any, to the finished events.
pub open spec fn hm_flush(st: HmSt) -> HmSt {
    match st.cur {
        Some(c) => HmSt { seen: st.seen, cur: None, events: st.events.push(c) },
        None => st,
    }
}

/// One trimmed line of a HepMC stream, dispatched by its leading letter.
pub open spec fn hm_step(st: HmSt, line: Seq<u8>) -> Option<HmSt> {
    let t = spec_trim(line);
    if spec_starts_with(t, hepmc_pat()) {
        Some(HmSt { seen: true, cur: st.cur, events: st.events })
    } else if t.len() > 0 && t[0] == 69 {
        let st1 = hm_flush(st);
        let toks = spec_tokens(t);
        if toks.len() < 4 {
            Some(st1)
        } else {
            let eid = spec_parse_usize(toks[1]);
            let nout = spec_parse_usize(toks[3]);
            if eid is Some && nout is Some {
                Some(
                    HmSt {
                        seen: st1.seen,
                        cur: Some(
                            (
                                HepMCBlockHeader { event_id: eid->0, nout: nout->0, weight: 0 },
                                Seq::empty(),
                            ),
                        ),
                        events: st1.events,
                    },
                )
            } else {
                None
            }
        }
    } else if t.len() > 0 && t[0] == 87 {
        match st.cur {
            None => Some(st),
            Some((hd, ps)) => {
                let toks = spec_tokens(t);
                if toks.len() < 2 {
                    Some(st)
                } else {
                    match spec_parse_fixed(toks[1]) {
                        None => None,
                        Some(w) => Some(
                            HmSt {
                                seen: st.seen,
                                cur: Some(
                                    (
                                        HepMCBlockHeader {
                                            event_id: hd.event_id,
                                            nout: hd.nout,
                                            weight: w,
                                        },
                                        ps,
                                    ),
                                ),
                                events: st.events,
                            },
                        ),
                    }
                }
            },
        }
    } else if t.len() > 0 && t[0] == 80 {
        match st.cur {
            None => Some(st),
            Some((hd, ps)) => {
                let toks = spec_tokens(t);
                if toks.len() < 10 {
                    Some(st)
                } else {
                    match spec_hepmc_particle(toks) {
                        None => None,
                        Some(p) => Some(
                            HmSt { seen: st.seen, cur: Some((hd, ps.push(p))), events: st.events },
                        ),
                    }
                }
            },
        }
    } else {
        Some(st)
    }
}

pub open spec fn hm_init() -> HmSt {
    HmSt { seen: false, cur: None, events: Seq::empty() }
}

/// The state after the first `n` lines.
pub open spec fn hm_run(lines: Seq<Seq<u8>>, n: int) -> Option<HmSt>
    decreases n,
{
    if n <= 0 {
        Some(hm_init())
    } else {
        match hm_run(lines, n - 1) {
            None => None,
            Some(st) => hm_step(st, lines[n - 1]),
        }
    }
}

/// The decoded events, or the fatal error.
pub open spec fn hm_result(lines: Seq<Seq<u8>>) -> Result<
    Seq<(HepMCBlockHeader, Seq<HepMCParticle>)>,
    ParseError,
> {
    match hm_run(lines, lines.len() as int) {
        None => Err(ParseError::Field),
        Some(st) => {
            let stf = hm_flush(st);
            if stf.seen {
                Ok(stf.events)
            } else {
                Err(ParseError::MissingHeader)
            }
        },
    }
}

proof fn lemma_hm_run_none(lines: Seq<Seq<u8>>, i: int, n: int)
    requires
        0 <= i <= n,
        hm_run(lines, i) is None,
    ensures
        hm_run(lines, n) is None,
    decreases n - i,
{
    if i < n {
        lemma_hm_run_none(lines, i + 1, n);
    }
}

/// A decoded HepMC stream.
#[derive(Debug)]
pub struct HepMCDataFile {
    header: HepMCHeader,
    events: Vec<HepMCBlock>,
}

impl HepMCDataFile {
    /// Ghost image of the decoded events.
    pub closed spec fn fview(&self) -> Seq<(HepMCBlockHeader, Seq<HepMCParticle>)> {
        self.events@.map_values(|b: HepMCBlock| b.bview())
    }

    /// Every particle of every block is within the parse bounds.
    pub open spec fn wf(&self) -> bool {
        forall|i: int| 0 <= i < self.spec_blocks().len() ==> (#[trigger] self.spec_blocks()[i]).wf()
    }
}

/// Executable decoder state, whose ghost image is an `HmSt`.
struct HmState {
    seen: bool,
    cur: Option<(HepMCBlockHeader, Vec<HepMCParticle>)>,
    events: Vec<HepMCBlock>,
}

impl HmState {
    spec fn view(&self) -> HmSt {
        HmSt {
            seen: self.seen,
            cur: match self.cur {
                Some(c) => Some((c.0, c.1@)),
                None => None,
            },
            events: self.events@.map_values(|b: HepMCBlock| b.bview()),
        }
    }

    spec fn wf(&self) -> bool {
        &&& (match self.cur {
            Some(c) => forall|j: int| 0 <= j < c.1@.len() ==> (#[trigger] c.1@[j]).wf(),
            None => true,
        })
        &&& (forall|j: int| 0 <= j < self.events@.len() ==> (#[trigger] self.events@[j]).wf())
    }

    fn flush(&mut self)
        ensures
            final(self).view() == hm_flush(old(self).view()),
            old(self).wf() ==> final(self).wf(),
    {
        let mut cur: Option<(HepMCBlockHeader, Vec<HepMCParticle>)> = None;
        core::mem::swap(&mut cur, &mut self.cur);
        match cur {
            Some(c) => {
                let ghost prev = self.events@.map_values(|b: HepMCBlock| b.bview());
                self.events.push(HepMCBlock { header: c.0, event: c.1 });
                proof {
                    assert(self.events@.map_values(|b: HepMCBlock| b.bview()) =~= prev.push(
                        (c.0, c.1@),
                    ));
                }
            },
            None => {},
        }
    }
}

fn hepmc_vec() -> (v: Vec<u8>)
    ensures
        v@ == hepmc_pat(),
{
    let mut v: Vec<u8> = Vec::new();
    v.push(72);
    v.push(101);
    v.push(112);
    v.push(77);
    v.push(67);
    proof {
        assert(v@ =~= hepmc_pat());
    }
    v
}

/// Applies one line to the decoder state, per `hm_step`.
#[verifier::rlimit(50)]
fn hm_step_exec(stx: &mut HmState, line: &Vec<u8>, banner: &Vec<u8>) -> (r: Result<
    (),
    ParseError,
>)
    requires
        banner@ == hepmc_pat(),
    ensures
        match r {
            Ok(_) => hm_step(old(stx).view(), line@) == Some(final(stx).view()) && (old(stx).wf()
                ==> final(stx).wf()),
            Err(e) => hm_step(old(stx).view(), line@) is None && e == ParseError::Field,
        },
{
    let t = trim(line);
    if starts_with(&t, banner) {
        stx.seen = true;
        return Ok(());
    }
    if t.len() > 0 && t[0] == 69 {
        stx.flush();
        let toks = tokens(&t);
        let ghost tk = spec_tokens(spec_trim(line@));
        proof {
            assert(toks.deep_view() == tk);
            assert(toks@.len() == tk.len());
        }
        if toks.len() < 4 {
            return Ok(());
        }
        proof {
            assert(toks@[1]@ == tk[1]);
            assert(toks@[3]@ == tk[3]);
        }
        let eid = match parse_usize(&toks[1]) {
            Some(v) => v,
            None => {
                return Err(ParseError::Field);
            },
        };
        let nout = match parse_usize(&toks[3]) {
            Some(v) => v,
            None => {
                return Err(ParseError::Field);
            },
        };
        let fresh: Vec<HepMCParticle> = Vec::new();
        proof {
            assert(fresh@ =~= Seq::<HepMCParticle>::empty());
        }
        stx.cur = Some((HepMCBlockHeader { event_id: eid, nout, weight: 0 }, fresh));
        Ok(())
    } else if t.len() > 0 && t[0] == 87 {
        let has_cur = match stx.cur {
            Some(_) => true,
            None => false,
        };
        if !has_cur {
            return Ok(());
        }
        let toks = tokens(&t);
        let ghost tk = spec_tokens(spec_trim(line@));
        proof {
            assert(toks.deep_view() == tk);
            assert(toks@.len() == tk.len());
        }
        if toks.len() < 2 {
            return Ok(());
        }
        proof {
            assert(toks@[1]@ == tk[1]);
        }
        match parse_fixed(&toks[1]) {
            None => Err(ParseError::Field),
            Some(w) => {
                match stx.cur {
                    Some(ref mut c) => {
                        c.0.weight = w;
                    },
                    None => {},
                }
                Ok(())
            },
        }
    } else if t.len() > 0 && t[0] == 80 {
        let has_cur = match stx.cur {
            Some(_) => true,
            None => false,
        };
        if !has_cur {
            return Ok(());
        }
        let toks = tokens(&t);
        let ghost tk = spec_tokens(spec_trim(line@));
        proof {
            assert(toks.deep_view() == tk);
            assert(toks@.len() == tk.len());
        }
        if toks.len() < 10 {
            return Ok(());
        }
        match hepmc_particle_from_tokens(&toks) {
            Err(e) => Err(e),
            Ok(p) => {
                match stx.cur {
                    Some(ref mut c) => {
                        c.1.push(p);
                    },
                    None => {},
                }
                Ok(())
            },
        }
    } else {
        Ok(())
    }
}

impl GenericDataContainer for HepMCDataFile {
    type Header = HepMCHeader;

    type BlockHeader = HepMCBlockHeader;

    type Block = HepMCBlock;

    closed spec fn spec_header(&self) -> HepMCHeader {
        self.header
    }

    closed spec fn spec_blocks(&self) -> Seq<HepMCBlock> {
        self.events@
    }

    fn get_header(&self) -> &HepMCHeader {
        &self.header
    }

    fn get_blocks(&self) -> &Vec<HepMCBlock> {
        &self.events
    }

    fn borrow_blocks(self) -> Vec<HepMCBlock> {
        self.events
    }

    /// Decodes a HepMC stream per `hm_result`.
    fn upload(lines: &Vec<Vec<u8>>, _decoder: &EposDict) -> (r: Result<Self, ParseError>)
        ensures
            match r {
                Ok(df) => hm_result(lines.deep_view()) == Ok::<_, ParseError>(df.fview())
                    && df.wf(),
                Err(e) => hm_result(lines.deep_view()) == Err::<
                    Seq<(HepMCBlockHeader, Seq<HepMCParticle>)>,
                    ParseError,
                >(e),
            },
    {
        let ghost ls = lines.deep_view();
        let mut stx = HmState { seen: false, cur: None, events: Vec::new() };
        let n = lines.len();
        let mut i: usize = 0;
        let banner = hepmc_vec();
        proof {
            assert(stx.view().events =~= Seq::<(HepMCBlockHeader, Seq<HepMCParticle>)>::empty());
            assert(stx.view() == hm_init());
        }
        while i < n
            invariant
                0 <= i <= n,
                n == lines@.len(),
                ls == lines.deep_view(),
                banner@ == hepmc_pat(),
                hm_run(ls, i as int) is Some,
                stx.view() == hm_run(ls, i as int)->0,
                stx.wf(),
            decreases n - i,
        {
            proof {
                assert(ls[i as int] == lines@[i as int]@);
            }
            match hm_step_exec(&mut stx, &lines[i], &banner) {
                Ok(_) => {},
                Err(e) => {
                    proof {
                        lemma_hm_run_none(ls, i + 1, ls.len() as int);
                    }
                    return Err(e);
                },
            }
            i = i + 1;
        }
        stx.flush();
        if stx.seen {
            Ok(Self { header: HepMCHeader {  }, events: stx.events })
        } else {
            Err(ParseError::MissingHeader)
        }
    }

    fn push_back(&mut self, mut t: Self) {
        self.events.append(&mut t.events);
    }
}

} // verus!
