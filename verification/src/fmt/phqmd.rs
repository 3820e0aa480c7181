//! PHQMD format reader and interpreter.
//!
//! Repeated event blocks: a five-token header line (first token the
//! particle count) whose following line is always skipped, then particle
//! lines of nine or more tokens. Lines of an unexpected token count are
//! skipped; a numeric field that fails to parse is fatal; the last event
//! is flushed at end of stream. There is no run-level header.
use vstd::prelude::*;

use super::decoder::EposDict;
use super::generic::{DataBlock, GenericDataContainer, ParseError};
use crate::numeric::{
    fp_ok, lemma_parse_fixed_bounds, parse_fixed, parse_i64, parse_usize, spec_parse_fixed,
    spec_parse_i64, spec_parse_usize, spec_tokens, tokens,
};

verus! {

/// Bound on the integral charge-like columns, so that scaling them to
/// fixed point cannot overflow.
pub const CHARGE_COL_LIM: i64 = 1_000_000_000;

/// One PHQMD particle record.
#[derive(Debug, Clone, Copy, PartialEq, Eq)]
pub struct PHQMDParticle {
    pub code: i64,
    pub charge: i64,
    pub p: (i128, i128, i128),
    pub E: i128,
    pub id: usize,
}

impl PHQMDParticle {
    /// Field bounds that keep kinematics and charge scaling exact.
    pub open spec fn wf(&self) -> bool {
        fp_ok(self.p.0) && fp_ok(self.p.1) && fp_ok(self.p.2) && fp_ok(self.E)
            && -CHARGE_COL_LIM <= self.charge <= CHARGE_COL_LIM
    }
}

/// The particle encoded by the first nine tokens of a line, or `None`
/// when a field fails to parse or the charge column is out of bounds.
pub open spec fn spec_phqmd_particle(toks: Seq<Seq<u8>>) -> Option<PHQMDParticle> {
    if toks.len() < 9 {
        None
    } else {
        let code = spec_parse_i64(toks[0]);
        let charge = spec_parse_i64(toks[1]);
        let px = spec_parse_fixed(toks[2]);
        let py = spec_parse_fixed(toks[3]);
        let pz = spec_parse_fixed(toks[4]);
        let e = spec_parse_fixed(toks[5]);
        let id = spec_parse_usize(toks[8]);
        if code is Some && charge is Some && -CHARGE_COL_LIM <= charge->0 <= CHARGE_COL_LIM
            && px is Some && py is Some && pz is Some && e is Some && id is Some {
            Some(
                PHQMDParticle {
                    code: code->0,
                    charge: charge->0,
                    p: (px->0, py->0, pz->0),
                    E: e->0,
                    id: id->0,
                },
            )
        } else {
            None
        }
    }
}

/// Reads a particle from the tokens of one line.
pub fn phqmd_particle_from_tokens(toks: &Vec<Vec<u8>>) -> (r: Result<PHQMDParticle, ParseError>)
    requires
        toks.deep_view().len() >= 9,
    ensures
        match r {
            Ok(p) => spec_phqmd_particle(toks.deep_view()) == Some(p) && p.wf(),
            Err(e) => spec_phqmd_particle(toks.deep_view()) is None && e == ParseError::Field,
        },
{
    proof {
        assert forall|i: int| 0 <= i < 9 implies (#[trigger] toks@[i])@ == toks.deep_view()[i] by {
            assert(toks.deep_view()[i] == toks@[i]@);
        }
    }
    let code = match parse_i64(&toks[0]) {
        Some(v) => v,
        None => {
            return Err(ParseError::Field);
        },
    };
    let charge = match parse_i64(&toks[1]) {
        Some(v) => v,
        None => {
            return Err(ParseError::Field);
        },
    };
    if charge < -CHARGE_COL_LIM || charge > CHARGE_COL_LIM {
        return Err(ParseError::Field);
    }
    let px = match parse_fixed(&toks[2]) {
        Some(v) => v,
        None => {
            return Err(ParseError::Field);
        },
    };
    let py = match parse_fixed(&toks[3]) {
        Some(v) => v,
        None => {
            return Err(ParseError::Field);
        },
    };
    let pz = match parse_fixed(&toks[4]) {
        Some(v) => v,
        None => {
            return Err(ParseError::Field);
        },
    };
    let e = match parse_fixed(&toks[5]) {
        Some(v) => v,
        None => {
            return Err(ParseError::Field);
        },
    };
    let id = match parse_usize(&toks[8]) {
        Some(v) => v,
        None => {
            return Err(ParseError::Field);
        },
    };
    proof {
        lemma_parse_fixed_bounds(toks.deep_view()[2]);
        lemma_parse_fixed_bounds(toks.deep_view()[3]);
        lemma_parse_fixed_bounds(toks.deep_view()[4]);
        lemma_parse_fixed_bounds(toks.deep_view()[5]);
    }
    Ok(PHQMDParticle { code, charge, p: (px, py, pz), E: e, id })
}

/// Block header of a PHQMD event.
#[derive(Debug, Clone, Copy, PartialEq, Eq, Structural)]
pub struct PHQMDBlockHeader {
    /// Count of particles in the event description
    pub nout: usize,
}

/// One PHQMD event block.
#[derive(Debug)]
pub struct PHQMDBlock {
    /// Block Header
    pub header: PHQMDBlockHeader,
    /// Particles
    pub event: Vec<PHQMDParticle>,
}

impl PHQMDBlock {
    pub open spec fn bview(&self) -> (usize, Seq<PHQMDParticle>) {
        (self.header.nout, self.event@)
    }

    pub open spec fn wf(&self) -> bool {
        forall|i: int| 0 <= i < self.event@.len() ==> (#[trigger] self.event@[i]).wf()
    }
}

impl DataBlock<PHQMDBlockHeader> for PHQMDBlock {
    fn get_header(&self) -> &PHQMDBlockHeader {
        &self.header
    }
}

/// Run-level header of a PHQMD stream: the format declares none.
#[derive(Debug, Clone, Copy, PartialEq, Eq, Structural)]
pub struct PHQMDHeader {}

/// Ghost image of a decoder state: the skip flag set after an event
/// header, the block being accumulated, and the finished blocks.
pub ghost struct PhSt {
    pub skip: bool,
    pub cur: Option<(usize, Seq<PHQMDParticle>)>,
    pub events: Seq<(usize, Seq<PHQMDParticle>)>,
}

/// Moves a block being accumulated, if any, to the finished events.
pub open spec fn ph_flush(st: PhSt) -> PhSt {
    match st.cur {
        Some(c) => PhSt { skip: st.skip, cur: None, events: st.events.push(c) },
        None => st,
    }
}

/// One line of a PHQMD stream. The line after an event header is always
/// consumed unread. A five-token line closes the current block and opens
/// a new one with the declared count; a line of nine or more tokens
/// inside a block adds a particle; anything else is skipped.
pub open spec fn ph_step(st: PhSt, line: Seq<u8>) -> Option<PhSt> {
    if st.skip {
        Some(PhSt { skip: false, cur: st.cur, events: st.events })
    } else {
        let toks = spec_tokens(line);
        if toks.len() == 5 {
            match spec_parse_usize(toks[0]) {
                None => None,
                Some(nout) => {
                    let st1 = ph_flush(st);
                    Some(PhSt { skip: true, cur: Some((nout, Seq::empty())), events: st1.events })
                },
            }
        } else if toks.len() >= 6 {
            match st.cur {
                None => Some(st),
                Some((nout, ps)) => {
                    if toks.len() < 9 {
                        Some(st)
                    } else {
                        match spec_phqmd_particle(toks) {
                            None => None,
                            Some(p) => Some(
                                PhSt { skip: st.skip, cur: Some((nout, ps.push(p))), events: st.events },
                            ),
                        }
                    }
                },
            }
        } else {
            Some(st)
        }
    }
}

pub open spec fn ph_init() -> PhSt {
    PhSt { skip: false, cur: None, events: Seq::empty() }
}

/// The state after the first `n` lines.
pub open spec fn ph_run(lines: Seq<Seq<u8>>, n: int) -> Option<PhSt>
    decreases n,
{
    if n <= 0 {
        Some(ph_init())
    } else {
        match ph_run(lines, n - 1) {
            None => None,
            Some(st) => ph_step(st, lines[n - 1]),
        }
    }
}

/// The decoded events, or the fatal error.
pub open spec fn ph_result(lines: Seq<Seq<u8>>) -> Result<
    Seq<(usize, Seq<PHQMDParticle>)>,
    ParseError,
> {
    match ph_run(lines, lines.len() as int) {
        None => Err(ParseError::Field),
        Some(st) => Ok(ph_flush(st).events),
    }
}

proof fn lemma_ph_run_none(lines: Seq<Seq<u8>>, i: int, n: int)
    requires
        0 <= i <= n,
        ph_run(lines, i) is None,
    ensures
        ph_run(lines, n) is None,
    decreases n - i,
{
    if i < n {
        lemma_ph_run_none(lines, i + 1, n);
    }
}

/// A decoded PHQMD stream.
#[derive(Debug)]
pub struct PHQMDDataFile {
    header: PHQMDHeader,
    events: Vec<PHQMDBlock>,
}

impl PHQMDDataFile {
    /// Ghost image of the decoded events.
    pub closed spec fn fview(&self) -> Seq<(usize, Seq<PHQMDParticle>)> {
        self.events@.map_values(|b: PHQMDBlock| b.bview())
    }

    /// Every particle of every block is within the parse bounds.
    pub open spec fn wf(&self) -> bool {
        forall|i: int| 0 <= i < self.spec_blocks().len() ==> (#[trigger] self.spec_blocks()[i]).wf()
    }
}

/// Executable decoder state, whose ghost image is a `PhSt`.
struct PhState {
    skip: bool,
    cur: Option<(PHQMDBlockHeader, Vec<PHQMDParticle>)>,
    events: Vec<PHQMDBlock>,
}

impl PhState {
    spec fn view(&self) -> PhSt {
        PhSt {
            skip: self.skip,
            cur: match self.cur {
                Some(c) => Some((c.0.nout, c.1@)),
                None => None,
            },
            events: self.events@.map_values(|b: PHQMDBlock| b.bview()),
        }
    }

    spec fn wf(&self) -> bool {
        &&& (match self.cur {
            Some(c) => forall|j: int| 0 <= j < c.1@.len() ==> (#[trigger] c.1@[j]).wf(),
            None => true,
        })
        &&& (forall|j: int| 0 <= j < self.events@.len() ==> (#[trigger] self.events@[j]).wf())
    }

    fn flush(&mut self)
        ensures
            final(self).view() == ph_flush(old(self).view()),
            old(self).wf() ==> final(self).wf(),
    {
        let mut cur: Option<(PHQMDBlockHeader, Vec<PHQMDParticle>)> = None;
        core::mem::swap(&mut cur, &mut self.cur);
        match cur {
            Some(c) => {
                let ghost prev = self.events@.map_values(|b: PHQMDBlock| b.bview());
                self.events.push(PHQMDBlock { header: c.0, event: c.1 });
                proof {
                    assert(self.events@.map_values(|b: PHQMDBlock| b.bview()) =~= prev.push(
                        (c.0.nout, c.1@),
                    ));
                }
            },
            None => {},
        }
    }
}

/// Applies one line to the decoder state, per `ph_step`.
fn ph_step_exec(stx: &mut PhState, line: &Vec<u8>) -> (r: Result<(), ParseError>)
    ensures
        match r {
            Ok(_) => ph_step(old(stx).view(), line@) == Some(final(stx).view()) && (old(stx).wf()
                ==> final(stx).wf()),
            Err(e) => ph_step(old(stx).view(), line@) is None && e == ParseError::Field,
        },
{
    if stx.skip {
        stx.skip = false;
        return Ok(());
    }
    let toks = tokens(line);
    let ghost tk = spec_tokens(line@);
    proof {
        assert(toks.deep_view() == tk);
        assert(toks@.len() == tk.len());
    }
    if toks.len() == 5 {
        proof {
            assert(toks@[0]@ == tk[0]);
        }
        match parse_usize(&toks[0]) {
            None => Err(ParseError::Field),
            Some(nout) => {
                stx.flush();
                let fresh: Vec<PHQMDParticle> = Vec::new();
                proof {
                    assert(fresh@ =~= Seq::<PHQMDParticle>::empty());
                }
                stx.cur = Some((PHQMDBlockHeader { nout }, fresh));
                stx.skip = true;
                Ok(())
            },
        }
    } else if toks.len() >= 6 {
        let has_cur = match stx.cur {
            Some(_) => true,
            None => false,
        };
        if !has_cur {
            Ok(())
        } else if toks.len() < 9 {
            Ok(())
        } else {
            match phqmd_particle_from_tokens(&toks) {
                Err(e) => Err(e),
                Ok(p) => {
                    match stx.cur {
                        Some(ref mut c) => {
                            c.1.push(p);
                        },
                        None => {},
                    }
                    Ok(())
                },
            }
        }
    } else {
        Ok(())
    }
}

impl GenericDataContainer for PHQMDDataFile {
    type Header = PHQMDHeader;

    type BlockHeader = PHQMDBlockHeader;

    type Block = PHQMDBlock;

    closed spec fn spec_header(&self) -> PHQMDHeader {
        self.header
    }

    closed spec fn spec_blocks(&self) -> Seq<PHQMDBlock> {
        self.events@
    }

    fn get_header(&self) -> &PHQMDHeader {
        &self.header
    }

    fn get_blocks(&self) -> &Vec<PHQMDBlock> {
        &self.events
    }

    fn borrow_blocks(self) -> Vec<PHQMDBlock> {
        self.events
    }

    /// Decodes a PHQMD stream per `ph_result`.
    fn upload(lines: &Vec<Vec<u8>>, _decoder: &EposDict) -> (r: Result<Self, ParseError>)
        ensures
            match r {
                Ok(df) => ph_result(lines.deep_view()) == Ok::<_, ParseError>(df.fview())
                    && df.wf(),
                Err(e) => ph_result(lines.deep_view()) == Err::<
                    Seq<(usize, Seq<PHQMDParticle>)>,
                    ParseError,
                >(e),
            },
    {
        let ghost ls = lines.deep_view();
        let mut stx = PhState { skip: false, cur: None, events: Vec::new() };
        let n = lines.len();
        let mut i: usize = 0;
        proof {
            assert(stx.view().events =~= Seq::<(usize, Seq<PHQMDParticle>)>::empty());
            assert(stx.view() == ph_init());
        }
        while i < n
            invariant
                0 <= i <= n,
                n == lines@.len(),
                ls == lines.deep_view(),
                ph_run(ls, i as int) is Some,
                stx.view() == ph_run(ls, i as int)->0,
                stx.wf(),
            decreases n - i,
        {
            proof {
                assert(ls[i as int] == lines@[i as int]@);
            }
            match ph_step_exec(&mut stx, &lines[i]) {
                Ok(_) => {},
                Err(e) => {
                    proof {
                        lemma_ph_run_none(ls, i + 1, ls.len() as int);
                    }
                    return Err(e);
                },
            }
            i = i + 1;
        }
        stx.flush();
        Ok(Self { header: PHQMDHeader {  }, events: stx.events })
    }

    fn push_back(&mut self, mut t: Self) {
        self.events.append(&mut t.events);
    }
}

} // verus!
