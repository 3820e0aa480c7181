//! OSCAR1999 format reader and interpreter, plus the OSC1997A reader for
//! UrQMD `.f19` output, which reuses the same blocks and particles.
//!
//! The stream is a run-header comment followed by repeated event blocks:
//! an event-header line of five tokens (the first its particle count),
//! then the particle lines. Lines of an unexpected token count are
//! skipped; a numeric field that fails to parse is fatal; the last event
//! is flushed at end of stream.
use vstd::prelude::*;

use super::decoder::EposDict;
use super::generic::{DataBlock, GenericDataContainer, ParseError};
use crate::numeric::{
    fp_ok, parse_fixed, parse_i64, parse_usize, spec_find_sub, spec_parse_fixed, spec_parse_i64,
    spec_parse_usize, spec_tokens, spec_trim, find_sub, tokens, trim, lemma_parse_fixed_bounds,
    lemma_find_sub_props,
};

verus! {

/// One particle record of an OSCAR event line.
#[derive(Debug, Clone, Copy, PartialEq, Eq)]
pub struct OscarParticle {
    pub id: usize,
    pub code: i64,
    pub state: i64,
    pub p: (i128, i128, i128),
    pub p0: i128,
    pub mass: i128,
    pub coords: (i128, i128, i128),
    pub time: i128,
}

impl OscarParticle {
    /// All fixed-point fields are within the parse bound, so kinematic
    /// formulas on this record cannot overflow.
    pub open spec fn wf(&self) -> bool {
        fp_ok(self.p.0) && fp_ok(self.p.1) && fp_ok(self.p.2) && fp_ok(self.p0) && fp_ok(self.mass)
            && fp_ok(self.coords.0) && fp_ok(self.coords.1) && fp_ok(self.coords.2) && fp_ok(
            self.time,
        )
    }
}

/// The particle encoded by the first twelve tokens of a line, or `None`
/// when a field fails to parse.
pub open spec fn spec_oscar_particle(toks: Seq<Seq<u8>>) -> Option<OscarParticle> {
    if toks.len() < 12 {
        None
    } else {
        let id = spec_parse_usize(toks[0]);
        let code = spec_parse_i64(toks[1]);
        let state = spec_parse_i64(toks[2]);
        let px = spec_parse_fixed(toks[3]);
        let py = spec_parse_fixed(toks[4]);
        let pz = spec_parse_fixed(toks[5]);
        let p0 = spec_parse_fixed(toks[6]);
        let mass = spec_parse_fixed(toks[7]);
        let cx = spec_parse_fixed(toks[8]);
        let cy = spec_parse_fixed(toks[9]);
        let cz = spec_parse_fixed(toks[10]);
        let time = spec_parse_fixed(toks[11]);
        if id is Some && code is Some && state is Some && px is Some && py is Some && pz is Some
            && p0 is Some && mass is Some && cx is Some && cy is Some && cz is Some
            && time is Some {
            Some(
                OscarParticle {
                    id: id->0,
                    code: code->0,
                    state: state->0,
                    p: (px->0, py->0, pz->0),
                    p0: p0->0,
                    mass: mass->0,
                    coords: (cx->0, cy->0, cz->0),
                    time: time->0,
                },
            )
        } else {
            None
        }
    }
}

/// Reads a particle from the tokens of one line.
pub fn oscar_particle_from_tokens(toks: &Vec<Vec<u8>>) -> (r: Result<OscarParticle, ParseError>)
    requires
        toks.deep_view().len() >= 12,
    ensures
        match r {
            Ok(p) => spec_oscar_particle(toks.deep_view()) == Some(p) && p.wf(),
            Err(e) => spec_oscar_particle(toks.deep_view()) is None && e == ParseError::Field,
        },
{
    proof {
        assert forall|i: int| 0 <= i < 12 implies (#[trigger] toks@[i])@ == toks.deep_view()[i] by {
            assert(toks.deep_view()[i] == toks@[i]@);
        }
    }
    let id = match parse_usize(&toks[0]) {
        Some(v) => v,
        None => {
            return Err(ParseError::Field);
        },
    };
    let code = match parse_i64(&toks[1]) {
        Some(v) => v,
        None => {
            return Err(ParseError::Field);
        },
    };
    let state = match parse_i64(&toks[2]) {
        Some(v) => v,
        None => {
            return Err(ParseError::Field);
        },
    };
    let px = match parse_fixed(&toks[3]) {
        Some(v) => v,
        None => {
            return Err(ParseError::Field);
        },
    };
    let py = match parse_fixed(&toks[4]) {
        Some(v) => v,
        None => {
            return Err(ParseError::Field);
        },
    };
    let pz = match parse_fixed(&toks[5]) {
        Some(v) => v,
        None => {
            return Err(ParseError::Field);
        },
    };
    let p0 = match parse_fixed(&toks[6]) {
        Some(v) => v,
        None => {
            return Err(ParseError::Field);
        },
    };
    let mass = match parse_fixed(&toks[7]) {
        Some(v) => v,
        None => {
            return Err(ParseError::Field);
        },
    };
    let cx = match parse_fixed(&toks[8]) {
        Some(v) => v,
        None => {
            return Err(ParseError::Field);
        },
    };
    let cy = match parse_fixed(&toks[9]) {
        Some(v) => v,
        None => {
            return Err(ParseError::Field);
        },
    };
    let cz = match parse_fixed(&toks[10]) {
        Some(v) => v,
        None => {
            return Err(ParseError::Field);
        },
    };
    let time = match parse_fixed(&toks[11]) {
        Some(v) => v,
        None => {
            return Err(ParseError::Field);
        },
    };
    proof {
        lemma_parse_fixed_bounds(toks.deep_view()[3]);
        lemma_parse_fixed_bounds(toks.deep_view()[4]);
        lemma_parse_fixed_bounds(toks.deep_view()[5]);
        lemma_parse_fixed_bounds(toks.deep_view()[6]);
        lemma_parse_fixed_bounds(toks.deep_view()[7]);
        lemma_parse_fixed_bounds(toks.deep_view()[8]);
        lemma_parse_fixed_bounds(toks.deep_view()[9]);
        lemma_parse_fixed_bounds(toks.deep_view()[10]);
        lemma_parse_fixed_bounds(toks.deep_view()[11]);
    }
    Ok(
        OscarParticle {
            id,
            code,
            state,
            p: (px, py, pz),
            p0,
            mass,
            coords: (cx, cy, cz),
            time,
        },
    )
}

/// Block header of an OSCAR event.
#[derive(Debug, Clone, Copy, PartialEq, Eq, Structural)]
pub struct OSCEposBlockHeader {
    /// Count of particles in OSCAR event description
    pub nout: usize,
}

/// One OSCAR event block.
#[derive(Debug)]
pub struct OSCEposBlock {
    /// Block Header
    pub header: OSCEposBlockHeader,
    /// Particles
    pub event: Vec<OscarParticle>,
}

impl OSCEposBlock {
    pub open spec fn bview(&self) -> (usize, Seq<OscarParticle>) {
        (self.header.nout, self.event@)
    }

    pub open spec fn wf(&self) -> bool {
        forall|i: int| 0 <= i < self.event@.len() ==> (#[trigger] self.event@[i]).wf()
    }
}

impl DataBlock<OSCEposBlockHeader> for OSCEposBlock {
    fn get_header(&self) -> &OSCEposBlockHeader {
        &self.header
    }
}

/// Run-level header of an OSCAR stream.
#[derive(Debug)]
pub struct OSCEposHeader {
    /// Collision Energy
    pub snn: i128,
    /// OSCAR event signature.
    pub event_signature: Vec<u8>,
}

/// Ghost image of a decoder state: the run header, the block being
/// accumulated, and the finished blocks.
pub ghost struct OscSt {
    pub header: Option<(i128, Seq<u8>)>,
    pub cur: Option<(usize, Seq<OscarParticle>)>,
    pub events: Seq<(usize, Seq<OscarParticle>)>,
}

/// The byte pattern marking the collision-energy field of the header
/// comment.
pub open spec fn nncm_pat() -> Seq<u8> {
    seq![110u8, 110u8, 99u8, 109u8]
}

/// Moves a block being accumulated, if any, to the finished events.
pub open spec fn osc_flush(st: OscSt) -> OscSt {
    match st.cur {
        Some(c) => OscSt { header: st.header, cur: None, events: st.events.push(c) },
        None => st,
    }
}

/// One line of an OSCAR stream. A `#` comment holding `nncm` sets the
/// run header (signature before the marker, energy after). A five-token
/// line closes the current block and opens a new one with the declared
/// particle count. A line of twelve or more tokens inside a block adds a
/// particle. Anything else is skipped.
pub open spec fn osc_step(st: OscSt, line: Seq<u8>) -> Option<OscSt> {
    if line.len() > 0 && line[0] == 35 {
        let cmt = line.drop_first();
        match spec_find_sub(cmt, nncm_pat()) {
            None => Some(st),
            Some(i) => {
                let before = cmt.take(i);
                let after = cmt.skip(i + 4);
                let toks = spec_tokens(after);
                if toks.len() == 0 {
                    Some(st)
                } else {
                    match spec_parse_fixed(toks[0]) {
                        None => None,
                        Some(snn) => Some(
                            OscSt { header: Some((snn, spec_trim(before))), cur: st.cur, events: st.events },
                        ),
                    }
                }
            },
        }
    } else {
        let toks = spec_tokens(line);
        if toks.len() == 5 {
            match spec_parse_usize(toks[0]) {
                None => None,
                Some(nout) => {
                    let st1 = osc_flush(st);
                    Some(OscSt { header: st1.header, cur: Some((nout, Seq::empty())), events: st1.events })
                },
            }
        } else if toks.len() >= 6 {
            match st.cur {
                None => Some(st),
                Some((nout, ps)) => {
                    if toks.len() < 12 {
                        Some(st)
                    } else {
                        match spec_oscar_particle(toks) {
                            None => None,
                            Some(p) => Some(
                                OscSt { header: st.header, cur: Some((nout, ps.push(p))), events: st.events },
                            ),
                        }
                    }
                },
            }
        } else {
            Some(st)
        }
    }
}

pub open spec fn osc_init() -> OscSt {
    OscSt { header: None, cur: None, events: Seq::empty() }
}

/// The state after the first `n` lines.
pub open spec fn osc_run(lines: Seq<Seq<u8>>, n: int) -> Option<OscSt>
    decreases n,
{
    if n <= 0 {
        Some(osc_init())
    } else {
        match osc_run(lines, n - 1) {
            None => None,
            Some(st) => osc_step(st, lines[n - 1]),
        }
    }
}

/// The decoded file: run header and events, or the fatal error.
pub open spec fn osc_result(lines: Seq<Seq<u8>>) -> Result<
    ((i128, Seq<u8>), Seq<(usize, Seq<OscarParticle>)>),
    ParseError,
> {
    match osc_run(lines, lines.len() as int) {
        None => Err(ParseError::Field),
        Some(st) => {
            let stf = osc_flush(st);
            match stf.header {
                None => Err(ParseError::MissingHeader),
                Some(h) => Ok((h, stf.events)),
            }
        },
    }
}

proof fn lemma_osc_run_none(lines: Seq<Seq<u8>>, i: int, n: int)
    requires
        0 <= i <= n,
        osc_run(lines, i) is None,
    ensures
        osc_run(lines, n) is None,
    decreases n - i,
{
    if i < n {
        lemma_osc_run_none(lines, i + 1, n);
    }
}

/// A decoded OSCAR1999 stream.
#[derive(Debug)]
pub struct OSCEposDataFile {
    header: OSCEposHeader,
    events: Vec<OSCEposBlock>,
}

impl OSCEposDataFile {
    /// Ghost image of the whole file.
    pub closed spec fn fview(&self) -> ((i128, Seq<u8>), Seq<(usize, Seq<OscarParticle>)>) {
        (
            (self.header.snn, self.header.event_signature@),
            self.events@.map_values(|b: OSCEposBlock| b.bview()),
        )
    }

    /// Every particle of every block is within the parse bounds.
    pub open spec fn wf(&self) -> bool {
        forall|i: int| 0 <= i < self.spec_blocks().len() ==> (#[trigger] self.spec_blocks()[i]).wf()
    }
}

/// Handles one `#` comment line: yields the run header it declares, if
/// any; a malformed energy field is fatal.
fn osc_comment(line: &Vec<u8>, nncm: &Vec<u8>) -> (r: Result<Option<OSCEposHeader>, ParseError>)
    requires
        line@.len() > 0,
        line@[0] == 35,
        nncm@ == nncm_pat(),
    ensures
        ({
            let cmt = line@.drop_first();
            let fr = spec_find_sub(cmt, nncm_pat());
            match r {
                Ok(None) => fr is None || spec_tokens(cmt.skip(fr->0 + 4)).len() == 0,
                Ok(Some(h)) => fr is Some && spec_tokens(cmt.skip(fr->0 + 4)).len() > 0
                    && spec_parse_fixed(spec_tokens(cmt.skip(fr->0 + 4))[0]) == Some(h.snn)
                    && h.event_signature@ == spec_trim(cmt.take(fr->0)),
                Err(e) => e == ParseError::Field && fr is Some && spec_tokens(
                    cmt.skip(fr->0 + 4),
                ).len() > 0 && spec_parse_fixed(spec_tokens(cmt.skip(fr->0 + 4))[0]) is None,
            }
        }),
{
    let mut cmt: Vec<u8> = Vec::new();
    let mut k: usize = 1;
    while k < line.len()
        invariant
            1 <= k <= line@.len(),
            cmt@ == line@.subrange(1, k as int),
        decreases line@.len() - k,
    {
        cmt.push(line[k]);
        proof {
            assert(cmt@ =~= line@.subrange(1, k + 1));
        }
        k = k + 1;
    }
    proof {
        assert(cmt@ =~= line@.drop_first());
    }
    match find_sub(&cmt, nncm) {
        None => Ok(None),
        Some(ix) => {
            proof {
                lemma_find_sub_props(cmt@, nncm_pat());
                assert(ix + 4 <= cmt@.len());
            }
            let mut after: Vec<u8> = Vec::new();
            let mut k: usize = ix + 4;
            while k < cmt.len()
                invariant
                    ix + 4 <= k <= cmt@.len(),
                    after@ == cmt@.subrange(ix + 4, k as int),
                decreases cmt@.len() - k,
            {
                after.push(cmt[k]);
                proof {
                    assert(after@ =~= cmt@.subrange(ix + 4, k + 1));
                }
                k = k + 1;
            }
            proof {
                assert(after@ =~= cmt@.skip(ix + 4));
            }
            let atoks = tokens(&after);
            if atoks.len() == 0 {
                Ok(None)
            } else {
                proof {
                    assert(atoks@[0]@ == spec_tokens(after@)[0]);
                }
                match parse_fixed(&atoks[0]) {
                    None => Err(ParseError::Field),
                    Some(snn) => {
                        let mut before: Vec<u8> = Vec::new();
                        let mut k2: usize = 0;
                        while k2 < ix
                            invariant
                                0 <= k2 <= ix <= cmt@.len(),
                                before@ == cmt@.subrange(0, k2 as int),
                            decreases ix - k2,
                        {
                            before.push(cmt[k2]);
                            proof {
                                assert(before@ =~= cmt@.subrange(0, k2 + 1));
                            }
                            k2 = k2 + 1;
                        }
                        proof {
                            assert(before@ =~= cmt@.take(ix as int));
                        }
                        let sig = trim(&before);
                        Ok(Some(OSCEposHeader { snn, event_signature: sig }))
                    },
                }
            }
        },
    }
}

/// Executable decoder state, whose ghost image is an `OscSt`.
struct OscState {
    header: Option<OSCEposHeader>,
    cur: Option<(OSCEposBlockHeader, Vec<OscarParticle>)>,
    events: Vec<OSCEposBlock>,
}

impl OscState {
    spec fn view(&self) -> OscSt {
        OscSt {
            header: match self.header {
                Some(h) => Some((h.snn, h.event_signature@)),
                None => None,
            },
            cur: match self.cur {
                Some(c) => Some((c.0.nout, c.1@)),
                None => None,
            },
            events: self.events@.map_values(|b: OSCEposBlock| b.bview()),
        }
    }

    spec fn wf(&self) -> bool {
        &&& (match self.cur {
            Some(c) => forall|j: int| 0 <= j < c.1@.len() ==> (#[trigger] c.1@[j]).wf(),
            None => true,
        })
        &&& (forall|j: int| 0 <= j < self.events@.len() ==> (#[trigger] self.events@[j]).wf())
    }

    /// Moves the block being accumulated to the finished events.
    fn flush(&mut self)
        ensures
            final(self).view() == osc_flush(old(self).view()),
            old(self).wf() ==> final(self).wf(),
    {
        let mut cur: Option<(OSCEposBlockHeader, Vec<OscarParticle>)> = None;
        core::mem::swap(&mut cur, &mut self.cur);
        match cur {
            Some(c) => {
                let ghost prev = self.events@.map_values(|b: OSCEposBlock| b.bview());
                self.events.push(OSCEposBlock { header: c.0, event: c.1 });
                proof {
                    assert(self.events@.map_values(|b: OSCEposBlock| b.bview()) =~= prev.push(
                        (c.0.nout, c.1@),
                    ));
                }
            },
            None => {},
        }
    }
}

/// Applies one line to the decoder state, per `osc_step`.
fn osc_step_exec(stx: &mut OscState, line: &Vec<u8>, nncm: &Vec<u8>) -> (r: Result<
    (),
    ParseError,
>)
    requires
        nncm@ == nncm_pat(),
    ensures
        match r {
            Ok(_) => osc_step(old(stx).view(), line@) == Some(final(stx).view()) && (old(
                stx,
            ).wf() ==> final(stx).wf()),
            Err(e) => osc_step(old(stx).view(), line@) is None && e == ParseError::Field,
        },
{
    if line.len() > 0 && line[0] == 35 {
        match osc_comment(line, nncm) {
            Err(e) => {
                return Err(e);
            },
            Ok(None) => {},
            Ok(Some(h)) => {
                stx.header = Some(h);
            },
        }
        Ok(())
    } else {
        let toks = tokens(line);
        let ghost tk = spec_tokens(line@);
        proof {
            assert(toks.deep_view() == tk);
            assert(toks@.len() == tk.len());
        }
        if toks.len() == 5 {
            proof {
                assert(toks@[0]@ == tk[0]);
            }
            match parse_usize(&toks[0]) {
                None => Err(ParseError::Field),
                Some(nout) => {
                    stx.flush();
                    let fresh: Vec<OscarParticle> = Vec::new();
                    proof {
                        assert(fresh@ =~= Seq::<OscarParticle>::empty());
                    }
                    stx.cur = Some((OSCEposBlockHeader { nout }, fresh));
                    Ok(())
                },
            }
        } else if toks.len() >= 6 {
            let has_cur = match stx.cur {
                Some(_) => true,
                None => false,
            };
            if !has_cur {
                Ok(())
            } else if toks.len() < 12 {
                Ok(())
            } else {
                match oscar_particle_from_tokens(&toks) {
                    Err(e) => Err(e),
                    Ok(p) => {
                        match stx.cur {
                            Some(ref mut c) => {
                                c.1.push(p);
                            },
                            None => {},
                        }
                        Ok(())
                    },
                }
            }
        } else {
            Ok(())
        }
    }
}

/// Decodes the body of an OSCAR stream per `osc_result`.
fn osc_upload_body(lines: &Vec<Vec<u8>>) -> (r: Result<
    (OSCEposHeader, Vec<OSCEposBlock>),
    ParseError,
>)
    ensures
        match r {
            Ok(hb) => osc_result(lines.deep_view()) == Ok::<_, ParseError>(
                ((hb.0.snn, hb.0.event_signature@), hb.1@.map_values(|b: OSCEposBlock| b.bview())),
            ) && (forall|i: int| 0 <= i < hb.1@.len() ==> (#[trigger] hb.1@[i]).wf()),
            Err(e) => osc_result(lines.deep_view()) == Err::<
                ((i128, Seq<u8>), Seq<(usize, Seq<OscarParticle>)>),
                ParseError,
            >(e),
        },
{
    let ghost ls = lines.deep_view();
    let mut stx = OscState { header: None, cur: None, events: Vec::new() };
    let n = lines.len();
    let mut i: usize = 0;
    let nncm: Vec<u8> = {
        let mut v: Vec<u8> = Vec::new();
        v.push(110);
        v.push(110);
        v.push(99);
        v.push(109);
        proof {
            assert(v@ =~= nncm_pat());
        }
        v
    };
    proof {
        assert(stx.view().events =~= Seq::<(usize, Seq<OscarParticle>)>::empty());
        assert(stx.view() == osc_init());
    }
    while i < n
        invariant
            0 <= i <= n,
            n == lines@.len(),
            ls == lines.deep_view(),
            nncm@ == nncm_pat(),
            osc_run(ls, i as int) is Some,
            stx.view() == osc_run(ls, i as int)->0,
            stx.wf(),
        decreases n - i,
    {
        proof {
            assert(ls[i as int] == lines@[i as int]@);
        }
        match osc_step_exec(&mut stx, &lines[i], &nncm) {
            Ok(_) => {},
            Err(e) => {
                proof {
                    lemma_osc_run_none(ls, i + 1, ls.len() as int);
                }
                return Err(e);
            },
        }
        i = i + 1;
    }
    stx.flush();
    match stx.header {
        Some(h) => {
            proof {
                assert(forall|j: int|
                    0 <= j < stx.events@.len() ==> (#[trigger] stx.events@[j]).wf());
            }
            Ok((h, stx.events))
        },
        None => Err(ParseError::MissingHeader),
    }
}

impl GenericDataContainer for OSCEposDataFile {
    type Header = OSCEposHeader;

    type BlockHeader = OSCEposBlockHeader;

    type Block = OSCEposBlock;

    closed spec fn spec_header(&self) -> OSCEposHeader {
        self.header
    }

    closed spec fn spec_blocks(&self) -> Seq<OSCEposBlock> {
        self.events@
    }

    fn get_header(&self) -> &OSCEposHeader {
        &self.header
    }

    fn get_blocks(&self) -> &Vec<OSCEposBlock> {
        &self.events
    }

    fn borrow_blocks(self) -> Vec<OSCEposBlock> {
        self.events
    }

    /// Decodes an OSCAR1999 stream per `osc_result`.
    fn upload(lines: &Vec<Vec<u8>>, _decoder: &EposDict) -> (r: Result<Self, ParseError>)
        ensures
            match r {
                Ok(df) => osc_result(lines.deep_view()) == Ok::<_, ParseError>(df.fview()) && df.wf(),
                Err(e) => osc_result(lines.deep_view()) == Err::<
                    ((i128, Seq<u8>), Seq<(usize, Seq<OscarParticle>)>),
                    ParseError,
                >(e),
            },
    {
        match osc_upload_body(lines) {
            Ok((h, evs)) => Ok(Self { header: h, events: evs }),
            Err(e) => Err(e),
        }
    }

    fn push_back(&mut self, mut t: Self) {
        self.events.append(&mut t.events);
    }
}

/* --------------------------------- URQMD --------------------------------------- */

/// The byte pattern identifying a UrQMD header line.
pub open spec fn urqmd_pat() -> Seq<u8> {
    seq![85u8, 114u8, 81u8, 77u8, 68u8]
}

/// The status token inserted into UrQMD particle lines.
pub open spec fn zero_tok() -> Seq<u8> {
    seq![48u8]
}

/// One line of an OSC1997A UrQMD stream. Within the first three lines, a
/// line holding `UrQMD` sets the run header (energy from its last token,
/// signature the trimmed line). A four-token line opens a new event with
/// the count in its second token. A line of five or more tokens inside a
/// block is a particle line without a status column: a `0` status token
/// is inserted third, then it reads as an OSCAR particle line.
pub open spec fn urqmd_step(st: OscSt, line: Seq<u8>, idx: int) -> Option<OscSt> {
    if idx <= 2 && spec_find_sub(line, urqmd_pat()) is Some {
        let toks = spec_tokens(line);
        if toks.len() < 2 {
            Some(st)
        } else {
            match spec_parse_fixed(toks[toks.len() - 1]) {
                None => None,
                Some(snn) => Some(
                    OscSt { header: Some((snn, spec_trim(line))), cur: st.cur, events: st.events },
                ),
            }
        }
    } else {
        let toks = spec_tokens(line);
        if toks.len() == 4 {
            match spec_parse_usize(toks[1]) {
                None => None,
                Some(nout) => {
                    let st1 = osc_flush(st);
                    Some(OscSt { header: st1.header, cur: Some((nout, Seq::empty())), events: st1.events })
                },
            }
        } else if toks.len() >= 5 {
            match st.cur {
                None => Some(st),
                Some((nout, ps)) => {
                    let m = toks.take(2) + seq![zero_tok()] + toks.skip(2);
                    if m.len() < 12 {
                        Some(st)
                    } else {
                        match spec_oscar_particle(m) {
                            None => None,
                            Some(p) => Some(
                                OscSt { header: st.header, cur: Some((nout, ps.push(p))), events: st.events },
                            ),
                        }
                    }
                },
            }
        } else {
            Some(st)
        }
    }
}

/// The state after the first `n` lines of a UrQMD stream.
pub open spec fn urqmd_run(lines: Seq<Seq<u8>>, n: int) -> Option<OscSt>
    decreases n,
{
    if n <= 0 {
        Some(osc_init())
    } else {
        match urqmd_run(lines, n - 1) {
            None => None,
            Some(st) => urqmd_step(st, lines[n - 1], n - 1),
        }
    }
}

/// The decoded UrQMD file, or the fatal error.
pub open spec fn urqmd_result(lines: Seq<Seq<u8>>) -> Result<
    ((i128, Seq<u8>), Seq<(usize, Seq<OscarParticle>)>),
    ParseError,
> {
    match urqmd_run(lines, lines.len() as int) {
        None => Err(ParseError::Field),
        Some(st) => {
            let stf = osc_flush(st);
            match stf.header {
                None => Err(ParseError::MissingHeader),
                Some(h) => Ok((h, stf.events)),
            }
        },
    }
}

proof fn lemma_urqmd_run_none(lines: Seq<Seq<u8>>, i: int, n: int)
    requires
        0 <= i <= n,
        urqmd_run(lines, i) is None,
    ensures
        urqmd_run(lines, n) is None,
    decreases n - i,
{
    if i < n {
        lemma_urqmd_run_none(lines, i + 1, n);
    }
}

/// Applies one UrQMD line to the decoder state, per `urqmd_step`.
fn urqmd_step_exec(stx: &mut OscState, line: &Vec<u8>, idx: usize, urqmd: &Vec<u8>) -> (r: Result<
    (),
    ParseError,
>)
    requires
        urqmd@ == urqmd_pat(),
    ensures
        match r {
            Ok(_) => urqmd_step(old(stx).view(), line@, idx as int) == Some(final(stx).view())
                && (old(stx).wf() ==> final(stx).wf()),
            Err(e) => urqmd_step(old(stx).view(), line@, idx as int) is None && e
                == ParseError::Field,
        },
{
    let mut is_hdr = false;
    if idx <= 2 {
        match find_sub(line, urqmd) {
            Some(_) => {
                is_hdr = true;
            },
            None => {},
        }
    }
    if is_hdr {
        let toks = tokens(line);
        let ghost tk = spec_tokens(line@);
        proof {
            assert(toks.deep_view() == tk);
            assert(toks@.len() == tk.len());
        }
        if toks.len() < 2 {
            return Ok(());
        }
        let last = toks.len() - 1;
        proof {
            assert(toks@[last as int]@ == tk[last as int]);
        }
        match parse_fixed(&toks[last]) {
            None => Err(ParseError::Field),
            Some(snn) => {
                let sig = trim(line);
                stx.header = Some(OSCEposHeader { snn, event_signature: sig });
                Ok(())
            },
        }
    } else {
        let toks = tokens(line);
        let ghost tk = spec_tokens(line@);
        proof {
            assert(toks.deep_view() == tk);
            assert(toks@.len() == tk.len());
        }
        if toks.len() == 4 {
            proof {
                assert(toks@[1]@ == tk[1]);
            }
            match parse_usize(&toks[1]) {
                None => Err(ParseError::Field),
                Some(nout) => {
                    stx.flush();
                    let fresh: Vec<OscarParticle> = Vec::new();
                    proof {
                        assert(fresh@ =~= Seq::<OscarParticle>::empty());
                    }
                    stx.cur = Some((OSCEposBlockHeader { nout }, fresh));
                    Ok(())
                },
            }
        } else if toks.len() >= 5 {
            let has_cur = match stx.cur {
                Some(_) => true,
                None => false,
            };
            if !has_cur {
                Ok(())
            } else if toks.len() < 11 {
                proof {
                    assert((tk.take(2) + seq![zero_tok()] + tk.skip(2)).len() == tk.len() + 1);
                }
                Ok(())
            } else {
                // insert the missing status token third
                let mut m: Vec<Vec<u8>> = Vec::new();
                m.push(toks[0].clone());
                m.push(toks[1].clone());
                let mut zt: Vec<u8> = Vec::new();
                zt.push(48);
                proof {
                    assert(zt@ =~= zero_tok());
                }
                m.push(zt);
                let mut k: usize = 2;
                proof {
                    assert(toks@[0]@ == tk[0]);
                    assert(toks@[1]@ == tk[1]);
                    assert(m.deep_view() =~~= tk.take(2) + seq![zero_tok()] + tk.subrange(2, 2));
                }
                while k < toks.len()
                    invariant
                        2 <= k <= toks@.len(),
                        toks.deep_view() == tk,
                        m.deep_view() == tk.take(2) + seq![zero_tok()] + tk.subrange(
                            2,
                            k as int,
                        ),
                    decreases toks@.len() - k,
                {
                    let ghost prev = m.deep_view();
                    m.push(toks[k].clone());
                    proof {
                        assert(toks@[k as int]@ == tk[k as int]);
                        assert(m.deep_view() =~~= prev.push(tk[k as int]));
                        assert(m.deep_view() =~~= tk.take(2) + seq![zero_tok()] + tk.subrange(
                            2,
                            k + 1,
                        ));
                    }
                    k = k + 1;
                }
                proof {
                    assert(tk.subrange(2, tk.len() as int) =~= tk.skip(2));
                    assert(m.deep_view() =~~= tk.take(2) + seq![zero_tok()] + tk.skip(2));
                }
                match oscar_particle_from_tokens(&m) {
                    Err(e) => Err(e),
                    Ok(p) => {
                        match stx.cur {
                            Some(ref mut c) => {
                                c.1.push(p);
                            },
                            None => {},
                        }
                        Ok(())
                    },
                }
            }
        } else {
            Ok(())
        }
    }
}

/// OSC1997A UrQMD format reader (.f19 UrQMD output):
/// reuses OSCAR blocks and headers, uses `OscarParticle` directly, and
/// gives every particle status code `0`.
#[derive(Debug)]
pub struct OSC97UrQMDDataFile {
    header: OSCEposHeader,
    events: Vec<OSCEposBlock>,
}

impl OSC97UrQMDDataFile {
    /// Ghost image of the whole file.
    pub closed spec fn fview(&self) -> ((i128, Seq<u8>), Seq<(usize, Seq<OscarParticle>)>) {
        (
            (self.header.snn, self.header.event_signature@),
            self.events@.map_values(|b: OSCEposBlock| b.bview()),
        )
    }

    /// Every particle of every block is within the parse bounds.
    pub open spec fn wf(&self) -> bool {
        forall|i: int| 0 <= i < self.spec_blocks().len() ==> (#[trigger] self.spec_blocks()[i]).wf()
    }
}

impl GenericDataContainer for OSC97UrQMDDataFile {
    type Header = OSCEposHeader;

    type BlockHeader = OSCEposBlockHeader;

    type Block = OSCEposBlock;

    closed spec fn spec_header(&self) -> OSCEposHeader {
        self.header
    }

    closed spec fn spec_blocks(&self) -> Seq<OSCEposBlock> {
        self.events@
    }

    fn get_header(&self) -> &OSCEposHeader {
        &self.header
    }

    fn get_blocks(&self) -> &Vec<OSCEposBlock> {
        &self.events
    }

    fn borrow_blocks(self) -> Vec<OSCEposBlock> {
        self.events
    }

    /// Decodes an OSC1997A UrQMD stream per `urqmd_result`.
    fn upload(lines: &Vec<Vec<u8>>, _decoder: &EposDict) -> (r: Result<Self, ParseError>)
        ensures
            match r {
                Ok(df) => urqmd_result(lines.deep_view()) == Ok::<_, ParseError>(df.fview())
                    && df.wf(),
                Err(e) => urqmd_result(lines.deep_view()) == Err::<
                    ((i128, Seq<u8>), Seq<(usize, Seq<OscarParticle>)>),
                    ParseError,
                >(e),
            },
    {
        let ghost ls = lines.deep_view();
        let mut stx = OscState { header: None, cur: None, events: Vec::new() };
        let n = lines.len();
        let mut i: usize = 0;
        let urqmd: Vec<u8> = {
            let mut v: Vec<u8> = Vec::new();
            v.push(85);
            v.push(114);
            v.push(81);
            v.push(77);
            v.push(68);
            proof {
                assert(v@ =~= urqmd_pat());
            }
            v
        };
        proof {
            assert(stx.view().events =~= Seq::<(usize, Seq<OscarParticle>)>::empty());
            assert(stx.view() == osc_init());
        }
        while i < n
            invariant
                0 <= i <= n,
                n == lines@.len(),
                ls == lines.deep_view(),
                urqmd@ == urqmd_pat(),
                urqmd_run(ls, i as int) is Some,
                stx.view() == urqmd_run(ls, i as int)->0,
                stx.wf(),
            decreases n - i,
        {
            proof {
                assert(ls[i as int] == lines@[i as int]@);
            }
            match urqmd_step_exec(&mut stx, &lines[i], i, &urqmd) {
                Ok(_) => {},
                Err(e) => {
                    proof {
                        lemma_urqmd_run_none(ls, i + 1, ls.len() as int);
                    }
                    return Err(e);
                },
            }
            i = i + 1;
        }
        stx.flush();
        match stx.header {
            Some(h) => Ok(Self { header: h, events: stx.events }),
            None => Err(ParseError::MissingHeader),
        }
    }

    fn push_back(&mut self, mut t: Self) {
        self.events.append(&mut t.events);
    }
}

} // verus!
