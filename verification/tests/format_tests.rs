use hega::fmt::decoder::{DctCoding, EposDict};
use hega::fmt::generic::{DataBlock, GenericDataContainer, ParseError};
use hega::fmt::hepmc::HepMCDataFile;
use hega::fmt::oscar::{OSC97UrQMDDataFile, OSCEposDataFile};
use hega::fmt::phqmd::PHQMDDataFile;
use hega::fmt::qgsm::QGSMDataFile;

fn lines(s: &str) -> Vec<Vec<u8>> {
    s.lines().map(|l| l.as_bytes().to_vec()).collect()
}

fn dict() -> EposDict {
    let table = "1120 2212 99 99 99 Proton 1 1 1 99 0.938 1.0 99 99 99 R";
    EposDict::upload(&lines(table), DctCoding::PDG, None).unwrap()
}

#[test]
fn oscar_parses_events() {
    let s = "\
# (1,1)+(1,1) nncm 200.0 extra
2 0 0 0 0
0 2212 0 0.0 0.0 1.0 1.0 0.938 0 0 0 0
1 2212 1 0.5 0.0 0.0 1.0 0.938 0 0 0 0
1 0 0 0 0
0 2212 0 0.0 1.0 0.0 1.5 0.938 0 0 0 0
";
    let d = dict();
    let f = OSCEposDataFile::upload(&lines(s), &d).unwrap();
    assert_eq!(f.get_header().snn, 200_000_000_000);
    assert_eq!(f.get_header().event_signature, b"(1,1)+(1,1)".to_vec());
    let blocks = f.get_blocks();
    assert_eq!(blocks.len(), 2);
    assert_eq!(blocks[0].header.nout, 2);
    assert_eq!(blocks[0].event.len(), 2);
    let p = &blocks[0].event[0];
    assert_eq!(p.code, 2212);
    assert_eq!(p.state, 0);
    assert_eq!(p.p, (0, 0, 1_000_000_000));
    assert_eq!(p.mass, 938_000_000);
    // the last event is flushed at end of stream
    assert_eq!(blocks[1].event.len(), 1);
}

#[test]
fn oscar_skips_malformed_particle_line() {
    // a particle line with fewer tokens than the format requires is
    // skipped; the surrounding events survive
    let s = "\
# sig nncm 17
1 0 0 0 0
0 2212 0 0.1 0.2 0.3 1.0 0.938 0 0 0 0
2 0 0 0 0
0 2212 0 0.0 0.0 1.0 1.0 0.938 0
1 2212 0 0.0 0.0 2.0 2.0 0.938 0 0 0 0
";
    let d = dict();
    let f = OSCEposDataFile::upload(&lines(s), &d).unwrap();
    let blocks = f.get_blocks();
    assert_eq!(blocks.len(), 2);
    assert_eq!(blocks[0].event.len(), 1);
    // the nine-token line was skipped, the twelve-token one kept
    assert_eq!(blocks[1].event.len(), 1);
    assert_eq!(blocks[1].event[0].p.2, 2_000_000_000);
}

#[test]
fn oscar_field_failure_is_fatal() {
    let s = "\
# sig nncm 17
1 0 0 0 0
0 xxxx 0 0.0 0.0 1.0 1.0 0.938 0 0 0 0
";
    let d = dict();
    assert!(matches!(OSCEposDataFile::upload(&lines(s), &d), Err(ParseError::Field)));
}

#[test]
fn oscar_missing_header() {
    let d = dict();
    let r = OSCEposDataFile::upload(&lines("1 0 0 0 0\n"), &d);
    assert!(matches!(r, Err(ParseError::MissingHeader)));
}

#[test]
fn oscar_push_back_concatenates() {
    let s = "\
# sig nncm 17
1 0 0 0 0
0 2212 0 0.0 0.0 1.0 1.0 0.938 0 0 0 0
";
    let d = dict();
    let mut a = OSCEposDataFile::upload(&lines(s), &d).unwrap();
    let b = OSCEposDataFile::upload(&lines(s), &d).unwrap();
    a.push_back(b);
    assert_eq!(a.get_blocks().len(), 2);
    let blocks = a.borrow_blocks();
    assert_eq!(blocks.len(), 2);
}

#[test]
fn urqmd_inserts_status_column() {
    let s = "\
 UrQMD output 200.0
1 1 0 0
0 2212 0.0 0.0 1.0 1.0 0.938 0 0 0 0
";
    let d = dict();
    let f = OSC97UrQMDDataFile::upload(&lines(s), &d).unwrap();
    assert_eq!(f.get_header().snn, 200_000_000_000);
    let blocks = f.get_blocks();
    assert_eq!(blocks.len(), 1);
    // the four-token header line gives the count in its second token
    assert_eq!(blocks[0].header.nout, 1);
    let p = &blocks[0].event[0];
    // every UrQMD particle gets status code 0
    assert_eq!(p.state, 0);
    assert_eq!(p.code, 2212);
    assert_eq!(p.p.2, 1_000_000_000);
}

#[test]
fn phqmd_skips_line_after_header() {
    let s = "\
3 0 0 0 0
this line is always skipped whatever it holds
2212 1 0.0 0.0 1.0 1.0 0 0 7
1 0 0 0 0
another skipped line
2212 1 0.5 0.0 0.0 1.0 0 0 8
";
    let d = dict();
    let f = PHQMDDataFile::upload(&lines(s), &d).unwrap();
    let blocks = f.get_blocks();
    assert_eq!(blocks.len(), 2);
    assert_eq!(blocks[0].header.nout, 3);
    assert_eq!(blocks[0].event.len(), 1);
    let p = &blocks[0].event[0];
    assert_eq!(p.code, 2212);
    assert_eq!(p.charge, 1);
    assert_eq!(p.id, 7);
    assert_eq!(blocks[1].event[0].id, 8);
}

#[test]
fn qgsm_parses_header_and_events() {
    let s = "\
 Results of QGSM calculation
 collision at (sqrt(s)= 17.3) GeV
filler
filler
7 2 0.5 0.1 0.2
1 0 0 1 2212 0.0 0.0 1.0 1.0 0 0.938
-1 0 0 -1 -2212 0.5 0.0 0.0 1.0 0 0.938
";
    let d = dict();
    let f = QGSMDataFile::upload(&lines(s), &d).unwrap();
    assert_eq!(f.get_header().snn, 17_300_000_000);
    let blocks = f.get_blocks();
    assert_eq!(blocks.len(), 1);
    let h = blocks[0].get_header();
    assert_eq!(h.event_id, 7);
    assert_eq!(h.nout, 2);
    assert_eq!(h.b, 500_000_000);
    let p = &blocks[0].event[1];
    assert_eq!(p.charge, -1);
    assert_eq!(p.baryon_number, -1);
    assert_eq!(p.code, -2212);
    assert_eq!(p.mass, 938_000_000);
}

#[test]
fn hepmc_parses_blocks() {
    let s = "\
HepMC::Version 3
E 1 0 2
W 0.5
P 1 0 2212 0.0 0.0 1.0 1.37 0.938 1
P 2 0 2212 0.5 0.0 0.0 1.06 0.938 1
E 2 0 1
P 1 0 2212 0.0 1.0 0.0 1.37 0.938 2
";
    let d = dict();
    let f = HepMCDataFile::upload(&lines(s), &d).unwrap();
    let blocks = f.get_blocks();
    assert_eq!(blocks.len(), 2);
    assert_eq!(blocks[0].header.event_id, 1);
    assert_eq!(blocks[0].header.nout, 2);
    assert_eq!(blocks[0].header.weight, 500_000_000);
    assert_eq!(blocks[0].event.len(), 2);
    let p = &blocks[0].event[0];
    assert_eq!(p.code, 2212);
    assert_eq!(p.energy, 1_370_000_000);
    assert_eq!(p.status, 1);
    assert_eq!(blocks[1].event.len(), 1);
}

#[test]
fn hepmc_missing_banner() {
    let d = dict();
    let r = HepMCDataFile::upload(&lines("E 1 0 0\n"), &d);
    assert!(matches!(r, Err(ParseError::MissingHeader)));
}

#[test]
fn qgsm_energy_before_banner_is_fatal() {
    let d = dict();
    let s = " collision at (sqrt(s)= 17.3) GeV\n";
    assert!(matches!(QGSMDataFile::upload(&lines(s), &d), Err(ParseError::MissingHeader)));
}

#[test]
fn phqmd_charge_out_of_range_is_fatal() {
    let d = dict();
    let s = "\
1 0 0 0 0
skipped
2212 99999999999 0.0 0.0 1.0 1.0 0 0 7
";
    assert!(matches!(PHQMDDataFile::upload(&lines(s), &d), Err(ParseError::Field)));
}

#[test]
fn hepmc_weight_line_outside_event_is_skipped() {
    let d = dict();
    let s = "\
HepMC::Version 3
W 0.5
E 1 0 0
";
    let f = HepMCDataFile::upload(&lines(s), &d).unwrap();
    assert_eq!(f.get_blocks().len(), 1);
    assert_eq!(f.get_blocks()[0].header.weight, 0);
}
