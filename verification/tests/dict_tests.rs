use hega::fmt::decoder::{DctCoding, DictError, EposDict, EposDictParticle};

fn lines(s: &str) -> Vec<Vec<u8>> {
    s.lines().map(|l| l.as_bytes().to_vec()).collect()
}

fn b(s: &str) -> Vec<u8> {
    s.as_bytes().to_vec()
}

const PROTON_ROW: &str = "1120 2212 99 99 99 Proton 1 1 1 99 0.938 1.0 99 99 99 R";
const PION_ROW: &str = "110 111 99 99 99 Pion0 1 -1 0 99 0.135 0.0 99 99 99 R";

#[test]
fn from_str_reads_columns() {
    let e = EposDictParticle::from_str(&b(PROTON_ROW)).unwrap().unwrap();
    assert_eq!(e.id_EPOS, Some(1120));
    assert_eq!(e.id_PDG, Some(2212));
    assert_eq!(e.id_QGSJET, None);
    assert_eq!(e.name, b("Proton"));
    assert_eq!(e.ifl1, Some(1));
    assert_eq!(e.mass, Some(938_000_000));
    assert_eq!(e.charge, Some(1_000_000_000));
    assert_eq!(e.status, b("R"));
    assert_eq!(e.lepton_charge, 0);
}

#[test]
fn from_str_short_and_bad() {
    // fewer than 16 tokens: skipped, not fatal
    assert_eq!(EposDictParticle::from_str(&b("1 2 3")).unwrap().is_none(), true);
    // a numeric field that fails to parse is fatal
    let bad = "1120 xx 99 99 99 Proton 1 1 1 99 0.938 1.0 99 99 99 R";
    assert!(matches!(EposDictParticle::from_str(&b(bad)), Err(DictError::BadField)));
}

#[test]
fn upload_and_lookup() {
    let table = format!("! comment line\n{}\n{}\nshort\n", PROTON_ROW, PION_ROW);
    let d = EposDict::upload(&lines(&table), DctCoding::EPOS, None).unwrap();
    let e = d.get(&1120).unwrap();
    assert_eq!(e.mass, Some(938_000_000));
    assert!(d.get(&2212).is_none());
    let dp = EposDict::upload(&lines(&table), DctCoding::PDG, None).unwrap();
    assert!(dp.get(&2212).is_some());
}

#[test]
fn upload_lepton_marking() {
    let table = "12 11 99 99 99 Electron 99 99 99 99 0.000511 -1.0 99 99 99 R";
    let d = EposDict::upload(&lines(table), DctCoding::EPOS, Some(vec![12])).unwrap();
    let e = d.get(&12).unwrap();
    assert_eq!(e.lepton_charge, 1_000_000_000);
    assert!(d.is_lepton(&12));
    assert!(!d.is_lepton(&13));
}

#[test]
fn nuclei_new_code_lookup() {
    // a nuclei row that adds a new code makes it resolvable afterward
    let d0 = EposDict::upload(&lines(PROTON_ROW), DctCoding::PDG, None).unwrap();
    let mut d = d0;
    let nuclei = "1000010020 Deuteron 1.875";
    d.upload_nuclei(&lines(nuclei)).unwrap();
    let e = d.get(&1000010020).unwrap();
    assert_eq!(e.mass, Some(1_875_000_000));
    // electric charge synthesized from the code's digit groups
    assert_eq!(e.charge, Some(1_000_000_000));
    assert_eq!(e.status, b("Nuclei"));
}

#[test]
fn nuclei_existing_code_retained() {
    // adding a code that already exists only warns; the entry value
    // already present is retained
    let mut d = EposDict::upload(&lines(PROTON_ROW), DctCoding::PDG, None).unwrap();
    let clash = "2212 FakeProton 42.0";
    d.upload_nuclei(&lines(clash)).unwrap();
    let e = d.get(&2212).unwrap();
    assert_eq!(e.name, b("Proton"));
    assert_eq!(e.mass, Some(938_000_000));
}

#[test]
fn insert_code_warns_and_retains() {
    let mut d = EposDict::upload(&lines(PROTON_ROW), DctCoding::PDG, None).unwrap();
    let other = EposDictParticle::new(
        None,
        Some(2212),
        None,
        None,
        None,
        b("Impostor"),
        None,
        None,
        None,
        None,
        Some(1),
        Some(1),
        None,
        None,
        None,
        b("X"),
        0,
    );
    let warned = d.insert_code(2212, other, false);
    assert!(warned);
    assert_eq!(d.get(&2212).unwrap().name, b("Proton"));
}

#[test]
fn resolve_name_to_code() {
    let table = format!("{}\n{}", PROTON_ROW, PION_ROW);
    let d = EposDict::upload(&lines(&table), DctCoding::EPOS, None).unwrap();
    assert_eq!(d.get_particle_code(&b("Proton")), Some(1120));
    assert_eq!(d.get_particle_code(&b("-Proton")), Some(-1120));
    assert_eq!(d.get_particle_code(&b("Nothing")), None);
}

#[test]
fn nuclei_bad_field_is_fatal() {
    let mut d = EposDict::upload(&lines(PROTON_ROW), DctCoding::PDG, None).unwrap();
    assert!(matches!(d.upload_nuclei(&lines("12 Name notanumber")), Err(DictError::BadField)));
}

#[test]
fn upload_duplicate_code_last_wins() {
    // within one table load a later row replaces an earlier one with the
    // same code; only later loads are append-only
    let table = "\
1120 2212 99 99 99 Proton 1 1 1 99 0.938 1.0 99 99 99 R
1120 2212 99 99 99 ProtonBis 1 1 1 99 0.939 1.0 99 99 99 R
";
    let d = EposDict::upload(&lines(table), DctCoding::EPOS, None).unwrap();
    let e = d.get(&1120).unwrap();
    assert_eq!(e.name, b("ProtonBis"));
    assert_eq!(e.mass, Some(939_000_000));
    assert_eq!(d.codes(), vec![1120]);
}
