use hega::anlz::fncs::{
    beta, energy_from, gamma, lab_momentum, momentum_mag, pseudorapidity, rapidity, theta,
    ETA_INF,
};
use hega::anlz::generic::{
    AnalysisError, DistributionCritetia, FinalStateFilter, HEPEventAnalyzer, ScalarCriteria,
    StandardCriteria, StandardDistributionCriteraDefiner, StandardDistributionCriteria,
    IS_FINAL_FILTER,
};
use hega::api_macro::{generate_dictionary, get_decoder};
use hega::cli::AcceptedTypes;
use hega::custom_criteria::MyExampleCriterias;
use hega::fmt::decoder::{DctCoding, EposDict};
use hega::fmt::generic::GenericDataContainer;
use hega::fmt::oscar::{OSCEposBlock, OSCEposBlockHeader, OSCEposDataFile, OscarParticle};

fn lines(s: &str) -> Vec<Vec<u8>> {
    s.lines().map(|l| l.as_bytes().to_vec()).collect()
}

fn dict() -> EposDict {
    let table = "\
1120 2212 99 99 99 Proton 1 1 1 99 0.938 1.0 99 99 99 R
110 111 99 99 99 Pion0 1 -1 0 99 0.135 0.0 99 99 99 R
";
    EposDict::upload(&lines(table), DctCoding::PDG, None).unwrap()
}

fn particle(code: i64, state: i64, p: (i128, i128, i128), mass: i128) -> OscarParticle {
    OscarParticle { id: 0, code, state, p, p0: 0, mass, coords: (0, 0, 0), time: 0 }
}

fn block(ps: Vec<OscarParticle>) -> OSCEposBlock {
    OSCEposBlock { header: OSCEposBlockHeader { nout: ps.len() }, event: ps }
}

#[test]
fn compute_scalars_empty_criteria() {
    // an empty criteria list yields one empty row per event and an
    // empty header list
    let d = dict();
    let events = vec![
        block(vec![particle(2212, 0, (0, 0, 1_000_000_000), 938_000_000)]),
        block(vec![]),
    ];
    let analyzer = HEPEventAnalyzer::new(&events);
    let criteria: Vec<StandardCriteria> = vec![];
    let res = analyzer.calculate_criteria(&FinalStateFilter, &criteria, &d).unwrap();
    assert_eq!(res.headers().len(), 0);
    assert_eq!(res.values().len(), 2);
    assert_eq!(res.values()[0].len(), 0);
    assert_eq!(res.values()[1].len(), 0);
}

#[test]
fn oscar_stream_fin_energy_and_charge() {
    // a three-event, six-particle synthetic OSCAR-style stream: the
    // single final-state proton gives FinEnergy sqrt(0.938^2 + 1) and
    // ECharge 1.0 in its event
    let s = "\
# (1,1)+(1,1) nncm 200.0
2 0 0 0 0
0 2212 0 0 0 1 1 0.938 0 0 0 0
1 2212 1 0.5 0 0 1 0.938 0 0 0 0
2 0 0 0 0
0 2212 1 0 1 0 1 0.938 0 0 0 0
1 2212 1 0 0 0.5 1 0.938 0 0 0 0
2 0 0 0 0
0 2212 0 0 0 0 0.938 0.938 0 0 0 0
1 2212 0 0 0 0 0.938 0.938 0 0 0 0
";
    let d = dict();
    let f = OSCEposDataFile::upload(&lines(s), &d).unwrap();
    let events = f.borrow_blocks();
    assert_eq!(events.len(), 3);
    let analyzer = HEPEventAnalyzer::new(&events);
    let criteria = vec![StandardCriteria::FinEnergy, StandardCriteria::ECharge];
    let res = analyzer.calculate_criteria(&FinalStateFilter, &criteria, &d).unwrap();
    assert_eq!(res.headers()[0], "FinEnergy");
    assert_eq!(res.headers()[1], "ECharge");
    // sqrt(0.938^2 + 1^2) truncated to the fixed-point grid
    assert_eq!(res.values()[0][0], 1_371_074_031);
    assert_eq!(res.values()[0][1], 1_000_000_000);
    // second event has no final-state particle
    assert_eq!(res.values()[1][0], 0);
    assert_eq!(res.values()[1][1], 0);
    // third event: two final protons at rest
    assert_eq!(res.values()[2][0], 2 * 938_000_000);
    assert_eq!(res.values()[2][1], 2_000_000_000);
}

#[test]
fn charges_and_counts() {
    let d = dict();
    let events = vec![block(vec![
        particle(2212, 0, (0, 0, 1_000_000_000), 938_000_000),
        particle(-2212, 0, (0, 0, -1_000_000_000), 938_000_000),
        particle(111, 0, (1_000_000_000, 0, 0), 135_000_000),
    ])];
    let analyzer = HEPEventAnalyzer::new(&events);
    let criteria = vec![
        StandardCriteria::ECharge,
        StandardCriteria::BCharge,
        StandardCriteria::LCharge,
        StandardCriteria::FinCnt,
        StandardCriteria::FinChargedCnt,
    ];
    let res = analyzer.calculate_criteria(&FinalStateFilter, &criteria, &d).unwrap();
    let row = &res.values()[0];
    assert_eq!(row[0], 0); // +1 and -1 and 0
    assert_eq!(row[1], 0); // baryon and antibaryon cancel
    assert_eq!(row[2], 0);
    assert_eq!(row[3], 3_000_000_000);
    assert_eq!(row[4], 2_000_000_000);
}

#[test]
fn unresolved_code_is_fatal() {
    let d = dict();
    let events = vec![block(vec![particle(9999, 0, (0, 0, 0), 1_000_000_000)])];
    let analyzer = HEPEventAnalyzer::new(&events);
    let criteria = vec![StandardCriteria::ECharge];
    let r = analyzer.calculate_criteria(&FinalStateFilter, &criteria, &d);
    assert_eq!(r.unwrap_err(), AnalysisError::UnresolvedCode);
}

#[test]
fn pseudorapidity_cnt_needs_charge() {
    // a neutral particle is never counted, even with its
    // pseudorapidity inside the window
    let d = dict();
    let c = StandardCriteria::PseudorapidityFilterCnt(-1_000_000_000, 1_000_000_000);
    let neutral = particle(111, 0, (1_000_000_000, 0, 0), 135_000_000);
    // pseudorapidity zero, well inside [-1, 1]
    assert_eq!(pseudorapidity(&neutral.p), 0);
    let v = c.get_criteria_value(&neutral, &d).unwrap();
    assert_eq!(v, 0);
    let charged = particle(2212, 0, (1_000_000_000, 0, 0), 938_000_000);
    let v2 = c.get_criteria_value(&charged, &d).unwrap();
    assert_eq!(v2, 1_000_000_000);
}

#[test]
fn criteria_names() {
    let c = StandardCriteria::PseudorapidityFilterCnt(-1_000_000_000, 1_000_000_000);
    let n = ScalarCriteria::<OscarParticle>::name(&c);
    assert_eq!(n, "PseudorapidityFilterCnt(-1.0, 1.0)");
    let f = StandardCriteria::FinEnergy;
    assert_eq!(ScalarCriteria::<OscarParticle>::name(&f), "FinEnergy");
}

#[test]
fn distribution_counts_sum_to_total() {
    // bin counts sum to the reported total count
    let d = dict();
    let events = vec![
        block(vec![
            particle(2212, 0, (1_000_000_000, 0, 200_000_000), 938_000_000),
            particle(2212, 0, (0, 1_000_000_000, -3_000_000_000), 938_000_000),
            particle(2212, 1, (0, 0, 1_000_000_000), 938_000_000),
        ]),
        block(vec![
            particle(111, 0, (500_000_000, 0, 40_000_000_000), 135_000_000),
            particle(111, 0, (0, 0, 0), 135_000_000),
        ]),
    ];
    let analyzer = HEPEventAnalyzer::new(&events);
    let criteria = vec![
        StandardDistributionCriteria::new(
            StandardDistributionCriteraDefiner::PNu,
            -2_000_000_000,
            2_000_000_000,
            8,
            String::from("N(Nu)"),
        ),
        StandardDistributionCriteria::new(
            StandardDistributionCriteraDefiner::PdirTheta,
            0,
            3_150_000_000,
            7,
            String::from("N(Theta_p)"),
        ),
    ];
    let res = analyzer.calculate_distribution_criteria(&FinalStateFilter, &criteria, &d);
    assert_eq!(res.len(), 2);
    for (name, total, bins, counts) in &res {
        assert!(!name.is_empty());
        assert_eq!(bins.len(), counts.len());
        let sum: usize = counts.iter().sum();
        assert_eq!(*total, sum);
    }
    // the theta histogram covers [0, pi]: every filtered particle lands
    assert_eq!(res[1].1, 4);
}

#[test]
fn distribution_code_selection() {
    let d = dict();
    let events = vec![block(vec![
        particle(2212, 0, (1_000_000_000, 0, 0), 938_000_000),
        particle(111, 0, (1_000_000_000, 0, 0), 135_000_000),
    ])];
    let analyzer = HEPEventAnalyzer::new(&events);
    let criteria = vec![StandardDistributionCriteria::new(
        StandardDistributionCriteraDefiner::PNu_selected(vec![2212, -2212]),
        -1_000_000_000,
        1_000_000_000,
        4,
        String::from("N(Nu, [p, ~p])"),
    )];
    let res = analyzer.calculate_distribution_criteria(&FinalStateFilter, &criteria, &d);
    // only the proton is classified; the pion maps out of range
    assert_eq!(res[0].1, 1);
}

#[test]
fn cuttest() {
    let s = StandardDistributionCriteria::new(
        StandardDistributionCriteraDefiner::PNu,
        0,
        3_241_592_653,
        2,
        String::from("123"),
    );
    let bins = DistributionCritetia::<OscarParticle>::get_bins(&s);
    assert_eq!(bins.len(), 2);
    assert_eq!(bins[0], (0, 1_620_796_326));
    assert_eq!(bins[1], (1_620_796_326, 3_241_592_652));
}

#[test]
fn kinematics_helpers() {
    assert_eq!(momentum_mag(3_000_000_000, 4_000_000_000, 0), 5_000_000_000);
    assert_eq!(energy_from(938_000_000, 1_000_000_000), 1_371_074_031);
    // a particle moving exactly along the beam axis has infinite
    // pseudorapidity, a valid sortable value
    assert_eq!(pseudorapidity(&(0, 0, 1_000_000_000)), ETA_INF);
    assert_eq!(pseudorapidity(&(0, 0, -1_000_000_000)), -ETA_INF);
    // theta of a transverse momentum is pi/2
    let th = theta(&(1_000_000_000, 0, 0));
    assert!((th - 1_570_796_326).abs() < 1_000);
}

#[test]
fn rapidity_matches_pseudorapidity_at_low_momentum() {
    // with mass far above momentum the rapidity goes to zero and
    // agrees with the pseudorapidity within tolerance
    let d = dict();
    let p = particle(2212, 0, (1000, 1000, 0), 1_000_000_000);
    let eta = pseudorapidity(&p.p);
    let y = rapidity(&p, &d).unwrap();
    assert_eq!(eta, 0);
    assert!(y.abs() < 10_000); // within 1e-5
    assert!((eta - y).abs() < 10_000);
}

#[test]
fn test_lab_mom() {
    // boosting a particle moving against the beam by its own velocity
    // lands it (almost) at rest; reversing the boost recovers the
    // original momentum within tolerance
    let d = dict();
    let pu0: i128 = 199_239_000_000;
    let mass: i128 = 172_592_000_000;
    let p = OscarParticle {
        id: 0,
        code: 2212,
        state: 0,
        p: (0, 0, -pu0),
        p0: pu0,
        mass,
        coords: (0, 0, 0),
        time: 0,
    };
    let b = beta(&p, &d).unwrap();
    let g = gamma(&p, &d).unwrap();
    assert_eq!(b, 755_842_646);
    assert_eq!(g, 1_527_292_782);
    let rap0 = rapidity(&p, &d).unwrap();
    assert!(rap0 > 0);
    // to the rest frame...
    let np = lab_momentum(&p, &d).unwrap();
    assert_eq!(np.0, 0);
    assert_eq!(np.1, 0);
    assert!(np.2.abs() < 1_000); // within 1e-6 of rest
    // ... and back: z = gamma * (z' - beta * m), z' ~ 0
    let z_back = -g * ((b * mass) / 1_000_000_000) / 1_000_000_000;
    assert!((z_back - (-pu0)).abs() < 1_000);
}

#[test]
fn custom_criteria_values() {
    let d = dict();
    let p = particle(2212, 0, (0, 0, 0), 938_000_000);
    let c1 = MyExampleCriterias::StupidCriteria1;
    let c2 = MyExampleCriterias::StupidCriteria2(3);
    assert_eq!(c1.get_criteria_value(&p, &d).unwrap(), 0);
    assert_eq!(c2.get_criteria_value(&p, &d).unwrap(), 3_000_000_000);
    assert_eq!(ScalarCriteria::<OscarParticle>::name(&c1), "Stupid Criteria Name");
    assert_eq!(ScalarCriteria::<OscarParticle>::name(&c2), "Stupid Critera 2 with param 3");
}

#[test]
fn decoder_selection_and_dictionary() {
    assert!(matches!(get_decoder(&AcceptedTypes::EPOS), DctCoding::EPOS));
    assert!(matches!(get_decoder(&AcceptedTypes::PHQMD), DctCoding::PDG));
    assert!(matches!(get_decoder(&AcceptedTypes::UrQmdF19), DctCoding::PDG));
    let lepto = "12 11 99 99 99 Electron 99 99 99 99 0.000511 -1.0 99 99 99 R";
    let main = "\
12 11 99 99 99 Electron 99 99 99 99 0.000511 -1.0 99 99 99 R
1120 2212 99 99 99 Proton 1 1 1 99 0.938 1.0 99 99 99 R
";
    let d = generate_dictionary(&lines(lepto), &lines(main), &AcceptedTypes::PHQMD).unwrap();
    // built under the PDG coding: keyed by the PDG column
    assert!(d.get(&2212).is_some());
    assert!(d.is_lepton(&11));
    let e = d.get(&11).unwrap();
    assert_eq!(e.lepton_charge, 1_000_000_000);
}

#[test]
fn is_final_filter_fn() {
    let d = dict();
    let fin = particle(2212, 0, (0, 0, 0), 938_000_000);
    let not_fin = particle(2212, 2, (0, 0, 0), 938_000_000);
    assert!(IS_FINAL_FILTER(&fin, &d));
    assert!(!IS_FINAL_FILTER(&not_fin, &d));
}

#[test]
fn distribution_is_order_independent() {
    // the per-event histograms combine by elementwise addition, so the
    // result does not depend on event order
    let d = dict();
    let mk_a = || {
        block(vec![
            particle(2212, 0, (1_000_000_000, 0, 500_000_000), 938_000_000),
            particle(2212, 0, (0, 2_000_000_000, -100_000_000), 938_000_000),
        ])
    };
    let mk_b = || block(vec![particle(111, 0, (300_000_000, 400_000_000, 0), 135_000_000)]);
    let mk = || {
        vec![StandardDistributionCriteria::new(
            StandardDistributionCriteraDefiner::PNu,
            -2_000_000_000,
            2_000_000_000,
            10,
            String::from("N(Nu)"),
        )]
    };
    let ab = vec![mk_a(), mk_b()];
    let ba = vec![mk_b(), mk_a()];
    let r1 = HEPEventAnalyzer::new(&ab).calculate_distribution_criteria(
        &FinalStateFilter,
        &mk(),
        &d,
    );
    let r2 = HEPEventAnalyzer::new(&ba).calculate_distribution_criteria(
        &FinalStateFilter,
        &mk(),
        &d,
    );
    assert_eq!(r1[0].1, r2[0].1);
    assert_eq!(r1[0].3, r2[0].3);
}
