//! Run-level wiring: which coding scheme a format tag selects, and the
//! two-stage dictionary construction from the lepton and main tables.
use vstd::prelude::*;

use crate::cli::AcceptedTypes;
use crate::fmt::decoder::{upload_run, DctCoding, DictError, EntryV, EposDict};

verus! {

/// The coding scheme the given format tag reads its particle codes in.
pub open spec fn spec_get_decoder(at: AcceptedTypes) -> DctCoding {
    match at {
        AcceptedTypes::EPOS => DctCoding::EPOS,
        AcceptedTypes::UrQmdF19 => DctCoding::PDG,
        AcceptedTypes::PHQMD => DctCoding::PDG,
    }
}

pub fn get_decoder(at: &AcceptedTypes) -> (r: DctCoding)
    ensures
        r == spec_get_decoder(*at),
{
    match at {
        AcceptedTypes::EPOS => DctCoding::EPOS,
        AcceptedTypes::PHQMD | AcceptedTypes::UrQmdF19 => DctCoding::PDG,
    }
}

/// The dictionary built from the two ordered table loads: first the
/// lepton table (its codes become the lepton set), then the main table.
pub open spec fn spec_generated_dictionary(
    lepton_lines: Seq<Seq<u8>>,
    main_lines: Seq<Seq<u8>>,
    at: AcceptedTypes,
) -> Option<(Seq<(i64, EntryV)>, Seq<i64>)> {
    let coding = spec_get_decoder(at);
    match upload_run(lepton_lines, lepton_lines.len() as int, coding, None) {
        None => None,
        Some(lst) => {
            let codes = lst.map_values(|p: (i64, EntryV)| p.0);
            match upload_run(main_lines, main_lines.len() as int, coding, Some(codes)) {
                None => None,
                Some(mst) => Some((mst, codes)),
            }
        },
    }
}

/// Builds the run dictionary from the lepton and main particle tables.
pub fn generate_dictionary(
    lepton_lines: &Vec<Vec<u8>>,
    main_lines: &Vec<Vec<u8>>,
    at: &AcceptedTypes,
) -> (r: Result<EposDict, DictError>)
    ensures
        match r {
            Ok(d) => spec_generated_dictionary(
                lepton_lines.deep_view(),
                main_lines.deep_view(),
                *at,
            ) is Some && d.entries_view() == (spec_generated_dictionary(
                lepton_lines.deep_view(),
                main_lines.deep_view(),
                *at,
            )->0).0 && d.leptons_view() == (spec_generated_dictionary(
                lepton_lines.deep_view(),
                main_lines.deep_view(),
                *at,
            )->0).1 && d.charges_bounded(),
            Err(_) => spec_generated_dictionary(
                lepton_lines.deep_view(),
                main_lines.deep_view(),
                *at,
            ) is None,
        },
{
    let coding = get_decoder(at);
    let dict_lepto = match EposDict::upload(lepton_lines, coding, None) {
        Ok(d) => d,
        Err(e) => {
            return Err(e);
        },
    };
    let codes = dict_lepto.codes();
    let coding2 = get_decoder(at);
    let dict = match EposDict::upload(main_lines, coding2, Some(codes)) {
        Ok(d) => d,
        Err(e) => {
            return Err(e);
        },
    };
    Ok(dict)
}

} // verus!
