//! Custom criteria example: a user-defined scalar criterion added
//! without modifying the engine.
use vstd::prelude::*;

use crate::anlz::generic::{AnalysisError, Particle, ScalarCriteria};
use crate::fmt::decoder::EposDict;
use crate::numeric::{ascii_chars, ascii_string, fmt_int, lemma_fmt_int_ascii, spec_fmt_int};

verus! {

/// Custom parameter example.
/// Can use a Struct instead of an Enum.
#[derive(Clone, Debug, PartialEq)]
pub enum MyExampleCriterias {
    StupidCriteria1,
    StupidCriteria2(i32),
}

/// Display name of the example criteria.
pub open spec fn spec_example_name(c: MyExampleCriterias) -> Seq<char> {
    match c {
        MyExampleCriterias::StupidCriteria1 => "Stupid Criteria Name"@,
        MyExampleCriterias::StupidCriteria2(v) => "Stupid Critera 2 with param "@ + ascii_chars(
            spec_fmt_int(v as int),
        ),
    }
}

impl<P: Particle> ScalarCriteria<P> for MyExampleCriterias {
    open spec fn spec_value(&self, p: &P, dec: &EposDict) -> Option<i128> {
        match self {
            MyExampleCriterias::StupidCriteria1 => Some(0i128),
            MyExampleCriterias::StupidCriteria2(v) => Some(
                (((*v as int) * 1_000_000_000) as i128),
            ),
        }
    }

    open spec fn spec_name(&self) -> Seq<char> {
        spec_example_name(*self)
    }

    fn get_criteria_value(&self, p: &P, dec: &EposDict) -> (r: Result<i128, AnalysisError>) {
        match self {
            MyExampleCriterias::StupidCriteria1 => Ok(0),
            MyExampleCriterias::StupidCriteria2(v) => Ok((*v as i128) * 1_000_000_000),
        }
    }

    fn name(&self) -> (r: String) {
        match self {
            MyExampleCriterias::StupidCriteria1 => {
                let mut s = String::new();
                s.append("Stupid Criteria Name");
                s
            },
            MyExampleCriterias::StupidCriteria2(v) => {
                let mut s = String::new();
                s.append("Stupid Critera 2 with param ");
                let bytes = fmt_int(*v as i128);
                proof {
                    lemma_fmt_int_ascii(*v as int);
                }
                let t = ascii_string(&bytes);
                s.append(t.as_str());
                s
            },
        }
    }
}

} // verus!
