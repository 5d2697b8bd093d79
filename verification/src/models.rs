//! Built-in indicator models and their parameter rules.
use vstd::prelude::*;
use vstd::string::StringExecFns;
use crate::text::{chars_eq, chars_of};

verus! {

/// Simple moving average of the close over `period` bars.
#[derive(Debug, Clone)]
pub struct SmaModel {
    period: usize,
}

/// Z-score of the close against the mean and deviation of `period` bars.
#[derive(Debug, Clone)]
pub struct ZScoreModel {
    period: usize,
}

/// The models that ship with the engine.
#[derive(Debug, Clone)]
pub enum BuiltInModel {
    Sma(SmaModel),
    ZScore(ZScoreModel),
}

impl SmaModel {
    pub closed spec fn spec_period(&self) -> usize {
        self.period
    }

    /// Period 20.
    pub fn new() -> (m: Self)
        ensures
            m.spec_period() == 20,
    {
        SmaModel { period: 20 }
    }

    pub fn period(&self) -> (p: usize)
        ensures
            p == self.spec_period(),
    {
        self.period
    }

    /// Sets the period; it must lie in `1..=500`, else nothing changes.
    pub fn set_params(&mut self, period: usize) -> (r: Result<(), String>)
        ensures
            (1 <= period <= 500) <==> r is Ok,
            r is Ok ==> final(self).spec_period() == period,
            r is Err ==> final(self).spec_period() == old(self).spec_period(),
            r matches Err(e) ==> e@ == "period out of range"@,
    {
        if period == 0 || period > 500 {
            return Err(String::from_str("period out of range"));
        }
        self.period = period;
        Ok(())
    }
}

impl ZScoreModel {
    pub closed spec fn spec_period(&self) -> usize {
        self.period
    }

    /// Period 50.
    pub fn new() -> (m: Self)
        ensures
            m.spec_period() == 50,
    {
        ZScoreModel { period: 50 }
    }

    pub fn period(&self) -> (p: usize)
        ensures
            p == self.spec_period(),
    {
        self.period
    }

    /// Sets the period; it must lie in `2..=500`, else nothing changes.
    pub fn set_params(&mut self, period: usize) -> (r: Result<(), String>)
        ensures
            (2 <= period <= 500) <==> r is Ok,
            r is Ok ==> final(self).spec_period() == period,
            r is Err ==> final(self).spec_period() == old(self).spec_period(),
            r matches Err(e) ==> e@ == "period out of range"@,
    {
        if period < 2 || period > 500 {
            return Err(String::from_str("period out of range"));
        }
        self.period = period;
        Ok(())
    }
}

/// A built-in model by id: `"sma"` or `"zscore"`, with default parameters.
pub fn create_model(id: &str) -> (r: Result<BuiltInModel, String>)
    ensures
        id@ == "sma"@ ==> (r matches Ok(BuiltInModel::Sma(m)) && m.spec_period() == 20),
        id@ == "zscore"@ ==> (r matches Ok(BuiltInModel::ZScore(m)) && m.spec_period() == 50),
        id@ != "sma"@ && id@ != "zscore"@ ==> (r matches Err(e) && e@ == "unknown model id: "@
            + id@),
{
    proof {
        reveal_strlit("sma");
        reveal_strlit("zscore");
        assert("sma"@.len() == 3 && "zscore"@.len() == 6);
    }
    let v = chars_of(id);
    if chars_eq(&v, &chars_of("sma")) {
        Ok(BuiltInModel::Sma(SmaModel::new()))
    } else if chars_eq(&v, &chars_of("zscore")) {
        Ok(BuiltInModel::ZScore(ZScoreModel::new()))
    } else {
        let mut e = String::from_str("unknown model id: ");
        e.append(id);
        Err(e)
    }
}

} // verus!
