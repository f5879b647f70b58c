use crate::decimal::{all_wf, int_dec, Dec};
use vstd::prelude::*;

verus! {

/// A historical market chart: rows of `[timestamp, value]`, where a value
/// may be missing.
pub struct IHistoricalResponse {
    pub prices: Vec<[Option<Dec>; 2]>,
    pub market_caps: Vec<[Option<Dec>; 2]>,
    pub total_volumes: Vec<[Option<Dec>; 2]>,
}

/// Every value present in `rows` is well formed.
pub open spec fn rows_wf(rows: Seq<[Option<Dec>; 2]>) -> bool {
    forall|i: int| 0 <= i < rows.len() ==> ((#[trigger] rows[i])[1] matches Some(x) ==> x.wf())
}

/// The value of row `i`; a missing one takes the value of the row before,
/// or zero where that is missing too.
pub open spec fn filled_at(rows: Seq<[Option<Dec>; 2]>, i: int) -> Dec {
    match rows[i][1] {
        Some(x) => x,
        None => if i > 0 && rows[i - 1][1] is Some {
            rows[i - 1][1]->Some_0
        } else {
            int_dec(0)
        },
    }
}

/// The values of all rows, with missing ones filled.
pub open spec fn filled_of(rows: Seq<[Option<Dec>; 2]>) -> Seq<Dec> {
    Seq::new(rows.len(), |i: int| filled_at(rows, i))
}

/// The value column of `rows`, each missing value replaced by the value of
/// the row before, or by zero.
fn forward_fill(rows: &Vec<[Option<Dec>; 2]>) -> (r: Vec<Dec>)
    requires
        rows_wf(rows@),
    ensures
        r@ == filled_of(rows@),
        all_wf(r@),
{
    let mut out: Vec<Dec> = Vec::new();
    let mut i: usize = 0;
    while i < rows.len()
        invariant
            i <= rows@.len(),
            rows_wf(rows@),
            all_wf(out@),
            out@.len() == i,
            forall|j: int| 0 <= j < i ==> #[trigger] out@[j] == filled_at(rows@, j),
        decreases rows@.len() - i,
    {
        let value = match rows[i][1] {
            Some(x) => x,
            None => if i > 0 {
                match rows[i - 1][1] {
                    Some(x) => x,
                    None => Dec::zero(),
                }
            } else {
                Dec::zero()
            },
        };
        out.push(value);
        i = i + 1;
    }
    assert(out@ =~= filled_of(rows@));
    out
}

impl IHistoricalResponse {
    pub open spec fn wf(&self) -> bool {
        rows_wf(self.prices@) && rows_wf(self.market_caps@) && rows_wf(self.total_volumes@)
    }

    /// The prices, with missing ones filled from the day before or zero.
    pub fn extract_prices(&self) -> (r: Vec<Dec>)
        requires
            self.wf(),
        ensures
            r@ == filled_of(self.prices@),
            all_wf(r@),
    {
        forward_fill(&self.prices)
    }

    /// The market caps, with missing ones filled from the day before or zero.
    pub fn extract_market_caps(&self) -> (r: Vec<Dec>)
        requires
            self.wf(),
        ensures
            r@ == filled_of(self.market_caps@),
            all_wf(r@),
    {
        forward_fill(&self.market_caps)
    }

    /// The volumes, with missing ones filled from the day before or zero.
    pub fn extract_volumes(&self) -> (r: Vec<Dec>)
        requires
            self.wf(),
        ensures
            r@ == filled_of(self.total_volumes@),
            all_wf(r@),
    {
        forward_fill(&self.total_volumes)
    }
}

} // verus!
