use crate::error::{CallError, ErrorKind};
use vstd::prelude::*;

verus! {

/// A shared list of rows that handlers append to. Callers hold it behind a lock for one
/// call at a time; each call is one read-modify-write.
pub struct RowStore {
    rows: Vec<String>,
    runs: u8,
    fault_injection: bool,
}

/// What a row store holds, as plain values.
pub struct RowsModel {
    pub rows: Seq<Seq<char>>,
    pub runs: u8,
    pub fault_injection: bool,
}

/// The detail of a failure that fault injection makes.
pub open spec fn injected_failure_detail() -> Seq<char> {
    "Oh no! Couldn't add to database!"@
}

/// Whether the next call fails on purpose: with fault injection on, every third call does.
pub open spec fn injects_failure(m: RowsModel) -> bool {
    m.fault_injection && m.runs % 3 == 2
}

/// One call of `add_row` on `old` with `text` leads to `new`, and succeeds when `ok`.
pub open spec fn add_row_step(old: RowsModel, text: Seq<char>, new: RowsModel, ok: bool) -> bool {
    &&& new.runs == (if old.runs == 255 { 0 } else { old.runs + 1 })
    &&& new.fault_injection == old.fault_injection
    &&& ok == !injects_failure(old)
    &&& new.rows == if ok { old.rows.push(text) } else { old.rows }
}

/// How many of the calls succeeded.
pub open spec fn count_ok(oks: Seq<bool>) -> nat
    decreases oks.len(),
{
    if oks.len() == 0 {
        0
    } else {
        count_ok(oks.drop_last()) + if oks.last() { 1nat } else { 0nat }
    }
}

/// Calls made one after another on a row store lose no update: the number of rows grows by
/// exactly the number of calls that succeeded.
pub proof fn lemma_no_lost_update(states: Seq<RowsModel>, texts: Seq<Seq<char>>, oks: Seq<bool>)
    requires
        states.len() == texts.len() + 1,
        oks.len() == texts.len(),
        forall|i: int|
            0 <= i < texts.len() ==> add_row_step(
                #[trigger] states[i],
                texts[i],
                states[i + 1],
                oks[i],
            ),
    ensures
        states.last().rows.len() == states[0].rows.len() + count_ok(oks),
    decreases texts.len(),
{
    if texts.len() > 0 {
        let n = texts.len() - 1;
        assert(add_row_step(states[n], texts[n], states[n + 1], oks[n]));
        lemma_no_lost_update(states.drop_last(), texts.drop_last(), oks.drop_last());
        assert(states.drop_last().last() == states[n]);
    }
}

impl RowStore {
    pub closed spec fn model(&self) -> RowsModel {
        RowsModel {
            rows: self.rows@.map_values(|s: String| s@),
            runs: self.runs,
            fault_injection: self.fault_injection,
        }
    }

    /// An empty store that never fails on purpose.
    pub fn new() -> (r: RowStore)
        ensures
            r.model().rows.len() == 0,
            r.model().runs == 0,
            !r.model().fault_injection,
    {
        RowStore { rows: Vec::new(), runs: 0, fault_injection: false }
    }

    /// An empty store whose every third call fails, to exercise how callers handle failure.
    pub fn with_fault_injection() -> (r: RowStore)
        ensures
            r.model().rows.len() == 0,
            r.model().runs == 0,
            r.model().fault_injection,
    {
        RowStore { rows: Vec::new(), runs: 0, fault_injection: true }
    }

    /// Appends a row and returns how many rows there are now, unless this call fails on
    /// purpose.
    pub fn add_row(&mut self, text: String) -> (r: Result<usize, CallError>)
        ensures
            add_row_step(old(self).model(), text@, final(self).model(), r is Ok),
            r matches Ok(n) ==> n == final(self).model().rows.len(),
            r matches Err(e) ==> e@ == (ErrorKind::Server, injected_failure_detail()),
    {
        let nth_run = self.runs;
        self.runs = if self.runs == 255 { 0 } else { self.runs + 1 };
        if self.fault_injection && nth_run % 3 == 2 {
            Err(CallError::new(ErrorKind::Server, "Oh no! Couldn't add to database!".to_owned()))
        } else {
            let ghost before = self.rows@;
            let ghost t = text@;
            self.rows.push(text);
            proof {
                assert(self.rows@.map_values(|s: String| s@) =~= before.map_values(|s: String| s@).push(t));
            }
            Ok(self.rows.len())
        }
    }

    /// How many rows there are.
    pub fn get_rows(&self) -> (r: usize)
        ensures
            r == self.model().rows.len(),
    {
        self.rows.len()
    }
}

} // verus!
