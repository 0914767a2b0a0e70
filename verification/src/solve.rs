use vstd::prelude::*;

use crate::error::{check, ClingoError, Error};

verus! {

/// The bit of a solve result that says a model was found.
pub const SOLVE_RESULT_SATISFIABLE: u32 = 1;

/// The bit of a solve result that says there is no model.
pub const SOLVE_RESULT_UNSATISFIABLE: u32 = 2;

/// The bit of a solve result that says the search space was exhausted.
pub const SOLVE_RESULT_EXHAUSTED: u32 = 4;

/// The bit of a solve result that says the search was interrupted.
pub const SOLVE_RESULT_INTERRUPTED: u32 = 8;

/// The solve event type of clingo's C interface that reports a model.
pub const SOLVE_EVENT_MODEL: u32 = 0;

/// The result of a solve call.
#[derive(Debug, Clone, Copy, PartialEq, Eq, Structural)]
pub struct SolveResult {
    pub satisfiable: bool,
    pub unsatisfiable: bool,
    pub exhausted: bool,
    pub interrupted: bool,
}

impl SolveResult {
    /// The result that a solve-result bitset of clingo's C interface encodes.
    pub open spec fn spec_from_bitset(bits: u32) -> SolveResult {
        SolveResult {
            satisfiable: bits & SOLVE_RESULT_SATISFIABLE != 0,
            unsatisfiable: bits & SOLVE_RESULT_UNSATISFIABLE != 0,
            exhausted: bits & SOLVE_RESULT_EXHAUSTED != 0,
            interrupted: bits & SOLVE_RESULT_INTERRUPTED != 0,
        }
    }

    /// Decode a solve-result bitset of clingo's C interface.
    pub fn from_bitset(bits: u32) -> (r: SolveResult)
        ensures
            r == SolveResult::spec_from_bitset(bits),
            r.satisfiable == (bits & 1 != 0),
            r.unsatisfiable == (bits & 2 != 0),
            r.exhausted == (bits & 4 != 0),
            r.interrupted == (bits & 8 != 0),
    {
        SolveResult {
            satisfiable: bits & SOLVE_RESULT_SATISFIABLE != 0,
            unsatisfiable: bits & SOLVE_RESULT_UNSATISFIABLE != 0,
            exhausted: bits & SOLVE_RESULT_EXHAUSTED != 0,
            interrupted: bits & SOLVE_RESULT_INTERRUPTED != 0,
        }
    }
}

/// Each flag of a decoded solve result is its own bit of the bitset and
/// nothing else: bit 1 satisfiable, bit 2 unsatisfiable, bit 4 exhausted,
/// bit 8 interrupted. So a result with only the satisfiable bit (a search
/// stopped after a model) is satisfiable and neither exhausted nor
/// interrupted, and setting or clearing one bit changes only its flag.
pub proof fn lemma_solve_result_bits(bits: u32)
    ensures
        SolveResult::spec_from_bitset(bits).satisfiable == (bits & 1 != 0),
        SolveResult::spec_from_bitset(bits).unsatisfiable == (bits & 2 != 0),
        SolveResult::spec_from_bitset(bits).exhausted == (bits & 4 != 0),
        SolveResult::spec_from_bitset(bits).interrupted == (bits & 8 != 0),
        SolveResult::spec_from_bitset(1) == (SolveResult {
            satisfiable: true,
            unsatisfiable: false,
            exhausted: false,
            interrupted: false,
        }),
{
    assert(1u32 & 1 != 0 && 1u32 & 2 == 0 && 1u32 & 4 == 0 && 1u32 & 8 == 0) by (bit_vector);
}

/// Which symbols to include when querying a model.
#[derive(Debug, Clone, Copy, PartialEq, Eq, Structural)]
pub enum ShowType {
    /// Atoms that are shown (via `#show`).
    Shown,
    /// All atoms.
    Atoms,
    /// All terms.
    Terms,
    /// Theory atoms.
    Theory,
    /// Everything.
    All,
}

impl ShowType {
    /// The show-type bitset of clingo's C interface for this selection.
    pub open spec fn spec_to_bitset(self) -> u32 {
        match self {
            ShowType::Shown => 2,
            ShowType::Atoms => 4,
            ShowType::Terms => 8,
            ShowType::Theory => 16,
            ShowType::All => 31,
        }
    }

    /// The show-type bitset of clingo's C interface for this selection.
    pub fn to_bitset(self) -> (r: u32)
        ensures
            r == self.spec_to_bitset(),
    {
        match self {
            ShowType::Shown => 2,
            ShowType::Atoms => 4,
            ShowType::Terms => 8,
            ShowType::Theory => 16,
            ShowType::All => 31,
        }
    }
}

/// Each selection but `All` is a bit of its own, no two the same, and `All`
/// holds every one of them.
pub proof fn lemma_show_bits(s: ShowType, t: ShowType)
    ensures
        s.spec_to_bitset() != 0,
        s.spec_to_bitset() & ShowType::All.spec_to_bitset() == s.spec_to_bitset(),
        s != ShowType::All && t != ShowType::All && s != t ==> s.spec_to_bitset()
            & t.spec_to_bitset() == 0,
{
    assert(2u32 & 31 == 2 && 4u32 & 31 == 4 && 8u32 & 31 == 8 && 16u32 & 31 == 16 && 31u32 & 31
        == 31) by (bit_vector);
    assert(2u32 & 4 == 0 && 2u32 & 8 == 0 && 2u32 & 16 == 0 && 4u32 & 2 == 0 && 4u32 & 8 == 0
        && 4u32 & 16 == 0 && 8u32 & 2 == 0 && 8u32 & 4 == 0 && 8u32 & 16 == 0 && 16u32 & 2 == 0
        && 16u32 & 4 == 0 && 16u32 & 8 == 0) by (bit_vector);
}

/// The state of a solve call that reports each model to a callback: the
/// first error the callback returned, if any.
pub struct CallbackState {
    pub error: Option<Error>,
}

impl CallbackState {
    /// A state in which the callback has not failed.
    pub fn new() -> (r: CallbackState)
        ensures
            r.error is None,
    {
        CallbackState { error: None }
    }

    /// Take what the callback returned for a model, and say whether the
    /// search goes on: it does when the callback asked for it; an error
    /// is kept and stops the search.
    pub fn on_model(&mut self, outcome: Result<bool, Error>) -> (go_on: bool)
        ensures
            match outcome {
                Ok(c) => go_on == c && final(self).error == old(self).error,
                Err(e) => !go_on && final(self).error == Some(e),
            },
    {
        match outcome {
            Ok(c) => c,
            Err(e) => {
                self.error = Some(e);
                false
            },
        }
    }

    /// Handle a solve event of type `event_type`. A model event asks the
    /// callback (through `report`) and answers whether the search goes on,
    /// as `on_model` does; any other event is ignored and answered with
    /// `None` (the search goes on as it was).
    pub fn on_event<F: FnOnce() -> Result<bool, Error>>(&mut self, event_type: u32, report: F) -> (r:
        Option<bool>)
        requires
            event_type == SOLVE_EVENT_MODEL ==> report.requires(()),
        ensures
            r is Some <==> event_type == SOLVE_EVENT_MODEL,
            r is None ==> final(self).error == old(self).error,
            r matches Some(go_on) ==> exists|outcome: Result<bool, Error>|
                #[trigger] report.ensures((), outcome) && match outcome {
                    Ok(c) => go_on == c && final(self).error == old(self).error,
                    Err(e) => !go_on && final(self).error == Some(e),
                },
    {
        if event_type != SOLVE_EVENT_MODEL {
            return None;
        }
        let outcome = report();
        let go_on = self.on_model(outcome);
        Some(go_on)
    }

    /// The outcome of the solve call, once the search has ended. An error of
    /// the callback comes first; then a failure to get the result, then a
    /// failure to close the search, each with the error clingo reports
    /// (read by `read_error`); otherwise the result that `bits` encodes.
    pub fn finish<F: FnOnce() -> ClingoError>(
        self,
        get_ok: bool,
        close_ok: bool,
        bits: u32,
        read_error: F,
    ) -> (r: Result<SolveResult, Error>)
        requires
            self.error is Some || (get_ok && close_ok) || read_error.requires(()),
        ensures
            self.error matches Some(e) ==> r == Err::<SolveResult, Error>(e),
            self.error is None && get_ok && close_ok ==> r == Ok::<SolveResult, Error>(
                SolveResult::spec_from_bitset(bits),
            ),
            self.error is None && !(get_ok && close_ok) ==> (r matches Err(Error::Clingo(e))
                && read_error.ensures((), e)),
    {
        if let Some(e) = self.error {
            return Err(e);
        }
        let ok = get_ok && close_ok;
        match check(ok, read_error) {
            Ok(()) => Ok(SolveResult::from_bitset(bits)),
            Err(e) => Err(Error::Clingo(e)),
        }
    }
}

} // verus!
