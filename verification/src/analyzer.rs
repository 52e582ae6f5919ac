//! The phases in which the language server analyzes a module.
//!
//! First the module is compiled and its static panics are kept. Then it is
//! run with its evaluated expressions traced, to show the values of
//! constants; then run again to find the functions worth fuzzing; then those
//! functions are fuzzed, one chosen at random at a time.
//!
//! Compiling, running and fuzzing are work for the caller: the analyzer says
//! what to do next ([`ModuleAnalyzer::next_action`]) and takes in how it went
//! ([`ModuleAnalyzer::update_state`]).

use vstd::prelude::*;

verus! {

/// A panic found without running the code: the module responsible for it,
/// and why it panics.
#[derive(Debug)]
pub struct Panic {
    pub responsible_module: String,
    pub reason: String,
}

/// A fuzzer of a function, and whether it still fuzzes (it stops once it
/// found a panic).
#[derive(Debug)]
pub struct FuzzerState {
    pub function_id: String,
    pub still_fuzzing: bool,
}

/// The phase of the analysis.
#[derive(Debug)]
pub enum State {
    Initial,
    /// The module runs with its evaluated expressions traced.
    EvaluateConstants { static_panics: Vec<Panic> },
    /// The module runs again, registering the functions to fuzz.
    FindFuzzables { static_panics: Vec<Panic> },
    /// The functions are fuzzed.
    Fuzz { static_panics: Vec<Panic>, fuzzers: Vec<FuzzerState> },
}

/// What the caller does next.
#[derive(Debug)]
pub enum Action {
    /// Shows the status, compiles the module, and reports its static panics.
    Compile { status: String },
    /// Shows the status and runs the module's VM for a while.
    RunVm { status: String },
    /// Shows the status and runs the fuzzer for a while.
    RunFuzzer { status: String, fuzzer: usize },
    /// Clears the status: nothing is left to fuzz.
    ClearStatus,
}

/// How the caller's work went.
#[derive(Debug)]
pub enum Event {
    /// The module was compiled, with these static panics (of any module).
    Compiled { static_panics: Vec<Panic> },
    /// The VM ran: it still runs, or it ended (returned or panicked) having
    /// registered these functions to fuzz.
    VmRan { still_running: bool, fuzzables: Vec<String> },
    /// The fuzzer ran, and still fuzzes or not.
    FuzzerRan { fuzzer: usize, still_fuzzing: bool },
    /// The status was cleared.
    StatusCleared,
}

/// Analyzes one module.
#[derive(Debug)]
pub struct ModuleAnalyzer {
    pub module: String,
    pub state: State,
}

// ----------------------------------------------------------------------------
// The model.

/// A panic as values: its responsible module and its reason.
pub open spec fn panic_view(p: Panic) -> (Seq<char>, Seq<char>) {
    (p.responsible_module@, p.reason@)
}

/// The panics as values.
pub open spec fn panics_view(ps: Seq<Panic>) -> Seq<(Seq<char>, Seq<char>)> {
    ps.map_values(|p: Panic| panic_view(p))
}

/// The panics for which the module is responsible, in order.
pub open spec fn panics_of_module(ps: Seq<(Seq<char>, Seq<char>)>, module: Seq<char>) -> Seq<
    (Seq<char>, Seq<char>),
>
    decreases ps.len(),
{
    if ps.len() == 0 {
        Seq::empty()
    } else {
        let rest = panics_of_module(ps.drop_last(), module);
        if ps.last().0 == module {
            rest.push(ps.last())
        } else {
            rest
        }
    }
}

/// The fuzzers as values: each function's ID and whether it still fuzzes.
pub open spec fn fuzzers_view(fs: Seq<FuzzerState>) -> Seq<(Seq<char>, bool)> {
    fs.map_values(|f: FuzzerState| (f.function_id@, f.still_fuzzing))
}

/// The indices of the fuzzers that still fuzz, in order.
pub open spec fn running_fuzzers(fs: Seq<(Seq<char>, bool)>) -> Seq<usize>
    decreases fs.len(),
{
    if fs.len() == 0 {
        Seq::empty()
    } else {
        let rest = running_fuzzers(fs.drop_last());
        if fs.last().1 {
            rest.push((fs.len() - 1) as usize)
        } else {
            rest
        }
    }
}

/// The phase as a number: initial, evaluating constants, finding fuzzables,
/// fuzzing.
pub open spec fn phase(s: State) -> int {
    match s {
        State::Initial => 0,
        State::EvaluateConstants { .. } => 1,
        State::FindFuzzables { .. } => 2,
        State::Fuzz { .. } => 3,
    }
}

/// The static panics that the state keeps.
pub open spec fn kept_panics(s: State) -> Seq<(Seq<char>, Seq<char>)> {
    match s {
        State::Initial => Seq::empty(),
        State::EvaluateConstants { static_panics } => panics_view(static_panics@),
        State::FindFuzzables { static_panics } => panics_view(static_panics@),
        State::Fuzz { static_panics, .. } => panics_view(static_panics@),
    }
}

/// The fuzzers that the state holds.
pub open spec fn kept_fuzzers(s: State) -> Seq<(Seq<char>, bool)> {
    match s {
        State::Fuzz { fuzzers, .. } => fuzzers_view(fuzzers@),
        _ => Seq::empty(),
    }
}

/// What the analyzer does next in the state; `pick` chooses among the fuzzers
/// that still fuzz (the caller draws it at random).
pub open spec fn spec_next_action(module: Seq<char>, s: State, pick: usize) -> (Seq<char>, int, int) {
    // (status, kind: 0 compile, 1 run the VM, 2 run a fuzzer, 3 clear, fuzzer)
    match s {
        State::Initial => ("Compiling "@ + module, 0, 0),
        State::EvaluateConstants { .. } => ("Evaluating "@ + module, 1, 0),
        State::FindFuzzables { .. } => ("Evaluating "@ + module, 1, 0),
        State::Fuzz { fuzzers, .. } => {
            let running = running_fuzzers(fuzzers_view(fuzzers@));
            if running.len() == 0 {
                (Seq::empty(), 3, 0)
            } else {
                let i = running[(pick as int) % (running.len() as int)];
                ("Fuzzing "@ + fuzzers@[i as int].function_id@, 2, i as int)
            }
        },
    }
}

/// The action as the triple of [`spec_next_action`].
pub open spec fn action_view(a: Action) -> (Seq<char>, int, int) {
    match a {
        Action::Compile { status } => (status@, 0, 0),
        Action::RunVm { status } => (status@, 1, 0),
        Action::RunFuzzer { status, fuzzer } => (status@, 2, fuzzer as int),
        Action::ClearStatus => (Seq::empty(), 3, 0),
    }
}

/// The state after the event: compiling keeps the module's static panics and
/// starts evaluating; a VM that still runs keeps the phase, one that ended
/// moves on (after finding fuzzables, to fuzzing them, each fuzzer still
/// fuzzing); a fuzzer's run updates whether it still fuzzes. An event that
/// does not fit the phase changes nothing.
pub open spec fn next_state(
    module: Seq<char>,
    s: State,
    e: Event,
    n: State,
) -> bool {
    match (s, e) {
        (State::Initial, Event::Compiled { static_panics }) => phase(n) == 1 && kept_panics(n)
            == panics_of_module(panics_view(static_panics@), module),
        (State::EvaluateConstants { .. }, Event::VmRan { still_running, .. }) => {
            &&& phase(n) == if still_running { 1int } else { 2int }
            &&& kept_panics(n) == kept_panics(s)
        },
        (State::FindFuzzables { .. }, Event::VmRan { still_running, fuzzables }) => {
            &&& phase(n) == if still_running { 2int } else { 3int }
            &&& kept_panics(n) == kept_panics(s)
            &&& !still_running ==> kept_fuzzers(n) == fuzzables@.map_values(
                |f: String| (f@, true),
            )
        },
        (State::Fuzz { fuzzers, .. }, Event::FuzzerRan { fuzzer, still_fuzzing }) => {
            &&& phase(n) == 3
            &&& kept_panics(n) == kept_panics(s)
            &&& kept_fuzzers(n) == if fuzzer < fuzzers@.len() {
                kept_fuzzers(s).update(
                    fuzzer as int,
                    (fuzzers@[fuzzer as int].function_id@, still_fuzzing),
                )
            } else {
                kept_fuzzers(s)
            }
        },
        _ => phase(n) == phase(s) && kept_panics(n) == kept_panics(s) && kept_fuzzers(n)
            == kept_fuzzers(s),
    }
}

// ----------------------------------------------------------------------------
// Cloning texts and panics.

fn clone_panic(p: &Panic) -> (res: Panic)
    ensures
        panic_view(res) == panic_view(*p),
{
    Panic { responsible_module: p.responsible_module.clone(), reason: p.reason.clone() }
}

/// The panics for which the module is responsible.
pub fn static_panics_of_module(panics: &Vec<Panic>, module: &String) -> (res: Vec<Panic>)
    ensures
        panics_view(res@) == panics_of_module(panics_view(panics@), module@),
{
    let mut res: Vec<Panic> = Vec::new();
    let mut i: usize = 0;
    while i < panics.len()
        invariant
            i <= panics@.len(),
            panics_view(res@) == panics_of_module(panics_view(panics@.take(i as int)), module@),
        decreases panics@.len() - i,
    {
        proof {
            assert(panics_view(panics@.take(i + 1)).drop_last() =~= panics_view(
                panics@.take(i as int),
            ));
        }
        if panics[i].responsible_module == *module {
            res.push(clone_panic(&panics[i]));
            proof {
                assert(panics_view(res@) =~= panics_of_module(
                    panics_view(panics@.take(i + 1)),
                    module@,
                ));
            }
        }
        i = i + 1;
    }
    proof {
        assert(panics@.take(panics@.len() as int) =~= panics@);
    }
    res
}

/// The indices of the fuzzers that still fuzz.
fn running_fuzzer_indices(fuzzers: &Vec<FuzzerState>) -> (res: Vec<usize>)
    ensures
        res@ == running_fuzzers(fuzzers_view(fuzzers@)),
{
    let mut res: Vec<usize> = Vec::new();
    let mut i: usize = 0;
    while i < fuzzers.len()
        invariant
            i <= fuzzers@.len(),
            res@ == running_fuzzers(fuzzers_view(fuzzers@.take(i as int))),
        decreases fuzzers@.len() - i,
    {
        proof {
            assert(fuzzers_view(fuzzers@.take(i + 1)).drop_last() =~= fuzzers_view(
                fuzzers@.take(i as int),
            ));
        }
        if fuzzers[i].still_fuzzing {
            res.push(i);
        }
        i = i + 1;
    }
    proof {
        assert(fuzzers@.take(fuzzers@.len() as int) =~= fuzzers@);
    }
    res
}

/// Every index of a running fuzzer is an index of the fuzzers.
proof fn lemma_running_fuzzers_bounded(fs: Seq<(Seq<char>, bool)>)
    ensures
        forall|i: int|
            0 <= i < running_fuzzers(fs).len() ==> #[trigger] running_fuzzers(fs)[i] < fs.len(),
    decreases fs.len(),
{
    if fs.len() > 0 {
        lemma_running_fuzzers_bounded(fs.drop_last());
        let rest = running_fuzzers(fs.drop_last());
        assert forall|i: int| 0 <= i < running_fuzzers(fs).len() implies #[trigger] running_fuzzers(
            fs,
        )[i] < fs.len() by {
            if i < rest.len() {
                assert(running_fuzzers(fs)[i] == rest[i]);
            }
        }
    }
}

/// A text followed by another.
fn concat(a: &str, b: &String) -> (res: String)
    ensures
        res@ == a@ + b@,
{
    let mut res = String::from_str(a);
    res.append(b.as_str());
    res
}

impl ModuleAnalyzer {
    /// An analyzer of the module, in its initial phase.
    pub fn for_module(module: String) -> (res: Self)
        ensures
            res.module@ == module@,
            res.state is Initial,
    {
        ModuleAnalyzer { module, state: State::Initial }
    }

    /// Starts the analysis over, as the module changed.
    pub fn module_changed(&mut self)
        ensures
            final(self).module == old(self).module,
            final(self).state is Initial,
    {
        self.state = State::Initial;
    }

    /// What to do next; `pick` chooses among the fuzzers that still fuzz.
    pub fn next_action(&self, pick: usize) -> (res: Action)
        ensures
            action_view(res) == spec_next_action(self.module@, self.state, pick),
    {
        match &self.state {
            State::Initial => Action::Compile { status: concat("Compiling ", &self.module) },
            State::EvaluateConstants { .. } | State::FindFuzzables { .. } => Action::RunVm {
                status: concat("Evaluating ", &self.module),
            },
            State::Fuzz { fuzzers, .. } => {
                let running = running_fuzzer_indices(fuzzers);
                if running.len() == 0 {
                    Action::ClearStatus
                } else {
                    proof {
                        lemma_running_fuzzers_bounded(fuzzers_view(fuzzers@));
                    }
                    let i = running[pick % running.len()];
                    Action::RunFuzzer {
                        status: concat("Fuzzing ", &fuzzers[i].function_id),
                        fuzzer: i,
                    }
                }
            },
        }
    }

    /// Takes in how the work of the last action went.
    pub fn update_state(&mut self, event: Event)
        ensures
            final(self).module == old(self).module,
            next_state(old(self).module@, old(self).state, event, final(self).state),
    {
        let mut state = State::Initial;
        std::mem::swap(&mut state, &mut self.state);
        let next = match (state, event) {
            (State::Initial, Event::Compiled { static_panics }) => State::EvaluateConstants {
                static_panics: static_panics_of_module(&static_panics, &self.module),
            },
            (State::EvaluateConstants { static_panics }, Event::VmRan { still_running, .. }) => {
                if still_running {
                    State::EvaluateConstants { static_panics }
                } else {
                    State::FindFuzzables { static_panics }
                }
            },
            (State::FindFuzzables { static_panics }, Event::VmRan { still_running, fuzzables }) => {
                if still_running {
                    State::FindFuzzables { static_panics }
                } else {
                    let mut fuzzers: Vec<FuzzerState> = Vec::new();
                    let mut i: usize = 0;
                    while i < fuzzables.len()
                        invariant
                            i <= fuzzables@.len(),
                            fuzzers_view(fuzzers@) == fuzzables@.take(i as int).map_values(
                                |f: String| (f@, true),
                            ),
                        decreases fuzzables@.len() - i,
                    {
                        let ghost before = fuzzers@;
                        let ghost k: int = i as int;
                        let id = fuzzables[i].clone();
                        proof {
                            assert(id@ == fuzzables@[i as int]@);
                        }
                        fuzzers.push(FuzzerState { function_id: id, still_fuzzing: true });
                        i = i + 1;
                        proof {
                            assert(fuzzers@ == before.push(
                                FuzzerState { function_id: id, still_fuzzing: true },
                            ));
                            let want = fuzzables@.take(k + 1).map_values(|f: String| (f@, true));
                            let had = fuzzables@.take(k).map_values(|f: String| (f@, true));
                            assert(fuzzers_view(before) == had);
                            assert(had.len() == k);
                            assert(fuzzers_view(before).len() == before.len());
                            assert(before.len() == k);
                            assert forall|j: int| 0 <= j <= k implies #[trigger] fuzzers_view(
                                fuzzers@,
                            )[j] == want[j] by {
                                if j < k {
                                    assert(fuzzers@[j] == before[j]);
                                    assert(fuzzers_view(before)[j] == had[j]);
                                    assert(fuzzables@.take(k + 1)[j] == fuzzables@.take(k)[j]);
                                }
                            }
                            assert(fuzzers_view(fuzzers@) =~= want);
                        }
                    }
                    proof {
                        assert(fuzzables@.take(fuzzables@.len() as int) =~= fuzzables@);
                    }
                    State::Fuzz { static_panics, fuzzers }
                }
            },
            (
                State::Fuzz { static_panics, mut fuzzers },
                Event::FuzzerRan { fuzzer, still_fuzzing },
            ) => {
                if fuzzer < fuzzers.len() {
                    let ghost before = fuzzers@;
                    let function_id = fuzzers[fuzzer].function_id.clone();
                    fuzzers.set(fuzzer, FuzzerState { function_id, still_fuzzing });
                    proof {
                        assert(fuzzers_view(fuzzers@) =~= fuzzers_view(before).update(
                            fuzzer as int,
                            (before[fuzzer as int].function_id@, still_fuzzing),
                        ));
                    }
                }
                State::Fuzz { static_panics, fuzzers }
            },
            (state, _) => state,
        };
        self.state = next;
    }
}

} // verus!
