use candy::analyzer::{Action, Event, FuzzerState, ModuleAnalyzer, Panic, State};

fn panic_in(module: &str, reason: &str) -> Panic {
    Panic { responsible_module: module.to_string(), reason: reason.to_string() }
}

#[test]
fn an_analyzer_goes_through_its_phases() {
    let mut analyzer = ModuleAnalyzer::for_module("main".to_string());
    assert!(matches!(analyzer.next_action(0), Action::Compile { status } if status == "Compiling main"));
    analyzer.update_state(Event::Compiled {
        static_panics: vec![panic_in("main", "a"), panic_in("other", "b"), panic_in("main", "c")],
    });
    match &analyzer.state {
        State::EvaluateConstants { static_panics } => {
            let reasons: Vec<&str> = static_panics.iter().map(|p| p.reason.as_str()).collect();
            assert_eq!(reasons, vec!["a", "c"]);
        },
        other => panic!("expected evaluation: {other:?}"),
    }
    assert!(matches!(analyzer.next_action(0), Action::RunVm { status } if status == "Evaluating main"));
    analyzer.update_state(Event::VmRan { still_running: true, fuzzables: vec![] });
    assert!(matches!(analyzer.state, State::EvaluateConstants { .. }));
    analyzer.update_state(Event::VmRan { still_running: false, fuzzables: vec![] });
    assert!(matches!(analyzer.state, State::FindFuzzables { .. }));
    analyzer.update_state(Event::VmRan {
        still_running: false,
        fuzzables: vec!["main:f".to_string(), "main:g".to_string()],
    });
    match &analyzer.state {
        State::Fuzz { fuzzers, static_panics } => {
            assert_eq!(fuzzers.len(), 2);
            assert!(fuzzers.iter().all(|f| f.still_fuzzing));
            assert_eq!(static_panics.len(), 2);
        },
        other => panic!("expected fuzzing: {other:?}"),
    }
    assert!(matches!(analyzer.next_action(3),
        Action::RunFuzzer { status, fuzzer: 1 } if status == "Fuzzing main:g"));
    analyzer.update_state(Event::FuzzerRan { fuzzer: 1, still_fuzzing: false });
    assert!(matches!(analyzer.next_action(3),
        Action::RunFuzzer { status, fuzzer: 0 } if status == "Fuzzing main:f"));
    analyzer.update_state(Event::FuzzerRan { fuzzer: 0, still_fuzzing: false });
    assert!(matches!(analyzer.next_action(3), Action::ClearStatus));
    analyzer.update_state(Event::StatusCleared);
    assert!(matches!(analyzer.state, State::Fuzz { .. }));
    analyzer.module_changed();
    assert!(matches!(analyzer.state, State::Initial));
}

#[test]
fn an_event_that_does_not_fit_changes_nothing() {
    let mut analyzer = ModuleAnalyzer::for_module("main".to_string());
    analyzer.update_state(Event::VmRan { still_running: false, fuzzables: vec![] });
    assert!(matches!(analyzer.state, State::Initial));
    analyzer.state = State::Fuzz {
        static_panics: vec![],
        fuzzers: vec![FuzzerState { function_id: "f".to_string(), still_fuzzing: true }],
    };
    analyzer.update_state(Event::FuzzerRan { fuzzer: 5, still_fuzzing: false });
    match &analyzer.state {
        State::Fuzz { fuzzers, .. } => assert!(fuzzers[0].still_fuzzing),
        other => panic!("expected fuzzing: {other:?}"),
    }
}
