use panicatorul::analysis::{analyze, fn_is_panicky, is_panic_root, set_panic_line, Data, LineStatus};
use panicatorul::ir::{
    file_line, module_wf_check, BasicBlock, CallInstr, DebugInfo, FileLine, Function, Instr,
    Module, Value,
};

fn func(name: &str, blocks: Vec<BasicBlock>) -> Function {
    Function { name: name.to_string(), blocks }
}

fn block(instrs: Vec<Instr>) -> BasicBlock {
    BasicBlock { instrs }
}

fn call(callee: Value, debug: Option<DebugInfo>) -> Instr {
    Instr::Call(CallInstr { callee, debug })
}

fn loc(file: &str, line: u32) -> FileLine {
    FileLine { filename: file.to_string(), line }
}

fn at(file: &str, line: u32) -> Option<DebugInfo> {
    Some(DebugInfo { direct: Some(loc(file, line)), inlined_at: None })
}

fn status(data: &Data, file: &str, line: usize) -> LineStatus {
    data.line_status(&file.to_string(), line)
}

const ROOT: &str = "_ZN4core9panicking18panic_entry17h0000000000000000E";

#[test]
fn is_panic_root_matches_prefix() {
    assert!(is_panic_root("_ZN4core9panicking"));
    assert!(is_panic_root("_ZN4core9panicking5panic17h1234E"));
    assert!(!is_panic_root("_ZN4core9panickin"));
    assert!(!is_panic_root(""));
    assert!(!is_panic_root("_ZN4core4sync5panic17hE"));
    assert!(!is_panic_root("x_ZN4core9panicking"));
}

#[test]
fn root_short_circuit_empty_body() {
    // A panic root is panicky even with an empty body.
    let m = Module { fns: vec![func(ROOT, vec![])] };
    let mut data = Data::new(1);
    assert!(fn_is_panicky(&mut data, &m, 0));
}

#[test]
fn root_short_circuit_unresolved_body() {
    // A panic root is panicky even if its body holds only unresolved calls.
    let m = Module { fns: vec![func(ROOT, vec![block(vec![call(Value::Other, None)])])] };
    let mut data = Data::new(1);
    assert!(fn_is_panicky(&mut data, &m, 0));
}

#[test]
fn propagation_through_two_calls() {
    // caller -> helper -> root: both classified panicky.
    let m = Module {
        fns: vec![
            func("caller", vec![block(vec![call(Value::Function(1), None)])]),
            func("helper", vec![block(vec![call(Value::Function(2), None)])]),
            func(ROOT, vec![]),
        ],
    };
    let data = analyze(&m);
    assert_eq!(data.fns[0], Some(true));
    assert_eq!(data.fns[1], Some(true));
    assert_eq!(data.fns[2], Some(true));
    assert_eq!(data.no_of_panicky_fns(), 3);
}

#[test]
fn no_propagation_through_unresolved_call() {
    // A function whose only call is indirect/unresolved is not panicky.
    let m = Module {
        fns: vec![func("only_indirect", vec![block(vec![call(Value::Other, None)])])],
    };
    let data = analyze(&m);
    assert_eq!(data.fns[0], Some(false));
    assert_eq!(data.no_of_panicky_fns(), 0);
}

#[test]
fn cycle_is_conservatively_not_panicky() {
    // Two functions calling each other, neither reaching a root.
    let m = Module {
        fns: vec![
            func("ring_one", vec![block(vec![call(Value::Function(1), None)])]),
            func("ring_two", vec![block(vec![call(Value::Function(0), None)])]),
        ],
    };
    let data = analyze(&m);
    assert_eq!(data.fns[0], Some(false));
    assert_eq!(data.fns[1], Some(false));
}

#[test]
fn cycle_amid_noise_is_conservatively_not_panicky() {
    // The cycle policy holds with non-call and unresolved-call
    // instructions around the ring's calls, and repeated ring calls.
    let m = Module {
        fns: vec![
            func(
                "ring_one",
                vec![
                    block(vec![Instr::Other, call(Value::Other, None)]),
                    block(vec![call(Value::Function(1), None), call(Value::Function(1), None)]),
                ],
            ),
            func(
                "ring_two",
                vec![block(vec![
                    call(Value::Other, None),
                    call(Value::Function(0), None),
                    Instr::Other,
                ])],
            ),
        ],
    };
    let data = analyze(&m);
    assert_eq!(data.fns[0], Some(false));
    assert_eq!(data.fns[1], Some(false));
}

#[test]
fn self_recursion_is_not_panicky() {
    let m = Module {
        fns: vec![func("looper", vec![block(vec![call(Value::Function(0), None)])])],
    };
    let data = analyze(&m);
    assert_eq!(data.fns[0], Some(false));
}

#[test]
fn cycle_with_escape_to_root_is_panicky() {
    // one <-> two, and two also calls the root: both panicky.
    let m = Module {
        fns: vec![
            func("one", vec![block(vec![call(Value::Function(1), None)])]),
            func(
                "two",
                vec![block(vec![call(Value::Function(0), None), call(Value::Function(2), None)])],
            ),
            func(ROOT, vec![]),
        ],
    };
    let data = analyze(&m);
    assert_eq!(data.fns[0], Some(true));
    assert_eq!(data.fns[1], Some(true));
}

#[test]
fn sticky_merge_no_panic_then_panic() {
    let mut data = Data::new(0);
    set_panic_line(&mut data, &loc("f.rs", 3), false);
    assert_eq!(status(&data, "f.rs", 3), LineStatus::NoPanic);
    set_panic_line(&mut data, &loc("f.rs", 3), true);
    assert_eq!(status(&data, "f.rs", 3), LineStatus::Panic);
}

#[test]
fn sticky_merge_panic_never_downgraded() {
    let mut data = Data::new(0);
    set_panic_line(&mut data, &loc("f.rs", 3), true);
    set_panic_line(&mut data, &loc("f.rs", 3), false);
    assert_eq!(status(&data, "f.rs", 3), LineStatus::Panic);
}

#[test]
fn growth_fills_gaps_and_keeps_lower_entries() {
    let mut data = Data::new(0);
    set_panic_line(&mut data, &loc("g.rs", 2), true);
    assert_eq!(data.files[0].1.lines.len(), 3);
    set_panic_line(&mut data, &loc("g.rs", 5), false);
    assert_eq!(data.files[0].1.lines.len(), 6);
    assert_eq!(status(&data, "g.rs", 1), LineStatus::NotInBinary);
    assert_eq!(status(&data, "g.rs", 2), LineStatus::Panic);
    assert_eq!(status(&data, "g.rs", 3), LineStatus::NotInBinary);
    assert_eq!(status(&data, "g.rs", 4), LineStatus::NotInBinary);
    assert_eq!(status(&data, "g.rs", 5), LineStatus::NoPanic);
}

#[test]
fn single_merge_is_idempotent() {
    let mut once = Data::new(0);
    set_panic_line(&mut once, &loc("h.rs", 4), false);
    let mut twice = Data::new(0);
    set_panic_line(&mut twice, &loc("h.rs", 4), false);
    set_panic_line(&mut twice, &loc("h.rs", 4), false);
    assert_eq!(once.files[0].1.lines.len(), twice.files[0].1.lines.len());
    for line in 0..once.files[0].1.lines.len() {
        assert_eq!(status(&once, "h.rs", line), status(&twice, "h.rs", line));
    }
}

#[test]
fn end_to_end_scenario() {
    // panic_entry is a root; helper calls it at a.rs:10; caller calls
    // helper at a.rs:20 and a harmless function at a.rs:21.
    let m = Module {
        fns: vec![
            func(ROOT, vec![]),
            func("helper", vec![block(vec![call(Value::Function(0), at("a.rs", 10))])]),
            func(
                "caller",
                vec![block(vec![
                    call(Value::Function(1), at("a.rs", 20)),
                    call(Value::Function(3), at("a.rs", 21)),
                ])],
            ),
            func("other", vec![]),
        ],
    };
    let data = analyze(&m);
    assert_eq!(data.fns[1], Some(true), "helper reaches the panic root");
    assert_eq!(data.fns[2], Some(true), "caller reaches the panic root");
    assert_eq!(data.fns[3], Some(false));
    assert_eq!(status(&data, "a.rs", 10), LineStatus::Panic);
    assert_eq!(status(&data, "a.rs", 20), LineStatus::Panic);
    assert_eq!(status(&data, "a.rs", 21), LineStatus::NoPanic);
    for line in 1..22 {
        if line != 10 && line != 20 && line != 21 {
            assert_eq!(status(&data, "a.rs", line), LineStatus::NotInBinary);
        }
    }
    assert_eq!(data.files[0].1.lines.len(), 22);
    assert_eq!(status(&data, "a.rs", 30), LineStatus::NotInBinary);
    assert_eq!(data.no_of_files(), 1);
    assert_eq!(data.no_of_panicky_fns(), 3);
}

#[test]
fn inlined_at_gives_second_attribution() {
    let debug = Some(DebugInfo {
        direct: Some(loc("a.rs", 4)),
        inlined_at: Some(loc("b.rs", 9)),
    });
    let m = Module {
        fns: vec![
            func("caller", vec![block(vec![call(Value::Function(1), debug)])]),
            func(ROOT, vec![]),
        ],
    };
    let data = analyze(&m);
    assert_eq!(status(&data, "a.rs", 4), LineStatus::Panic);
    assert_eq!(status(&data, "b.rs", 9), LineStatus::Panic);
    assert_eq!(data.no_of_files(), 2);
}

#[test]
fn line_zero_is_never_written() {
    // A location with line 0 carries no evidence and creates no table.
    let m = Module {
        fns: vec![func("f", vec![block(vec![call(Value::Other, at("", 0))])])],
    };
    let data = analyze(&m);
    assert_eq!(data.no_of_files(), 0);
    let m2 = Module {
        fns: vec![func("f", vec![block(vec![call(Value::Other, at("named.rs", 0))])])],
    };
    let data2 = analyze(&m2);
    assert_eq!(data2.no_of_files(), 0);
}

#[test]
fn file_line_skips_empty_zero_location() {
    assert!(file_line(String::new(), 0).is_none());
    let some = file_line("a.rs".to_string(), 0);
    assert!(some.is_some());
    let fl = some.unwrap();
    assert_eq!(fl.filename, "a.rs");
    assert_eq!(fl.line, 0);
    let other = file_line(String::new(), 7).unwrap();
    assert_eq!(other.filename, "");
    assert_eq!(other.line, 7);
}

#[test]
fn one_root_call_among_many_instructions() {
    // A direct call to a root makes the function panicky whatever else
    // the body holds.
    let m = Module {
        fns: vec![
            func(
                "busy",
                vec![
                    block(vec![Instr::Other, call(Value::Other, None)]),
                    block(vec![call(Value::Function(1), None), call(Value::Function(2), None)]),
                ],
            ),
            func("harmless", vec![]),
            func(ROOT, vec![]),
        ],
    };
    let data = analyze(&m);
    assert_eq!(data.fns[0], Some(true));
    assert_eq!(data.fns[1], Some(false));
}

#[test]
fn well_formedness_check() {
    let good = Module {
        fns: vec![
            func("a", vec![block(vec![call(Value::Function(1), None), Instr::Other])]),
            func("b", vec![]),
        ],
    };
    assert!(module_wf_check(&good));
    let empty = Module { fns: vec![] };
    assert!(module_wf_check(&empty));
    let bad = Module {
        fns: vec![func("a", vec![block(vec![call(Value::Function(2), None)])]), func("b", vec![])],
    };
    assert!(!module_wf_check(&bad));
}

#[test]
fn non_call_instructions_are_harmless() {
    let m = Module {
        fns: vec![func("plain", vec![block(vec![Instr::Other, Instr::Other])])],
    };
    let data = analyze(&m);
    assert_eq!(data.fns[0], Some(false));
    assert_eq!(data.no_of_files(), 0);
}
