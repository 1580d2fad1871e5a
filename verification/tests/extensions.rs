use extcore::extensions::{apply_middleware, Extension, ExtensionBuilder, OpError, OpFn, OpState};

type StateFn = fn(OpState) -> Result<OpState, OpError>;
type MwFn = fn(&'static str, OpFn) -> OpFn;

fn tag_op(_name: &'static str, f: OpFn) -> OpFn {
    OpFn { id: f.id + 1000 }
}

fn seed_counter(mut s: OpState) -> Result<OpState, OpError> {
    s.slots.push(42);
    Ok(s)
}

fn failing_init(_s: OpState) -> Result<OpState, OpError> {
    Err(OpError { message: String::from("setup precondition unmet") })
}

#[test]
fn init_js_is_repeatable() {
    let mut b: ExtensionBuilder<StateFn, MwFn> = Extension::builder();
    b.js(vec![("ns/a.js", "aa"), ("ns/b.js", "bb")]);
    let e = b.build();
    let first = e.init_js();
    let second = e.init_js();
    assert_eq!(first, second);
    assert_eq!(first, vec![("ns/a.js", "aa"), ("ns/b.js", "bb")]);
}

#[test]
fn init_js_empty_when_nothing_declared() {
    let mut b: ExtensionBuilder<StateFn, MwFn> = Extension::builder();
    let e = b.build();
    assert_eq!(e.init_js(), Vec::new());
}

#[test]
fn accumulation_spans_several_calls() {
    let mut b: ExtensionBuilder<StateFn, MwFn> = Extension::builder();
    b.js(vec![("ns/a.js", "aa")]);
    b.js(vec![("ns/b.js", "bb")]);
    b.ops(vec![("op_one", OpFn { id: 1 })]);
    b.ops(vec![("op_two", OpFn { id: 2 })]);
    let mut e = b.build();
    assert_eq!(e.init_js(), vec![("ns/a.js", "aa"), ("ns/b.js", "bb")]);
    let table = e.init_ops().unwrap();
    assert_eq!(table, vec![("op_one", OpFn { id: 1 }), ("op_two", OpFn { id: 2 })]);
}

#[test]
fn second_build_is_not_contaminated() {
    let mut b: ExtensionBuilder<StateFn, MwFn> = Extension::builder();
    b.js(vec![("ns/a.js", "aa")]);
    b.ops(vec![("op_one", OpFn { id: 1 })]);
    b.state(seed_counter);
    b.middleware(tag_op);
    let _e1 = b.build();
    let mut e2 = b.build();
    assert_eq!(e2.init_js(), Vec::new());
    assert_eq!(e2.init_ops(), Some(Vec::new()));
    assert!(e2.init_middleware().is_none());
    let out = e2.init_state(OpState { slots: vec![7] }).unwrap();
    assert_eq!(out.slots, vec![7]);
}

#[test]
fn middleware_wraps_every_entry() {
    let mut b: ExtensionBuilder<StateFn, MwFn> = Extension::builder();
    b.ops(vec![("op_one", OpFn { id: 1 }), ("op_two", OpFn { id: 2 })]);
    b.middleware(tag_op);
    let mut e = b.build();
    let m = e.init_middleware().unwrap();
    let table = e.init_ops().unwrap();
    let wrapped = apply_middleware(table, m);
    assert_eq!(wrapped, vec![("op_one", OpFn { id: 1001 }), ("op_two", OpFn { id: 1002 })]);
}

#[test]
fn middleware_is_consumed_once() {
    let mut b: ExtensionBuilder<StateFn, MwFn> = Extension::builder();
    b.middleware(tag_op);
    let mut e = b.build();
    assert!(e.init_middleware().is_some());
    assert!(e.init_middleware().is_none());
}

#[test]
fn last_state_initializer_wins() {
    let mut b: ExtensionBuilder<StateFn, MwFn> = Extension::builder();
    b.state(failing_init);
    b.state(seed_counter);
    let e = b.build();
    let out = e.init_state(OpState { slots: Vec::new() }).unwrap();
    assert_eq!(out.slots, vec![42]);
}

#[test]
fn failing_initializer_propagates_its_error() {
    let mut b: ExtensionBuilder<StateFn, MwFn> = Extension::builder();
    b.state(failing_init);
    let e = b.build();
    let err = e.init_state(OpState { slots: Vec::new() }).unwrap_err();
    assert_eq!(err.message, "setup precondition unmet");
}

#[test]
fn end_to_end_registration() {
    let mut b: ExtensionBuilder<StateFn, MwFn> = Extension::builder();
    b.js(vec![("ns/01_hello.js", "hello"), ("ns/02_goodbye.js", "goodbye")]);
    b.ops(vec![("op_answer", OpFn { id: 9 })]);
    b.state(seed_counter);
    let mut e = b.build();

    assert_eq!(e.init_js(), vec![("ns/01_hello.js", "hello"), ("ns/02_goodbye.js", "goodbye")]);
    assert!(e.init_middleware().is_none());
    assert!(!e.is_initialized());
    let table = e.init_ops();
    assert_eq!(table, Some(vec![("op_answer", OpFn { id: 9 })]));
    assert!(e.is_initialized());
    // the table was handed off: nothing is left on any later read
    assert_eq!(e.init_ops(), None);
    let out = e.init_state(OpState { slots: Vec::new() }).unwrap();
    assert_eq!(out.slots, vec![42]);
}
