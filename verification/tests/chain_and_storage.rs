use route_core::chain::{Handler, Wrapper};
use route_core::context::{Context, TraceEvent};
use route_core::http::{Method, Response};
use route_core::pattern::{RouteEntry, SegPattern};
use route_core::router::App;
use route_core::value::{StorageError, StoredValue};

fn lit(s: &str) -> SegPattern {
    SegPattern::Literal(String::from(s))
}

fn text_entry(body: &str) -> RouteEntry {
    RouteEntry::new(Handler::Fixed(Response::text(String::from(body))))
}

#[test]
fn wrappers_nest_first_appended_outermost() {
    let mut app = App::new();
    app.append_middleware(Wrapper::AroundLog(1));
    app.append_middleware(Wrapper::AroundLog(2));
    app.append_middleware(Wrapper::AroundLog(3));
    app.register(vec![lit("page")], text_entry("page"));
    let out = app.dispatch(Method::Get, "/page");
    assert_eq!(
        out.trace,
        vec![
            TraceEvent::Enter(1),
            TraceEvent::Enter(2),
            TraceEvent::Enter(3),
            TraceEvent::HandlerRun,
            TraceEvent::Leave(3),
            TraceEvent::Leave(2),
            TraceEvent::Leave(1),
        ]
    );
    assert_eq!(out.response.expect("response set").body, "page");
}

#[test]
fn pre_only_wrapper_logs_on_the_way_in() {
    let mut app = App::new();
    app.append_middleware(Wrapper::PreLog(7));
    app.append_middleware(Wrapper::AroundLog(8));
    app.register(vec![lit("page")], text_entry("page"));
    let out = app.dispatch(Method::Get, "/page");
    assert_eq!(
        out.trace,
        vec![
            TraceEvent::Enter(7),
            TraceEvent::Enter(8),
            TraceEvent::HandlerRun,
            TraceEvent::Leave(8),
        ]
    );
}

#[test]
fn gate_short_circuits_inner_layers_and_handler() {
    let mut app = App::new();
    app.append_middleware(Wrapper::AroundLog(1));
    app.append_middleware(Wrapper::Gate(
        String::from("/stop"),
        Response::text(String::from("gated")),
    ));
    app.append_middleware(Wrapper::AroundLog(2));
    app.register(vec![lit("stop")], text_entry("handler ran"));
    app.register(vec![lit("go")], text_entry("went through"));

    let out = app.dispatch(Method::Get, "/stop");
    let resp = out.response.expect("response set");
    assert_eq!(resp.body, "gated");
    assert_eq!(out.trace, vec![TraceEvent::Enter(1), TraceEvent::Leave(1)]);

    let out = app.dispatch(Method::Get, "/go");
    assert_eq!(out.response.expect("response set").body, "went through");
    assert_eq!(
        out.trace,
        vec![
            TraceEvent::Enter(1),
            TraceEvent::Enter(2),
            TraceEvent::HandlerRun,
            TraceEvent::Leave(2),
            TraceEvent::Leave(1),
        ]
    );
}

#[test]
fn override_chain_replaces_application_chain() {
    let mut app = App::new();
    app.append_middleware(Wrapper::AroundLog(1));
    app.register(
        vec![lit("bare")],
        text_entry("bare").with_override(vec![Wrapper::AroundLog(9)]),
    );
    let out = app.dispatch(Method::Get, "/bare");
    assert_eq!(
        out.trace,
        vec![TraceEvent::Enter(9), TraceEvent::HandlerRun, TraceEvent::Leave(9)]
    );
}

#[test]
fn deposit_and_collect_hand_values_through_the_chain() {
    let mut app = App::new();
    app.append_middleware(Wrapper::Collect(String::from("some_value")));
    app.append_middleware(Wrapper::Deposit(
        String::from("some_value"),
        StoredValue::IntVal(5),
        StoredValue::BoolVal(true),
    ));
    app.register(vec![lit("page")], text_entry("page"));
    let mut out = app.dispatch(Method::Get, "/page");
    // the inner layer consumed both slots on the way out
    assert!(out.take_local(&String::from("some_value")).is_none());
    assert!(out.take_param().is_none());
}

#[test]
fn set_then_take_returns_value_then_absent() {
    let mut ctx = Context::new(Method::Get, String::from("/p"), Vec::new());
    ctx.set_local(String::from("k"), StoredValue::IntVal(5));
    assert_eq!(ctx.take_local_int(&String::from("k")), Ok(5));
    assert_eq!(
        ctx.take_local_int(&String::from("k")),
        Err(StorageError::Absent)
    );
}

#[test]
fn set_local_overwrites_previous_value() {
    let mut ctx = Context::new(Method::Get, String::from("/p"), Vec::new());
    ctx.set_local(String::from("k"), StoredValue::IntVal(1));
    ctx.set_local(String::from("k"), StoredValue::IntVal(2));
    assert_eq!(ctx.take_local_int(&String::from("k")), Ok(2));
    assert_eq!(
        ctx.take_local_int(&String::from("k")),
        Err(StorageError::Absent)
    );
}

#[test]
fn mismatched_type_is_an_explicit_error() {
    let mut ctx = Context::new(Method::Get, String::from("/p"), Vec::new());
    ctx.set_local(String::from("k"), StoredValue::BoolVal(true));
    assert_eq!(
        ctx.take_local_int(&String::from("k")),
        Err(StorageError::TypeMismatch)
    );
    // the wrongly-typed read was still destructive
    assert_eq!(
        ctx.take_local_bool(&String::from("k")),
        Err(StorageError::Absent)
    );
}

#[test]
fn keys_are_independent() {
    let mut ctx = Context::new(Method::Get, String::from("/p"), Vec::new());
    ctx.set_local(String::from("a"), StoredValue::IntVal(1));
    ctx.set_local(String::from("b"), StoredValue::TextVal(String::from("two")));
    assert_eq!(ctx.take_local_int(&String::from("a")), Ok(1));
    match ctx.take_local(&String::from("b")) {
        Some(StoredValue::TextVal(s)) => assert_eq!(s, "two"),
        other => panic!("unexpected: {:?}", other.is_some()),
    }
}

#[test]
fn param_slot_is_one_shot_and_typed() {
    let mut ctx = Context::new(Method::Get, String::from("/p"), Vec::new());
    assert_eq!(ctx.take_param_bool(), Err(StorageError::Absent));
    ctx.set_param(StoredValue::BoolVal(true));
    assert_eq!(ctx.take_param_bool(), Ok(true));
    assert_eq!(ctx.take_param_bool(), Err(StorageError::Absent));
    ctx.set_param(StoredValue::IntVal(3));
    assert_eq!(ctx.take_param_bool(), Err(StorageError::TypeMismatch));
}

#[test]
fn echo_capture_handler_reads_captures() {
    let mut app = App::new();
    app.register(
        vec![lit("echo"), SegPattern::Regex(String::from("[a-z]+"))],
        RouteEntry::new(Handler::EchoCapture(0)),
    );
    let out = app.dispatch(Method::Get, "/echo/hello");
    assert_eq!(out.response.expect("response set").body, "hello");
}

#[test]
fn echo_capture_out_of_range_is_empty_body() {
    let mut app = App::new();
    app.register(vec![lit("e")], RouteEntry::new(Handler::EchoCapture(2)));
    let out = app.dispatch(Method::Get, "/e");
    let resp = out.response.expect("response set");
    assert_eq!(resp.status, 200);
    assert_eq!(resp.body, "");
}
