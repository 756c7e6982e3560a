use route_dispatch::guard::{evaluate, seek, Absent, Guard, GuardOutcome};
use route_dispatch::request::{Method, RequestContext};
use route_dispatch::value::Value;

fn header(name: &str, absent: Absent) -> Guard {
    Guard::Header(name.to_string(), absent)
}

fn cookie(name: &str, absent: Absent) -> Guard {
    Guard::Cookie(name.to_string(), absent)
}

fn text(s: &str) -> Value {
    Value::Text(s.to_string())
}

#[test]
fn an_empty_chain_succeeds_with_no_values() {
    let ctx = RequestContext::new(Method::Get, "/");
    assert_eq!(evaluate(&Vec::new(), &ctx), GuardOutcome::Success(Vec::new()));
}

#[test]
fn a_header_guard_passes_on_the_header_value() {
    let ctx = RequestContext::new(Method::Get, "/").with_header("Authorization", "123 ");
    assert_eq!(
        evaluate(&vec![header("Authorization", Absent::Forward)], &ctx),
        GuardOutcome::Success(vec![text("123 ")])
    );
}

#[test]
fn a_header_name_matches_whatever_its_case() {
    let ctx = RequestContext::new(Method::Get, "/").with_header("authorization", "k");
    assert_eq!(seek(&header("Authorization", Absent::Forward), &ctx), Some("k".to_string()));
    assert_eq!(seek(&header("AUTHORIZATION", Absent::Forward), &ctx), Some("k".to_string()));
    assert_eq!(seek(&header("Authorizatio", Absent::Forward), &ctx), None);
}

#[test]
fn a_cookie_name_matches_exactly() {
    let ctx = RequestContext::new(Method::Get, "/").with_cookie("Message", "m");
    assert_eq!(seek(&cookie("Message", Absent::Forward), &ctx), Some("m".to_string()));
    assert_eq!(seek(&cookie("message", Absent::Forward), &ctx), None);
}

#[test]
fn the_first_of_several_headers_of_a_name_is_taken() {
    let ctx = RequestContext::new(Method::Get, "/").with_header("X", "1").with_header("x", "2");
    assert_eq!(seek(&header("x", Absent::Forward), &ctx), Some("1".to_string()));
}

#[test]
fn a_guard_forwards_or_fails_where_the_request_lacks_what_it_seeks() {
    let ctx = RequestContext::new(Method::Get, "/");
    assert_eq!(evaluate(&vec![header("Authorization", Absent::Forward)], &ctx), GuardOutcome::Forward);
    assert_eq!(
        evaluate(&vec![header("Authorization", Absent::Fail(403))], &ctx),
        GuardOutcome::Failure(403)
    );
    assert_eq!(evaluate(&vec![cookie("sid", Absent::Fail(401))], &ctx), GuardOutcome::Failure(401));
}

#[test]
fn guards_run_in_order_and_stop_at_the_first_that_does_not_pass() {
    let ctx = RequestContext::new(Method::Get, "/").with_header("A", "a").with_cookie("c", "v");
    let all = vec![header("A", Absent::Fail(400)), cookie("c", Absent::Fail(401))];
    assert_eq!(evaluate(&all, &ctx), GuardOutcome::Success(vec![text("a"), text("v")]));
    let forward_first = vec![header("B", Absent::Forward), header("C", Absent::Fail(403))];
    assert_eq!(evaluate(&forward_first, &ctx), GuardOutcome::Forward);
    let fail_first = vec![header("B", Absent::Fail(403)), header("C", Absent::Forward)];
    assert_eq!(evaluate(&fail_first, &ctx), GuardOutcome::Failure(403));
    let pass_then_fail = vec![header("A", Absent::Forward), header("B", Absent::Fail(418))];
    assert_eq!(evaluate(&pass_then_fail, &ctx), GuardOutcome::Failure(418));
}
