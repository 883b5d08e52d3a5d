use std::collections::HashMap;
use std::sync::Arc;

use cel_interpreter::{Context, Value};
use cellulose::decision::{Decision, DenyReason, FaultReason};
use cellulose::headers::{parse_headers, HeaderScalar, HeaderValue};
use cellulose::policy::{compile_policy, is_safe_policy, run_policy, PolicyCache, PolicyError};

fn scalar_value(s: HeaderScalar) -> Value {
    match s {
        HeaderScalar::Text(t) => Value::String(Arc::new(t)),
        HeaderScalar::Bytes(b) => Value::Bytes(Arc::new(b)),
    }
}

fn context_with_headers(headers: &[(&str, &str)]) -> Context<'static> {
    let entries: Vec<(String, Vec<u8>)> = headers
        .iter()
        .map(|(n, v)| (n.to_string(), v.as_bytes().to_vec()))
        .collect();
    let mut map: HashMap<String, Value> = HashMap::new();
    for (name, value) in parse_headers(&entries) {
        let v = match value {
            HeaderValue::Single(s) => scalar_value(s),
            HeaderValue::Multiple(vs) => Value::List(Arc::new(vs.into_iter().map(scalar_value).collect())),
        };
        map.insert(name, v);
    }
    let mut ctx = Context::default();
    ctx.add_variable_from_value("request_headers", map);
    ctx
}

#[test]
fn true_policy_allows() {
    let mut cache = PolicyCache::new();
    let ctx = context_with_headers(&[]);
    let d = cache.evaluate(&"true".to_string(), &ctx);
    assert_eq!(d, Decision::Allow);
    assert_eq!(d.status_code(), 200);
}

#[test]
fn false_policy_denies() {
    let mut cache = PolicyCache::new();
    let ctx = context_with_headers(&[]);
    let d = cache.evaluate(&"false".to_string(), &ctx);
    assert_eq!(d, Decision::Deny(DenyReason::PolicyDenied));
    assert_eq!(d.status_code(), 401);
}

#[test]
fn policy_reads_request_headers() {
    let mut cache = PolicyCache::new();
    let src = "request_headers.foo == 'bar'".to_string();
    let bar = context_with_headers(&[("foo", "bar")]);
    assert_eq!(cache.evaluate(&src, &bar), Decision::Allow);
    let baz = context_with_headers(&[("foo", "baz")]);
    assert_eq!(cache.evaluate(&src, &baz), Decision::Deny(DenyReason::PolicyDenied));
    assert_eq!(cache.len(), 1);
}

#[test]
fn non_boolean_result_is_a_fault() {
    let mut cache = PolicyCache::new();
    let ctx = context_with_headers(&[]);
    assert_eq!(
        cache.evaluate(&"'abc'".to_string(), &ctx),
        Decision::SystemError(FaultReason::NonBooleanResult)
    );
}

#[test]
fn failed_run_is_a_fault() {
    let mut cache = PolicyCache::new();
    let ctx = context_with_headers(&[]);
    assert_eq!(
        cache.evaluate(&"no_such_variable == 1".to_string(), &ctx),
        Decision::SystemError(FaultReason::PolicyExecutionFailed)
    );
}

#[test]
fn bad_policy_is_a_fault_and_not_cached() {
    let mut cache = PolicyCache::new();
    let ctx = context_with_headers(&[]);
    let src = "((( true".to_string();
    let d = cache.evaluate(&src, &ctx);
    assert_eq!(d, Decision::SystemError(FaultReason::BadPolicy));
    assert_eq!(d.status_code(), 500);
    assert_eq!(cache.len(), 0);
    assert!(cache.lookup(&src).is_none());
    assert_eq!(cache.evaluate(&src, &ctx), Decision::SystemError(FaultReason::BadPolicy));
    assert!(matches!(compile_policy(&src), Err(PolicyError::BadPolicy)));
}

#[test]
fn same_source_is_stored_once() {
    let mut cache = PolicyCache::new();
    let src = "true".to_string();
    let first = compile_policy(&src).ok().unwrap();
    let second = compile_policy(&src).ok().unwrap();
    cache.insert(first);
    cache.insert(second);
    assert_eq!(cache.len(), 1);
    let ctx = context_with_headers(&[]);
    let policy = cache.lookup(&src).unwrap();
    assert_eq!(run_policy(policy, &ctx), Decision::Allow);
}

#[test]
fn distinct_sources_get_distinct_entries() {
    let mut cache = PolicyCache::new();
    let ctx = context_with_headers(&[]);
    assert_eq!(cache.evaluate(&"true".to_string(), &ctx), Decision::Allow);
    assert_eq!(
        cache.evaluate(&"false".to_string(), &ctx),
        Decision::Deny(DenyReason::PolicyDenied)
    );
    assert_eq!(cache.len(), 2);
    assert!(cache.lookup(&"true".to_string()).is_some());
    assert!(cache.lookup(&"false".to_string()).is_some());
    assert!(cache.lookup(&"true ".to_string()).is_none());
}

#[test]
fn compiled_program_runs() {
    let c = compile_policy(&"2 > 1".to_string()).ok().unwrap();
    let ctx = context_with_headers(&[]);
    assert_eq!(run_policy(&c, &ctx), Decision::Allow);
}

fn refused(src: &str) {
    let mut cache = PolicyCache::new();
    let ctx = context_with_headers(&[]);
    assert!(!is_safe_policy(&src.to_string()), "{src}");
    assert!(matches!(compile_policy(&src.to_string()), Err(PolicyError::BadPolicy)));
    assert_eq!(
        cache.evaluate(&src.to_string(), &ctx),
        Decision::SystemError(FaultReason::BadPolicy)
    );
    assert_eq!(cache.len(), 0);
}

#[test]
fn integer_arithmetic_is_refused() {
    refused("1 / 0 == 1");
    refused("1 % 0 == 1");
    refused("9223372036854775807 + 1 > 0");
    refused("4611686018427387904 * 2 > 0");
    refused("-1 < 0");
}

#[test]
fn out_of_range_and_hex_literals_are_refused() {
    refused("99999999999999999999 == 1");
    refused("1234567890123456789 == 1");
    refused("0x10 == 16");
    refused("0X1u == 1u");
}

#[test]
fn spaced_unsigned_literal_is_refused() {
    refused("1 u == 1 u");
    refused("1 U == 1u");
}

#[test]
fn function_calls_are_refused() {
    refused("[1].all()");
    refused("size('a') == 1");
    refused("'abc'.startsWith('a')");
    refused("has (request_headers.foo)");
    refused("[1].exists(x, x == 1)");
}

#[test]
fn indexes_other_than_by_string_and_conditionals_are_refused() {
    refused("'a'[0] == 'a'");
    refused("request_headers[ 'foo'] == 'bar'");
    refused("[1][0] == 1");
    refused("true ? true : false");
}

#[test]
fn long_sources_are_refused() {
    let long = format!("{}true", "!".repeat(2000));
    refused(&long);
}

#[test]
fn deepest_accepted_nesting_runs() {
    let n = 510;
    let src = format!("{}true{}", "(".repeat(n), ")".repeat(n));
    assert_eq!(src.len(), 1024);
    assert!(is_safe_policy(&src));
    let mut cache = PolicyCache::new();
    let ctx = context_with_headers(&[]);
    // the parser may refuse this depth, but neither it nor a run panics
    let d = cache.evaluate(&src, &ctx);
    assert!(d == Decision::Allow || d == Decision::SystemError(FaultReason::BadPolicy));
    let nots = format!("{}true", "!".repeat(1020));
    assert!(is_safe_policy(&nots));
    let d = cache.evaluate(&nots, &ctx);
    assert!(d == Decision::Allow || d == Decision::SystemError(FaultReason::BadPolicy));
    let shallow = format!("{}true{}", "(".repeat(100), ")".repeat(100));
    assert_eq!(cache.evaluate(&shallow, &ctx), Decision::Allow);
    let list = format!("{}true{}[0]", "[".repeat(300), "]".repeat(300));
    assert!(!is_safe_policy(&list));
}

#[test]
fn grouping_and_lists_are_accepted() {
    let mut cache = PolicyCache::new();
    let ctx = context_with_headers(&[("foo", "bar")]);
    for src in [
        "(request_headers.foo == 'bar') && !(1 > 2)",
        "'bar' in ['baz', request_headers.foo]",
        "request_headers['foo'] == 'bar'",
    ] {
        assert!(is_safe_policy(&src.to_string()), "{src}");
        assert_eq!(cache.evaluate(&src.to_string(), &ctx), Decision::Allow, "{src}");
    }
}

#[test]
fn escapes_and_open_literals_are_refused() {
    refused("'a\\q' == 'a'");
    refused("b'\\xZZ' == b''");
    refused("'open == x");
    refused("true // comment");
}

#[test]
fn operators_inside_string_literals_are_accepted() {
    let src = "request_headers['x-forwarded-uri'] == '/a-b*c+d%e'";
    assert!(is_safe_policy(&src.to_string()));
    let mut cache = PolicyCache::new();
    let ctx = context_with_headers(&[("X-Forwarded-Uri", "/a-b*c+d%e")]);
    assert_eq!(cache.evaluate(&src.to_string(), &ctx), Decision::Allow);
    assert!(is_safe_policy(&"123456789012345678 > 1".to_string()));
    assert!(is_safe_policy(&"\"it's\" == \"it's\"".to_string()));
}
