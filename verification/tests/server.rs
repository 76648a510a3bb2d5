//! The server: its configuration, its memory gate, its transform pipeline.
use std::collections::HashMap;

use einvoice::engine::server::config::{
    detect_memory, parse_cgroup_max, parse_meminfo, parse_nonzero, Config, ConfigError,
};
use einvoice::engine::server::gate::{MemGate, NeverFits};
use einvoice::engine::server::handle::Reply;
use einvoice::engine::server::probe::{answered_ok, probe_target};
use einvoice::engine::server::router::{
    content_length, reservation, respond, transform_step, Action, Event, HttpReply, Stage,
};


const GIB: u64 = 1024 * 1024 * 1024;

fn env(pairs: &[(&str, &str)]) -> impl Fn(&str) -> Option<String> {
    let map: HashMap<String, String> = pairs
        .iter()
        .map(|(k, v)| (k.to_string(), v.to_string()))
        .collect();
    move |key| map.get(key).cloned()
}

#[test]
fn test_resolve_no_env_uses_hardware_defaults() {
    let cfg = Config::resolve(env(&[]), Some(64 * GIB), 16).expect("defaults resolve");
    assert_eq!(
        cfg,
        Config {
            addr: "0.0.0.0:8080".into(),
            workers: 16,
            mem_budget_bytes: 32 * GIB, // half of detected
            mem_blowup: 7,
        }
    );
}

#[test]
fn test_resolve_env_overrides_win() {
    let cfg = Config::resolve(
        env(&[
            ("KRAB_ADDR", "127.0.0.1:9000"),
            ("KRAB_WORKERS", "4"),
            ("KRAB_MEM_BUDGET_BYTES", "1000000"),
            ("KRAB_MEM_BLOWUP", "3"),
        ]),
        Some(64 * GIB),
        16,
    )
    .expect("overrides resolve");
    assert_eq!(
        cfg,
        Config {
            addr: "127.0.0.1:9000".into(),
            workers: 4,
            mem_budget_bytes: 1_000_000,
            mem_blowup: 3,
        }
    );
}

#[test]
fn test_resolve_explicit_budget_needs_no_detection() {
    let cfg = Config::resolve(env(&[("KRAB_MEM_BUDGET_BYTES", "1000000")]), None, 8)
        .expect("explicit budget suffices");
    assert_eq!(cfg.mem_budget_bytes, 1_000_000);
}

#[test]
fn test_resolve_no_detection_and_no_budget_is_no_memory_source() {
    let err = Config::resolve(env(&[]), None, 8).expect_err("nothing to size budget from");
    assert_eq!(err, ConfigError::NoMemorySource);
}

#[test]
fn test_resolve_malformed_number_is_invalid() {
    let err = Config::resolve(env(&[("KRAB_WORKERS", "lots")]), Some(GIB), 8)
        .expect_err("not a number");
    assert!(
        matches!(
            err,
            ConfigError::Invalid {
                var: "KRAB_WORKERS",
                ..
            }
        ),
        "{err:?}"
    );
}

#[test]
fn test_resolve_zero_workers_is_invalid() {
    let err =
        Config::resolve(env(&[("KRAB_WORKERS", "0")]), Some(GIB), 8).expect_err("zero workers");
    assert!(
        matches!(
            err,
            ConfigError::Invalid {
                var: "KRAB_WORKERS",
                ..
            }
        ),
        "{err:?}"
    );
}

#[test]
fn test_resolve_zero_budget_is_invalid() {
    let err = Config::resolve(env(&[("KRAB_MEM_BUDGET_BYTES", "0")]), Some(GIB), 8)
        .expect_err("zero budget admits nothing");
    assert!(
        matches!(
            err,
            ConfigError::Invalid {
                var: "KRAB_MEM_BUDGET_BYTES",
                ..
            }
        ),
        "{err:?}"
    );
}

#[test]
fn test_resolve_zero_blowup_is_invalid() {
    let err = Config::resolve(env(&[("KRAB_MEM_BLOWUP", "0")]), Some(GIB), 8)
        .expect_err("zero blowup reserves nothing");
    assert!(
        matches!(
            err,
            ConfigError::Invalid {
                var: "KRAB_MEM_BLOWUP",
                ..
            }
        ),
        "{err:?}"
    );
}

#[test]
fn test_parse_cgroup_max_number_is_bytes() {
    assert_eq!(parse_cgroup_max("8589934592\n"), Some(8 * GIB));
}

#[test]
fn test_parse_cgroup_max_sentinel_is_none() {
    assert_eq!(parse_cgroup_max("max\n"), None);
}

#[test]
fn test_parse_cgroup_max_garbage_is_none() {
    assert_eq!(parse_cgroup_max("not-a-limit"), None);
}

#[test]
fn test_parse_meminfo_returns_memtotal_bytes() {
    let fixture = "MemTotal:       65758096 kB\n\
                   MemFree:        49386412 kB\n\
                   MemAvailable:   57021152 kB\n";
    assert_eq!(parse_meminfo(fixture), Some(65_758_096 * 1024));
}

#[test]
fn test_parse_meminfo_without_memtotal_is_none() {
    assert_eq!(parse_meminfo("MemFree: 12 kB\n"), None);
    assert_eq!(parse_meminfo(""), None);
}

#[test]
fn test_acquire_within_budget_succeeds_and_reduces_available() {
    let mut gate = MemGate::new(100);
    let guard = gate.acquire(60).expect("60 of 100 fits");
    assert!(gate.holds(guard.id));
    assert_eq!(gate.available(), 40);
}

#[test]
fn test_guard_drop_restores_available() {
    let mut gate = MemGate::new(100);
    let guard = gate.acquire(60).expect("fits");
    gate.release(guard.id);
    assert_eq!(gate.available(), 100);
}

#[test]
fn test_acquire_over_total_budget_returns_never_fits() {
    let mut gate = MemGate::new(100);
    // Rejected immediately even though the budget is fully free.
    let err = gate.acquire(101).expect_err("can never fit");
    assert_eq!(
        err,
        NeverFits {
            requested: 101,
            budget: 100
        }
    );
    assert_eq!(gate.available(), 100, "failed acquire reserves nothing");
}

#[test]
fn test_acquire_exactly_budget_succeeds() {
    let mut gate = MemGate::new(100);
    let guard = gate.acquire(100).expect("exact fit is admitted");
    assert!(gate.holds(guard.id));
    assert_eq!(gate.available(), 0);
}

#[test]
fn test_parallel_reservations_coexist_within_budget() {
    let mut gate = MemGate::new(100);
    let big = gate.acquire(60).expect("fits");
    // A second reservation is admitted immediately while the first lives.
    let small = gate.acquire(30).expect("still fits beside the first");
    assert!(gate.holds(big.id) && gate.holds(small.id));
    assert_eq!(gate.available(), 10);
    gate.release(big.id);
    gate.release(small.id);
    assert_eq!(gate.available(), 100);
}

#[test]
fn test_exhausted_budget_waits_until_guard_drops() {
    let mut gate = MemGate::new(100);
    let held = gate.acquire(80).expect("fits");
    // 50 > 20 free: must wait until `held` drops.
    let waiter = gate.acquire(50).expect("fits budget, must wait");
    assert!(
        !gate.holds(waiter.id),
        "acquire must wait while the budget is exhausted"
    );
    gate.release(held.id);
    assert!(gate.holds(waiter.id), "waiter resumes after release");
    assert_eq!(gate.available(), 50);
    gate.release(waiter.id);
    assert_eq!(gate.available(), 100);
}

#[test]
fn test_cancelled_waiter_reserves_nothing() {
    let mut gate = MemGate::new(100);
    let held = gate.acquire(80).expect("fits");
    let waiter = gate.acquire(50).expect("waits");
    gate.cancel(waiter.id);
    gate.release(held.id);
    assert_eq!(gate.available(), 100, "aborted waiter must not leak bytes");
    // The memory gate still admits after an aborted waiter.
    let guard = gate.acquire(100).expect("gate usable after cancellation");
    assert!(gate.holds(guard.id));
}

#[test]
fn test_waiters_are_admitted_in_order() {
    let mut gate = MemGate::new(100);
    let held = gate.acquire(80).unwrap();
    let first = gate.acquire(90).unwrap();
    let second = gate.acquire(10).unwrap();
    // 10 bytes are free, but the second came behind the first.
    assert!(!gate.holds(second.id));
    assert_eq!(gate.waiting(), 2);
    gate.release(held.id);
    assert!(gate.holds(first.id) && gate.holds(second.id));
    assert_eq!((gate.available(), gate.waiting(), gate.budget()), (0, 0, 100));
}

#[test]
fn test_never_fits_in_words() {
    let text = NeverFits { requested: 101, budget: 100 }.message();
    assert!(text.contains("101") && text.contains("100") && text.contains("never fit"), "{text}");
}

/// A `POST /transform` request with its declared length and the frames of its
/// body: what is answered, and how much was reserved for it.
fn transform(gate: &mut MemGate, length: Option<&str>, frames: Vec<Event>, reply: Reply) -> (HttpReply, u64) {
    let before = gate.available();
    let (answer, _) = answered(gate, length, frames, reply);
    (answer, before - gate.available())
}

/// The answer to a request, and the number of its reservation where it is still held.
fn answered(
    gate: &mut MemGate,
    length: Option<&str>,
    frames: Vec<Event>,
    reply: Reply,
) -> (HttpReply, Option<u128>) {
    let mut reserved: Option<u128> = None;
    let mut stage = Stage::Headers;
    let mut event = Event::Length(length.map(|s| s.to_string()));
    let mut frames = frames.into_iter();
    loop {
        let (next, action) = transform_step(stage, event, 7);
        stage = next;
        event = match action {
            Action::Reserve(bytes) => match gate.acquire(bytes) {
                Ok(guard) => {
                    reserved = Some(guard.id);
                    Event::Admitted
                }
                Err(e) => Event::Refused(e),
            },
            Action::Read => frames.next().unwrap_or(Event::End),
            Action::Transform(_) => Event::Replied(reply.clone()),
            Action::Respond(answer) => {
                if !answer.held {
                    if let Some(id) = reserved.take() {
                        gate.release(id);
                    }
                }
                return (answer, reserved);
            }
            Action::Nothing => unreachable!("nothing to do"),
        };
    }
}

const UBL: &[u8] = br#"<Invoice>
    <ID>INV-42</ID>
    <IssueDate>2026-06-27</IssueDate>
    <DocumentCurrencyCode>EUR</DocumentCurrencyCode>
    <LegalMonetaryTotal>
        <PayableAmount currencyID="EUR">119.00</PayableAmount>
    </LegalMonetaryTotal>
    <InvoiceLine><ID>1</ID><InvoicedQuantity>2</InvoicedQuantity><Item><Name>Widget</Name></Item></InvoiceLine>
</Invoice>"#;

const BIG_BUDGET: u64 = 64 * 1024 * 1024;

fn ok_reply() -> Reply {
    Reply { status: 200, body: "<ID>INV-42</ID>".to_string(), warnings: String::new() }
}

fn data(bytes: &[u8]) -> Event {
    Event::Data(bytes.to_vec())
}

#[test]
fn test_transform_valid_returns_200_xml() {
    let mut gate = MemGate::new(BIG_BUDGET);
    let (answer, _) = transform(&mut gate, Some("4"), vec![data(b"<a"), Event::NoData, data(b"/>")], ok_reply());
    assert_eq!(answer.status, 200);
    assert_eq!(answer.content_type, "application/xml");
    assert_eq!(answer.warnings, None, "clean transform must not emit a warnings header");
    assert_eq!(answer.content_length, answer.body.len());
    assert!(!answer.close);
    assert!(answer.body.contains("<ID>INV-42</ID>"));
}

#[test]
fn test_transform_problem_reply_is_text_plain() {
    let mut gate = MemGate::new(BIG_BUDGET);
    let problem = Reply { status: 400, body: "unknown format `not-a-format`".to_string(), warnings: String::new() };
    let (answer, _) = transform(&mut gate, Some("0"), vec![], problem);
    assert_eq!(answer.status, 400);
    assert_eq!(answer.content_type, "text/plain");
    assert!(answer.body.contains("not-a-format"));
}

#[test]
fn test_transform_without_content_length_returns_411_close() {
    let mut gate = MemGate::new(BIG_BUDGET);
    let (answer, reserved) = transform(&mut gate, None, vec![data(b"<a/>")], ok_reply());
    assert_eq!(answer.status, 411);
    assert!(answer.close);
    assert_eq!(reserved, 0);
}

#[test]
fn test_transform_reservation_over_budget_returns_413_close() {
    // budget 10 < len x 7: can never fit.
    let mut gate = MemGate::new(10);
    let (answer, reserved) = transform(&mut gate, Some("400"), vec![], ok_reply());
    assert_eq!(answer.status, 413);
    assert!(answer.close);
    assert_eq!(reserved, 0);
    assert!(answer.body.contains("never fit"));
}

#[test]
fn test_transform_body_exceeding_content_length_returns_400_close() {
    let mut gate = MemGate::new(BIG_BUDGET);
    let (answer, reserved) =
        transform(&mut gate, Some("10"), vec![data(b"<Invoice></Invoice>")], ok_reply());
    assert_eq!(answer.status, 400);
    assert!(answer.close);
    assert_eq!(reserved, 0);
    assert!(answer.body.contains("Content-Length"));
}

#[test]
fn test_transform_stalled_upload_times_out_with_400_close() {
    let mut gate = MemGate::new(BIG_BUDGET);
    let (answer, reserved) =
        transform(&mut gate, Some("1024"), vec![Event::ReadFailed("timed out".to_string())], ok_reply());
    assert_eq!(answer.status, 400);
    assert!(answer.close);
    assert_eq!(reserved, 0);
    assert!(
        answer.body.contains("failed reading request body"),
        "timeout surfaces on the body-read path"
    );
}

#[test]
fn test_reservation_released_only_after_response_body_is_read() {
    let mut gate = MemGate::new(BIG_BUDGET);
    let length = UBL.len().to_string();
    let (answer, held) = answered(&mut gate, Some(&length), vec![data(UBL)], ok_reply());
    assert_eq!(answer.status, 200);
    assert_eq!(
        gate.available(),
        BIG_BUDGET - (UBL.len() as u64) * 7,
        "reservation must still be held while the body is unread"
    );
    gate.release(held.expect("a reply keeps its reservation"));
    assert_eq!(
        gate.available(),
        BIG_BUDGET,
        "dropping the response body must release the reservation"
    );
}

#[test]
fn test_only_replies_stay_reserved() {
    for (event, held) in [
        (Event::Replied(ok_reply()), true),
        (Event::Replied(Reply { status: 422, body: String::new(), warnings: String::new() }), true),
        (Event::Panicked, true),
    ] {
        match transform_step(Stage::Transforming, event, 7).1 {
            Action::Respond(answer) => assert_eq!((answer.held, answer.close), (held, !held)),
            other => panic!("expected an answer, got {other:?}"),
        }
    }
    for (stage, event) in [
        (Stage::Headers, Event::Length(None)),
        (Stage::Admission(9), Event::Refused(NeverFits { requested: 63, budget: 10 })),
        (Stage::Body(1, vec![]), Event::ReadFailed("gone".to_string())),
        (Stage::Body(1, vec![]), data(b"<a/>")),
    ] {
        match transform_step(stage, event, 7).1 {
            Action::Respond(answer) => assert!(!answer.held && answer.close),
            other => panic!("expected an answer, got {other:?}"),
        }
    }
}

#[test]
fn test_numbers_are_used_again() {
    let mut gate = MemGate::new(10);
    for _ in 0..1000 {
        let a = gate.acquire(4).unwrap();
        let b = gate.acquire(4).unwrap();
        let c = gate.acquire(4).unwrap();
        assert!(a.id != b.id && b.id != c.id && a.id != c.id);
        assert!(a.id < 3 && b.id < 3 && c.id < 3);
        gate.cancel(c.id);
        gate.release(a.id);
        gate.release(b.id);
        assert_eq!((gate.available(), gate.waiting()), (10, 0));
    }
}

#[test]
fn test_a_release_gives_back_its_own_bytes() {
    let mut gate = MemGate::new(100);
    let a = gate.acquire(30).unwrap();
    let b = gate.acquire(50).unwrap();
    let c = gate.acquire(40).unwrap();
    let d = gate.acquire(5).unwrap();
    assert_eq!((gate.available(), gate.waiting()), (20, 2));
    gate.release(a.id);
    // The thirty bytes of the first are free again; the two that waited take theirs.
    assert_eq!((gate.available(), gate.waiting()), (5, 0));
    assert!(!gate.holds(a.id) && gate.holds(b.id) && gate.holds(c.id) && gate.holds(d.id));
    gate.release(c.id);
    assert_eq!(gate.available(), 45);
    gate.release(b.id);
    gate.release(d.id);
    assert_eq!(gate.available(), 100);
}

#[test]
fn test_a_panic_while_transforming_is_a_500() {
    let (stage, action) = transform_step(Stage::Transforming, Event::Panicked, 7);
    assert!(matches!(stage, Stage::Answered));
    match action {
        Action::Respond(answer) => assert_eq!(answer.status, 500),
        other => panic!("expected an answer, got {other:?}"),
    }
}

#[test]
fn test_warnings_become_a_header() {
    let answer = respond(Reply { status: 200, body: String::new(), warnings: "warning [W]".to_string() });
    assert_eq!(answer.warnings.as_deref(), Some("warning [W]"));
}

#[test]
fn test_declared_lengths() {
    assert_eq!(content_length(Some(" 42 ")), Some(42));
    assert_eq!(content_length(Some("-1")), None);
    assert_eq!(content_length(None), None);
    assert_eq!(reservation(10, 7), 70);
    assert_eq!(reservation(u64::MAX, 2), u64::MAX);
}

#[test]
fn test_probe_connects_to_loopback() {
    assert_eq!(probe_target("0.0.0.0:8080"), "127.0.0.1:8080");
    assert_eq!(probe_target("[::]:9000"), "127.0.0.1:9000");
    assert_eq!(probe_target("8080"), "127.0.0.1:8080");
}

#[test]
fn test_probe_reads_the_status() {
    assert!(answered_ok(b"HTTP/1.1 200 OK\r"));
    assert!(!answered_ok(b"HTTP/1.1 503 Ser"));
    assert!(!answered_ok(b"HTTP/1.1"));
}

#[test]
fn test_config_errors_in_words() {
    assert!(ConfigError::NoMemorySource.message().contains("KRAB_MEM_BUDGET_BYTES"));
    let err = parse_nonzero("KRAB_WORKERS", "lots").unwrap_err();
    assert!(err.message().contains("KRAB_WORKERS") && err.message().contains("lots"), "{}", err.message());
    assert_eq!(parse_nonzero("KRAB_WORKERS", "4").unwrap(), 4);
}

#[test]
fn test_memory_is_the_group_limit_if_there_is_one() {
    assert_eq!(detect_memory(Some("8192\n"), Some("MemTotal: 4 kB\n")), Some(8192));
    assert_eq!(detect_memory(Some("max\n"), Some("MemTotal: 4 kB\n")), Some(4096));
    assert_eq!(detect_memory(None, None), None);
}
