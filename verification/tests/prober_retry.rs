//! The service prober's short-circuit and abort behaviour, and the backoff
//! retrier's attempt and wait accounting.

use wallet_rust::ext::tokens::format_query_logs;
use wallet_rust::prober::{
    resolve_with_script, ResolutionFailure, ServiceTarget, TransportError, TransportErrorKind,
    TransportOutcome,
};
use wallet_rust::retry::{retry_with_backoff_scripted, RetryOutcome};
use wallet_rust::wire;

fn target() -> ServiceTarget {
    ServiceTarget {
        service_id: "erfen-7aaaa-aaaap-ahniq-cai".to_string(),
        method_name: "tokens".to_string(),
    }
}

fn identity() -> wallet_rust::ids::IdentityRef {
    wallet_rust::ids::IdentityRef::from_text("2vxsx-fae").unwrap()
}

fn transient() -> TransportOutcome {
    Err(TransportError {
        kind: TransportErrorKind::Transient,
        message: "timeout".to_string(),
    })
}

fn definitive() -> TransportOutcome {
    Err(TransportError {
        kind: TransportErrorKind::DefinitiveRejection,
        message: "no such canister".to_string(),
    })
}

#[test]
fn first_decodable_reply_stops_the_probe() {
    // the first candidate's call succeeds and decodes: no further candidate
    // may be attempted
    let mut script: Vec<TransportOutcome> = vec![Ok(wire::enc_tokens_ok_reply(&vec![9, 8, 7]))];
    for _ in 0..5 {
        script.push(transient());
    }
    let run = resolve_with_script(&target(), &identity(), &script, 0);
    assert_eq!(run.outcome.as_ref().unwrap(), &3);
    assert_eq!(run.used, 1);
    assert_eq!(run.logs.len(), 1);
    assert!(run.logs[0].success);
}

#[test]
fn definitive_rejection_is_terminal_at_once() {
    // a definitive rejection on the first candidate: no further candidates
    let mut script: Vec<TransportOutcome> = vec![definitive()];
    for _ in 0..5 {
        script.push(Ok(wire::enc_tokens_ok_reply(&vec![1])));
    }
    let run = resolve_with_script(&target(), &identity(), &script, 0);
    match run.outcome {
        Err(ResolutionFailure::DefinitiveRejection { message }) => {
            assert_eq!(
                message,
                "DestinationInvalid - Canister erfen-7aaaa-aaaap-ahniq-cai not found"
            );
        }
        _ => panic!("expected a terminal failure"),
    }
    assert_eq!(run.used, 1);
    assert_eq!(run.logs.len(), 1);
    assert!(!run.logs[0].success);
}

#[test]
fn exhausting_all_candidates_reports_the_audit_trail() {
    let script: Vec<TransportOutcome> = (0..6).map(|_| transient()).collect();
    let run = resolve_with_script(&target(), &identity(), &script, 0);
    match run.outcome {
        Err(ResolutionFailure::AllCandidatesExhausted { summary }) => {
            assert!(summary.starts_with("All query formats failed for erfen-7aaaa-aaaap-ahniq-cai: "));
            assert!(summary.contains("principal_text"));
            assert!(summary.contains("user_variant_1"));
        }
        _ => panic!("expected exhaustion"),
    }
    assert_eq!(run.used, 6);
    assert_eq!(run.logs.len(), 6);
    assert!(run.logs.iter().all(|l| !l.success));
    let rendered = format_query_logs(run.logs);
    assert_eq!(rendered.len(), 6);
    assert_eq!(
        rendered[0],
        "\u{274c} Query to erfen-7aaaa-aaaap-ahniq-cai: [principal_text] - Call error: timeout"
    );
}

#[test]
fn log_lines_render_with_the_status_marks() {
    let logs = vec![wallet_rust::ext::tokens::QueryLog {
        canister_id: "c".to_string(),
        encoding_type: "e".to_string(),
        success: true,
        result: "ok".to_string(),
    }];
    let rendered = format_query_logs(logs);
    assert_eq!(rendered, vec!["\u{2705} Query to c: [e] - ok".to_string()]);
}

#[test]
fn exhaustion_summary_joins_the_rendered_lines() {
    let script: Vec<TransportOutcome> = (0..6).map(|_| transient()).collect();
    let run = resolve_with_script(&target(), &identity(), &script, 0);
    let rendered = format_query_logs(run.logs);
    let expected = format!(
        "All query formats failed for erfen-7aaaa-aaaap-ahniq-cai: {}",
        rendered.join("; ")
    );
    match run.outcome {
        Err(ResolutionFailure::AllCandidatesExhausted { summary }) => {
            assert_eq!(summary, expected);
        }
        _ => panic!("expected exhaustion"),
    }
}

#[test]
fn decode_failures_move_to_the_next_candidate() {
    let mut script: Vec<TransportOutcome> = vec![
        Ok(vec![0x00, 0x01, 0x02]),
        Ok(wire::enc_tokens_ok_reply(&vec![4, 5])),
    ];
    for _ in 0..4 {
        script.push(transient());
    }
    let run = resolve_with_script(&target(), &identity(), &script, 0);
    assert_eq!(run.outcome.unwrap(), 2);
    assert_eq!(run.used, 2);
    assert!(!run.logs[0].success);
    assert!(run.logs[1].success);
}

#[test]
fn retry_succeeds_after_k_failures_with_doubling_waits() {
    // two failures then success: three attempts, waits 100 + 200
    let script: Vec<Result<u64, String>> = vec![
        Err("one".to_string()),
        Err("two".to_string()),
        Ok(7),
        Err("unused".to_string()),
        Err("unused".to_string()),
    ];
    match retry_with_backoff_scripted(&script, 5) {
        RetryOutcome::Success {
            value,
            attempts,
            waited_ms,
        } => {
            assert_eq!(value, 7);
            assert_eq!(attempts, 3);
            assert_eq!(waited_ms, 300);
        }
        _ => panic!("expected success"),
    }
}

#[test]
fn retry_wait_is_capped_at_the_ceiling() {
    // seven failures then success: waits 100+200+400+800+1600+3200+5000
    let mut script: Vec<Result<u64, String>> = (0..7).map(|i| Err(format!("e{}", i))).collect();
    script.push(Ok(1));
    script.push(Err("pad".to_string()));
    match retry_with_backoff_scripted(&script, 9) {
        RetryOutcome::Success {
            value,
            attempts,
            waited_ms,
        } => {
            assert_eq!(value, 1);
            assert_eq!(attempts, 8);
            assert_eq!(waited_ms, 100 + 200 + 400 + 800 + 1600 + 3200 + 5000);
        }
        _ => panic!("expected success"),
    }
}

#[test]
fn retry_gives_up_after_the_attempt_ceiling() {
    let script: Vec<Result<u64, String>> = vec![
        Err("a".to_string()),
        Err("b".to_string()),
        Err("boom".to_string()),
    ];
    match retry_with_backoff_scripted(&script, 3) {
        RetryOutcome::GaveUp {
            attempts,
            waited_ms,
            message,
        } => {
            assert_eq!(attempts, 3);
            assert_eq!(waited_ms, 300);
            assert_eq!(message, "Operation failed after 3 retries: boom");
        }
        _ => panic!("expected giving up"),
    }
}
