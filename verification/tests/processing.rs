use shrinker::alert::AlertDecision;
use shrinker::config::{AlertConfig, Config};
use shrinker::message::{extract_message, IpMasker};
use shrinker::processor::{ClosedGroup, LineClass, Processor};

fn config(threshold: u32, alert: Option<AlertConfig>, patterns: &[&str]) -> Config {
    Config {
        mask_ips: true,
        threshold,
        output_file: None,
        alert,
        exclude_patterns: patterns.iter().map(|p| p.to_string()).collect(),
        include_patterns: Vec::new(),
    }
}

fn processor(cfg: Config, dry_run: bool) -> Processor {
    let masker = match IpMasker::new() {
        Ok(m) => m,
        Err(_) => panic!("address patterns must compile"),
    };
    Processor::new(cfg, masker, dry_run)
}

/// Feeds the lines at the given times; returns the closed groups in order.
fn run(p: &mut Processor, lines: &[(&str, u64)]) -> Vec<ClosedGroup> {
    let mut out = Vec::new();
    for (line, now) in lines {
        let class = p.classify(line);
        assert!(!p.check_overflow(&class));
        if let Some(g) = p.accept(class, *now) {
            out.push(g);
        }
    }
    out
}

#[test]
fn extracts_message_after_bracket_prefix() {
    assert_eq!(extract_message("2024-01-01 [INFO] Server started  "), "Server started");
    assert_eq!(extract_message("   plain text   "), "plain text");
    assert_eq!(extract_message("{not json]rest"), "rest");
    assert_eq!(extract_message("no bracket here"), "no bracket here");
}

#[test]
fn extracts_message_from_json_records() {
    assert_eq!(extract_message(r#"{"level":"error","message":"disk full"}"#), "[ERROR] disk full");
    assert_eq!(extract_message(r#"  {"msg":"hello world"}  "#), "hello world");
    assert_eq!(extract_message(r#"{"message":"m","msg":"x","level":"warn"}"#), "[WARN] m");
    // `message` present but not a string: no fallback to `msg`.
    assert_eq!(extract_message(r#"{"message":5,"msg":"x"}"#), r#"{"message":5,"msg":"x"}"#);
    // level that is not a string is ignored.
    assert_eq!(extract_message(r#"{"msg":"hi","level":3}"#), "hi");
    // JSON without message falls back to the bracket rule.
    assert_eq!(extract_message(r#"{"list":[1,2]} tail"#), "} tail");
}

#[test]
fn masks_ipv4_and_ipv6_addresses() {
    let m = match IpMasker::new() {
        Ok(m) => m,
        Err(_) => panic!("address patterns must compile"),
    };
    assert_eq!(m.mask("Connection from 192.168.1.10 failed"), "Connection from [MASKED_IPv4] failed");
    assert_eq!(m.mask("peer 2001:db8::1 down"), "peer [MASKED_IPv6] down");
    assert_eq!(m.mask("loopback ::1"), "loopback [MASKED_IPv6]");
    assert_eq!(m.mask("at 10:00:00 ok"), "at 10:00:00 ok");
}

#[test]
fn classifies_blank_excluded_and_messages() {
    let p = processor(config(1, None, &["HEALTH check"]), false);
    assert!(matches!(p.classify("   \t "), LineClass::Blank));
    match p.classify("[INFO] health Check OK") {
        LineClass::Excluded(m) => assert_eq!(m, "health Check OK"),
        _ => panic!("expected an excluded line"),
    }
    match p.classify("[WARN] from 10.0.0.1") {
        LineClass::Message(m) => assert_eq!(m, "from [MASKED_IPv4]"),
        _ => panic!("expected a message"),
    }
}

#[test]
fn masking_can_be_turned_off() {
    let mut cfg = config(1, None, &[]);
    cfg.apply_overrides(None, true);
    let p = processor(cfg, false);
    match p.classify("from 10.0.0.1") {
        LineClass::Message(m) => assert_eq!(m, "from 10.0.0.1"),
        _ => panic!("expected a message"),
    }
}

#[test]
fn groups_consecutive_repeats_and_applies_threshold() {
    let mut p = processor(config(2, None, &[]), false);
    let groups = run(&mut p, &[("A", 0), ("A", 0), ("B", 0), ("   ", 0), ("C", 0), ("C", 0), ("C", 0)]);
    assert_eq!(groups.len(), 2);
    assert_eq!((groups[0].count, groups[0].message.as_str(), groups[0].kept), (2, "A", true));
    assert_eq!((groups[1].count, groups[1].message.as_str(), groups[1].kept), (1, "B", false));
    let fin = p.finish(0);
    let last = fin.last_group.expect("the open group closes");
    assert_eq!((last.count, last.message.as_str(), last.kept), (3, "C", true));
    assert_eq!((fin.stats.total, fin.stats.sent, fin.stats.skipped, fin.stats.excluded), (6, 2, 1, 0));
}

#[test]
fn excluded_lines_do_not_break_a_run() {
    let mut p = processor(config(1, None, &["heartbeat"]), false);
    let groups = run(&mut p, &[("A", 0), ("heartbeat ok", 0), ("A", 0), ("B", 0)]);
    assert_eq!(groups.len(), 1);
    assert_eq!((groups[0].count, groups[0].message.as_str()), (2, "A"));
    let fin = p.finish(0);
    assert_eq!((fin.stats.total, fin.stats.sent, fin.stats.skipped, fin.stats.excluded), (4, 2, 0, 1));
}

#[test]
fn empty_messages_are_counted_but_never_reported() {
    let mut p = processor(config(1, None, &[]), false);
    // "[x]" has an empty message: it breaks the run of A without being reported.
    let groups = run(&mut p, &[("[x]", 0), ("A", 0), ("[x]", 0), ("A", 0)]);
    assert_eq!(groups.len(), 1);
    assert_eq!((groups[0].count, groups[0].message.as_str()), (1, "A"));
    let fin = p.finish(0);
    let last = fin.last_group.expect("A is still open");
    assert_eq!((last.count, last.message.as_str()), (1, "A"));
    assert_eq!((fin.stats.total, fin.stats.sent, fin.stats.skipped), (4, 2, 0));
}

#[test]
fn empty_input_reports_nothing() {
    let p = processor(config(5, None, &[]), false);
    let fin = p.finish(0);
    assert!(fin.last_group.is_none());
    assert_eq!((fin.stats.total, fin.stats.sent, fin.stats.skipped, fin.stats.excluded), (0, 0, 0, 0));
}

const SECOND: u64 = 1_000_000_000;

#[test]
fn alerts_respect_threshold_and_cooldown() {
    let alert = AlertConfig { webhook_url: "http://hook".to_string(), threshold: 2, cooldown_minutes: Some(1) };
    let mut p = processor(config(1, Some(alert), &[]), false);
    let groups = run(
        &mut p,
        &[
            ("A", 0),
            ("A", 0),
            ("B", 0),          // closes A x2 at t=0: sent
            ("A", SECOND),     // closes B x1: below the alert threshold
            ("A", 2 * SECOND),
            ("C", 30 * SECOND), // closes A x2 at 30 s: within the cooldown
            ("A", 31 * SECOND),
            ("A", 40 * SECOND),
            ("D", 61 * SECOND), // closes C, then nothing; D closes A at 61 s: sent again
        ],
    );
    assert_eq!(groups.len(), 5);
    match &groups[0].alert {
        AlertDecision::Send { body } => assert_eq!(
            body,
            "{\"content\":\"**ALERTE CRITIQUE**\\nMessage repete **2 fois**\\n`A`\"}"
        ),
        _ => panic!("first alert is sent"),
    }
    assert!(matches!(groups[1].alert, AlertDecision::NoAlert));
    assert!(matches!(groups[2].alert, AlertDecision::Suppressed { cooldown_minutes: 1 }));
    assert!(matches!(groups[3].alert, AlertDecision::NoAlert));
    assert!(matches!(groups[4].alert, AlertDecision::Send { .. }));
}

#[test]
fn alerts_without_cooldown_always_go_out() {
    let alert = AlertConfig { webhook_url: "u".to_string(), threshold: 1, cooldown_minutes: None };
    let mut p = processor(config(1, Some(alert), &[]), false);
    let groups = run(&mut p, &[("A", 0), ("B", 0), ("A", 0), ("B", 0)]);
    assert_eq!(groups.len(), 3);
    for g in &groups {
        assert!(matches!(g.alert, AlertDecision::Send { .. }));
    }
}

#[test]
fn dry_run_sends_no_alert() {
    let alert = AlertConfig { webhook_url: "u".to_string(), threshold: 1, cooldown_minutes: None };
    let mut p = processor(config(1, Some(alert), &[]), true);
    let groups = run(&mut p, &[("A", 0), ("B", 0)]);
    assert_eq!(groups.len(), 1);
    assert!(matches!(groups[0].alert, AlertDecision::NoAlert));
    assert!(groups[0].kept);
    let fin = p.finish(0);
    assert!(matches!(fin.last_group.expect("B").alert, AlertDecision::NoAlert));
}

#[test]
fn overflowing_cooldown_is_reported_before_it_happens() {
    let alert = AlertConfig { webhook_url: "u".to_string(), threshold: 1, cooldown_minutes: Some(u64::MAX) };
    let mut p = processor(config(1, Some(alert), &[]), false);
    let groups = run(&mut p, &[("A", 0), ("B", 0)]);
    assert!(matches!(groups[0].alert, AlertDecision::Send { .. }));
    // A again: closing B is fine (B was never alerted), then A is open.
    let class = p.classify("A");
    assert!(!p.check_overflow(&class));
    let _ = p.accept(class, 0);
    // Closing A now needs its cooldown, which overflows.
    let class = p.classify("C");
    assert!(p.check_overflow(&class));
    assert!(p.check_closing_overflow());
}

#[test]
fn inclusion_patterns_keep_only_matching_messages() {
    let mut cfg = config(1, None, &["debug"]);
    cfg.include_patterns = vec!["ERROR".to_string(), "fatal".to_string()];
    let p = processor(cfg, false);
    assert!(matches!(p.classify("[x] an error occurred"), LineClass::Message(_)));
    assert!(matches!(p.classify("[x] FATAL crash"), LineClass::Message(_)));
    assert!(matches!(p.classify("[x] all good"), LineClass::Excluded(_)));
    // exclusion wins over inclusion
    assert!(matches!(p.classify("[x] debug error"), LineClass::Excluded(_)));
}

#[test]
fn empty_exclusion_pattern_drops_everything() {
    let p = processor(config(1, None, &[""]), false);
    assert!(matches!(p.classify("anything"), LineClass::Excluded(_)));
}

#[test]
fn patterns_apply_to_the_line_as_read() {
    let p = processor(config(1, None, &["heartbeat"]), false);
    // The word sits in the bracket prefix, not in the message: the line is dropped.
    match p.classify("[heartbeat] ok") {
        LineClass::Excluded(m) => assert_eq!(m, "ok"),
        _ => panic!("expected an excluded line"),
    }
    let mut cfg = config(1, None, &[]);
    cfg.include_patterns = vec!["worker-7".to_string()];
    let q = processor(cfg, false);
    assert!(matches!(q.classify("[worker-7] job done"), LineClass::Message(_)));
    assert!(matches!(q.classify("[worker-8] job done"), LineClass::Excluded(_)));
}

#[test]
fn dry_run_counts_like_a_normal_run_but_writes_nothing() {
    let alert = AlertConfig { webhook_url: "u".to_string(), threshold: 1, cooldown_minutes: Some(5) };
    let lines = [("A", 0), ("A", 0), ("B", 0), ("heartbeat", 0), ("C", 0)];
    let mut normal = processor(config(2, Some(alert), &["heartbeat"]), false);
    let alert = AlertConfig { webhook_url: "u".to_string(), threshold: 1, cooldown_minutes: Some(5) };
    let mut dry = processor(config(2, Some(alert), &["heartbeat"]), true);
    let n = run(&mut normal, &lines);
    let d = run(&mut dry, &lines);
    assert_eq!(n.len(), d.len());
    for (a, b) in n.iter().zip(d.iter()) {
        assert_eq!((a.count, a.message.as_str(), a.kept), (b.count, b.message.as_str(), b.kept));
        assert_eq!(a.written, a.kept);
        assert!(!b.written);
        assert!(matches!(b.alert, AlertDecision::NoAlert));
    }
    assert!(matches!(n[0].alert, AlertDecision::Send { .. }));
    let nf = normal.finish(0);
    let df = dry.finish(0);
    assert_eq!(
        (nf.stats.total, nf.stats.sent, nf.stats.skipped, nf.stats.excluded),
        (df.stats.total, df.stats.sent, df.stats.skipped, df.stats.excluded)
    );
    assert_eq!((df.stats.total, df.stats.sent, df.stats.skipped, df.stats.excluded), (5, 1, 2, 1));
}
