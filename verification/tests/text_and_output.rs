use shrinker::config::{
    env_var_name, is_json_format, resolve_webhook, verbosity_from_flags, AlertConfig, Config, Verbosity,
    WebhookUrl,
};
use shrinker::message::message_from_members;
use shrinker::output::{format_alert_body, format_alert_content, format_json_line, format_text_line, reduction_percent};
use shrinker::text::{chars_of, contains, find_char, push_decimal, string_of, trim_chars};

#[test]
fn trims_unicode_whitespace() {
    let v = chars_of("\u{3000} \t abc d \n\u{a0}");
    assert_eq!(string_of(&trim_chars(&v)), "abc d");
    assert_eq!(trim_chars(&chars_of(" \t ")).len(), 0);
}

#[test]
fn finds_substrings_and_characters() {
    let hay = chars_of("health check ok");
    assert!(contains(&hay, &chars_of("check")));
    assert!(contains(&hay, &chars_of("")));
    assert!(!contains(&hay, &chars_of("checks ok!")));
    assert_eq!(find_char(&chars_of("a]b]"), ']'), Some(1));
    assert_eq!(find_char(&chars_of("ab"), ']'), None);
}

#[test]
fn writes_decimal_numbers() {
    for n in [0u64, 7, 10, 42, 1000, u64::MAX] {
        let mut v = Vec::new();
        push_decimal(&mut v, n);
        assert_eq!(string_of(&v), n.to_string());
    }
}

#[test]
fn formats_text_lines() {
    assert_eq!(format_text_line(6, "disk full"), "[x6] disk full\n");
    assert_eq!(format_text_line(1, "once"), "[+] once\n");
    assert_eq!(format_text_line(0, "none"), "[+] none\n");
}

#[test]
fn formats_json_lines() {
    assert_eq!(
        format_json_line(5, "say \"hi\"", "2026-03-07T10:00:00.000Z"),
        "{\"count\":5,\"message\":\"say \\\"hi\\\"\",\"timestamp\":\"2026-03-07T10:00:00.000Z\"}\n"
    );
}

#[test]
fn formats_alert_content() {
    assert_eq!(format_alert_content(50, "boom"), "**ALERTE CRITIQUE**\nMessage repete **50 fois**\n`boom`");
}

#[test]
fn computes_reduction() {
    assert_eq!(reduction_percent(0, 10), 100);
    assert_eq!(reduction_percent(3, 10), 70);
    assert_eq!(reduction_percent(1, 3), 67);
    assert_eq!(reduction_percent(10, 10), 0);
}

#[test]
fn verbosity_flags() {
    assert!(verbosity_from_flags(true, true).is_err());
    assert!(matches!(verbosity_from_flags(false, true), Ok(Verbosity::Quiet)));
    assert!(matches!(verbosity_from_flags(true, false), Ok(Verbosity::Verbose)));
    assert!(matches!(verbosity_from_flags(false, false), Ok(Verbosity::Normal)));
}

#[test]
fn output_format_names() {
    assert!(is_json_format("json"));
    assert!(is_json_format("JSON"));
    assert!(is_json_format("J"));
    assert!(!is_json_format("text"));
    assert!(!is_json_format("jsonl"));
}

#[test]
fn environment_variable_names() {
    assert_eq!(env_var_name("  ${DISCORD_WEBHOOK}  "), Some("DISCORD_WEBHOOK".to_string()));
    assert_eq!(env_var_name("$DISCORD_WEBHOOK"), Some("DISCORD_WEBHOOK".to_string()));
    assert_eq!(env_var_name("$HOOK trailing words"), Some("HOOK".to_string()));
    assert_eq!(env_var_name("${UNCLOSED"), Some("{UNCLOSED".to_string()));
    assert_eq!(env_var_name("$"), Some(String::new()));
    assert_eq!(env_var_name("https://discord.com/api/webhooks/x"), None);
}

#[test]
fn webhook_resolution() {
    match resolve_webhook("$HOOK", Some("https://h".to_string())) {
        WebhookUrl::Resolved(v) => assert_eq!(v, "https://h"),
        _ => panic!("resolved"),
    }
    assert!(matches!(resolve_webhook("https://h", None), WebhookUrl::AsWritten));
    match resolve_webhook("${HOOK}/x", None) {
        WebhookUrl::MissingVariable(h) => assert_eq!(h, "HOOK"),
        _ => panic!("missing"),
    }
    match resolve_webhook("${HOOK", None) {
        WebhookUrl::MissingVariable(h) => assert_eq!(h, "HOOK"),
        _ => panic!("missing"),
    }
    match resolve_webhook("$HOOK", None) {
        WebhookUrl::MissingVariable(h) => assert_eq!(h, "HOOK"),
        _ => panic!("missing"),
    }
}

#[test]
fn overrides_and_stdout_mode() {
    let mut c = Config {
        mask_ips: true,
        threshold: 5,
        output_file: Some(String::new()),
        alert: Some(AlertConfig { webhook_url: "u".to_string(), threshold: 50, cooldown_minutes: Some(15) }),
        exclude_patterns: vec!["heartbeat".to_string()],
        include_patterns: Vec::new(),
    };
    assert!(c.is_stdout_mode());
    c.apply_overrides(Some(10), false);
    assert_eq!((c.threshold, c.mask_ips), (10, true));
    c.apply_overrides(None, true);
    assert_eq!((c.threshold, c.mask_ips), (10, false));
    c.output_file = Some("clean.log".to_string());
    assert!(!c.is_stdout_mode());
    c.output_file = None;
    assert!(c.is_stdout_mode());
}

#[test]
fn message_from_json_members() {
    let s = |x: &str| Some(Some(x.to_string()));
    assert_eq!(message_from_members(s("disk full"), None, s("error")), Some("[ERROR] disk full".to_string()));
    assert_eq!(message_from_members(None, s("hi"), None), Some("hi".to_string()));
    assert_eq!(message_from_members(Some(None), s("hi"), s("info")), None);
    assert_eq!(message_from_members(None, None, s("info")), None);
    assert_eq!(message_from_members(s("m"), s("x"), Some(None)), Some("m".to_string()));
}

#[test]
fn json_line_escapes_control_characters_and_stays_one_line() {
    let line = format_json_line(1, "a\nb\u{1}\t\"\\", "t");
    assert_eq!(line, "{\"count\":1,\"message\":\"a\\nb\\u0001\\t\\\"\\\\\",\"timestamp\":\"t\"}\n");
    assert_eq!(line.matches('\n').count(), 1);
    let v: serde_json::Value = serde_json::from_str(line.trim_end()).expect("valid JSON");
    assert_eq!(v["count"], 1);
    assert_eq!(v["message"], "a\nb\u{1}\t\"\\");
    assert_eq!(v["timestamp"], "t");
}

#[test]
fn alert_body_reads_back_to_the_alert_text() {
    let msg = "it's \"bad\" `rm -rf /`\nnext";
    let body = format_alert_body(3, msg);
    assert!(!body.contains('\n'));
    let v: serde_json::Value = serde_json::from_str(&body).expect("valid JSON");
    assert_eq!(v.as_object().map(|o| o.len()), Some(1));
    assert_eq!(v["content"], format_alert_content(3, msg));
}
