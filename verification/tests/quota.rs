use empty_status::bar::Button;
use empty_status::units::quota::{
    codex_feed, json_object_end, openrouter_token, CodexSnapshot, CodexWindow, render_anthropic_statusline, rpc_step, RpcStep, AnthropicLimit, AnthropicQuota, Config, Facet, Intake,
    JsonBoundary, Limit, Model, ProviderConfig, Providers, Quantity, Sample, Snapshot,
    StatuslineReader, Window,
};
use empty_status::units::{ProbeError, Reaction};

#[test]
fn provider_set_rejects_duplicates_and_relative_secrets() {
    assert!(Providers::new(vec![ProviderConfig::Codex, ProviderConfig::Codex]).is_err());
    assert!(
        Providers::new(vec![ProviderConfig::OpenRouter {
            token_file: "token".to_owned(),
        }])
        .is_err()
    );
}

#[test]
fn boundary_ignores_braces_inside_strings() {
    let mut boundary = JsonBoundary::new();
    let input = br#" {"outer":{"text":"not } done"}} trailing"#;
    let end = input
        .iter()
        .position(|byte| boundary.push(*byte))
        .map(|index| index + 1);
    assert_eq!(end, Some(32));
}

#[test]
fn statusline_stdin_reader_stops_after_one_json_object() {
    let raw = br#"  {"outer":{"inner":"not } done","escape":"\\"}} trailing"#;
    assert_eq!(json_object_end(raw), Some(48));
}

#[test]
fn statusline_reader_stops_at_the_closing_brace() {
    let raw = br#"  {"a":{"b":"}"}} trailing"#;
    let mut reader = StatuslineReader::new();
    let mut outcome = Intake::More;
    for byte in raw.iter() {
        outcome = reader.accept(*byte);
        if outcome != Intake::More {
            break;
        }
    }
    assert_eq!(outcome, Intake::Complete);
    assert_eq!(reader.raw.len(), json_object_end(raw).unwrap_or(0));
}

#[test]
fn renders_partial_anthropic_windows() {
    let quota = AnthropicQuota::from_windows(
        0,
        Some(AnthropicLimit::from_used(12, Some(1_776_733_749))),
        Some(AnthropicLimit::from_used(37, None)),
    );
    assert_eq!(render_anthropic_statusline(quota.as_ref(), None), "cc 5h  88% 1w  63%");
    let Some(quota) = quota else { return };
    assert_eq!(quota.snapshot(None, None).limits.len(), 2);
}

#[test]
fn statusline_falls_back_to_the_context_window() {
    assert_eq!(render_anthropic_statusline(None, Some(42)), "ctx  42%");
    assert_eq!(render_anthropic_statusline(None, None), "");
}

fn percent_limit(window: Window) -> Limit {
    Limit {
        window: Some(window),
        remaining: Quantity::Percent(50),
        resets_at: Some(60),
        reset_label: Some("Mon 04-20 13:00".to_owned()),
    }
}

#[test]
fn provider_and_facet_generators_traverse_the_product() {
    let providers = Providers::new(vec![
        ProviderConfig::Anthropic,
        ProviderConfig::Codex,
        ProviderConfig::OpenRouter {
            token_file: "/run/secrets/openrouter".to_owned(),
        },
    ]);
    assert!(providers.is_ok());
    let Ok(providers) = providers else { return };
    let model = Model::new(Config {
        label: "quota".to_owned(),
        providers,
        stale_after: 60_000_000_000,
        error_after: 120_000_000_000,
    });
    assert!(model.is_ok());
    let Ok(mut model) = model else { return };
    let now: i128 = 1_000_000_000_000_000_000;
    model.latest = Some(Sample {
        anthropic: Some(Ok(Snapshot {
            captured_at: now,
            limits: vec![percent_limit(Window::FiveHours), percent_limit(Window::Week)],
        })),
        codex: Some(Ok(Snapshot {
            captured_at: now,
            limits: vec![percent_limit(Window::Week)],
        })),
        openrouter: Some(Ok(Snapshot {
            captured_at: now,
            limits: vec![Limit {
                window: None,
                remaining: Quantity::Dollars {
                    text: "$4.25".to_owned(),
                    color: empty_status::color::green(),
                },
                resets_at: None,
                reset_label: None,
            }],
        })),
    });

    assert!(model.render(now).body.to_string().contains("cc"));
    assert!(model.render(now).body.to_string().contains("5h"));
    assert!(matches!(model.click(Button::Left, now), Reaction::Publish(_)));
    assert_eq!(model.modes.left, Facet::Resets);
    assert!(model.render(now).body.to_string().contains('@'));
    assert!(matches!(model.click(Button::Right, now), Reaction::Publish(_)));
    assert!(model.render(now).body.to_string().contains("cx"));
    assert!(matches!(model.click(Button::Right, now), Reaction::Publish(_)));
    assert!(model.render(now).body.to_string().contains("or"));
    assert!(model.render(now).body.to_string().contains("no reset"));
    assert!(matches!(model.click(Button::Left, now), Reaction::Publish(_)));
    assert!(model.render(now).body.to_string().contains("$4.25"));
    assert!(matches!(model.click(Button::Right, now), Reaction::Publish(_)));
    assert!(model.render(now).body.to_string().contains("cc"));
    let _ = model.apply(
        Ok(Sample {
            anthropic: Some(Err(ProbeError::Unit("severed".to_owned()))),
            codex: Some(Err(ProbeError::Unit("severed".to_owned()))),
            openrouter: Some(Err(ProbeError::Unit("severed".to_owned()))),
        }),
        now,
    );
    assert!(model.render(now).body.to_string().contains("5h"));
    assert!(matches!(model.click(Button::Middle, now), Reaction::Refresh));
}

#[test]
fn rpc_lines_are_matched_by_id() {
    assert!(matches!(rpc_step(2, Some(1), true, None), RpcStep::Skip));
    assert!(matches!(rpc_step(2, None, true, None), RpcStep::Skip));
    assert!(matches!(rpc_step(2, Some(2), true, None), RpcStep::Answered));
    assert!(matches!(
        rpc_step(2, Some(2), false, Some((-32601, "no such method".to_owned()))),
        RpcStep::Failed(ProbeError::Unit(m)) if m == "Codex RPC -32601: no such method"
    ));
    assert!(matches!(
        rpc_step(2, Some(2), false, None),
        RpcStep::Failed(ProbeError::Unit(m)) if m == "Codex RPC omitted its result"
    ));
}

#[test]
fn openrouter_keys_are_trimmed_and_bounded() {
    assert_eq!(openrouter_token(b"  sk-key\n").ok(), Some("sk-key".to_owned()));
    assert!(matches!(openrouter_token(b" \n"), Err(ProbeError::Unit(m)) if m == "OpenRouter token is empty"));
    assert!(matches!(openrouter_token(b"\xff"), Err(ProbeError::Unit(m)) if m == "OpenRouter token is not UTF-8"));
    let long = vec![b'a'; 16385];
    assert!(matches!(openrouter_token(&long), Err(ProbeError::Unit(m)) if m == "OpenRouter token exceeds 16384 bytes"));
}

fn codex_window(w: &serde_json::Value) -> CodexWindow {
    CodexWindow {
        minutes: w.get("windowDurationMins").and_then(serde_json::Value::as_u64),
        used_percent: w.get("usedPercent").and_then(serde_json::Value::as_u64).and_then(|p| u8::try_from(p).ok()),
        resets_at: w.get("resetsAt").and_then(serde_json::Value::as_i64),
        reset_label: None,
    }
}

fn codex_snapshot(s: &serde_json::Value) -> CodexSnapshot {
    CodexSnapshot {
        primary: s.get("primary").map(codex_window),
        secondary: s.get("secondary").map(codex_window),
    }
}

#[test]
fn parses_current_codex_shape() {
    let raw = r#"{
        "rateLimits": {"primary": {"usedPercent": 20, "windowDurationMins": 300},
                       "secondary": {"resetsAt": 1776967090, "usedPercent": 64, "windowDurationMins": 10080}},
        "rateLimitsByLimitId": {}
    }"#;
    let envelope: serde_json::Value = serde_json::from_str(raw).expect("valid JSON");
    let by_limit = envelope
        .get("rateLimitsByLimitId")
        .and_then(|by_id| by_id.get("codex"))
        .map(codex_snapshot);
    let general = envelope.get("rateLimits").map(codex_snapshot);
    let snapshot = codex_feed(7, by_limit, general);
    assert!(snapshot.is_ok());
    let Ok(snapshot) = snapshot else { return };
    assert_eq!(snapshot.captured_at, 7);
    assert_eq!(snapshot.limits.len(), 1);
    assert!(matches!(snapshot.limits[0].remaining, Quantity::Percent(36)));
    assert_eq!(snapshot.limits[0].window, Some(Window::Week));
    assert_eq!(snapshot.limits[0].resets_at, Some(1_776_967_090));
}

#[test]
fn the_codex_limit_snapshot_wins_and_needs_a_weekly_window() {
    let week = |used: Option<u8>| CodexWindow {
        minutes: Some(10080),
        used_percent: used,
        resets_at: None,
        reset_label: Some("Mon 04-20 13:00".to_owned()),
    };
    let five_hours = CodexWindow { minutes: Some(300), used_percent: Some(5), resets_at: None, reset_label: None };
    let keyed = CodexSnapshot { primary: Some(week(Some(90))), secondary: None };
    let general = CodexSnapshot { primary: Some(week(Some(10))), secondary: None };
    let Ok(snapshot) = codex_feed(0, Some(keyed), Some(general)) else { panic!("weekly window") };
    assert!(matches!(snapshot.limits[0].remaining, Quantity::Percent(10)));
    assert_eq!(snapshot.limits[0].reset_label.as_deref(), Some("Mon 04-20 13:00"));
    let Err(ProbeError::Unit(missing)) = codex_feed(0, None, None) else { panic!("no snapshot") };
    assert_eq!(missing, "Codex returned no rate-limit snapshot");
    let short = CodexSnapshot { primary: Some(five_hours), secondary: None };
    let Err(ProbeError::Unit(no_week)) = codex_feed(0, None, Some(short)) else { panic!("no week") };
    assert_eq!(no_week, "Codex returned no weekly rate limit");
    let invalid = CodexSnapshot { primary: None, secondary: Some(week(None)) };
    let Err(ProbeError::Unit(bad)) = codex_feed(0, None, Some(invalid)) else { panic!("bad percent") };
    assert_eq!(bad, "Codex returned an invalid weekly percentage");
    let overspent = CodexSnapshot { primary: Some(week(Some(130))), secondary: None };
    let Ok(snapshot) = codex_feed(0, None, Some(overspent)) else { panic!("weekly window") };
    assert!(matches!(snapshot.limits[0].remaining, Quantity::Percent(0)));
}
