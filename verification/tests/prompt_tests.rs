use sofka::prompt::{back_mode, parse_count, parse_port, prompt_accept, PromptKind, PromptOutcome};
use sofka::session::Mode;

fn s(t: &str) -> String {
    t.to_string()
}

fn chars(t: &str) -> Vec<char> {
    t.chars().collect()
}

#[test]
fn numbers_parse_as_std_does() {
    for t in ["0", "1", "65535", "65536", "+80", "-1", "", "+", "8a", "0080"] {
        assert_eq!(parse_port(&chars(t)), t.parse::<u16>().ok(), "{t}");
    }
    for t in ["0", "-0", "3", "+3", "-3", "2147483647", "2147483648", "-2147483648", "-2147483649", "", "-", "1.5"] {
        assert_eq!(parse_count(&chars(t)), t.parse::<i32>().ok(), "{t}");
    }
}

#[test]
fn scale_takes_a_non_negative_replica_count() {
    let k = Some(PromptKind::Scale);
    assert_eq!(prompt_accept(&k, " 3 ", true), PromptOutcome::Scale(3));
    assert_eq!(prompt_accept(&k, "0", true), PromptOutcome::Scale(0));
    assert_eq!(prompt_accept(&k, "-0", true), PromptOutcome::Scale(0));
    assert_eq!(prompt_accept(&k, "-2", true), PromptOutcome::Warn(s("invalid replica count")));
    assert_eq!(prompt_accept(&k, "three", true), PromptOutcome::Warn(s("invalid replica count")));
}

#[test]
fn local_port_prompt_needs_a_port_and_a_free_one() {
    let k = Some(PromptKind::PortForwardLocal { remote: s("8080") });
    let bad = PromptOutcome::Stay(Some(s("local port must be a number from 1 to 65535")));
    assert_eq!(prompt_accept(&k, "0", true), bad);
    assert_eq!(prompt_accept(&k, "70000", true), bad);
    assert_eq!(prompt_accept(&k, "http", true), bad);
    assert_eq!(prompt_accept(&k, "9000", false), PromptOutcome::Stay(None));
    assert_eq!(prompt_accept(&k, " 9000 ", true), PromptOutcome::ForwardLocal(s("9000:8080")));
}

#[test]
fn port_forward_prompt_needs_ports() {
    let k = Some(PromptKind::PortForward);
    assert_eq!(prompt_accept(&k, "", true), PromptOutcome::Warn(s("no ports given")));
    assert_eq!(prompt_accept(&k, "8080:80", true), PromptOutcome::Forward(s("8080:80")));
    assert_eq!(prompt_accept(&k, "8080:80", false), PromptOutcome::Stay(None));
}

#[test]
fn image_prompts_need_an_image() {
    assert_eq!(prompt_accept(&Some(PromptKind::SetImage), "  ", true), PromptOutcome::Warn(s("no image given")));
    assert_eq!(prompt_accept(&Some(PromptKind::SetImage), "nginx:1.27", true), PromptOutcome::SetImage(s("nginx:1.27")));
    assert_eq!(prompt_accept(&Some(PromptKind::Debug), "", true), PromptOutcome::Warn(s("no debug image given")));
    assert_eq!(prompt_accept(&Some(PromptKind::Debug), "busybox", true), PromptOutcome::Debug(s("busybox")));
}

#[test]
fn transfer_prompts_chain_source_then_destination() {
    let download = Some(PromptKind::Transfer { pod: s("web-0"), upload: false, src: None });
    assert_eq!(
        prompt_accept(&download, "/var/log/app.log", true),
        PromptOutcome::NextTransfer {
            label: s("Download web-0:/var/log/app.log — local path:"),
            input: s("app.log"),
            src: s("/var/log/app.log"),
        }
    );
    let upload = Some(PromptKind::Transfer { pod: s("web-0"), upload: true, src: None });
    assert_eq!(
        prompt_accept(&upload, "notes.txt", true),
        PromptOutcome::NextTransfer { label: s("Upload notes.txt to web-0 — remote path:"), input: s(""), src: s("notes.txt") }
    );
    let second = Some(PromptKind::Transfer { pod: s("web-0"), upload: false, src: Some(s("/etc/hosts")) });
    assert_eq!(prompt_accept(&second, "hosts", true), PromptOutcome::Transfer { src: s("/etc/hosts"), dest: s("hosts") });
    assert_eq!(prompt_accept(&second, " ", true), PromptOutcome::Warn(s("no path given — transfer cancelled")));
    // A directory path leaves nothing after its last `/`.
    let dir = Some(PromptKind::Transfer { pod: s("p"), upload: false, src: None });
    match prompt_accept(&dir, "/tmp/", true) {
        PromptOutcome::NextTransfer { input, .. } => assert_eq!(input, ""),
        other => panic!("{other:?}"),
    }
}

#[test]
fn empty_lookback_and_rename_cancel() {
    assert_eq!(prompt_accept(&Some(PromptKind::LogLookback), "", true), PromptOutcome::Nothing);
    assert_eq!(prompt_accept(&Some(PromptKind::LogLookback), " 15m ", true), PromptOutcome::Lookback(s("15m")));
    let rename = Some(PromptKind::RenameContext { old: s("a") });
    assert_eq!(prompt_accept(&rename, "", true), PromptOutcome::Nothing);
    assert_eq!(prompt_accept(&rename, "b", true), PromptOutcome::Rename { old: s("a"), new: s("b") });
    assert_eq!(prompt_accept(&None, "x", true), PromptOutcome::Nothing);
}

#[test]
fn guardrails_want_the_exact_text_back() {
    let k = Some(PromptKind::GuardConfirm { expected: s("prod") });
    assert_eq!(prompt_accept(&k, " prod ", true), PromptOutcome::Confirmed);
    assert_eq!(prompt_accept(&k, "Prod", true), PromptOutcome::Warn(s("guardrail: input did not match — cancelled")));
}

#[test]
fn cancelling_a_prompt_returns_where_it_was_opened() {
    let local = Some(PromptKind::PortForwardLocal { remote: "80".to_string() });
    assert_eq!(back_mode(&local, true, true, true), Mode::PortForwardPicker);
    assert_eq!(back_mode(&Some(PromptKind::LogLookback), true, false, false), Mode::Logs);
    assert_eq!(back_mode(&Some(PromptKind::RenameContext { old: "a".to_string() }), false, true, false), Mode::Contexts);
    assert_eq!(back_mode(&Some(PromptKind::Transfer { pod: "p".to_string(), upload: true, src: None }), false, false, true), Mode::PvcExplore);
    assert_eq!(back_mode(&Some(PromptKind::Scale), false, false, false), Mode::Table);
    assert_eq!(back_mode(&None, false, false, false), Mode::Table);
}
