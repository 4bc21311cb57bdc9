use sofka::launch::LaunchArgs;

fn args(resource: Option<&str>) -> LaunchArgs {
    LaunchArgs {
        resource: resource.map(str::to_string),
        explicit_resource: None,
        namespace: None,
        all_namespaces: false,
        context: None,
        check: false,
        snapshot: false,
    }
}

#[test]
fn context_picker_launch_validates_explicit_context() {
    for alias in ["ctx", "contexts"] {
        let mut a = args(Some(alias));
        a.context = Some("prod".to_string());
        assert!(a.validate_picker_context(&["prod".to_string()]).is_ok());
        for contexts in [vec![], vec!["other".to_string()]] {
            let error = a.validate_picker_context(&contexts).unwrap_err();
            assert!(error.contains("context 'prod' not found"));
        }
        let a = args(Some(alias));
        assert!(a.validate_picker_context(&["other".to_string()]).is_ok());
    }
}

#[test]
fn context_picker_launch_namespace_flags() {
    for alias in ["ctx", "contexts"] {
        for (namespace, all, expected) in [
            (None, false, None),
            (Some("payments"), false, Some("payments")),
            (None, true, Some("")),
            (Some("payments"), true, Some("")),
        ] {
            let mut a = args(Some(alias));
            a.namespace = namespace.map(str::to_string);
            a.all_namespaces = all;
            assert_eq!(a.launch_namespace().as_deref(), expected);
        }
    }
}

#[test]
fn context_picker_launch_aliases_and_context_flag() {
    for alias in ["ctx", "contexts"] {
        let mut a = args(Some(alias));
        a.context = Some("prod".to_string());
        assert!(a.context_picker().unwrap());
        for (check, snapshot) in [(true, false), (false, true)] {
            let mut a = args(Some(alias));
            a.check = check;
            a.snapshot = snapshot;
            assert_eq!(
                a.context_picker(),
                Err("ctx and contexts require interactive mode; remove --check or --snapshot".to_string())
            );
        }
    }
    let mut with_context = args(None);
    with_context.context = Some("prod".to_string());
    for a in [args(None), args(Some("dp")), with_context] {
        assert!(!a.context_picker().unwrap());
    }
}

#[test]
fn completion_resource_can_be_selected_explicitly() {
    let mut a = args(None);
    a.explicit_resource = Some("completion".to_string());
    assert_eq!(a.resource(), Some("completion"));
}

#[test]
fn launch_opens_the_requested_resource_before_the_configured_default() {
    let mut explicit = args(None);
    explicit.explicit_resource = Some("plugin".to_string());
    assert_eq!(explicit.launch_resource(Some("svc")), "plugin");
    assert_eq!(args(Some("deploy")).launch_resource(Some("svc")), "deploy");
    assert_eq!(args(None).launch_resource(Some("svc")), "svc");
    assert_eq!(args(None).launch_resource(None), "pods");
}

#[test]
fn the_explicit_resource_wins_over_the_positional_one() {
    let mut a = args(Some("pods"));
    a.explicit_resource = Some("ctx".to_string());
    assert_eq!(a.resource(), Some("ctx"));
    assert!(a.context_picker().unwrap());
    assert_eq!(a.validate_picker_context(&[]), Ok(()));
}
