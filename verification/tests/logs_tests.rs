use sofka::logs::{
    log_lookback_choice, provider_title, stream_plan, KubeletStream, LogSource, PodLogTarget, ProviderRequest,
    StreamPlan,
};

fn s(t: &str) -> String {
    t.to_string()
}

fn stream(ns: &str, pod: &str, container: Option<&str>, prefix: &str, previous: bool) -> KubeletStream {
    KubeletStream { ns: s(ns), pod: s(pod), container: container.map(s), prefix: s(prefix), previous }
}

#[test]
fn lookback_input_is_tail_a_duration_or_refused() {
    assert_eq!(log_lookback_choice(" tail "), Ok((0, s("tail"))));
    assert_eq!(log_lookback_choice("15m"), Ok((900, s("15m"))));
    assert_eq!(log_lookback_choice(" 2d"), Ok((172800, s("2d"))));
    assert_eq!(
        log_lookback_choice("soon"),
        Err(s("lookback: 'soon' is not a duration such as 30s, 15m, 4h or 2d; use s/m/h/d or tail"))
    );
}

#[test]
fn provider_titles_get_the_new_lookback() {
    assert_eq!(provider_title("web — victorialogs (1h)", "2d"), "web — victorialogs (2d)");
    assert_eq!(
        provider_title("victorialogs (x) — victorialogs (1h)", "30m"),
        "victorialogs (x) — victorialogs (30m)"
    );
    assert_eq!(provider_title("web — logs", "2d"), "web — logs");
    assert_eq!(provider_title("", "2d"), "");
}

#[test]
fn marked_pods_stream_every_container_with_its_prefix() {
    let source = Some(LogSource::Pods(vec![
        PodLogTarget { ns: s("shop"), name: s("web"), containers: vec![s("app"), s("proxy")] },
        PodLogTarget { ns: s("shop"), name: s("db"), containers: vec![] },
    ]));
    match stream_plan(&source) {
        StreamPlan::Kubelet(v) => assert_eq!(
            v,
            vec![
                stream("shop", "web", Some("app"), "[shop/web:app] ", false),
                stream("shop", "web", Some("proxy"), "[shop/web:proxy] ", false),
                stream("shop", "db", None, "[shop/db] ", false),
            ]
        ),
        other => panic!("{other:?}"),
    }
}

#[test]
fn one_pod_prefixes_containers_only_when_several() {
    let two = Some(LogSource::Pod { ns: s("a"), name: s("p"), containers: vec![s("x"), s("y")] });
    match stream_plan(&two) {
        StreamPlan::Kubelet(v) => {
            assert_eq!(v, vec![stream("a", "p", Some("x"), "[x] ", false), stream("a", "p", Some("y"), "[y] ", false)])
        }
        other => panic!("{other:?}"),
    }
    let one = Some(LogSource::Pod { ns: s("a"), name: s("p"), containers: vec![s("x")] });
    match stream_plan(&one) {
        StreamPlan::Kubelet(v) => assert_eq!(v, vec![stream("a", "p", Some("x"), "", false)]),
        other => panic!("{other:?}"),
    }
    let unknown = Some(LogSource::Pod { ns: s("a"), name: s("p"), containers: vec![] });
    match stream_plan(&unknown) {
        StreamPlan::Kubelet(v) => assert_eq!(v, vec![stream("a", "p", None, "", false)]),
        other => panic!("{other:?}"),
    }
    let previous = Some(LogSource::Single { ns: s("a"), pod: s("p"), container: Some(s("x")), previous: true });
    match stream_plan(&previous) {
        StreamPlan::Kubelet(v) => assert_eq!(v, vec![stream("a", "p", Some("x"), "", true)]),
        other => panic!("{other:?}"),
    }
}

#[test]
fn selectors_and_providers_pass_through() {
    match stream_plan(&Some(LogSource::Selector { ns: s("a"), labels: s("app=web") })) {
        StreamPlan::Selector { ns, labels } => assert_eq!((ns, labels), (s("a"), s("app=web"))),
        other => panic!("{other:?}"),
    }
    match stream_plan(&Some(LogSource::Provider { request: ProviderRequest::Namespace { ns: s("a") } })) {
        StreamPlan::Provider(ProviderRequest::Namespace { ns }) => assert_eq!(ns, "a"),
        other => panic!("{other:?}"),
    }
    assert!(matches!(stream_plan(&None), StreamPlan::Nothing));
}
