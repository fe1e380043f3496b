use aes67_matrix::net::Ipv4Address;
use aes67_matrix::nmos::{
    build_resources, connection_api, connection_message, plan_connection, query_url_plan,
    add_registry, probe_step, string, JsonValue, ProbeStep, QueryUrlPlan,
};

fn text(s: &str) -> JsonValue {
    JsonValue::Text(s.to_string())
}

fn object(members: Vec<(&str, JsonValue)>) -> JsonValue {
    JsonValue::Object(members.into_iter().map(|(k, v)| (k.to_string(), v)).collect())
}

#[test]
fn json_member_text() {
    let v = object(vec![("id", text("abc")), ("n", JsonValue::Other)]);
    assert_eq!(string(&v, "id"), "abc");
    assert_eq!(string(&v, "n"), "");
    assert_eq!(string(&v, "missing"), "");
    assert_eq!(string(&text("abc"), "id"), "");
}

#[test]
fn device_connection_api_from_controls() {
    let device = object(vec![
        ("id", text("d1")),
        (
            "controls",
            JsonValue::Array(vec![
                object(vec![("type", text("urn:x-manufacturer:ctl")), ("href", text("http://a/x"))]),
                object(vec![("type", text("urn:x-nmos:control:sr-ctrl/v1.1")), ("href", text("http://a/x-nmos/connection/v1.1/"))]),
            ]),
        ),
    ]);
    assert_eq!(connection_api(&device), "http://a/x-nmos/connection/v1.1/");
    let by_href = object(vec![(
        "controls",
        JsonValue::Array(vec![object(vec![("type", text("other")), ("href", text("http://b/connection/"))])]),
    )]);
    assert_eq!(connection_api(&by_href), "http://b/connection/");
    assert_eq!(connection_api(&object(vec![("controls", text("no"))])), "");
}

#[test]
fn resources_of_a_registry() {
    let nodes = vec![object(vec![("id", text("n1")), ("label", text("Node")), ("hostname", text("h")), ("description", text("d"))])];
    let devices = vec![
        object(vec![("id", text("d1")), ("node_id", text("n1")), ("controls", JsonValue::Array(vec![object(vec![("type", text("sr-ctrl")), ("href", text("http://old/"))])]))]),
        object(vec![("id", text("d1")), ("controls", JsonValue::Array(vec![object(vec![("type", text("sr-ctrl")), ("href", text("http://new/"))])]))]),
    ];
    let senders = vec![object(vec![("id", text("s1")), ("device_id", text("d1")), ("flow_id", text("f1")), ("transport", text("urn:x-nmos:transport:rtp")), ("manifest_href", text("http://m"))])];
    let receivers = vec![
        object(vec![("id", text("r1")), ("device_id", text("d1")), ("format", text("urn:x-nmos:format:audio")), ("subscription", object(vec![("sender_id", text("s1"))]))]),
        object(vec![("id", text("r2")), ("device_id", text("d9")), ("subscription", object(vec![("sender_id", JsonValue::Other)]))]),
    ];
    let r = build_resources("http://reg/x-nmos/query/v1.3".to_string(), &nodes, &devices, &senders, &receivers);
    assert_eq!(r.registry_url, "http://reg/x-nmos/query/v1.3");
    assert_eq!(r.nodes[0].label, "Node");
    assert_eq!(r.devices.len(), 2);
    assert_eq!(r.devices[0].connection_api, "http://old/");
    assert_eq!(r.devices[1].node_id, "");
    assert_eq!(r.senders[0].manifest_href, "http://m");
    assert_eq!(r.receivers[0].subscribed_sender_id, "s1");
    assert_eq!(r.receivers[0].connection_api, "http://new/");
    assert_eq!(r.receivers[0].format, "urn:x-nmos:format:audio");
    assert_eq!(r.receivers[1].subscribed_sender_id, "");
    assert_eq!(r.receivers[1].connection_api, "");
}

#[test]
fn query_urls() {
    match query_url_plan("  http://reg:8080/x-nmos/query/v1.3/ ") {
        QueryUrlPlan::Ready(u) => assert_eq!(u, "http://reg:8080/x-nmos/query/v1.3"),
        QueryUrlPlan::Probe(_) => panic!("expected a ready URL"),
    }
    match query_url_plan("http://reg:8080/x-nmos/query//") {
        QueryUrlPlan::Probe(c) => assert_eq!(
            c,
            vec![
                "http://reg:8080/x-nmos/query/v1.3",
                "http://reg:8080/x-nmos/query/v1.2",
                "http://reg:8080/x-nmos/query/v1.1",
                "http://reg:8080/x-nmos/query/v1.0"
            ]
        ),
        QueryUrlPlan::Ready(_) => panic!("expected candidates"),
    }
    match query_url_plan("reg.local") {
        QueryUrlPlan::Probe(c) => assert_eq!(c[3], "reg.local/x-nmos/query/v1.0"),
        QueryUrlPlan::Ready(_) => panic!("expected candidates"),
    }
}

#[test]
fn registries_from_dns_sd() {
    let mut regs = Vec::new();
    add_registry(
        &mut regs,
        "reg._nmos-query._tcp.local.",
        "reg.local.",
        8080,
        None,
        Some("v1.0, v1.3,v1.2"),
        Some("100"),
        &[Ipv4Address(10, 0, 0, 1), Ipv4Address(10, 0, 0, 1), Ipv4Address(10, 0, 0, 2)],
    );
    assert_eq!(regs.len(), 2);
    assert_eq!(regs[0].url, "http://10.0.0.1:8080/x-nmos/query/v1.3");
    assert_eq!(regs[0].api_version, "v1.3");
    assert_eq!(regs[0].priority, "100");
    assert_eq!(regs[1].url, "http://10.0.0.2:8080/x-nmos/query/v1.3");
    add_registry(&mut regs, "other", "o.local.", 80, Some("https"), None, None, &[Ipv4Address(10, 0, 0, 1)]);
    assert_eq!(regs.len(), 3);
    assert_eq!(regs[2].url, "https://10.0.0.1:80/x-nmos/query/v1.2");
    assert_eq!(regs[2].priority, "");
    add_registry(&mut regs, "again", "a", 8080, None, Some("v1.3"), None, &[Ipv4Address(10, 0, 0, 2)]);
    assert_eq!(regs.len(), 3);
}

#[test]
fn is05_requests() {
    assert_eq!(plan_connection("  ", "r1", None).err().unwrap(), "Il receiver non espone IS-05");
    let req = plan_connection("http://d/x-nmos/connection/v1.1//", "r1", Some("s1".to_string())).unwrap();
    assert_eq!(req.endpoint, "http://d/x-nmos/connection/v1.1/single/receivers/r1/staged");
    assert!(req.master_enable);
    assert_eq!(req.sender_id, Some("s1".to_string()));
    let off = plan_connection("http://d/c", "r1", Some(String::new())).unwrap();
    assert!(!off.master_enable);
    assert_eq!(off.sender_id, None);
    assert_eq!(connection_message(true), "Connessione NMOS attivata");
    assert_eq!(connection_message(false), "Receiver NMOS scollegato");
}

#[test]
fn probing_query_api_versions() {
    let candidates = vec!["http://r/x-nmos/query/v1.3".to_string(), "http://r/x-nmos/query/v1.2".to_string()];
    assert!(matches!(probe_step(&candidates, 0, true), ProbeStep::Use(u) if u == "http://r/x-nmos/query/v1.3"));
    assert!(matches!(probe_step(&candidates, 0, false), ProbeStep::Next(1)));
    assert!(matches!(probe_step(&candidates, 1, true), ProbeStep::Use(u) if u == "http://r/x-nmos/query/v1.2"));
    assert!(matches!(probe_step(&candidates, 1, false), ProbeStep::Fail(e) if e == "Nessuna Query API NMOS compatibile trovata"));
}
