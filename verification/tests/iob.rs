use fuzzerk::iob::{option_is, plan, IobPlan};

fn opts(pairs: &[(&str, &str)]) -> Vec<(String, String)> {
    pairs.iter().map(|(k, v)| (k.to_string(), v.to_string())).collect()
}

#[test]
fn addresses_are_told_apart_by_their_scheme() {
    let none = opts(&[]);
    assert_eq!(plan("none", &none), IobPlan::Sink);
    assert_eq!(plan("console", &none), IobPlan::Console);
    assert_eq!(
        plan("file:///tmp/out.bin", &none),
        IobPlan::File { path: "/tmp/out.bin".to_string(), append: false }
    );
    assert_eq!(
        plan("file://rel/path", &opts(&[("append", "true")])),
        IobPlan::File { path: "rel/path".to_string(), append: true }
    );
    assert_eq!(
        plan("file://", &opts(&[("append", "false")])),
        IobPlan::File { path: String::new(), append: false }
    );
    assert_eq!(
        plan("tcp://127.0.0.1:8088", &none),
        IobPlan::TcpClient { hostport: "127.0.0.1:8088".to_string() }
    );
    assert_eq!(plan("udp://127.0.0.1:8088", &none), IobPlan::Unknown);
    assert_eq!(plan("", &none), IobPlan::Unknown);
    assert_eq!(plan("None", &none), IobPlan::Unknown);
    assert_eq!(plan("console ", &none), IobPlan::Unknown);
    assert_eq!(plan("file:/x", &none), IobPlan::Unknown);
}

#[test]
fn the_last_occurrence_of_an_option_counts() {
    let o = opts(&[("append", "true"), ("mode", "x"), ("append", "false")]);
    assert!(option_is(&o, "append", "false"));
    assert!(!option_is(&o, "append", "true"));
    assert!(option_is(&o, "mode", "x"));
    assert!(!option_is(&o, "absent", ""));
    assert!(!option_is(&opts(&[]), "append", "true"));
    assert_eq!(
        plan("file://f", &opts(&[("append", "false"), ("append", "true")])),
        IobPlan::File { path: "f".to_string(), append: true }
    );
    assert_eq!(
        plan("file://f", &opts(&[("append", "TRUE")])),
        IobPlan::File { path: "f".to_string(), append: false }
    );
}
