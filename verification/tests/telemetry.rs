use quiz_arena::kernel::RpcCode;
use quiz_arena::telemetry::{
    ConnectSpanLayer, OtlpProtocol, RpcStatusInterceptor, TelemetryConfig, TracedPaths,
    exporter_endpoint, http_signal_url, is_reflection, is_tooling, record_rpc_error, rpc_path,
    server_fault, span_name,
};

fn traced() -> TracedPaths {
    TracedPaths::new(
        [
            "/quiz_arena.greet.v1.GreetService/Greet",
            "/grpc.reflection.v1.ServerReflection/ServerReflectionInfo",
            "/grpc.health.v1.Health/Check",
        ]
        .map(str::to_owned)
        .to_vec(),
    )
}

#[test]
fn only_mounted_non_tooling_paths_are_traced() {
    let traced = traced();

    assert!(traced.contains("/quiz_arena.greet.v1.GreetService/Greet"));
    assert!(!traced.contains("/grpc.reflection.v1.ServerReflection/ServerReflectionInfo"));
    assert!(!traced.contains("/grpc.health.v1.Health/Check"));
    // Not mounted, so a scan rather than an RPC.
    assert!(!traced.contains("/random/value"));
}

#[test]
fn http_signal_path_is_appended_to_base_endpoint() {
    assert_eq!(
        http_signal_url("https://collector.example", "traces"),
        "https://collector.example/v1/traces"
    );
}

#[test]
fn http_signal_path_is_inserted_before_query_and_fragment() {
    assert_eq!(
        http_signal_url("https://collector.example/custom?tenant=acme", "traces"),
        "https://collector.example/custom/v1/traces?tenant=acme"
    );
    assert_eq!(
        http_signal_url("https://collector.example/custom/#fragment", "metrics"),
        "https://collector.example/custom/v1/metrics#fragment"
    );
}

#[test]
fn http_signal_path_drops_every_trailing_slash() {
    assert_eq!(
        http_signal_url("http://localhost:4318///", "logs"),
        "http://localhost:4318/v1/logs"
    );
}

#[test]
fn grpc_exporters_use_the_base_endpoint() {
    assert_eq!(
        exporter_endpoint(OtlpProtocol::Grpc, "http://localhost:4317", "traces"),
        "http://localhost:4317"
    );
    assert_eq!(
        exporter_endpoint(OtlpProtocol::HttpProtobuf, "http://localhost:4318", "metrics"),
        "http://localhost:4318/v1/metrics"
    );
}

#[test]
fn telemetry_defaults() {
    let config = TelemetryConfig::default();
    assert!(!config.enabled);
    assert_eq!(config.otlp_endpoint, "http://localhost:4317");
    assert_eq!(config.otlp_protocol, OtlpProtocol::Grpc);
}

#[test]
fn rpc_paths_split_into_service_and_method() {
    let target = rpc_path("/quiz_arena.greet.v1.GreetService/Greet").unwrap();
    assert_eq!(target.service, "quiz_arena.greet.v1.GreetService");
    assert_eq!(target.method, "Greet");
    assert_eq!(span_name(&target), "quiz_arena.greet.v1.GreetService/Greet");

    let nested = rpc_path("/a/b/c").unwrap();
    assert_eq!(nested.service, "a");
    assert_eq!(nested.method, "b/c");

    assert!(rpc_path("quiz_arena.greet.v1.GreetService/Greet").is_none());
    assert!(rpc_path("/no-method").is_none());
    assert!(rpc_path("").is_none());
}

#[test]
fn tooling_paths() {
    assert!(is_tooling("/grpc.reflection.v1.ServerReflection/ServerReflectionInfo"));
    assert!(is_tooling("/grpc.health.v1.Health/Check"));
    assert!(!is_tooling("/quiz_arena.greet.v1.GreetService/Greet"));
    assert!(is_reflection("/grpc.reflection.v1alpha.ServerReflection/ServerReflectionInfo"));
    assert!(!is_reflection("/grpc.health.v1.Health/Check"));
}

#[test]
fn span_layer_traces_only_mounted_rpcs() {
    let layer = ConnectSpanLayer::new(traced());
    let service = layer.layer(7u8);
    assert_eq!(*service.inner(), 7);
    let target = service
        .rpc_for("/quiz_arena.greet.v1.GreetService/Greet")
        .unwrap();
    assert_eq!(target.method, "Greet");
    assert!(service.rpc_for("/grpc.health.v1.Health/Check").is_none());
    assert!(service.rpc_for("/random/value").is_none());
}

#[test]
fn only_server_faults_mark_the_span_failed() {
    let internal = record_rpc_error(RpcCode::Internal);
    assert_eq!(internal.status_code, RpcCode::Internal);
    assert_eq!(internal.error_type, Some(RpcCode::Internal));
    assert!(internal.marks_failed);

    let invalid = RpcStatusInterceptor.on_error(RpcCode::InvalidArgument);
    assert_eq!(invalid.status_code, RpcCode::InvalidArgument);
    assert_eq!(invalid.error_type, None);
    assert!(!invalid.marks_failed);

    for code in [
        RpcCode::Unknown,
        RpcCode::DeadlineExceeded,
        RpcCode::Unimplemented,
        RpcCode::Internal,
        RpcCode::Unavailable,
        RpcCode::DataLoss,
    ] {
        assert!(server_fault(code), "{code:?}");
    }
    for code in [
        RpcCode::Canceled,
        RpcCode::InvalidArgument,
        RpcCode::NotFound,
        RpcCode::AlreadyExists,
        RpcCode::PermissionDenied,
        RpcCode::ResourceExhausted,
        RpcCode::FailedPrecondition,
        RpcCode::Aborted,
        RpcCode::OutOfRange,
        RpcCode::Unauthenticated,
    ] {
        assert!(!server_fault(code), "{code:?}");
    }
}

#[test]
fn repeated_paths_are_traced_once_and_alike() {
    let traced = TracedPaths::new(vec![
        "/a.B/C".to_owned(),
        "/a.B/C".to_owned(),
        "/grpc.health.v1.Health/Check".to_owned(),
    ]);
    assert!(traced.contains("/a.B/C"));
    assert!(!traced.contains("/grpc.health.v1.Health/Check"));
    assert!(!traced.contains("/a.B/D"));
}
