use nft_gate_gateway::proxy::strips_request_header;
use nft_gate_gateway::proxy::strips_response_header;
use nft_gate_gateway::proxy::upstream_url;
use nft_gate_gateway::proxy::ForwardFailure;

#[test]
fn upstream_url_joins_base_and_path() {
    assert_eq!(upstream_url("http://relay:8080", "/v1/upload?x=1"), "http://relay:8080/v1/upload?x=1");
}

#[test]
fn request_headers_stripped() {
    for h in ["host", "authorization", "content-length", "x-access-proof"] {
        assert!(strips_request_header(h));
    }
    for h in ["accept", "content-type", "x-access", "hosts"] {
        assert!(!strips_request_header(h));
    }
}

#[test]
fn response_headers_stripped() {
    for h in ["content-length", "transfer-encoding", "connection"] {
        assert!(strips_response_header(h));
    }
    for h in ["host", "content-type", "set-cookie"] {
        assert!(!strips_response_header(h));
    }
}

#[test]
fn forward_failures_map_to_status_and_reason() {
    assert_eq!(ForwardFailure::BodyTooLarge.status(), 413);
    assert_eq!(ForwardFailure::BodyTooLarge.reason(), "request body too large");
    assert_eq!(ForwardFailure::UpstreamFailed.status(), 502);
    assert_eq!(ForwardFailure::UpstreamFailed.reason(), "upstream error");
}
