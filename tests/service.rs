use std::sync::{Arc, Mutex};
use std::time::Duration;

use axum::body::Body;
use axum::http::Request;
use axum::routing::get;
use axum::Router;
use axum_bridge::request::{build_request, InboundRequest};
use axum_bridge::response::{bundle_response, response_head};
use http_body_util::BodyExt;
use tower::ServiceExt;

fn app() -> Router {
    Router::new()
        .route("/", get(|| async { "Hello from your app!" }))
        .route("/test", get(|| async { "This is a test route." }))
        .route(
            "/concurrent-test",
            get(|| async {
                tokio::time::sleep(Duration::from_millis(50)).await;
                "Concurrent test route."
            }),
        )
}

fn to_axum(q: InboundRequest) -> Request<Body> {
    let mut r = Request::builder()
        .method(q.method.as_str())
        .uri(q.target.as_str())
        .body(Body::from(q.body))
        .unwrap();
    *r.headers_mut() = q.headers;
    r
}

async fn call(router: Router, method: &str, path: &str) -> (String, serde_json::Value) {
    let q = build_request(method.to_string(), path.to_string(), None, None).unwrap();
    let resp = router.oneshot(to_axum(q)).await.unwrap();
    let status = resp.status().as_u16();
    let (line, _) = response_head(status, resp.headers());
    let headers = resp.headers().clone();
    let bytes = resp.into_body().collect().await.unwrap().to_bytes().to_vec();
    let text = bundle_response(status, &headers, &bytes).unwrap();
    (line, serde_json::from_str(&text).unwrap())
}

fn runtime() -> tokio::runtime::Runtime {
    tokio::runtime::Builder::new_multi_thread().enable_all().build().unwrap()
}

#[test]
fn root_route_answers() {
    let rt = runtime();
    let (line, v) = rt.block_on(call(app(), "GET", "/"));
    assert_eq!(line, "200 OK");
    assert_eq!(v["status"].as_u64(), Some(200));
    assert_eq!(v["body"].as_str(), Some("Hello from your app!"));
}

#[test]
fn missing_route_is_not_found() {
    let rt = runtime();
    let (line, v) = rt.block_on(call(app(), "GET", "/missing"));
    assert_eq!(line, "404 Not Found");
    assert_eq!(v["status"].as_u64(), Some(404));
    assert_eq!(v["body"].as_str(), Some(""));
}

#[test]
fn slow_route_does_not_block_others() {
    let rt = runtime();
    let router = app();
    let order = Arc::new(Mutex::new(Vec::new()));
    let (slow, fast) = rt.block_on(async {
        let r1 = router.clone();
        let o1 = order.clone();
        let slow = tokio::spawn(async move {
            let out = call(r1, "GET", "/concurrent-test").await;
            o1.lock().unwrap().push("slow");
            out
        });
        tokio::time::sleep(Duration::from_millis(5)).await;
        let r2 = router.clone();
        let o2 = order.clone();
        let fast = tokio::spawn(async move {
            let out = call(r2, "GET", "/test").await;
            o2.lock().unwrap().push("fast");
            out
        });
        (slow.await.unwrap(), fast.await.unwrap())
    });
    assert_eq!(slow.1["status"].as_u64(), Some(200));
    assert_eq!(slow.1["body"].as_str(), Some("Concurrent test route."));
    assert_eq!(fast.1["body"].as_str(), Some("This is a test route."));
    assert_eq!(*order.lock().unwrap(), vec!["fast", "slow"]);
}
