use rok::router::ProxyClient;

#[test]
fn routes_url_appends_admin_path() {
    let client = ProxyClient::new("http://localhost:8080");
    assert_eq!(client.routes_url(), "http://localhost:8080/admin/routes");
}
