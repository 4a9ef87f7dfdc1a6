//! Tests for routes, handlers, redirects and virtual-host selection.

use localhost::http::request::{HttpRequest, Method};
use localhost::routing::handler::{ErrorHandler, HandlerResult, MethodFilterHandler,
    RedirectHandler};
use localhost::routing::redirections::{parse_query_string, CorsSettings, RedirectConditions,
    RedirectEngine, RedirectRule, RedirectType, SecurityHeaders};
use localhost::routing::route::{Route, RouteConfig};
use localhost::routing::router::{handle_session_routes, RouteDecision, Router, VirtualHost};
use localhost::session::cookie::CookieJar;
use localhost::session::store::{SessionConfig, SessionStore};

#[test]
fn route_test_route_matching() {
    let mut config = RouteConfig::default();
    config.path = "/api".to_string();
    let route = Route::new(config);
    assert!(route.matches("/api"));
    assert!(route.matches("/api/users"));
    assert!(route.matches("/api/users/123"));
    assert!(!route.matches("/app"));
    assert!(!route.matches("/api2"));
}

#[test]
fn test_root_route_matching() {
    let config = RouteConfig::default();
    let route = Route::new(config);
    assert!(route.matches("/"));
    assert!(route.matches("/anything"));
    assert!(route.matches("/path/to/file"));
}

#[test]
fn route_test_method_filtering() {
    let mut config = RouteConfig::default();
    config.allowed_methods = vec![Method::POST];
    let route = Route::new(config);
    assert!(route.allows_method(&Method::POST));
    assert!(!route.allows_method(&Method::GET));
    assert!(!route.allows_method(&Method::DELETE));
}

#[test]
fn test_virtual_host_selection() {
    let mut router = Router::new();
    let mut vhost1 = VirtualHost::default();
    vhost1.server_name = "example.com".to_string();
    router.add_virtual_host(vhost1);
    let mut vhost2 = VirtualHost::default();
    vhost2.server_name = "test.com".to_string();
    router.add_virtual_host(vhost2);
    assert_eq!(router.default_host(), Some("example.com"));
}

#[test]
fn router_test_route_matching() {
    let router = Router::default();
    let vhost = VirtualHost::default();
    let route = router.find_matching_route(&vhost, "/");
    assert_eq!(route.path(), "/");
    let route = router.find_matching_route(&vhost, "/api/users");
    assert_eq!(route.path(), "/");
}

#[test]
fn router_test_method_filtering() {
    let router = Router::default();
    let request = HttpRequest::new();
    let vhost = VirtualHost::default();
    let route = router.find_matching_route(&vhost, request.path());
    let decision = router.decide(&request, &route, &vhost);
    assert!(matches!(
        decision,
        localhost::routing::router::RouteDecision::ServeFile(_)
    ));
}

#[test]
fn test_redirect_handler() {
    let mut handler = RedirectHandler::new("https://example.com".to_string(), Some(301));
    let request = HttpRequest::new();
    match handler.handle(&request) {
        HandlerResult::Response(response) => {
            assert_eq!(response.status_code(), 301);
            assert_eq!(response.get_header("Location"), Some("https://example.com"));
        }
        _ => panic!("Expected response"),
    }
}

#[test]
fn test_method_filter_handler() {
    let allowed_methods = vec![Method::GET, Method::POST];
    let handler = MethodFilterHandler::new(allowed_methods);
    assert_eq!(handler.name(), "MethodFilterHandler");
}

#[test]
fn test_error_handler() {
    let mut handler = ErrorHandler::new(404, None);
    let request = HttpRequest::new();
    match handler.handle(&request) {
        HandlerResult::Response(response) => {
            assert_eq!(response.status_code(), 404);
            let body = response.body_string();
            assert!(body.contains("404"));
            assert!(body.contains("Not Found"));
        }
        _ => panic!("Expected response"),
    }
}

#[test]
fn test_redirect_types() {
    assert_eq!(RedirectType::Permanent.status_code(), 301);
    assert_eq!(RedirectType::Temporary.status_code(), 302);
    assert_eq!(RedirectType::SeeOther.status_code(), 303);
    assert_eq!(RedirectType::TemporaryPreserve.status_code(), 307);
    assert_eq!(RedirectType::PermanentPreserve.status_code(), 308);
    assert!(RedirectType::TemporaryPreserve.preserves_method());
    assert!(RedirectType::PermanentPreserve.preserves_method());
    assert!(!RedirectType::Temporary.preserves_method());
}

#[test]
fn test_redirect_engine() {
    let mut engine = RedirectEngine::new();
    let rule = RedirectRule {
        from: "/old".to_string(),
        to: "/new".to_string(),
        redirect_type: RedirectType::Permanent,
        preserve_query: true,
        preserve_fragment: false,
        conditions: RedirectConditions::default(),
        enabled: true,
    };
    engine.add_rule(rule);
    assert_eq!(engine.rules_count(), 1);
}

#[test]
fn test_wildcard_matching() {
    let engine = RedirectEngine::new();
    let result = engine.match_wildcard("/api/*", "/api/users", "/v2/*");
    assert_eq!(result, Some("/v2/users".to_string()));
    let result = engine.match_wildcard("*.html", "index.html", "*.php");
    assert_eq!(result, Some("index.php".to_string()));
}

#[test]
fn test_query_string_parsing() {
    let params = parse_query_string("name=john&age=30&city=new%20york");
    let get = |k: &str| {
        params
            .iter()
            .find(|(n, _)| n == k)
            .map(|(_, v)| v.clone())
    };
    assert_eq!(get("name"), Some("john".to_string()));
    assert_eq!(get("age"), Some("30".to_string()));
    assert_eq!(get("city"), Some("new york".to_string()));
}

#[test]
fn test_cors_settings() {
    let cors = CorsSettings::default();
    assert!(cors.allowed_origins.contains(&"*".to_string()));
    assert!(cors.allowed_methods.contains(&"GET".to_string()));
    assert_eq!(cors.max_age, Some(86400));
}

#[test]
fn test_security_headers() {
    let security = SecurityHeaders::default();
    assert_eq!(security.frame_options, Some("DENY".to_string()));
    assert!(security.content_type_options);
    assert_eq!(security.xss_protection, Some("1; mode=block".to_string()));
}

#[test]
fn test_redirect_end_to_end() {
    let mut engine = RedirectEngine::new();
    let mut rule = RedirectRule::default();
    rule.from = "/old".to_string();
    rule.to = "/new".to_string();
    rule.redirect_type = RedirectType::Permanent;
    engine.add_rule(rule);
    let mut request = HttpRequest::new();
    request.set_path("/old".to_string());
    let response = engine.process_request(&request).unwrap();
    assert_eq!(response.status_code(), 301);
    assert_eq!(response.get_header("Location"), Some("/new"));
}

#[test]
fn test_decide_method_not_allowed_sets_allow() {
    let router = Router::new();
    let vhost = VirtualHost::default();
    let mut config = RouteConfig::default();
    config.allowed_methods = vec![Method::GET, Method::HEAD];
    let route = Route::new(config);
    let mut request = HttpRequest::new();
    request.set_method(Method::PUT);
    match router.decide(&request, &route, &vhost) {
        RouteDecision::Respond(resp) => {
            assert_eq!(resp.status_code(), 405);
            assert_eq!(resp.get_header("Allow"), Some("GET, HEAD"));
        }
        _ => panic!("expected a response"),
    }
}

#[test]
fn test_decide_post_over_cap_is_413() {
    let router = Router::new();
    let vhost = VirtualHost::default();
    let mut config = RouteConfig::default();
    config.allowed_methods = vec![Method::POST];
    config.max_body_size = Some(4);
    let route = Route::new(config);
    let mut request = HttpRequest::new();
    request.set_method(Method::POST);
    request.set_header("Content-Length".to_string(), "10".to_string());
    match router.decide(&request, &route, &vhost) {
        RouteDecision::Respond(resp) => assert_eq!(resp.status_code(), 413),
        _ => panic!("expected a response"),
    }
}

#[test]
fn test_decide_post_within_cap_accepts_upload() {
    let router = Router::new();
    let vhost = VirtualHost::default();
    let mut config = RouteConfig::default();
    config.allowed_methods = vec![Method::POST];
    config.max_body_size = Some(64);
    let route = Route::new(config);
    let mut request = HttpRequest::new();
    request.set_method(Method::POST);
    match router.decide(&request, &route, &vhost) {
        RouteDecision::AcceptUpload(cap) => assert_eq!(cap, 64),
        _ => panic!("expected an upload decision"),
    }
}

#[test]
fn test_decide_get_serves_joined_path() {
    let router = Router::new();
    let mut vhost = VirtualHost::default();
    vhost.document_root = "/var/www".to_string();
    let route = Route::new(RouteConfig::default());
    let mut request = HttpRequest::new();
    request.set_path("/index.html".to_string());
    match router.decide(&request, &route, &vhost) {
        RouteDecision::ServeFile(p) => assert_eq!(p, "/var/www/index.html"),
        _ => panic!("expected a file decision"),
    }
}

#[test]
fn test_decide_traversal_is_403() {
    let router = Router::new();
    let vhost = VirtualHost::default();
    let route = Route::new(RouteConfig::default());
    let mut request = HttpRequest::new();
    request.set_path("/../etc/passwd".to_string());
    match router.decide(&request, &route, &vhost) {
        RouteDecision::Respond(resp) => assert_eq!(resp.status_code(), 403),
        _ => panic!("expected a response"),
    }
}

#[test]
fn test_decide_cgi_extension_runs_script() {
    let router = Router::new();
    let mut vhost = VirtualHost::default();
    vhost.document_root = "/var/www".to_string();
    let mut config = RouteConfig::default();
    config.cgi_extension = Some(".py".to_string());
    let route = Route::new(config);
    let mut request = HttpRequest::new();
    request.set_path("/cgi-bin/test.py".to_string());
    match router.decide(&request, &route, &vhost) {
        RouteDecision::RunCgi(p) => assert_eq!(p, "/var/www/cgi-bin/test.py"),
        _ => panic!("expected a CGI decision"),
    }
}

#[test]
fn test_session_routes_create_info_destroy() {
    let mut store = SessionStore::new(SessionConfig::default());
    let jar = CookieJar::new();
    let mut request = HttpRequest::new();
    request.set_path("/session/create".to_string());
    let mut response = localhost::http::response::HttpResponse::ok();
    assert!(handle_session_routes(&mut store, &request, &jar, &mut response));
    assert_eq!(store.session_count(), 1);
    let cookie_header = response.get_header("Set-Cookie").unwrap().to_string();
    assert!(cookie_header.starts_with("session_id="));
    assert!(response.body_string().starts_with("Session created: "));

    let session_id = cookie_header
        .trim_start_matches("session_id=")
        .split(';')
        .next()
        .unwrap()
        .to_string();
    let jar = CookieJar::parse_cookie_header(&format!("session_id={}", session_id));
    let mut info = HttpRequest::new();
    info.set_path("/session/info".to_string());
    let mut response = localhost::http::response::HttpResponse::ok();
    assert!(handle_session_routes(&mut store, &info, &jar, &mut response));
    assert!(response.body_string().starts_with("Session ID: "));

    let mut destroy = HttpRequest::new();
    destroy.set_path("/session/destroy".to_string());
    let mut response = localhost::http::response::HttpResponse::ok();
    assert!(handle_session_routes(&mut store, &destroy, &jar, &mut response));
    assert_eq!(response.body_string(), "Session destroyed");
    assert_eq!(store.session_count(), 0);

    let mut other = HttpRequest::new();
    other.set_path("/other".to_string());
    let mut response = localhost::http::response::HttpResponse::ok();
    assert!(!handle_session_routes(&mut store, &other, &jar, &mut response));
}

#[test]
fn test_redirect_wildcard_process_request() {
    let mut engine = RedirectEngine::new();
    let mut rule = RedirectRule::default();
    rule.from = "/api/*".to_string();
    rule.to = "/v2/*".to_string();
    rule.redirect_type = RedirectType::Permanent;
    engine.add_rule(rule);
    let mut request = HttpRequest::new();
    request.set_path("/api/users".to_string());
    let resp = engine.process_request(&request).unwrap();
    assert_eq!(resp.status_code(), 301);
    assert_eq!(resp.get_header("Location"), Some("/v2/users"));
    let mut miss = HttpRequest::new();
    miss.set_path("/other".to_string());
    assert!(engine.process_request(&miss).is_none());
}
