//! Tests for uploads, CGI, MIME, selection and the server facade.

use localhost::cgi::environment::CgiEnvironment;
use localhost::cgi::executor::{CgiConfig, CgiExecutor};
use localhost::cgi::response::{CgiResponse, CgiResponseParser};
use localhost::config::server::{ListenerConfig, VirtualHostConfig};
use localhost::http::request::{HttpRequest, Method};
use localhost::mime::MimeTypes;
use localhost::net::multi_server::{ServerSelector, ServerStats};
use localhost::server::format_bytes;
use localhost::upload::file_storage::{FileStorage, StorageConfig};
use localhost::upload::form_data::{url_decode, FormData};
use localhost::upload::multipart::{extract_boundary, plan_multipart_upload, FieldType,
    MultipartParser};
use localhost::fs::path_utils::safe_path_join;

#[test]
fn test_cgi_environment_creation() {
    let env = CgiEnvironment::new();
    assert!(env.variables().is_empty());
}

#[test]
fn test_set_and_get() {
    let mut env = CgiEnvironment::new();
    env.set("TEST_VAR", "test_value");
    assert_eq!(env.get("TEST_VAR"), Some("test_value"));
    assert_eq!(env.get("NONEXISTENT"), None);
}

#[test]
fn test_from_request() {
    let mut request = HttpRequest::new();
    request.set_method(Method::GET);
    request.set_path("/cgi-bin/test.py/path/info?query=value".to_string());
    request.set_header("Host".to_string(), "example.com".to_string());
    request.set_header("User-Agent".to_string(), "TestAgent/1.0".to_string());
    let env = CgiEnvironment::from_request(
        &request,
        "/var/www/cgi-bin/test.py",
        "/var/www",
        "example.com",
        80,
    );
    assert_eq!(env.get("REQUEST_METHOD"), Some("GET"));
    assert_eq!(env.get("SERVER_NAME"), Some("example.com"));
    assert_eq!(env.get("SERVER_PORT"), Some("80"));
    assert_eq!(env.get("SCRIPT_NAME"), Some("/cgi-bin/test.py"));
    assert_eq!(env.get("PATH_INFO"), Some("/path/info"));
    assert_eq!(env.get("QUERY_STRING"), Some("query=value"));
    assert_eq!(env.get("HTTP_HOST"), Some("example.com"));
    assert_eq!(env.get("HTTP_USER_AGENT"), Some("TestAgent/1.0"));
}

#[test]
fn test_to_env_strings() {
    let mut env = CgiEnvironment::new();
    env.set("VAR1", "value1");
    env.set("VAR2", "value2");
    let env_strings = env.to_env_strings();
    assert_eq!(env_strings.len(), 2);
    assert!(env_strings.contains(&"VAR1=value1".to_string()));
    assert!(env_strings.contains(&"VAR2=value2".to_string()));
}

#[test]
fn test_cgi_config_default() {
    let config = CgiConfig::default();
    assert!(config.enabled);
    assert!(config.interpreters.iter().any(|(e, _)| e == "py"));
    assert!(config.interpreters.iter().any(|(e, _)| e == "pl"));
    assert_eq!(config.timeout, 30);
}

#[test]
fn test_cgi_executor_creation() {
    let executor = CgiExecutor::default();
    assert!(executor.is_enabled());
    assert!(executor.supported_extensions().contains(&"py".to_string()));
}

#[test]
fn test_is_cgi_script() {
    let executor = CgiExecutor::default();
    let regular_file = "index.html";
    assert!(!executor.is_cgi_script(regular_file));
    assert!(executor.is_cgi_script("cgi-bin/test.py"));
}

#[test]
fn test_get_command_and_args() {
    let executor = CgiExecutor::default();
    let (command, args) = executor.get_command_and_args("test.py").unwrap();
    assert_eq!(command, "python3");
    assert_eq!(args, vec!["test.py"]);
}

#[test]
fn test_supported_extensions() {
    let executor = CgiExecutor::default();
    let extensions = executor.supported_extensions();
    assert!(extensions.contains(&"py".to_string()));
    assert!(extensions.contains(&"pl".to_string()));
    assert!(extensions.contains(&"sh".to_string()));
    assert!(extensions.contains(&"rb".to_string()));
    assert!(extensions.contains(&"php".to_string()));
}

#[test]
fn test_disabled_cgi() {
    let mut config = CgiConfig::default();
    config.enabled = false;
    let executor = CgiExecutor::new(config);
    assert!(!executor.is_enabled());
    assert!(!executor.is_cgi_script("cgi-bin/test.py"));
}

#[test]
fn test_cgi_response_creation() {
    let response = CgiResponse::new();
    assert!(response.status.is_none());
    assert!(response.headers.is_empty());
    assert!(response.body.is_empty());
}

#[test]
fn test_cgi_response_to_http() {
    let mut cgi_response = CgiResponse::new();
    cgi_response.status = Some(404);
    cgi_response
        .headers
        .insert("Content-Type".to_string(), "text/plain".to_string());
    cgi_response.body = b"Not Found".to_vec();
    let http_response = cgi_response.to_http_response();
    assert_eq!(http_response.status_code(), 404);
    assert_eq!(http_response.get_header("Content-Type"), Some("text/plain"));
    assert_eq!(http_response.body(), Some(b"Not Found".as_ref()));
}

#[test]
fn test_parse_simple_response() {
    let cgi_output = b"Content-Type: text/html\r\n\r\n<html><body>Hello World</body></html>";
    let response = CgiResponseParser::parse_complete(cgi_output).unwrap();
    assert_eq!(response.status, None);
    assert_eq!(
        response.headers.get("Content-Type"),
        Some(&"text/html".to_string())
    );
    assert_eq!(response.body, b"<html><body>Hello World</body></html>");
}

#[test]
fn test_parse_with_status() {
    let cgi_output = b"Status: 404 Not Found\r\nContent-Type: text/plain\r\n\r\nPage not found";
    let response = CgiResponseParser::parse_complete(cgi_output).unwrap();
    assert_eq!(response.status, None);
    assert_eq!(
        response.headers.get("Content-Type"),
        Some(&"text/plain".to_string())
    );
    assert_eq!(response.body, b"Page not found");
}

#[test]
fn test_parse_redirect() {
    let cgi_output = b"Location: http://example.com/new-page\r\n\r\n";
    let response = CgiResponseParser::parse_complete(cgi_output).unwrap();
    assert_eq!(response.status, Some(302));
    assert_eq!(
        response.headers.get("Location"),
        Some(&"http://example.com/new-page".to_string())
    );
    assert!(response.body.is_empty());
}

#[test]
fn test_parse_multiline_headers() {
    let cgi_output = b"Content-Type: text/html\r\nSet-Cookie: session=abc123;\r\n expires=Wed, 09 Jun 2021 10:18:14 GMT\r\n\r\n<html></html>";
    let response = CgiResponseParser::parse_complete(cgi_output).unwrap();
    assert_eq!(
        response.headers.get("Content-Type"),
        Some(&"text/html".to_string())
    );
    assert!(response.headers.get("Set-Cookie").is_some());
}

#[test]
fn test_parse_empty_body() {
    let cgi_output = b"Content-Type: text/plain\r\n\r\n";
    let response = CgiResponseParser::parse_complete(cgi_output).unwrap();
    assert_eq!(
        response.headers.get("Content-Type"),
        Some(&"text/plain".to_string())
    );
    assert!(response.body.is_empty());
}

#[test]
fn test_parse_no_headers() {
    let cgi_output = b"\r\nJust body content";
    let response = CgiResponseParser::parse_complete(cgi_output).unwrap();
    assert!(response.headers.is_empty());
    assert_eq!(response.body, b"Just body content");
}

#[test]
fn test_mime_types() {
    let mime_types = MimeTypes::new();
    assert_eq!(mime_types.get_mime_type("index.html"), "text/html");
    assert_eq!(mime_types.get_mime_type("style.css"), "text/css");
    assert_eq!(mime_types.get_mime_type("script.js"), "application/javascript");
    assert_eq!(mime_types.get_mime_type("image.png"), "image/png");
    assert_eq!(
        mime_types.get_mime_type("unknown.xyz"),
        "application/octet-stream"
    );
    assert_eq!(
        mime_types.get_mime_type("noextension"),
        "application/octet-stream"
    );
}

#[test]
fn test_text_type_detection() {
    let mime_types = MimeTypes::new();
    assert!(mime_types.is_text_type("text/html"));
    assert!(mime_types.is_text_type("text/plain"));
    assert!(mime_types.is_text_type("application/javascript"));
    assert!(mime_types.is_text_type("application/json"));
    assert!(!mime_types.is_text_type("image/png"));
    assert!(!mime_types.is_text_type("application/octet-stream"));
}

fn test_vhosts() -> Vec<VirtualHostConfig> {
    let mut a = VirtualHostConfig::default();
    a.server_name = "localhost".to_string();
    let mut b = VirtualHostConfig::default();
    b.server_name = "example.com".to_string();
    vec![a, b]
}

#[test]
fn test_server_selector_virtual_host() {
    let virtual_hosts = test_vhosts();
    let vhost = ServerSelector::select_virtual_host(
        &virtual_hosts,
        Some("localhost"),
        Some("localhost"),
    );
    assert!(vhost.is_some());
    assert_eq!(vhost.unwrap().server_name, "localhost");
    let vhost = ServerSelector::select_virtual_host(
        &virtual_hosts,
        Some("unknown.com"),
        Some("localhost"),
    );
    assert!(vhost.is_some());
    assert_eq!(vhost.unwrap().server_name, "localhost");
}

#[test]
fn test_host_pattern_matching() {
    assert!(ServerSelector::host_matches_pattern("example.com", "example.com"));
    assert!(ServerSelector::host_matches_pattern("sub.example.com", "*.example.com"));
    assert!(ServerSelector::host_matches_pattern("anything.com", "*"));
    assert!(!ServerSelector::host_matches_pattern("example.org", "example.com"));
}

#[test]
fn test_normalize_host() {
    assert_eq!(ServerSelector::normalize_host("Example.Com:8080"), "example.com");
    assert_eq!(ServerSelector::normalize_host("LOCALHOST"), "localhost");
    assert_eq!(ServerSelector::normalize_host("test.com:443"), "test.com");
}

#[test]
fn test_server_stats() {
    let stats = ServerStats::default();
    assert_eq!(stats.connections_accepted, 0);
    assert_eq!(stats.active_connections, 0);
    assert_eq!(stats.requests_processed, 0);
}

#[test]
fn test_select_listener() {
    let listeners = vec![
        ListenerConfig {
            address: "127.0.0.1".to_string(),
            port: 8080,
            default: false,
        },
        ListenerConfig {
            address: "0.0.0.0".to_string(),
            port: 8081,
            default: true,
        },
    ];
    let l = ServerSelector::select_listener(&listeners, Some("127.0.0.1")).unwrap();
    assert_eq!(l.port, 8080);
    let l = ServerSelector::select_listener(&listeners, None).unwrap();
    assert!(l.default);
}

#[test]
fn test_format_bytes() {
    assert_eq!(format_bytes(0), "0 B");
    assert_eq!(format_bytes(512), "512 B");
    assert_eq!(format_bytes(1024), "1.00 KB");
    assert_eq!(format_bytes(1536), "1.50 KB");
    assert_eq!(format_bytes(1024 * 1024), "1.00 MB");
    assert_eq!(format_bytes(1024 * 1024 * 1024), "1.00 GB");
}

#[test]
fn test_server_builder() {
    let builder = localhost::server::ServerBuilder::new();
    assert!(builder.build().is_ok());
}

#[test]
fn test_form_data_parsing() {
    let data = b"name=John+Doe&email=john%40example.com&age=30";
    let form_data = FormData::parse(data).unwrap();
    assert_eq!(form_data.get_field("name"), Some("John Doe"));
    assert_eq!(form_data.get_field("email"), Some("john@example.com"));
    assert_eq!(form_data.get_field("age"), Some("30"));
}

#[test]
fn test_multiple_values() {
    let data = b"hobby=reading&hobby=coding&hobby=gaming";
    let form_data = FormData::parse(data).unwrap();
    let hobbies = form_data.get_field_values("hobby").unwrap();
    assert_eq!(hobbies.len(), 3);
    assert!(hobbies.contains(&"reading".to_string()));
    assert!(hobbies.contains(&"coding".to_string()));
    assert!(hobbies.contains(&"gaming".to_string()));
}

#[test]
fn test_url_decode() {
    let decode = |s: &[u8]| String::from_utf8(url_decode(s).unwrap()).unwrap();
    assert_eq!(decode(b"Hello%20World"), "Hello World");
    assert_eq!(decode(b"test%40example.com"), "test@example.com");
    assert_eq!(decode(b"no+encoding+needed"), "no encoding needed");
}

#[test]
fn test_url_encode() {
    assert_eq!(FormData::url_encode("Hello World"), "Hello+World");
    assert_eq!(FormData::url_encode("test@example.com"), "test%40example.com");
    assert_eq!(FormData::url_encode("simple"), "simple");
}

#[test]
fn test_empty_form_data() {
    let data = b"";
    let form_data = FormData::parse(data).unwrap();
    assert_eq!(form_data.field_names().len(), 0);
}

#[test]
fn test_field_without_value() {
    let data = b"submit&name=test";
    let form_data = FormData::parse(data).unwrap();
    assert_eq!(form_data.get_field("submit"), Some(""));
    assert_eq!(form_data.get_field("name"), Some("test"));
}

#[test]
fn test_multipart_parser_creation() {
    let parser = MultipartParser::new("boundary123".to_string(), 1024 * 1024, 10 * 1024 * 1024);
    assert_eq!(parser.boundary, "boundary123");
    assert_eq!(parser.max_file_size, 1024 * 1024);
    assert_eq!(parser.max_total_size, 10 * 1024 * 1024);
}

#[test]
fn test_parse_quoted_value() {
    let parser = MultipartParser::new("test".to_string(), 1024, 1024);
    assert_eq!(parser.parse_quoted_value("\"test\"").unwrap(), "test");
    assert_eq!(parser.parse_quoted_value("test").unwrap(), "test");
    assert_eq!(
        parser.parse_quoted_value("\"file name.txt\"").unwrap(),
        "file name.txt"
    );
}

#[test]
fn test_find_boundary() {
    let parser = MultipartParser::new("boundary".to_string(), 1024, 1024);
    let data = b"some data --boundary more data";
    let boundary = b"--boundary";
    assert_eq!(parser.find_boundary(data, boundary, 0), Some(10));
    assert_eq!(parser.find_boundary(data, boundary, 15), None);
}

#[test]
fn test_multipart_round_trip() {
    let body = b"--B\r\nContent-Disposition: form-data; name=\"field1\"\r\n\r\nvalue1\r\n--B\r\nContent-Disposition: form-data; name=\"up\"; filename=\"a.txt\"\r\n\r\nfiledata\r\n--B--\r\n";
    let parser = MultipartParser::new("B".to_string(), 1024, 4096);
    let fields = parser.parse(body).unwrap();
    assert_eq!(fields.len(), 2);
    assert_eq!(fields[0].name, "field1");
}

#[test]
fn test_sanitize_filename() {
    let storage = FileStorage::new(StorageConfig::default()).unwrap();
    assert_eq!(storage.sanitize_filename("test.txt"), "test.txt");
    assert_eq!(
        storage.sanitize_filename("../../../etc/passwd"),
        "______etc_passwd"
    );
    assert_eq!(
        storage.sanitize_filename("file with spaces.txt"),
        "file_with_spaces.txt"
    );
    assert_eq!(
        storage.sanitize_filename("file:with*bad?chars.txt"),
        "file_with_bad_chars.txt"
    );
}

#[test]
fn test_extension_from_content_type() {
    let storage = FileStorage::new(StorageConfig::default()).unwrap();
    assert_eq!(
        storage.extension_from_content_type("image/jpeg"),
        Some("jpg".to_string())
    );
    assert_eq!(
        storage.extension_from_content_type("text/plain"),
        Some("txt".to_string())
    );
    assert_eq!(storage.extension_from_content_type("application/unknown"), None);
}

#[test]
fn test_storage_config_default() {
    let config = StorageConfig::default();
    assert_eq!(config.upload_dir, "./uploads");
    assert_eq!(config.max_file_size, 10 * 1024 * 1024);
    assert!(config.preserve_filenames);
    assert!(!config.use_date_subdirs);
}

#[test]
fn test_safe_path_join_components() {
    assert_eq!(safe_path_join("/root", "/a/b.txt").unwrap(), "/root/a/b.txt");
    assert_eq!(safe_path_join("/root", "index.html").unwrap(), "/root/index.html");
    assert!(safe_path_join("/root", "/../etc/passwd").is_err());
    assert!(safe_path_join("/root", "/a/../../etc").is_err());
    assert!(safe_path_join("/root", "/a/\0x").is_err());
}

#[test]
fn test_extract_boundary_plain_and_quoted() {
    assert_eq!(
        extract_boundary("multipart/form-data; boundary=XYZ"),
        Some("XYZ".to_string())
    );
    assert_eq!(
        extract_boundary("multipart/form-data; boundary=\"with quotes\""),
        Some("with quotes".to_string())
    );
    assert_eq!(extract_boundary("text/plain"), None);
}

#[test]
fn test_plan_multipart_upload_parses_fields() {
    let mut request = HttpRequest::new();
    request.set_method(Method::POST);
    let body = b"--XYZ\r\nContent-Disposition: form-data; name=\"note\"\r\n\r\nhello\r\n--XYZ\r\nContent-Disposition: form-data; name=\"f\"; filename=\"a.txt\"\r\n\r\ndata!\r\n--XYZ--\r\n";
    request.body = body.to_vec();
    let fields = plan_multipart_upload(&request, "XYZ", 1024, 4096).unwrap();
    assert_eq!(fields.len(), 2);
    assert_eq!(fields[0].name, "note");
    match &fields[0].field_type {
        FieldType::Text(t) => assert_eq!(t, "hello\r\n"),
        _ => panic!("expected text field"),
    }
    match &fields[1].field_type {
        FieldType::File { filename, data, .. } => {
            assert_eq!(filename.as_deref(), Some("a.txt"));
            assert_eq!(data, b"data!\r\n");
        }
        _ => panic!("expected file field"),
    }
}

#[test]
fn test_plan_multipart_upload_enforces_cap() {
    let mut request = HttpRequest::new();
    request.body = vec![0u8; 64];
    assert!(plan_multipart_upload(&request, "XYZ", 16, 32).is_err());
}

#[test]
fn test_get_mime_type_table_values() {
    let mimes = MimeTypes::new();
    assert_eq!(mimes.get_mime_type("index.html"), "text/html");
    assert_eq!(mimes.get_mime_type("style.css"), "text/css");
    assert_eq!(mimes.get_mime_type("script.js"), "application/javascript");
    assert_eq!(mimes.get_mime_type("image.PNG"), "image/png");
    assert_eq!(mimes.get_mime_type("unknown.xyz"), "application/octet-stream");
    assert_eq!(mimes.get_mime_type("noextension"), "application/octet-stream");
}

#[test]
fn test_safe_path_join_values() {
    assert_eq!(
        safe_path_join("/var/www", "/css/style.css").unwrap(),
        "/var/www/css/style.css"
    );
    assert_eq!(safe_path_join("/var/www", "//a//.//b").unwrap(), "/var/www/a/b");
    assert!(safe_path_join("/var/www", "/../etc/passwd").is_err());
    assert!(safe_path_join("/var/www", "/css/../../../etc/passwd").is_err());
    assert!(safe_path_join("/var/www", "/index.html\0").is_err());
}

#[test]
fn test_cgi_response_exact_parse() {
    let out = b"Content-Type: text/html\r\nX-One: a\r\n\r\n<p>hi</p>";
    let resp = CgiResponseParser::parse_complete(out).unwrap();
    assert_eq!(resp.status, None);
    assert_eq!(resp.body, b"<p>hi</p>");
    let http = resp.to_http_response();
    assert_eq!(http.status_code(), 200);
    assert_eq!(http.body(), Some(&b"<p>hi</p>"[..]));
    assert_eq!(http.get_header("Content-Length"), Some("9"));
}

#[test]
fn test_cgi_response_without_colon_fails() {
    assert!(CgiResponseParser::parse_complete(b"not a header\r\n\r\nbody").is_err());
}
