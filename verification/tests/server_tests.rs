use hdl_sv::cli::Cli;
use hdl_sv::error::AppError;
use hdl_sv::pattern::{find_allowing, parse_allowed_extensions};
use hdl_sv::router::{
    is_authenticated, is_within_root, join_root, normalize_path, resolve_target, route_request,
    EntryKind, ResolvedTarget, Route, TargetKind,
};
use hdl_sv::http::Request;
use hdl_sv::server::{bind_address, ConnectionInfo, RateLimiter, ServerConfig, ServerStats};

fn cli() -> Cli {
    Cli {
        directory: ".".to_string(),
        listen: "127.0.0.1".to_string(),
        port: 8080,
        allowed_extensions: "*.zip, *.txt ,docs/**/*.md".to_string(),
        threads: 8,
        chunk_size: 1024,
        verbose: false,
        detailed_logging: false,
        username: Some("u".to_string()),
        password: None,
    }
}

#[test]
fn admission_control() {
    let mut limiter = RateLimiter::new(120, 10);
    let ip: u128 = 0x7f00_0001;
    for _ in 0..10 {
        assert!(limiter.check_rate_limit(ip, 1000));
    }
    // the excess connection is rejected, and goes on being rejected
    assert!(!limiter.check_rate_limit(ip, 1000));
    assert!(!limiter.check_rate_limit(ip, 999_999));
    // another address is not concerned
    assert!(limiter.check_rate_limit(ip + 1, 1000));
    // once a connection closes, a new one is admitted
    limiter.release_connection(ip);
    assert!(limiter.check_rate_limit(ip, 999_999));
    assert!(!limiter.check_rate_limit(ip, 999_999));
    for _ in 0..10 {
        limiter.release_connection(ip);
    }
    // released below zero stays at zero: ten fit again and no more
    limiter.release_connection(ip);
    assert_eq!(limiter.connection_info(ip).unwrap().active_connections, 0);
    for _ in 0..10 {
        assert!(limiter.check_rate_limit(ip, 999_999));
    }
    assert!(!limiter.check_rate_limit(ip, 999_999));
}

#[test]
fn requests_per_minute() {
    let mut limiter = RateLimiter::new(3, 10);
    let ip: u128 = 1;
    for now in [0, 10, 59_999] {
        assert!(limiter.check_rate_limit(ip, now));
        limiter.release_connection(ip);
    }
    assert_eq!(
        limiter.connection_info(ip),
        Some(ConnectionInfo { request_count: 3, last_reset: 0, active_connections: 0 })
    );
    assert!(!limiter.check_rate_limit(ip, 59_999));
    assert!(!limiter.check_rate_limit(ip, 60_000));
    // more than a minute after the window began a new one begins
    assert!(limiter.check_rate_limit(ip, 60_001));
    assert_eq!(
        limiter.connection_info(ip),
        Some(ConnectionInfo { request_count: 1, last_reset: 60_001, active_connections: 1 })
    );
    // a clock that is behind the window changes nothing
    assert!(limiter.check_rate_limit(ip, 5));
    assert_eq!(limiter.connection_info(ip).unwrap().last_reset, 60_001);
    // releasing an address that is not known does nothing
    limiter.release_connection(77);
    assert_eq!(limiter.connection_info(77), None);
}

#[test]
fn cleanup_forgets_idle_addresses() {
    let mut limiter = RateLimiter::new(120, 10);
    assert!(limiter.check_rate_limit(1, 0));
    assert!(limiter.check_rate_limit(2, 1));
    assert!(limiter.check_rate_limit(3, 200_000));
    limiter.cleanup_old_entries(300_000);
    assert!(limiter.connection_info(1).is_some());
    limiter.cleanup_old_entries(300_001);
    assert_eq!(limiter.connection_info(1), None);
    assert!(limiter.connection_info(2).is_some());
    assert!(limiter.connection_info(3).is_some());
    limiter.cleanup_old_entries(300_002);
    assert_eq!(limiter.connection_info(2), None);
    assert_eq!(
        limiter.connection_info(3),
        Some(ConnectionInfo { request_count: 1, last_reset: 200_000, active_connections: 1 })
    );
}

#[test]
fn statistics() {
    let mut stats = ServerStats::new(500);
    assert_eq!(stats.get_stats(500), (0, 0, 0, 0, 0));
    stats.record_request(true, 10);
    stats.record_request(false, 0);
    stats.record_request(true, 5);
    assert_eq!(stats.get_stats(1700), (3, 2, 1, 15, 1200));
    assert_eq!(stats.get_stats(100), (3, 2, 1, 15, 0));
    stats.record_request(true, u64::MAX);
    assert_eq!(stats.get_stats(500), (4, 3, 1, u64::MAX, 0));
    stats.start_time = None;
    assert_eq!(stats.get_stats(900).4, 0);
}

#[test]
fn configuration_from_the_command_line() {
    let config = ServerConfig::from_cli(&cli(), "/srv".to_string(), EntryKind::Directory).unwrap();
    assert_eq!(
        config,
        ServerConfig {
            root: "/srv".to_string(),
            bind_address: "127.0.0.1:8080".to_string(),
            allowed_extensions: vec!["*.zip".to_string(), "*.txt".to_string(), "docs/**/*.md".to_string()],
            threads: 8,
            chunk_size: 1024,
            username: Some("u".to_string()),
            password: None,
        }
    );
    assert_eq!(bind_address("::1", 0), "::1:0");
    let mut bad = cli();
    bad.allowed_extensions = "*.txt,a**b".to_string();
    match ServerConfig::from_cli(&bad, "/srv".to_string(), EntryKind::Directory) {
        Err(AppError::Glob(reason)) => assert!(reason.contains("recursive wildcards")),
        other => panic!("{:?}", other),
    }
    for kind in [EntryKind::File, EntryKind::Missing, EntryKind::Other] {
        assert_eq!(
            ServerConfig::from_cli(&bad, "/srv".to_string(), kind),
            Err(AppError::DirectoryNotFound(".".to_string()))
        );
    }
    assert!(matches!(parse_allowed_extensions("[a"), Err(AppError::Glob(_))));
    assert_eq!(parse_allowed_extensions(""), Ok(vec![String::new()]));
    assert_eq!(parse_allowed_extensions(" , "), Ok(vec![String::new(), String::new()]));
}

#[test]
fn log_levels() {
    let mut options = cli();
    assert_eq!(options.log_level(), "warn");
    options.detailed_logging = true;
    assert_eq!(options.log_level(), "info");
    options.verbose = true;
    assert_eq!(options.log_level(), "debug");
}

#[test]
fn patterns_match_whole_paths() {
    let allowed = parse_allowed_extensions("*.pdf,*.txt,a?.*").unwrap();
    assert_eq!(find_allowing(&allowed, "/srv/files/x.txt"), Some(1));
    assert_eq!(find_allowing(&allowed, "ab.txt"), Some(1));
    assert_eq!(find_allowing(&allowed, "ab.zip"), Some(2));
    assert_eq!(find_allowing(&allowed, "/srv/ab.zip"), None);
    assert_eq!(find_allowing(&allowed, "x.txt.zip"), None);
    assert_eq!(find_allowing(&Vec::new(), "x.txt"), None);
    // what is no pattern matches nothing
    assert_eq!(find_allowing(&vec!["[".to_string(), "*".to_string()], "x"), Some(1));
}

#[test]
fn normalization() {
    assert_eq!(normalize_path("/a/b/c.txt"), Ok("a/b/c.txt".to_string()));
    assert_eq!(normalize_path("a//b/./c/"), Ok("a/b/c".to_string()));
    assert_eq!(normalize_path("/a/../b"), Ok("b".to_string()));
    assert_eq!(normalize_path("/a/b/../../c"), Ok("c".to_string()));
    assert_eq!(normalize_path("/"), Ok(String::new()));
    assert_eq!(normalize_path(""), Ok(String::new()));
    assert_eq!(normalize_path("/a/.."), Ok(String::new()));
    assert_eq!(normalize_path("/.../x"), Ok(".../x".to_string()));
    assert_eq!(normalize_path("/.."), Err(AppError::Forbidden));
    assert_eq!(normalize_path("/a/../.."), Err(AppError::Forbidden));
    assert_eq!(normalize_path("../a"), Err(AppError::Forbidden));
    assert_eq!(normalize_path("/a/../../a"), Err(AppError::Forbidden));
}

#[test]
fn paths_under_the_root() {
    assert!(is_within_root("/srv/files", "/srv/files"));
    assert!(is_within_root("/srv/files/a", "/srv/files"));
    assert!(is_within_root("/srv/files/", "/srv/files"));
    assert!(!is_within_root("/srv/files2", "/srv/files"));
    assert!(!is_within_root("/srv", "/srv/files"));
    assert!(!is_within_root("/etc/passwd", "/srv/files"));
    assert!(is_within_root("/etc", "/"));
    assert!(is_within_root("/", "/"));
    assert!(is_within_root("/srv/files/a", "/srv/files/"));
    assert_eq!(join_root("/srv", "a/b"), "/srv/a/b");
    assert_eq!(join_root("/srv/", "a/b"), "/srv/a/b");
    assert_eq!(join_root("/srv", ""), "/srv");
    assert_eq!(join_root("/", "a"), "/a");
}

fn request(method: &str, path: &str, headers: Vec<(&str, &str)>) -> Request {
    Request {
        method: method.to_string(),
        path: path.to_string(),
        headers: headers
            .into_iter()
            .map(|(n, v)| (n.to_string(), v.to_string()))
            .collect(),
    }
}

#[test]
fn routing_order() {
    let nobody = None;
    let user = Some("user".to_string());
    let pass = Some("pass".to_string());
    let route = |r: &Request| route_request(r, "/srv", &nobody, &nobody);
    assert_eq!(route(&request("GET", "/_health", vec![])), Ok(Route::Health));
    assert_eq!(route(&request("POST", "/_status", vec![])), Ok(Route::Health));
    assert_eq!(
        route(&request("PUT", "/_static/x/y.css", vec![])),
        Ok(Route::StaticAsset("x/y.css".to_string()))
    );
    assert_eq!(route(&request("GET", "/_static", vec![])), Ok(Route::Filesystem("/srv/_static".to_string())));
    assert_eq!(route(&request("HEAD", "/a", vec![])), Err(AppError::MethodNotAllowed));
    assert_eq!(route(&request("get", "/a", vec![])), Err(AppError::MethodNotAllowed));
    assert_eq!(route(&request("POST", "/../a", vec![])), Err(AppError::MethodNotAllowed));
    assert_eq!(route(&request("GET", "/../a", vec![])), Err(AppError::Forbidden));
    assert_eq!(route(&request("GET", "/a/../b c", vec![])), Ok(Route::Filesystem("/srv/b c".to_string())));
    assert_eq!(route(&request("GET", "/", vec![])), Ok(Route::Filesystem("/srv".to_string())));
    // credentials come first
    let guarded = |r: &Request| route_request(r, "/srv", &user, &pass);
    assert_eq!(guarded(&request("POST", "/../a", vec![])), Err(AppError::Unauthorized));
    assert_eq!(guarded(&request("GET", "/_health", vec![])), Err(AppError::Unauthorized));
    assert_eq!(
        guarded(&request("GET", "/_health", vec![("authorization", "Basic dXNlcjpwYXNz")])),
        Ok(Route::Health)
    );
    // half a pair of credentials is none
    assert_eq!(route_request(&request("GET", "/a", vec![]), "/srv", &user, &nobody), Ok(Route::Filesystem("/srv/a".to_string())));
}

#[test]
fn basic_credentials() {
    let header = |text: &str| text.to_string();
    assert!(is_authenticated(Some(&header("Basic dXNlcjpwYXNz")), "user", "pass"));
    assert!(!is_authenticated(None, "user", "pass"));
    assert!(!is_authenticated(Some(&header("Basic dXNlcjpwYXNz")), "user", "pas"));
    assert!(!is_authenticated(Some(&header("Basic dXNlcjpwYXNz")), "use", "r:pass"));
    assert!(!is_authenticated(Some(&header("basic dXNlcjpwYXNz")), "user", "pass"));
    assert!(!is_authenticated(Some(&header("Basic  dXNlcjpwYXNz")), "user", "pass"));
    assert!(!is_authenticated(Some(&header("Basic dXNlcjpwYXNz=")), "user", "pass"));
    // the first colon divides: the password may hold more
    assert!(is_authenticated(Some(&header("Basic dTpwOnE=")), "u", "p:q"));
    assert!(!is_authenticated(Some(&header("Basic dTpwOnE=")), "u:p", "q"));
    // an empty name and an empty password
    assert!(is_authenticated(Some(&header("Basic Og==")), "", ""));
    // bytes that are no text
    assert!(!is_authenticated(Some(&header("Basic /zo=")), "", ""));
}

#[test]
fn targets() {
    let allowed = parse_allowed_extensions("*.txt").unwrap();
    let resolve = |path: &str, kind: EntryKind| resolve_target("/srv", &allowed, path, kind);
    assert_eq!(
        resolve("/srv/a.txt", EntryKind::File),
        Ok(ResolvedTarget {
            path: "/srv/a.txt".to_string(),
            kind: TargetKind::File,
            pattern: Some("*.txt".to_string()),
        })
    );
    assert_eq!(
        resolve("/srv/sub", EntryKind::Directory),
        Ok(ResolvedTarget { path: "/srv/sub".to_string(), kind: TargetKind::Directory, pattern: None })
    );
    assert_eq!(resolve("/srv/a.zip", EntryKind::File), Err(AppError::Forbidden));
    assert_eq!(resolve("/srv/a.txt", EntryKind::Missing), Err(AppError::NotFound));
    assert_eq!(resolve("/srv/a.txt", EntryKind::Other), Err(AppError::NotFound));
    // a link that leads out of the root
    assert_eq!(resolve("/etc/secret.txt", EntryKind::File), Err(AppError::Forbidden));
    assert_eq!(resolve("/etc", EntryKind::Directory), Err(AppError::Forbidden));
    assert_eq!(resolve("/etc/x", EntryKind::Other), Err(AppError::Forbidden));
    assert_eq!(resolve("/etc/x", EntryKind::Missing), Err(AppError::NotFound));
}
