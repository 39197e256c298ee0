use loom::config::Cache;
use loom::config::CacheBackend;
use loom::config::Config;
use loom::config::ConsumerKind;
use loom::config::Market;
use loom::config::RedisCache;
use loom::config::Server;
use loom::config::DEFAULT_CONFIG_ENV_VAR;
use loom::config::DEFAULT_CONFIG_FILE_PATH;

fn redis(host: &str, port: Option<u16>, database: Option<u16>) -> RedisCache {
    RedisCache { host: String::from(host), port, database, username: None, password: None }
}

#[test]
fn redis_uri_uses_the_defaults() {
    assert_eq!(redis("localhost", None, None).to_redis_uri(), "redis://localhost:6379/0");
}

#[test]
fn redis_uri_uses_what_is_configured() {
    assert_eq!(redis("10.0.0.7", Some(7000), Some(3)).to_redis_uri(), "redis://10.0.0.7:7000/3");
    assert_eq!(redis("h", Some(0), Some(65535)).to_redis_uri(), "redis://h:0/65535");
    assert_eq!(redis("", Some(65535), None).to_redis_uri(), "redis://:65535/0");
}

#[test]
fn config_path_prefers_the_argument_then_the_environment() {
    assert_eq!(Config::config_path(Some("a.toml"), Some(String::from("b.toml"))), "a.toml");
    assert_eq!(Config::config_path(None, Some(String::from("b.toml"))), "b.toml");
    assert_eq!(Config::config_path(None, None), "/etc/loom/config.toml");
    assert_eq!(DEFAULT_CONFIG_FILE_PATH, "/etc/loom/config.toml");
    assert_eq!(DEFAULT_CONFIG_ENV_VAR, "LOOM_CONFIG_FILE");
}

#[test]
fn config_holds_its_sections() {
    let config = Config {
        server: Server { port: Some(7001) },
        cache: Cache { backend: Some(CacheBackend::Redis), redis: redis("localhost", None, None) },
        consumer: ConsumerKind::Console,
        market: Market { symbols: Some(vec![String::from("LOOM-USDT-SPOT")]) },
    };
    let copy = config.clone();
    assert_eq!(copy.server.port, Some(7001));
    assert_eq!(copy.cache.backend, Some(CacheBackend::Redis));
    assert_eq!(copy.consumer, ConsumerKind::Console);
    assert_eq!(copy.market.symbols.unwrap().len(), 1);
}
