use event_relay::secret::Secret;
use event_relay::settings::{KafkaAuthConfig, KafkaConfig, KafkaTopics, RedisConfig};

fn redis(user: Option<&str>, pass: Option<&str>) -> RedisConfig {
    RedisConfig {
        host: "localhost".to_string(),
        port: "6379".to_string(),
        username: user.map(|u| Secret::new(u.to_string())),
        password: pass.map(|p| Secret::new(p.to_string())),
        ..Default::default()
    }
}

#[test]
fn redis_url_for_each_credential_case() {
    assert_eq!(redis(Some("u"), Some("p")).build_redis_connect_url(), "redis://u:p@localhost:6379/");
    assert_eq!(redis(None, Some("p")).build_redis_connect_url(), "redis://:p@localhost:6379/");
    assert_eq!(redis(Some("u"), None).build_redis_connect_url(), "redis://u@localhost:6379/");
    assert_eq!(redis(None, None).build_redis_connect_url(), "redis://localhost:6379/");
}

#[test]
fn secret_is_masked_by_byte() {
    let s = Secret::new("pässword".to_string());
    assert_eq!(s.revealed(), "pässword");
    assert_eq!(s.masked_string(), "*********");
    assert_eq!(Secret::new(String::new()).masked_string(), "");
}

#[test]
fn kafka_config_without_auth() {
    let k = KafkaConfig {
        group_id: "g".to_string(),
        batch_size: 2,
        bootstrap_servers: vec!["h1:9092".to_string(), "h2:9092".to_string()],
        auth: None,
        topics: KafkaTopics { input: "in".to_string(), output: "out".to_string() },
    };
    assert_eq!(k.joined_servers(), "h1:9092,h2:9092");
    let c = k.build_kafka_config();
    assert_eq!(c.get("group.id"), Some("g"));
    assert_eq!(c.get("bootstrap.servers"), Some("h1:9092,h2:9092"));
    assert_eq!(c.get("sasl.username"), None);
}

#[test]
fn kafka_config_with_auth() {
    let k = KafkaConfig {
        group_id: "g".to_string(),
        batch_size: 1,
        bootstrap_servers: vec!["one".to_string()],
        auth: Some(KafkaAuthConfig::new(
            Some(Secret::new("user".to_string())),
            Some(Secret::new("pw".to_string())),
            "SASL_SSL".to_string(),
            "PLAIN".to_string(),
        )),
        topics: KafkaTopics::default(),
    };
    let c = k.build_kafka_config();
    assert_eq!(c.get("bootstrap.servers"), Some("one"));
    assert_eq!(c.get("security.protocol"), Some("SASL_SSL"));
    assert_eq!(c.get("sasl.mechanism"), Some("PLAIN"));
    assert_eq!(c.get("sasl.username"), Some("user"));
    assert_eq!(c.get("sasl.password"), Some("pw"));
    let empty = KafkaConfig::default();
    assert_eq!(empty.joined_servers(), "");
}
