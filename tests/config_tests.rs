use crud_proj::config::{DbConfig, DbSettings};
use crud_proj::text::{decimal_string, parse_unsigned};

fn sample() -> DbConfig {
    DbConfig {
        user: "app".to_string(),
        password: "pw".to_string(),
        dbname: "shop".to_string(),
        host: "db.local".to_string(),
        port: 5433,
        max_connections: 20,
        min_connections: 2,
        acquire_timeout: 30,
        idle_timeout: 600,
    }
}

fn settings() -> DbSettings {
    DbSettings {
        user: Some("app".to_string()),
        password: Some("pw".to_string()),
        dbname: Some("shop".to_string()),
        host: None,
        port: None,
        max_connections: None,
        min_connections: None,
        acquire_timeout: None,
        idle_timeout: None,
    }
}

#[test]
fn database_url_has_every_part() {
    assert_eq!(sample().database_url(), "postgres://app:pw@db.local:5433/shop");
}

#[test]
fn display_info_leaves_out_the_password() {
    let info = sample().display_info();
    assert_eq!(
        info,
        "Database Config:\n  Host: db.local:5433\n  Database: shop\n  User: app\n  Max Connections: 20\n  Min Connections: 2"
    );
    assert!(!info.contains("pw"));
}

#[test]
fn validate_accepts_a_sound_config() {
    assert_eq!(sample().validate(), Ok(()));
}

#[test]
fn validate_names_each_problem() {
    let mut c = sample();
    c.user = String::new();
    assert_eq!(c.validate(), Err("Database user cannot be empty"));
    let mut c = sample();
    c.password = String::new();
    assert_eq!(c.validate(), Err("Database password cannot be empty"));
    let mut c = sample();
    c.dbname = String::new();
    assert_eq!(c.validate(), Err("Database name cannot be empty"));
    let mut c = sample();
    c.max_connections = 0;
    assert_eq!(c.validate(), Err("Max connections must be greater than 0"));
    let mut c = sample();
    c.min_connections = 21;
    assert_eq!(c.validate(), Err("Min connections cannot be greater than max connections"));
}

#[test]
fn validate_reports_the_first_problem() {
    let mut c = sample();
    c.user = String::new();
    c.max_connections = 0;
    assert_eq!(c.validate(), Err("Database user cannot be empty"));
}

#[test]
fn settings_take_defaults() {
    let c = DbConfig::from_settings(&settings()).unwrap();
    assert_eq!(c.host, "localhost");
    assert_eq!(c.port, 5432);
    assert_eq!(c.max_connections, 10);
    assert_eq!(c.min_connections, 1);
    assert_eq!(c.acquire_timeout, 30);
    assert_eq!(c.idle_timeout, 600);
    assert_eq!(c.database_url(), "postgres://app:pw@localhost:5432/shop");
}

#[test]
fn settings_read_given_values() {
    let mut e = settings();
    e.host = Some("pg".to_string());
    e.port = Some("6543".to_string());
    e.max_connections = Some("+7".to_string());
    e.idle_timeout = Some("0".to_string());
    let c = DbConfig::from_settings(&e).unwrap();
    assert_eq!(c.host, "pg");
    assert_eq!(c.port, 6543);
    assert_eq!(c.max_connections, 7);
    assert_eq!(c.idle_timeout, 0);
}

#[test]
fn settings_require_credentials() {
    let mut e = settings();
    e.user = None;
    assert_eq!(DbConfig::from_settings(&e).unwrap_err(), "POSTGRES_USER must be set");
    let mut e = settings();
    e.password = None;
    assert_eq!(DbConfig::from_settings(&e).unwrap_err(), "POSTGRES_PASSWORD must be set");
    let mut e = settings();
    e.dbname = None;
    assert_eq!(DbConfig::from_settings(&e).unwrap_err(), "POSTGRES_DB must be set");
}

#[test]
fn settings_reject_bad_numbers() {
    let mut e = settings();
    e.port = Some("70000".to_string());
    assert_eq!(DbConfig::from_settings(&e).unwrap_err(), "DB_PORT must be a valid number");
    let mut e = settings();
    e.max_connections = Some("ten".to_string());
    assert_eq!(DbConfig::from_settings(&e).unwrap_err(), "DB_MAX_CONNECTIONS must be a valid number");
    let mut e = settings();
    e.min_connections = Some("-1".to_string());
    assert_eq!(DbConfig::from_settings(&e).unwrap_err(), "DB_MIN_CONNECTIONS must be a valid number");
    let mut e = settings();
    e.acquire_timeout = Some(String::new());
    assert_eq!(DbConfig::from_settings(&e).unwrap_err(), "DB_ACQUIRE_TIMEOUT must be a valid number");
    let mut e = settings();
    e.idle_timeout = Some("18446744073709551616".to_string());
    assert_eq!(DbConfig::from_settings(&e).unwrap_err(), "DB_IDLE_TIMEOUT must be a valid number");
}

#[test]
fn parse_unsigned_agrees_with_std() {
    for text in ["0", "7", "+12", "65535", "65536", "", "+", "-3", "1 2", "007", "99999999999999999999"] {
        let mine = parse_unsigned(text, u16::MAX as u64).map(|v| v as u16);
        assert_eq!(mine, text.parse::<u16>().ok(), "{}", text);
    }
    assert_eq!(parse_unsigned("18446744073709551615", u64::MAX), Some(u64::MAX));
    assert_eq!(parse_unsigned("18446744073709551616", u64::MAX), None);
}

#[test]
fn decimal_string_writes_numbers() {
    assert_eq!(decimal_string(0), "0");
    assert_eq!(decimal_string(5432), "5432");
    assert_eq!(decimal_string(u64::MAX), u64::MAX.to_string());
}
