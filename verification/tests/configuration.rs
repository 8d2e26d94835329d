use std::time::Duration;
use zero2prod::configuration::{
    port_text, ApplicationSettings, DatabaseSettings, EmailClientSettings, Environment, Settings,
};

fn settings() -> Settings {
    Settings {
        database: DatabaseSettings {
            username: "postgres".to_string(),
            password: "SECRET-REDACTED".to_string(),
            port: 5432,
            host: "localhost".to_string(),
            database_name: "newsletter".to_string(),
            require_ssl: false,
        },
        application: ApplicationSettings { port: 8000, host: "127.0.0.1".to_string() },
        email_client: EmailClientSettings {
            base_url: "https://mail.example".to_string(),
            sender_email: "news@example.com".to_string(),
            authorization_token: "SECRET-REDACTED".to_string(),
            timeout_milliseconds: 10_000,
        },
    }
}

#[test]
fn environments_have_their_names() {
    assert_eq!(Environment::Local.as_str(), "local");
    assert_eq!(Environment::Production.as_str(), "production");
    assert_eq!(Environment::Local.settings_file(), "configuration/local");
    assert_eq!(Environment::Production.settings_file(), "configuration/production");
}

#[test]
fn an_environment_is_read_whatever_the_case_of_its_letters() {
    assert_eq!(Environment::try_from("local".to_string()), Ok(Environment::Local));
    assert_eq!(Environment::try_from("LOCAL".to_string()), Ok(Environment::Local));
    assert_eq!(Environment::try_from("Production".to_string()), Ok(Environment::Production));
    assert_eq!(
        Environment::try_from("Staging".to_string()),
        Err("staging is not a supported environment. Use either `local` or `production`.".to_string())
    );
    assert_eq!(
        Environment::try_from(String::new()),
        Err(" is not a supported environment. Use either `local` or `production`.".to_string())
    );
}

#[test]
fn a_name_in_lower_case_is_read_as_it_stands() {
    assert_eq!(Environment::from_lowercase("local".to_string()), Ok(Environment::Local));
    assert_eq!(Environment::from_lowercase("production".to_string()), Ok(Environment::Production));
    assert_eq!(
        Environment::from_lowercase("LOCAL".to_string()),
        Err("LOCAL is not a supported environment. Use either `local` or `production`.".to_string())
    );
    assert_eq!(
        Environment::from_lowercase("local ".to_string()),
        Err("local  is not a supported environment. Use either `local` or `production`.".to_string())
    );
}

#[test]
fn ports_are_written_in_decimal() {
    assert_eq!(port_text(0), "0");
    assert_eq!(port_text(9), "9");
    assert_eq!(port_text(10), "10");
    assert_eq!(port_text(8000), "8000");
    assert_eq!(port_text(65535), "65535");
    for p in [1u16, 80, 443, 1024, 5432, 40_404] {
        assert_eq!(port_text(p), p.to_string());
    }
}

#[test]
fn the_address_joins_host_and_port() {
    assert_eq!(settings().application.address(), "127.0.0.1:8000");
    let any = ApplicationSettings { port: 0, host: "0.0.0.0".to_string() };
    assert_eq!(any.address(), "0.0.0.0:0");
}

#[test]
fn connection_options_come_with_and_without_the_database() {
    let db = settings().database;
    let without = db.without_db();
    assert_eq!(without.host, "localhost");
    assert_eq!(without.username, "postgres");
    assert_eq!(without.password, "SECRET-REDACTED");
    assert_eq!(without.port, 5432);
    assert_eq!(without.database, None);
    assert!(!without.trace_statements);
    let with = db.with_db();
    assert_eq!(with.host, "localhost");
    assert_eq!(with.username, "postgres");
    assert_eq!(with.password, "SECRET-REDACTED");
    assert_eq!(with.port, 5432);
    assert_eq!(with.database, Some("newsletter".to_string()));
    assert!(with.trace_statements);
}

#[test]
fn the_sender_must_be_an_address() {
    let mut mail = settings().email_client;
    assert_eq!(mail.sender().unwrap().as_str(), "news@example.com");
    mail.sender_email = "news".to_string();
    assert_eq!(mail.sender().err(), Some("news is not a valid subscriber email.".to_string()));
}

#[test]
fn the_timeout_is_given_in_milliseconds() {
    let mut mail = settings().email_client;
    assert_eq!(mail.timeout(), Duration::from_secs(10));
    assert_eq!(mail.timeout().as_millis(), 10_000);
    mail.timeout_milliseconds = 1;
    assert_eq!(mail.timeout().as_nanos(), 1_000_000);
    mail.timeout_milliseconds = 0;
    assert_eq!(mail.timeout(), Duration::ZERO);
}

#[test]
fn settings_can_be_cloned() {
    let s = settings();
    let c = s.clone();
    assert_eq!(c.application.port, s.application.port);
    assert_eq!(c.database.database_name, s.database.database_name);
    assert_eq!(c.email_client.base_url, s.email_client.base_url);
}
