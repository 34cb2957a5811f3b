use ccdemo::common::{
    http_port, log_effective_config, mock_source_file, persist_word_mock, publish_delay_ms,
    AppConfig, ConfigError, DEFAULT_HTTP_PORT, DEFAULT_INPUT_FILE, DEFAULT_TOPIC,
};
use ccdemo::text::is_blank;

fn text(s: &str) -> Option<String> {
    Some(s.to_string())
}

#[test]
fn absent_settings_take_their_defaults() {
    let cfg = AppConfig::from_values(None, None, None, None, None).unwrap();
    assert_eq!(cfg.project_id, None);
    assert_eq!(cfg.topic_id, "ccdemo-topic");
    assert_eq!(cfg.subscription_id, None);
    assert_eq!(cfg.input_file, "rick.txt");
    assert_eq!(cfg.database_url, None);
    assert_eq!(DEFAULT_TOPIC, "ccdemo-topic");
    assert_eq!(DEFAULT_INPUT_FILE, "rick.txt");
}

#[test]
fn present_settings_are_taken_as_they_are() {
    let cfg = AppConfig::from_values(
        text("proj"),
        text(" topic "),
        text("sub"),
        text(""),
        text("postgres://h/db"),
    )
    .unwrap();
    assert_eq!(cfg.project_id, text("proj"));
    assert_eq!(cfg.topic_id, " topic ");
    assert_eq!(cfg.subscription_id, text("sub"));
    assert_eq!(cfg.input_file, "");
    assert_eq!(cfg.database_url, text("postgres://h/db"));
}

#[test]
fn a_blank_topic_is_refused() {
    for topic in ["", " ", "\t\n", "\u{2003}\u{00A0}"] {
        let r = AppConfig::from_values(text("p"), text(topic), None, None, None);
        assert!(matches!(r, Err(ConfigError::EmptyTopic)), "topic {:?}", topic);
    }
    assert_eq!(ConfigError::EmptyTopic.message(), "TOPIC_ID must not be empty");
}

#[test]
fn blank_is_what_trims_to_nothing() {
    for s in ["", " ", "a", " a ", "\t\r\n", "\u{3000}", "\u{200B}", "x\u{0085}"] {
        assert_eq!(is_blank(s), s.trim().is_empty(), "text {:?}", s);
    }
}

#[test]
fn the_configuration_is_reported_in_one_line() {
    let cfg = AppConfig::from_values(None, None, None, None, None).unwrap();
    assert_eq!(
        log_effective_config(&cfg),
        "Config: project_id=<unset: uses ADC or default>, topic_id=ccdemo-topic, \
         subscription_id=<unset>, input_file=rick.txt, database_url=<unset>"
    );
    let cfg = AppConfig::from_values(text("proj"), text("topic"), text("sub"), text("in.txt"), text("db"))
        .unwrap();
    assert_eq!(
        log_effective_config(&cfg),
        "Config: project_id=proj, topic_id=topic, subscription_id=sub, input_file=in.txt, database_url=db"
    );
}

#[test]
fn the_mock_persistence_takes_every_word() {
    assert_eq!(persist_word_mock("never"), Ok("Persist (mock): never".to_string()));
    assert_eq!(persist_word_mock(""), Ok("Persist (mock): ".to_string()));
}

#[test]
fn the_mock_source_falls_back_to_the_input_file() {
    assert_eq!(mock_source_file(text("mock.txt"), text("in.txt")), "mock.txt");
    assert_eq!(mock_source_file(None, text("in.txt")), "in.txt");
    assert_eq!(mock_source_file(None, None), "rick.txt");
    assert_eq!(mock_source_file(text(""), None), "");
}

#[test]
fn the_publish_delay_defaults_to_none() {
    assert_eq!(publish_delay_ms(&None), 0);
    assert_eq!(publish_delay_ms(&text("150")), 150);
    assert_eq!(publish_delay_ms(&text("0")), 0);
    assert_eq!(publish_delay_ms(&text("soon")), 0);
    assert_eq!(publish_delay_ms(&text("-5")), 0);
    assert_eq!(publish_delay_ms(&text("18446744073709551615")), u64::MAX);
    assert_eq!(publish_delay_ms(&text("18446744073709551616")), 0);
}

#[test]
fn the_http_port_defaults_to_8080() {
    assert_eq!(DEFAULT_HTTP_PORT, 8080);
    assert_eq!(http_port(&None), 8080);
    assert_eq!(http_port(&text("3000")), 3000);
    assert_eq!(http_port(&text("0")), 0);
    assert_eq!(http_port(&text("65535")), 65535);
    assert_eq!(http_port(&text("65536")), 8080);
    assert_eq!(http_port(&text("http")), 8080);
    assert_eq!(http_port(&text("")), 8080);
}
