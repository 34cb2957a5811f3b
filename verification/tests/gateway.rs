use ccdemo::gateway::{
    connection_settings, page_statement, resolve_settings, ConnectionSettings, DbOverrides,
    DEFAULT_PORT, FIRST_PAGE_STATEMENT, INSERT_STATEMENT, NEXT_PAGE_STATEMENT, SCHEMA_STATEMENT,
};

fn no_overrides() -> DbOverrides {
    DbOverrides { host: None, port: None, dbname: None, user: None, password: None }
}

fn text(s: &str) -> Option<String> {
    Some(s.to_string())
}

fn parsed(hosts: &[&str], ports: &[u16]) -> ConnectionSettings {
    ConnectionSettings {
        hosts: hosts.iter().map(|h| h.to_string()).collect(),
        ports: ports.to_vec(),
        dbname: text("wordsdb"),
        user: text("reader"),
        password: Some(b"secret".to_vec()),
    }
}

#[test]
fn a_connection_string_is_read_by_the_driver() {
    let s = connection_settings("postgres://alice:pw@db.example:6000/words", &no_overrides());
    assert_eq!(s.hosts, vec!["db.example".to_string()]);
    assert_eq!(s.ports, vec![6000]);
    assert_eq!(s.dbname, text("words"));
    assert_eq!(s.user, text("alice"));
    assert_eq!(s.password, Some(b"pw".to_vec()));
}

#[test]
fn a_key_value_connection_string_is_read_too() {
    let s = connection_settings("host=h1,h2 port=1,2 user=bob dbname=d", &no_overrides());
    assert_eq!(s.hosts, vec!["h1".to_string(), "h2".to_string()]);
    assert_eq!(s.ports, vec![1, 2]);
    assert_eq!(s.user, text("bob"));
    assert_eq!(s.dbname, text("d"));
    assert_eq!(s.password, None);
}

#[test]
fn host_and_port_take_their_defaults() {
    let s = connection_settings("postgres:///wordsdb", &no_overrides());
    assert_eq!(s.hosts, vec!["127.0.0.1".to_string()]);
    assert_eq!(s.ports, vec![5432]);
    assert_eq!(s.dbname, text("wordsdb"));
    assert_eq!(DEFAULT_PORT, 5432);
}

#[test]
fn an_unreadable_connection_string_configures_nothing() {
    let s = connection_settings("this is no connection string", &no_overrides());
    assert_eq!(s.hosts, vec!["127.0.0.1".to_string()]);
    assert_eq!(s.ports, vec![5432]);
    assert_eq!(s.dbname, None);
    assert_eq!(s.user, None);
    assert_eq!(s.password, None);
}

#[test]
fn overrides_win_over_the_connection_string() {
    let over = DbOverrides {
        host: text("10.0.0.9"),
        port: text("7000"),
        dbname: text("other"),
        user: text("writer"),
        password: text("p\u{e4}ss"),
    };
    let s = connection_settings("postgres://alice:pw@db.example:6000/words", &over);
    assert_eq!(s.hosts, vec!["10.0.0.9".to_string()]);
    assert_eq!(s.ports, vec![7000]);
    assert_eq!(s.dbname, text("other"));
    assert_eq!(s.user, text("writer"));
    assert_eq!(s.password, Some("p\u{e4}ss".as_bytes().to_vec()));
}

#[test]
fn each_override_stands_for_itself() {
    let mut over = no_overrides();
    over.user = text("writer");
    let s = resolve_settings(Some(parsed(&["h"], &[1])), &over);
    assert_eq!(s.hosts, vec!["h".to_string()]);
    assert_eq!(s.ports, vec![1]);
    assert_eq!(s.dbname, text("wordsdb"));
    assert_eq!(s.user, text("writer"));
    assert_eq!(s.password, Some(b"secret".to_vec()));
}

#[test]
fn an_override_replaces_every_host_of_the_connection_string() {
    let mut over = no_overrides();
    over.host = text("only");
    let s = resolve_settings(Some(parsed(&["h1", "h2"], &[1, 2])), &over);
    assert_eq!(s.hosts, vec!["only".to_string()]);
    assert_eq!(s.ports, vec![1, 2]);
    over.host = text("");
    let s = resolve_settings(Some(parsed(&["h1"], &[1])), &over);
    assert_eq!(s.hosts, vec!["".to_string()]);
}

#[test]
fn a_port_override_that_is_no_port_is_passed_over() {
    for bad in ["", "port", "65536", "-1", " 80", "80 "] {
        let mut over = no_overrides();
        over.port = text(bad);
        let s = resolve_settings(Some(parsed(&["h"], &[6000])), &over);
        assert_eq!(s.ports, vec![6000], "override {:?}", bad);
        let s = resolve_settings(None, &over);
        assert_eq!(s.ports, vec![5432], "override {:?}", bad);
    }
    let mut over = no_overrides();
    over.port = text("+81");
    assert_eq!(resolve_settings(None, &over).ports, vec![81]);
}

#[test]
fn nothing_configured_gives_the_defaults_alone() {
    let s = resolve_settings(None, &no_overrides());
    assert_eq!(s.hosts, vec!["127.0.0.1".to_string()]);
    assert_eq!(s.ports, vec![5432]);
    assert_eq!(s.dbname, None);
    assert_eq!(s.user, None);
    assert_eq!(s.password, None);
}

#[test]
fn the_statements_of_the_gateway() {
    assert_eq!(
        SCHEMA_STATEMENT,
        "CREATE TABLE IF NOT EXISTS words (id SERIAL PRIMARY KEY, word TEXT NOT NULL);"
    );
    assert_eq!(INSERT_STATEMENT, "INSERT INTO words (word) VALUES ($1)");
    assert_eq!(page_statement(None), "SELECT id, word FROM words ORDER BY id ASC LIMIT $1");
    assert_eq!(
        page_statement(Some(17)),
        "SELECT id, word FROM words WHERE id > $1 ORDER BY id ASC LIMIT $2"
    );
    assert_eq!(page_statement(None), FIRST_PAGE_STATEMENT);
    assert_eq!(page_statement(Some(-1)), NEXT_PAGE_STATEMENT);
}
