use schema_graph::state::{AppSettingsUpdate, AppState, ConnectionHistory};

fn sample_connection(server: &str, database: &str, username: &str) -> ConnectionHistory {
    ConnectionHistory {
        server: server.to_string(),
        database: database.to_string(),
        username: username.to_string(),
        last_used: "2024-01-01T00:00:00Z".to_string(),
    }
}

#[test]
fn update_settings_preserves_connections() {
    let mut state = AppState::new(None);

    state.add_connection(sample_connection("server", "db", "user"));

    let updated = state.update_settings(AppSettingsUpdate {
        theme: Some("dark".to_string()),
        schema_filter: Some("dbo".to_string()),
    });

    assert_eq!(updated.theme.as_deref(), Some("dark"));
    assert_eq!(updated.schema_filter.as_deref(), Some("dbo"));
    assert_eq!(state.get_connections().len(), 1);
}

#[test]
fn add_connection_dedupes_and_caps_history() {
    let mut state = AppState::new(None);

    for idx in 0..12 {
        state.add_connection(sample_connection(&format!("server-{}", idx), "db", "user"));
    }

    state.add_connection(sample_connection("server-11", "db", "user"));

    let connections = state.get_connections();
    assert_eq!(connections.len(), 10);
    assert_eq!(connections[0].server, "server-11");
}

#[test]
fn partial_update_keeps_absent_fields() {
    let mut state = AppState::new(None);
    state.update_settings(AppSettingsUpdate {
        theme: Some("light".to_string()),
        schema_filter: Some("sales".to_string()),
    });
    let updated = state.update_settings(AppSettingsUpdate { theme: None, schema_filter: None });
    assert_eq!(updated.theme.as_deref(), Some("light"));
    assert_eq!(updated.schema_filter.as_deref(), Some("sales"));
}

#[test]
fn remove_connection_filters_by_server_and_database() {
    let mut state = AppState::new(None);
    state.add_connection(sample_connection("a", "db1", "u"));
    state.add_connection(sample_connection("a", "db2", "u"));
    state.add_connection(sample_connection("b", "db1", "u"));

    state.remove_connection("a", "db1");

    let connections = state.get_connections();
    assert_eq!(connections.len(), 2);
    assert!(connections.iter().all(|c| !(c.server == "a" && c.database == "db1")));
}

#[test]
fn new_state_from_loaded_settings() {
    let mut seeded = AppState::new(None);
    seeded.add_connection(sample_connection("s", "d", "u"));
    let settings = seeded.get_settings();

    let state = AppState::new(Some(settings));
    assert_eq!(state.get_connections().len(), 1);
    assert_eq!(state.get_connections()[0].server, "s");
}
