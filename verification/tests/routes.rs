use serialport_api::api::routes::{
    asset_name_allowed, choose_dashboard_assets_dir, command_timeout_ms, content_type_for,
    engine_io_handshake, engine_io_open_frame, engine_io_open_text, index_references_built_asset,
    is_packaged_dashboard, lagged_event, lagged_message, missing_dashboard_html, next_wait_step,
    preset_error_status, socket_io_event_frame, socket_io_event_payload, socket_io_event_text,
    sse_event_data,
    socket_io_query_supported, socket_io_sid, websocket_live_step, ws_event_payload, ws_event_text, LiveInput,
    LiveStep, WaitStep, DEFAULT_COMMAND_TIMEOUT_MS, RESPONSE_POLL_MS,
};
use serialport_api::json::JsonValue;
use serialport_api::serial::manager::SerialStreamEvent;

fn to_serde(value: &JsonValue) -> serde_json::Value {
    match value {
        JsonValue::Null => serde_json::Value::Null,
        JsonValue::Bool(b) => serde_json::Value::Bool(*b),
        JsonValue::Number(text) => serde_json::from_str(text).unwrap(),
        JsonValue::Str(s) => serde_json::Value::String(s.clone()),
        JsonValue::Array(items) => serde_json::Value::Array(items.iter().map(to_serde).collect()),
        JsonValue::Object(entries) => {
            let mut map = serde_json::Map::new();
            for (key, value) in entries {
                map.insert(key.clone(), to_serde(value));
            }
            serde_json::Value::Object(map)
        }
    }
}
use serialport_api::storage::PresetStoreError;

const BUILT_INDEX: &str = r#"<!doctype html><html><head><script type="module" crossorigin src="/assets/index-test.js"></script><link rel="stylesheet" crossorigin href="/assets/index-test.css"></head><body><div id="root"></div></body></html>"#;
const SOURCE_INDEX: &str = r#"<!doctype html><html><head></head><body><div id="root"></div><script type="module" src="/src/main.tsx"></script></body></html>"#;

#[test]
fn packaged_dashboard_dir_rejects_vite_source_index_without_built_assets() {
    assert!(!is_packaged_dashboard(false, Some(SOURCE_INDEX)));
    assert!(!is_packaged_dashboard(true, Some(SOURCE_INDEX)));
    assert!(is_packaged_dashboard(true, Some(BUILT_INDEX)));
    assert!(!is_packaged_dashboard(false, Some(BUILT_INDEX)));
    assert!(!is_packaged_dashboard(true, None));
}

#[test]
fn built_asset_references_are_found_up_to_the_closing_quote() {
    assert!(index_references_built_asset(BUILT_INDEX, ".js"));
    assert!(index_references_built_asset(BUILT_INDEX, ".css"));
    assert!(!index_references_built_asset(BUILT_INDEX, ".map"));
    assert!(!index_references_built_asset("<a href='/assets/x.js.txt'>", ".js"));
    assert!(index_references_built_asset("/assets/x.js", ".js"));
    assert!(index_references_built_asset("/assets/assets/y.css>", ".css"));
    assert!(!index_references_built_asset("/asset/x.js", ".js"));
}

#[test]
fn dashboard_dir_prefers_built_output() {
    assert_eq!(choose_dashboard_assets_dir(true, true), "web/dist");
    assert_eq!(choose_dashboard_assets_dir(true, false), "web/dist");
    assert_eq!(choose_dashboard_assets_dir(false, true), "web");
    assert_eq!(choose_dashboard_assets_dir(false, false), "web/dist");
}

#[test]
fn content_types_follow_the_extension() {
    assert_eq!(content_type_for(Some("js")), "text/javascript; charset=utf-8");
    assert_eq!(content_type_for(Some("css")), "text/css; charset=utf-8");
    assert_eq!(content_type_for(Some("map")), "application/json; charset=utf-8");
    assert_eq!(content_type_for(Some("svg")), "image/svg+xml");
    assert_eq!(content_type_for(Some("png")), "image/png");
    assert_eq!(content_type_for(Some("jpg")), "image/jpeg");
    assert_eq!(content_type_for(Some("jpeg")), "image/jpeg");
    assert_eq!(content_type_for(Some("webp")), "image/webp");
    assert_eq!(content_type_for(Some("ico")), "image/x-icon");
    assert_eq!(content_type_for(Some("JS")), "application/octet-stream");
    assert_eq!(content_type_for(None), "application/octet-stream");
}

#[test]
fn missing_dashboard_page_names_the_directory() {
    let html = missing_dashboard_html("web/dist");
    assert!(html.contains("Dashboard assets are not available"));
    assert!(html.ends_with("<code>web/dist</code></p></body></html>"));
}

#[test]
fn socket_io_rejects_unsupported_engine_io_query_params() {
    assert!(socket_io_query_supported(Some("4"), Some("websocket")));
    assert!(!socket_io_query_supported(Some("3"), Some("websocket")));
    assert!(!socket_io_query_supported(Some("4"), Some("polling")));
    assert!(!socket_io_query_supported(None, Some("websocket")));
    assert!(!socket_io_query_supported(Some("4"), None));
}

#[test]
fn socket_io_frames_and_ids() {
    assert_eq!(socket_io_sid(1), "serialport-api-1");
    assert_eq!(socket_io_sid(1234), "serialport-api-1234");
    assert_eq!(socket_io_event_frame(r#"["serial.text","hi"]"#), r#"42["serial.text","hi"]"#);
    assert_eq!(engine_io_open_frame(r#"{"sid":"x"}"#), r#"0{"sid":"x"}"#);
    assert_eq!(lagged_message(3), "serial event stream lagged by 3 events");
}

#[test]
fn preset_errors_map_to_http_statuses() {
    assert_eq!(preset_error_status(&PresetStoreError::InvalidName), 400);
    assert_eq!(preset_error_status(&PresetStoreError::InvalidPayload), 400);
    assert_eq!(preset_error_status(&PresetStoreError::NotFound(9)), 404);
    assert_eq!(
        preset_error_status(&PresetStoreError::Storage("x".to_string())),
        500
    );
}

#[test]
fn waiting_for_a_response_polls_until_the_deadline() {
    assert_eq!(command_timeout_ms(None), DEFAULT_COMMAND_TIMEOUT_MS);
    assert_eq!(command_timeout_ms(Some(60)), 60);
    assert_eq!(
        next_wait_step(Some(JsonValue::Bool(true)), 100, 50),
        WaitStep::Respond(JsonValue::Bool(true))
    );
    assert_eq!(next_wait_step(None, 50, 50), WaitStep::TimedOut);
    assert_eq!(next_wait_step(None, 0, 1000), WaitStep::Sleep(RESPONSE_POLL_MS));
    assert_eq!(next_wait_step(None, 997, 1000), WaitStep::Sleep(3));
}

#[test]
fn asset_names_stay_inside_the_assets_directory() {
    assert!(asset_name_allowed("index-test.js"));
    assert!(asset_name_allowed("a.b.c"));
    assert!(!asset_name_allowed("../secret"));
    assert!(!asset_name_allowed("x/y.js"));
    assert!(!asset_name_allowed("x..y"));
}

#[test]
fn engine_io_handshake_matches_the_socket_io_open_packet() {
    let handshake = to_serde(&engine_io_handshake(7));
    let expected: serde_json::Value = serde_json::from_str(
        r#"{"sid":"serialport-api-7","upgrades":[],"pingInterval":25000,"pingTimeout":20000,"maxPayload":1000000}"#,
    )
    .unwrap();
    assert_eq!(handshake, expected);
    let text = serde_json::to_string(&handshake).unwrap();
    assert!(engine_io_open_frame(&text).starts_with("0{"));
}

#[test]
fn live_event_payloads_for_websocket_and_socket_io() {
    let event = SerialStreamEvent {
        event: "serial.text",
        data: JsonValue::Str("live robot".to_string()),
    };
    assert_eq!(
        serde_json::to_string(&to_serde(&ws_event_payload(&event))).unwrap(),
        r#"{"data":"live robot","event":"serial.text"}"#
    );
    let payload = serde_json::to_string(&to_serde(&socket_io_event_payload(&event))).unwrap();
    assert_eq!(
        socket_io_event_frame(&payload),
        r#"42["serial.text","live robot"]"#
    );
    let lagged = lagged_event(5);
    assert_eq!(lagged.event, "serial.error");
    assert_eq!(
        lagged.data,
        JsonValue::Str("serial event stream lagged by 5 events".to_string())
    );
}

#[test]
fn websocket_clients_follow_until_either_side_is_done() {
    assert_eq!(websocket_live_step(LiveInput::Recorded), LiveStep::Forward);
    assert_eq!(websocket_live_step(LiveInput::Lagged(3)), LiveStep::Wait);
    assert_eq!(websocket_live_step(LiveInput::ClientMessage), LiveStep::Wait);
    assert_eq!(websocket_live_step(LiveInput::SourceClosed), LiveStep::Stop);
    assert_eq!(websocket_live_step(LiveInput::ClientClosed), LiveStep::Stop);
    assert_eq!(websocket_live_step(LiveInput::ClientFailed), LiveStep::Stop);
}

#[test]
fn live_event_texts_are_the_json_of_their_payloads() {
    let event = SerialStreamEvent {
        event: "serial.json",
        data: JsonValue::Object(vec![
            ("ok".to_string(), JsonValue::Bool(true)),
            ("reqId".to_string(), JsonValue::Str("1".to_string())),
        ]),
    };
    assert_eq!(
        ws_event_text(&event).unwrap(),
        r#"{"data":{"ok":true,"reqId":"1"},"event":"serial.json"}"#
    );
    assert_eq!(
        socket_io_event_text(&event).unwrap(),
        r#"42["serial.json",{"ok":true,"reqId":"1"}]"#
    );
    assert_eq!(sse_event_data(&event).unwrap(), r#"{"ok":true,"reqId":"1"}"#);
    let open = engine_io_open_text(3).unwrap();
    assert!(open.starts_with('0'));
    let handshake: serde_json::Value = serde_json::from_str(&open[1..]).unwrap();
    assert_eq!(handshake, to_serde(&engine_io_handshake(3)));
}

#[test]
fn a_number_without_json_text_gives_no_event_text() {
    let event = SerialStreamEvent {
        event: "serial.json",
        data: JsonValue::Number("not-a-number".to_string()),
    };
    assert_eq!(ws_event_text(&event), None);
    assert_eq!(sse_event_data(&event), None);
}
