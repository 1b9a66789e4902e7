use cites_ui::injection::ReplayProtocol;
use cites_ui::settings::{
    api_port_input, backslash_before, delay_input, escape_js_string, foreign_timeout_input, gap_tolerance_secs_input,
    load_setting_js, min_visible_minutes_input, protocol_description, replay_vehicle_choice, replay_vehicle_value,
    save_bool_setting, save_country_code, save_json_setting, save_live_tile_url, save_node_config,
    save_replay_config, save_string_setting, save_tracking_warning_config, save_ts_unix_format, save_ts_use_gnw,
    save_tts_enabled, save_tts_language, stored_flag, stored_string, str_eq, style_url, toggle_state_label,
    toggle_thumb_class, toggle_track_class, toggle_tx_power, trim_trailing_slashes, tx_power_input,
    vehicle_description,
};

/// Reads a single-quoted JavaScript literal body back.
fn js_unescape(e: &str) -> String {
    let mut out = String::new();
    let mut it = e.chars();
    while let Some(c) = it.next() {
        if c == '\\' {
            if let Some(n) = it.next() { out.push(n); } else { out.push(c); }
        } else {
            out.push(c);
        }
    }
    out
}

#[test]
fn escape_js_string_doubles_backslashes_and_escapes_quotes() {
    assert_eq!(escape_js_string("it's a \\ test"), "it\\'s a \\\\ test");
    assert_eq!(escape_js_string("plain"), "plain");
    assert_eq!(escape_js_string("\\'"), "\\\\\\'");
}

#[test]
fn escape_js_string_matches_replace_chain_without_line_breaks() {
    for s in ["", "'", "\\", "a'b\\c''\\\\", "{\"k\":\"it's\"}"] {
        assert_eq!(escape_js_string(s), s.replace('\\', "\\\\").replace('\'', "\\'"));
    }
}

#[test]
fn escape_js_string_escapes_line_breaks() {
    assert_eq!(escape_js_string("a\nb"), "a\\nb");
    assert_eq!(escape_js_string("a\r\nb"), "a\\r\\nb");
    assert_eq!(escape_js_string("n\\n"), "n\\\\n");
    assert!(!escape_js_string("line one\nline 'two'\r").contains('\n'));
}

#[test]
fn escaped_string_reads_back() {
    for s in ["", "'", "\\", "a'b\\c''\\\\", "{\"k\":\"it's\"}"] {
        let e = escape_js_string(s);
        assert_eq!(js_unescape(&e), s);
        // no unescaped quote remains
        let mut chars = e.chars();
        while let Some(c) = chars.next() {
            if c == '\\' { chars.next(); } else { assert_ne!(c, '\''); }
        }
    }
}

#[test]
fn set_item_statements() {
    assert_eq!(save_bool_setting("k", true), "localStorage.setItem('k', 'true');");
    assert_eq!(save_bool_setting("k", false), "localStorage.setItem('k', 'false');");
    assert_eq!(save_string_setting("k", "o'k"), "localStorage.setItem('k', 'o\\'k');");
    assert_eq!(save_json_setting("k", "{\"a\":1}"), "localStorage.setItem('k', '{\"a\":1}');");
}

#[test]
fn named_settings_use_their_keys() {
    assert_eq!(save_live_tile_url("http://t:8080"), "localStorage.setItem('cites.live_tile_url', 'http://t:8080');");
    assert_eq!(save_country_code("FR"), "localStorage.setItem('cites.country_code', 'FR');");
    assert_eq!(save_replay_config("{}"), "localStorage.setItem('cites.replay_config', '{}');");
    assert_eq!(save_tracking_warning_config("{}"), "localStorage.setItem('cites.tracking_warning', '{}');");
    assert_eq!(save_node_config("{}"), "localStorage.setItem('cites.node_config', '{}');");
    assert_eq!(save_tts_enabled(true), "localStorage.setItem('cites.tts_enabled', 'true');");
    assert_eq!(save_tts_language("de"), "localStorage.setItem('cites.tts_language', 'de');");
    assert_eq!(save_ts_unix_format(false), "localStorage.setItem('cites.ts_unix_format', 'false');");
    assert_eq!(save_ts_use_gnw(true), "localStorage.setItem('cites.ts_use_gnw', 'true');");
}

#[test]
fn load_statement_and_stored_values() {
    assert_eq!(load_setting_js("cites.tts_enabled"), "dioxus.send(localStorage.getItem('cites.tts_enabled') || '')");
    assert!(stored_flag("true", false));
    assert!(!stored_flag("false", false));
    assert!(stored_flag("", true));
    assert_eq!(stored_string(""), None);
    assert_eq!(stored_string("de"), Some("de".to_string()));
    assert!(str_eq("a", "a") && !str_eq("a", "b"));
}

#[test]
fn style_url_appends_default_style() {
    assert_eq!(style_url("http://localhost:8080"), "http://localhost:8080/styles/basic-preview/style.json");
    assert_eq!(style_url("http://localhost:8080///"), "http://localhost:8080/styles/basic-preview/style.json");
    assert_eq!(style_url("localhost:8080"), "localhost:8080/styles/basic-preview/style.json");
}

#[test]
fn style_url_keeps_urls_with_path() {
    assert_eq!(style_url("http://host/styles/dark/style.json"), "http://host/styles/dark/style.json");
    assert_eq!(style_url("https://host/tiles/"), "https://host/tiles");
    assert_eq!(style_url("localhost:8080/styles/x/style.json"), "localhost:8080/styles/x/style.json");
    assert_eq!(style_url("tiles.local/"), "tiles.local/styles/basic-preview/style.json");
}

#[test]
fn trailing_slashes_trimmed() {
    assert_eq!(trim_trailing_slashes("http://x//"), "http://x");
    assert_eq!(trim_trailing_slashes("///"), "");
    assert_eq!(trim_trailing_slashes("a/b"), "a/b");
}

#[test]
fn numeric_fields() {
    assert_eq!(tx_power_input("30"), 27);
    assert_eq!(tx_power_input("0"), 1);
    assert_eq!(tx_power_input("abc"), 20);
    assert_eq!(tx_power_input("300"), 20);
    assert_eq!(tx_power_input(" 14 "), 14);
    assert_eq!(api_port_input("80"), 1024);
    assert_eq!(api_port_input("70000"), 8080);
    assert_eq!(api_port_input("9000"), 9000);
    assert_eq!(foreign_timeout_input("50"), 100);
    assert_eq!(foreign_timeout_input(""), 1000);
    assert_eq!(min_visible_minutes_input("0"), 1);
    assert_eq!(min_visible_minutes_input("x"), 5);
    assert_eq!(gap_tolerance_secs_input("x"), 30);
    assert_eq!(gap_tolerance_secs_input("12"), 12);
    assert_eq!(delay_input("x", 1000), 1000);
    assert_eq!(delay_input("250", 0), 250);
}

#[test]
fn tx_power_switch() {
    assert_eq!(toggle_tx_power(None), Some(20));
    assert_eq!(toggle_tx_power(Some(5)), None);
}

#[test]
fn replay_vehicle_select() {
    assert_eq!(replay_vehicle_choice("all"), None);
    assert_eq!(replay_vehicle_choice("12"), Some(12));
    assert_eq!(replay_vehicle_choice(" 12"), None);
    assert_eq!(replay_vehicle_value(None), "all");
    assert_eq!(replay_vehicle_value(Some(12)), "12");
}

#[test]
fn replay_summary_texts() {
    assert_eq!(protocol_description(&vec![]), "all protocols");
    assert_eq!(protocol_description(&vec![ReplayProtocol::Cam]), "CAM");
    assert_eq!(protocol_description(&vec![ReplayProtocol::Cam, ReplayProtocol::Denm, ReplayProtocol::Ssem]), "CAM, DENM, SSEM");
    assert_eq!(vehicle_description(None), "all vehicles");
    assert_eq!(vehicle_description(Some(4)), "vehicle 4");
}

#[test]
fn toggle_classes() {
    assert_eq!(toggle_track_class(true), "toggle-track on");
    assert_eq!(toggle_thumb_class(false), "toggle-thumb off");
    assert_eq!(toggle_state_label(true), "Active");
    assert_eq!(toggle_state_label(false), "Inactive");
}

#[test]
fn quotes_backslashed_for_map_scripts() {
    assert_eq!(backslash_before("it's", '\''), "it\\'s");
    assert_eq!(backslash_before("a\"b", '"'), "a\\\"b");
    assert_eq!(backslash_before("x", '"'), "x");
}
