use vstd::prelude::*;
use crate::injection::{protocol_name, ReplayProtocol};
use crate::text::{chars_of, dec, occurs_at, parse_trimmed_or, parse_unsigned, parse_unsigned_str, parsed_or, prefixed_number, push_char, push_str};

verus! {

/// `localStorage` key of the live-map tile server URL.
pub const LIVE_TILE_KEY: &'static str = "cites.live_tile_url";
/// `localStorage` key of the home country code.
pub const COUNTRY_KEY: &'static str = "cites.country_code";
/// `localStorage` key of the replay configuration (JSON).
pub const REPLAY_CONFIG_KEY: &'static str = "cites.replay_config";
/// `localStorage` key of the tracking-warning configuration (JSON).
pub const TRACKING_WARNING_KEY: &'static str = "cites.tracking_warning";
/// `localStorage` key of the TTS enabled flag.
pub const TTS_ENABLED_KEY: &'static str = "cites.tts_enabled";
/// `localStorage` key of the TTS language tag.
pub const TTS_LANGUAGE_KEY: &'static str = "cites.tts_language";
/// `localStorage` key of the node configuration (JSON).
pub const NODE_CONFIG_KEY: &'static str = "cites.node_config";
/// `localStorage` key of the timestamp display format flag.
pub const TS_UNIX_FORMAT_KEY: &'static str = "cites.ts_unix_format";
/// `localStorage` key of the timestamp source flag.
pub const TS_USE_GNW_KEY: &'static str = "cites.ts_use_gnw";

/// How one character is written inside a single-quoted JavaScript literal: a backslash, a
/// single quote, a line feed and a carriage return as the escapes `\\`, `\'`, `\n` and `\r`,
/// every other character as itself.
pub open spec fn js_escape_char(c: char) -> Seq<char> {
    if c == '\\' {
        seq!['\\', '\\']
    } else if c == '\'' {
        seq!['\\', '\'']
    } else if c == '\n' {
        seq!['\\', 'n']
    } else if c == '\r' {
        seq!['\\', 'r']
    } else {
        seq![c]
    }
}

/// A string escaped for a single-quoted JavaScript literal, character by character.
pub open spec fn js_escaped(s: Seq<char>) -> Seq<char>
    decreases s.len(),
{
    if s.len() == 0 {
        Seq::empty()
    } else {
        js_escaped(s.drop_last()) + js_escape_char(s.last())
    }
}

/// The character that a backslash followed by `c` denotes in a JavaScript string literal,
/// for the escapes other than hexadecimal and Unicode ones: `n` a line feed, `r` a carriage
/// return, any other character itself.
pub open spec fn js_escape_target(c: char) -> char {
    if c == 'n' { '\n' } else if c == 'r' { '\r' } else { c }
}

/// What a single-quoted JavaScript literal with body `e` denotes, for bodies whose escapes
/// are single characters as above.
pub open spec fn js_unescaped(e: Seq<char>) -> Seq<char>
    decreases e.len(),
{
    if e.len() == 0 {
        Seq::empty()
    } else if e[0] == '\\' && e.len() >= 2 {
        seq![js_escape_target(e[1])] + js_unescaped(e.subrange(2, e.len() as int))
    } else {
        seq![e[0]] + js_unescaped(e.drop_first())
    }
}

/// `e` is a valid body of a single-quoted JavaScript literal: no unescaped single quote ends
/// it early, no raw line feed or carriage return breaks it, and no backslash is left without
/// the character it escapes.
pub open spec fn valid_literal_body(e: Seq<char>) -> bool
    decreases e.len(),
{
    if e.len() == 0 {
        true
    } else if e[0] == '\\' {
        e.len() >= 2 && valid_literal_body(e.subrange(2, e.len() as int))
    } else {
        e[0] != '\'' && e[0] != '\n' && e[0] != '\r' && valid_literal_body(e.drop_first())
    }
}

proof fn lemma_escaped_split(a: Seq<char>, b: Seq<char>)
    ensures
        js_escaped(a + b) == js_escaped(a) + js_escaped(b),
    decreases b.len(),
{
    if b.len() == 0 {
        assert(a + b =~= a);
        assert(js_escaped(a) + js_escaped(b) =~= js_escaped(a));
    } else {
        lemma_escaped_split(a, b.drop_last());
        assert((a + b).drop_last() =~= a + b.drop_last());
        assert((a + b).last() == b.last());
        assert(js_escaped(a) + js_escaped(b) =~= js_escaped(a) + js_escaped(b.drop_last()) + js_escape_char(b.last()));
    }
}

proof fn lemma_escaped_first(s: Seq<char>)
    requires
        s.len() > 0,
    ensures
        js_escaped(s) == js_escape_char(s[0]) + js_escaped(s.drop_first()),
{
    assert(s =~= seq![s[0]] + s.drop_first());
    lemma_escaped_split(seq![s[0]], s.drop_first());
    let one: Seq<char> = seq![s[0]];
    assert(one.drop_last() =~= Seq::<char>::empty());
    assert(one.last() == s[0]);
    assert(js_escaped(one) == js_escaped(one.drop_last()) + js_escape_char(s[0]));
    assert(js_escaped(one) =~= js_escape_char(s[0]));
}

/// The escaped string is a valid body of a single-quoted JavaScript literal, and the literal
/// denotes exactly the original string.
pub proof fn lemma_js_escape_roundtrip(s: Seq<char>)
    ensures
        js_unescaped(js_escaped(s)) == s,
        valid_literal_body(js_escaped(s)),
    decreases s.len(),
{
    if s.len() > 0 {
        lemma_escaped_first(s);
        lemma_js_escape_roundtrip(s.drop_first());
        let c: char = s[0];
        let rest: Seq<char> = js_escaped(s.drop_first());
        let e: Seq<char> = js_escaped(s);
        if c == '\\' || c == '\'' || c == '\n' || c == '\r' {
            let x: char = if c == '\\' { '\\' } else if c == '\'' { '\'' } else if c == '\n' { 'n' } else { 'r' };
            assert(js_escape_char(c) =~= seq!['\\', x]);
            assert(js_escape_target(x) == c);
            assert(e =~= seq!['\\', x] + rest);
            assert(e.subrange(2, e.len() as int) =~= rest);
        } else {
            assert(js_escape_char(c) =~= seq![c]);
            assert(e =~= seq![c] + rest);
            assert(e.drop_first() =~= rest);
        }
        assert(s =~= seq![c] + s.drop_first());
    }
}

fn push_js_escaped_char(out: &mut String, c: char)
    ensures
        final(out)@ == old(out)@ + js_escape_char(c),
{
    if c == '\\' || c == '\'' || c == '\n' || c == '\r' {
        let x: char = if c == '\n' { 'n' } else if c == '\r' { 'r' } else { c };
        push_char(out, '\\');
        push_char(out, x);
        assert(old(out)@.push('\\').push(x) =~= old(out)@ + js_escape_char(c));
    } else {
        push_char(out, c);
        assert(old(out)@.push(c) =~= old(out)@ + js_escape_char(c));
    }
}

/// Escapes a string for use as a single-quoted JavaScript string literal.
pub fn escape_js_string(s: &str) -> (res: String)
    ensures
        res@ == js_escaped(s@),
{
    let cs: Vec<char> = chars_of(s);
    let mut out: String = String::new();
    let mut i: usize = 0;
    while i < cs.len()
        invariant
            i <= cs@.len(),
            cs@ == s@,
            out@ == js_escaped(s@.take(i as int)),
        decreases cs@.len() - i,
    {
        assert(s@.take(i + 1).drop_last() =~= s@.take(i as int));
        push_js_escaped_char(&mut out, cs[i]);
        i = i + 1;
    }
    assert(s@.take(s@.len() as int) =~= s@);
    out
}

/// The statement `localStorage.setItem('<key>', '<value>');` for an already escaped value.
pub open spec fn set_item_js(key: Seq<char>, value: Seq<char>) -> Seq<char> {
    "localStorage.setItem('"@ + key + "', '"@ + value + "');"@
}

fn set_item_statement(key: &str, value: &str) -> (res: String)
    ensures
        res@ == set_item_js(key@, value@),
{
    let mut s: String = String::new();
    push_str(&mut s, "localStorage.setItem('");
    push_str(&mut s, key);
    push_str(&mut s, "', '");
    push_str(&mut s, value);
    push_str(&mut s, "');");
    s
}

/// The `localStorage.setItem` statement that stores a boolean flag as `true` or `false`.
pub fn save_bool_setting(key: &str, value: bool) -> (res: String)
    ensures
        res@ == set_item_js(key@, if value { "true"@ } else { "false"@ }),
{
    set_item_statement(key, if value { "true" } else { "false" })
}

/// The `localStorage.setItem` statement that stores a pre-serialized JSON string.
pub fn save_json_setting(key: &str, json: &str) -> (res: String)
    ensures
        res@ == set_item_js(key@, js_escaped(json@)),
{
    let escaped: String = escape_js_string(json);
    set_item_statement(key, escaped.as_str())
}

/// The `localStorage.setItem` statement that stores a plain string value.
pub fn save_string_setting(key: &str, value: &str) -> (res: String)
    ensures
        res@ == set_item_js(key@, js_escaped(value@)),
{
    let escaped: String = escape_js_string(value);
    set_item_statement(key, escaped.as_str())
}

/// The statement that persists the live-map tile server URL.
pub fn save_live_tile_url(url: &str) -> (res: String)
    ensures
        res@ == set_item_js(LIVE_TILE_KEY@, js_escaped(url@)),
{
    save_string_setting(LIVE_TILE_KEY, url)
}

/// The statement that persists the serialized replay configuration.
pub fn save_replay_config(json: &str) -> (res: String)
    ensures
        res@ == set_item_js(REPLAY_CONFIG_KEY@, js_escaped(json@)),
{
    save_json_setting(REPLAY_CONFIG_KEY, json)
}

/// The statement that persists the serialized tracking-warning configuration.
pub fn save_tracking_warning_config(json: &str) -> (res: String)
    ensures
        res@ == set_item_js(TRACKING_WARNING_KEY@, js_escaped(json@)),
{
    save_json_setting(TRACKING_WARNING_KEY, json)
}

/// The statement that persists the serialized node configuration.
pub fn save_node_config(json: &str) -> (res: String)
    ensures
        res@ == set_item_js(NODE_CONFIG_KEY@, js_escaped(json@)),
{
    save_json_setting(NODE_CONFIG_KEY, json)
}

/// The statement that persists the selected country code.
pub fn save_country_code(code: &str) -> (res: String)
    ensures
        res@ == set_item_js(COUNTRY_KEY@, js_escaped(code@)),
{
    save_string_setting(COUNTRY_KEY, code)
}

/// The statement that persists the TTS enabled flag.
pub fn save_tts_enabled(enabled: bool) -> (res: String)
    ensures
        res@ == set_item_js(TTS_ENABLED_KEY@, if enabled { "true"@ } else { "false"@ }),
{
    save_bool_setting(TTS_ENABLED_KEY, enabled)
}

/// The statement that persists the TTS language tag.
pub fn save_tts_language(lang: &str) -> (res: String)
    ensures
        res@ == set_item_js(TTS_LANGUAGE_KEY@, js_escaped(lang@)),
{
    save_string_setting(TTS_LANGUAGE_KEY, lang)
}

/// The statement that persists the timestamp display format flag.
pub fn save_ts_unix_format(enabled: bool) -> (res: String)
    ensures
        res@ == set_item_js(TS_UNIX_FORMAT_KEY@, if enabled { "true"@ } else { "false"@ }),
{
    save_bool_setting(TS_UNIX_FORMAT_KEY, enabled)
}

/// The statement that persists the timestamp source flag.
pub fn save_ts_use_gnw(enabled: bool) -> (res: String)
    ensures
        res@ == set_item_js(TS_USE_GNW_KEY@, if enabled { "true"@ } else { "false"@ }),
{
    save_bool_setting(TS_USE_GNW_KEY, enabled)
}

/// The statement that sends the stored value of `key` (or the empty string) back to the app.
pub open spec fn get_item_js(key: Seq<char>) -> Seq<char> {
    "dioxus.send(localStorage.getItem('"@ + key + "') || '')"@
}

/// The statement that reads a persisted setting.
pub fn load_setting_js(key: &str) -> (res: String)
    ensures
        res@ == get_item_js(key@),
{
    let mut s: String = String::new();
    push_str(&mut s, "dioxus.send(localStorage.getItem('");
    push_str(&mut s, key);
    push_str(&mut s, "') || '')");
    s
}

/// Whether two strings are equal.
pub fn str_eq(a: &str, b: &str) -> (res: bool)
    ensures
        res == (a@ == b@),
{
    let x: String = a.to_owned();
    let y: String = b.to_owned();
    x == y
}

/// A persisted flag as read back: stored `true` turns it on, anything else leaves `current`.
pub fn stored_flag(stored: &str, current: bool) -> (res: bool)
    ensures
        res == stored_flag_value(stored@, current),
{
    if str_eq(stored, "true") { true } else { current }
}

/// A persisted string as read back: `None` when nothing was stored.
pub fn stored_string(stored: &str) -> (res: Option<String>)
    ensures
        stored@.len() == 0 ==> res is None,
        stored@.len() > 0 ==> (res matches Some(v) && v@ == stored@),
{
    if stored.is_empty() { None } else { Some(stored.to_owned()) }
}

/// `s` without trailing slashes (`trim_end_matches('/')`).
pub open spec fn without_trailing_slashes(s: Seq<char>) -> Seq<char>
    decreases s.len(),
{
    if s.len() > 0 && s.last() == '/' { without_trailing_slashes(s.drop_last()) } else { s }
}

/// Removes all trailing slashes from a URL.
pub fn trim_trailing_slashes(s: &str) -> (res: String)
    ensures
        res@ == without_trailing_slashes(s@),
{
    let cs: Vec<char> = chars_of(s);
    let mut n: usize = cs.len();
    assert(s@.take(n as int) =~= s@);
    while n > 0 && cs[n - 1] == '/'
        invariant
            n <= cs@.len(),
            cs@ == s@,
            without_trailing_slashes(s@.take(n as int)) == without_trailing_slashes(s@),
        decreases n,
    {
        assert(s@.take(n as int).drop_last() =~= s@.take(n - 1));
        n = n - 1;
    }
    let mut out: String = String::new();
    let mut i: usize = 0;
    while i < n
        invariant
            n <= cs@.len(),
            cs@ == s@,
            i <= n,
            out@ == s@.take(i as int),
        decreases n - i,
    {
        push_char(&mut out, cs[i]);
        assert(s@.take(i + 1) =~= s@.take(i as int).push(s@[i as int]));
        i = i + 1;
    }
    assert(s@.take(n as int) =~= without_trailing_slashes(s@.take(n as int)));
    out
}

/// The URL names a path: there is a `/` after its host:port part, which starts after the
/// first `://` when the URL has a scheme and at the beginning otherwise.
pub open spec fn url_has_path(s: Seq<char>) -> bool {
    ||| exists|i: int| {
        &&& #[trigger] occurs_at(s, "://"@, i)
        &&& (forall|j: int| 0 <= j < i ==> !occurs_at(s, "://"@, j))
        &&& s.subrange(i + 3, s.len() as int).contains('/')
    }
    ||| (forall|i: int| !#[trigger] occurs_at(s, "://"@, i)) && s.contains('/')
}

/// The MapLibre style URL of a tileserver base URL (trailing slashes removed): the URL itself
/// when it names a path, else the URL of the server's basic-preview style.
pub open spec fn style_url_of(base: Seq<char>) -> Seq<char> {
    let b: Seq<char> = without_trailing_slashes(base);
    if url_has_path(b) { b } else { b + "/styles/basic-preview/style.json"@ }
}

/// Builds the MapLibre style URL from a tileserver base URL.
pub fn style_url(base: &str) -> (res: String)
    ensures
        res@ == style_url_of(base@),
{
    let trimmed: String = trim_trailing_slashes(base);
    let cs: Vec<char> = chars_of(trimmed.as_str());
    let ghost b = cs@;
    proof { reveal_strlit("://"); }
    // first occurrence of "://"
    let n: usize = cs.len();
    let mut i: usize = 0;
    let mut found: bool = false;
    while !found && i < n && n - i >= 3
        invariant
            cs@ == b,
            n == b.len(),
            i <= n,
            "://"@ == seq![':', '/', '/'],
            found ==> occurs_at(b, "://"@, i as int),
            forall|j: int| 0 <= j < i ==> !occurs_at(b, "://"@, j),
        decreases n - i + (if found { 0int } else { 1int }),
    {
        if cs[i] == ':' && cs[i + 1] == '/' && cs[i + 2] == '/' {
            assert(b.subrange(i as int, i + 3) =~= "://"@);
            found = true;
        } else {
            assert(!occurs_at(b, "://"@, i as int)) by {
                if occurs_at(b, "://"@, i as int) {
                    assert(b.subrange(i as int, i + 3)[0] == b[i as int]);
                    assert(b.subrange(i as int, i + 3)[1] == b[i + 1]);
                    assert(b.subrange(i as int, i + 3)[2] == b[i + 2]);
                }
            }
            i = i + 1;
        }
    }
    let mut has_path: bool = false;
    assert("://"@ == seq![':', '/', '/']);
    proof {
        if !found {
            assert forall|x: int| !#[trigger] occurs_at(b, "://"@, x) by {
                if occurs_at(b, "://"@, x) && x >= i {
                    assert(x + 3 <= b.len());
                }
            }
        }
    }
    let start: usize = if found { i + 3 } else { 0 };
    let mut j: usize = start;
    while !has_path && j < n
        invariant
            cs@ == b,
            n == b.len(),
            start <= j <= n,
            has_path ==> j < n && b[j as int] == '/',
            forall|m: int| start <= m < j ==> b[m] != '/',
        decreases n - j + (if has_path { 0int } else { 1int }),
    {
        if cs[j] == '/' {
            has_path = true;
        } else {
            j = j + 1;
        }
    }
    proof {
        let rest: Seq<char> = b.subrange(start as int, b.len() as int);
        if has_path {
            assert(rest[j - start] == '/');
            assert(rest.contains('/'));
        } else {
            assert(!rest.contains('/'));
        }
        if found {
            assert(occurs_at(b, "://"@, i as int));
            if !has_path {
                assert forall|x: int| #[trigger] occurs_at(b, "://"@, x)
                    && (forall|y: int| 0 <= y < x ==> !occurs_at(b, "://"@, y))
                    implies !b.subrange(x + 3, b.len() as int).contains('/') by {
                    if x > i {
                        assert(!occurs_at(b, "://"@, i as int));
                    }
                }
            }
        } else {
            assert(rest =~= b);
        }
    }
    if has_path {
        trimmed
    } else {
        let mut out: String = trimmed;
        push_str(&mut out, "/styles/basic-preview/style.json");
        out
    }
}

} // verus!

verus! {

/// Foreign-vehicle timeout field: milliseconds, 1000 when unparsable, at least 100.
pub fn foreign_timeout_input(s: &str) -> (res: u64)
    ensures
        res == if parsed_or(s@, u64::MAX as nat, 1000) < 100 { 100 } else { parsed_or(s@, u64::MAX as nat, 1000) },
{
    let v: u64 = parse_trimmed_or(s, u64::MAX, 1000);
    if v < 100 { 100 } else { v }
}

/// Node API port field: 8080 when unparsable, at least 1024.
pub fn api_port_input(s: &str) -> (res: u16)
    ensures
        res == if parsed_or(s@, u16::MAX as nat, 8080) < 1024 { 1024 } else { parsed_or(s@, u16::MAX as nat, 8080) },
{
    let v: u64 = parse_trimmed_or(s, u16::MAX as u64, 8080);
    if v < 1024 { 1024 } else { v as u16 }
}

/// Minimum-visibility field of the tracking warning: minutes, 5 when unparsable, at least 1.
pub fn min_visible_minutes_input(s: &str) -> (res: u32)
    ensures
        res == if parsed_or(s@, u32::MAX as nat, 5) < 1 { 1 } else { parsed_or(s@, u32::MAX as nat, 5) },
{
    let v: u64 = parse_trimmed_or(s, u32::MAX as u64, 5);
    if v < 1 { 1 } else { v as u32 }
}

/// Gap-tolerance field of the tracking warning: seconds, 30 when unparsable.
pub fn gap_tolerance_secs_input(s: &str) -> (res: u32)
    ensures
        res == parsed_or(s@, u32::MAX as nat, 30),
{
    parse_trimmed_or(s, u32::MAX as u64, 30) as u32
}

/// Delay field in milliseconds: `default` when unparsable.
pub fn delay_input(s: &str, default: u64) -> (res: u64)
    ensures
        res == parsed_or(s@, u64::MAX as nat, default as nat),
{
    parse_trimmed_or(s, u64::MAX, default)
}

/// Lowest and highest TX power (dBm) the radio accepts.
pub const TX_POWER_MIN_DBM: u8 = 1;
/// Highest TX power (dBm) the radio accepts.
pub const TX_POWER_MAX_DBM: u8 = 27;
/// TX power (dBm) a custom setting starts from.
pub const TX_POWER_DEFAULT_DBM: u8 = 20;

/// TX power field: dBm, 20 when unparsable, clamped to 1..=27.
pub fn tx_power_input(s: &str) -> (res: u8)
    ensures
        ({
            let v: nat = parsed_or(s@, u8::MAX as nat, TX_POWER_DEFAULT_DBM as nat);
            res == if v < TX_POWER_MIN_DBM { TX_POWER_MIN_DBM as nat } else if v > TX_POWER_MAX_DBM { TX_POWER_MAX_DBM as nat } else { v }
        }),
{
    let v: u64 = parse_trimmed_or(s, u8::MAX as u64, TX_POWER_DEFAULT_DBM as u64);
    if v < TX_POWER_MIN_DBM as u64 { TX_POWER_MIN_DBM } else if v > TX_POWER_MAX_DBM as u64 { TX_POWER_MAX_DBM } else { v as u8 }
}

/// The custom-TX-power switch: turning it on starts from the default power.
pub fn toggle_tx_power(cur: Option<u8>) -> (res: Option<u8>)
    ensures
        cur is Some ==> res is None,
        cur is None ==> res == Some(TX_POWER_DEFAULT_DBM),
{
    if cur.is_some() { None } else { Some(TX_POWER_DEFAULT_DBM) }
}

/// The replay vehicle filter chosen in the select box: `all` means none, otherwise the
/// vehicle ID the value parses to (none when it does not parse).
pub fn replay_vehicle_choice(value: &str) -> (res: Option<u32>)
    ensures
        value@ == "all"@ ==> res is None,
        value@ != "all"@ ==> (match parse_unsigned(value@, u32::MAX as nat) {
            Some(v) => res == Some(v as u32),
            None => res is None,
        }),
{
    if str_eq(value, "all") {
        None
    } else {
        match parse_unsigned_str(value, u32::MAX as u64) {
            Some(v) => Some(v as u32),
            None => None,
        }
    }
}

/// The select-box value of a replay vehicle filter.
pub fn replay_vehicle_value(filter: Option<u32>) -> (res: String)
    ensures
        filter is None ==> res@ == "all"@,
        filter matches Some(id) ==> res@ == dec(id as nat),
{
    match filter {
        None => "all".to_owned(),
        Some(id) => {
            let r: String = prefixed_number("", id as u64);
            proof {
                reveal_strlit("");
                assert(""@ + dec(id as nat) =~= dec(id as nat));
            }
            r
        },
    }
}

/// The message types of a replay, as the summary names them.
pub open spec fn protocols_text(ps: Seq<ReplayProtocol>) -> Seq<char>
    decreases ps.len(),
{
    if ps.len() == 0 {
        Seq::empty()
    } else if ps.len() == 1 {
        protocol_name(ps[0])
    } else {
        protocols_text(ps.drop_last()) + ", "@ + protocol_name(ps.last())
    }
}

/// Which message types are replayed: `all protocols` when none is selected, else their names
/// joined by `, `.
pub fn protocol_description(protocols: &Vec<ReplayProtocol>) -> (res: String)
    ensures
        protocols@.len() == 0 ==> res@ == "all protocols"@,
        protocols@.len() > 0 ==> res@ == protocols_text(protocols@),
{
    if protocols.len() == 0 {
        return "all protocols".to_owned();
    }
    let mut s: String = String::new();
    push_str(&mut s, protocols[0].label());
    let mut i: usize = 1;
    assert(protocols@.take(1).len() == 1);
    while i < protocols.len()
        invariant
            1 <= i <= protocols@.len(),
            s@ == protocols_text(protocols@.take(i as int)),
        decreases protocols@.len() - i,
    {
        assert(protocols@.take(i + 1).drop_last() =~= protocols@.take(i as int));
        push_str(&mut s, ", ");
        push_str(&mut s, protocols[i].label());
        i = i + 1;
    }
    assert(protocols@.take(protocols@.len() as int) =~= protocols@);
    s
}

/// Which vehicle a replay is restricted to: `all vehicles` or `vehicle <id>`.
pub fn vehicle_description(filter: Option<u32>) -> (res: String)
    ensures
        filter is None ==> res@ == "all vehicles"@,
        filter matches Some(id) ==> res@ == "vehicle "@ + dec(id as nat),
{
    match filter {
        None => "all vehicles".to_owned(),
        Some(id) => prefixed_number("vehicle ", id as u64),
    }
}

/// CSS class of a toggle switch's track.
pub fn toggle_track_class(on: bool) -> (res: &'static str)
    ensures
        res@ == if on { "toggle-track on"@ } else { "toggle-track off"@ },
{
    if on { "toggle-track on" } else { "toggle-track off" }
}

/// CSS class of a toggle switch's thumb.
pub fn toggle_thumb_class(on: bool) -> (res: &'static str)
    ensures
        res@ == if on { "toggle-thumb on"@ } else { "toggle-thumb off"@ },
{
    if on { "toggle-thumb on" } else { "toggle-thumb off" }
}

/// State label of a configuration toggle row.
pub fn toggle_state_label(enabled: bool) -> (res: &'static str)
    ensures
        res@ == if enabled { "Active"@ } else { "Inactive"@ },
{
    if enabled { "Active" } else { "Inactive" }
}

} // verus!

verus! {

/// `s` with every occurrence of the character `c` preceded by a backslash (`replace(c, "\\c")`).
pub open spec fn backslashed(s: Seq<char>, c: char) -> Seq<char>
    decreases s.len(),
{
    if s.len() == 0 {
        Seq::empty()
    } else {
        backslashed(s.drop_last(), c) + if s.last() == c { seq!['\\', c] } else { seq![s.last()] }
    }
}

/// Puts a backslash before every occurrence of `c` (`s.replace(c, "\\c")`), as the map
/// scripts do for quotes inside string literals.
pub fn backslash_before(s: &str, c: char) -> (res: String)
    ensures
        res@ == backslashed(s@, c),
{
    let cs: Vec<char> = chars_of(s);
    let mut out: String = String::new();
    let mut i: usize = 0;
    while i < cs.len()
        invariant
            i <= cs@.len(),
            cs@ == s@,
            out@ == backslashed(s@.take(i as int), c),
        decreases cs@.len() - i,
    {
        assert(s@.take(i + 1).drop_last() =~= s@.take(i as int));
        let ghost prev = out@;
        if cs[i] == c {
            push_char(&mut out, '\\');
            push_char(&mut out, c);
            assert(out@ =~= prev + seq!['\\', c]);
        } else {
            push_char(&mut out, cs[i]);
            assert(out@ =~= prev + seq![cs@[i as int]]);
        }
        i = i + 1;
    }
    assert(s@.take(s@.len() as int) =~= s@);
    out
}

} // verus!

verus! {

/// What a stored flag reads back as: stored `true` turns it on, anything else keeps `current`.
pub open spec fn stored_flag_value(stored: Seq<char>, current: bool) -> bool {
    stored == "true"@ || current
}

/// A flag saved with `save_bool_setting` reads back as the saved value when loading starts
/// from the default (off).
pub proof fn lemma_flag_roundtrip(v: bool)
    ensures
        stored_flag_value(if v { "true"@ } else { "false"@ }, false) == v,
{
    reveal_strlit("true");
    reveal_strlit("false");
    if !v {
        assert("false"@[0] != "true"@[0]);
    }
}

} // verus!
