use vstd::prelude::*;

verus! {

/// Number of samples each system-information chart keeps.
pub const HISTORY_LEN: usize = 240;

/// Appends a sample to a fixed-length history: the oldest sample drops out.
pub fn push_history<T: Copy>(history: &mut Vec<T>, sample: T)
    requires
        old(history)@.len() > 0,
    ensures
        final(history)@ == old(history)@.drop_first().push(sample),
        final(history)@.len() == old(history)@.len(),
{
    history.remove(0);
    history.push(sample);
}

/// A new connection was made since the previous poll (a rising edge of the connected state).
pub fn connection_rising(was_connected: bool, now_connected: bool) -> (res: bool)
    ensures
        res == (now_connected && !was_connected),
{
    now_connected && !was_connected
}

/// The TTS voice language: none (the system default) for an empty tag.
pub fn tts_language(lang: &String) -> (res: Option<String>)
    ensures
        lang@.len() == 0 ==> res is None,
        lang@.len() > 0 ==> (res matches Some(l) && l@ == lang@),
{
    if lang.as_str().is_empty() { None } else { Some(lang.clone()) }
}

/// One pass of the speech drain: the queue is always emptied, and its texts are returned for
/// speaking (in queue order) only while speech output is enabled.
pub fn drain_speech_queue(queue: &mut Vec<String>, enabled: bool) -> (to_speak: Vec<String>)
    ensures
        final(queue)@.len() == 0,
        enabled ==> to_speak.deep_view() == old(queue).deep_view(),
        !enabled ==> to_speak@.len() == 0,
{
    let mut pending: Vec<String> = Vec::new();
    core::mem::swap(&mut pending, queue);
    if enabled { pending } else { Vec::new() }
}

/// CSS class of the navigation sidebar.
pub fn sidebar_class(open: bool) -> (res: &'static str)
    ensures
        res@ == if open { "sidebar open"@ } else { "sidebar"@ },
{
    if open { "sidebar open" } else { "sidebar" }
}

} // verus!

verus! {

/// A node found by a Bluetooth scan.
#[derive(Clone, Debug)]
pub struct Device {
    pub id: String,
    pub name: String,
}

/// Connection to a node as the pages see it.
#[derive(Clone, Debug)]
pub enum ConnectionState {
    Disconnected,
    Scanning,
    DevicesFound(Vec<Device>),
    Connecting(String),
    ConnectedBT(String),
    ConnectedIP(String),
}

/// Connected over Bluetooth or IP.
pub open spec fn connected(s: ConnectionState) -> bool {
    s is ConnectedBT || s is ConnectedIP
}

/// Whether a node is connected.
pub fn is_connected(s: &ConnectionState) -> (res: bool)
    ensures
        res == connected(*s),
{
    matches!(s, ConnectionState::ConnectedBT(_) | ConnectionState::ConnectedIP(_))
}

/// Whether the node is connected over Bluetooth (the injection page then works from the node's
/// packet counts instead of a local preview).
pub fn is_ble(s: &ConnectionState) -> (res: bool)
    ensures
        res == (s is ConnectedBT),
{
    matches!(s, ConnectionState::ConnectedBT(_))
}

/// Status line of the home page while connecting or connected; none in the other states.
pub fn connection_status_text(s: &ConnectionState) -> (res: Option<String>)
    ensures
        match *s {
            ConnectionState::Connecting(info) => res matches Some(t) && t@ == "Connecting to "@ + info@ + "..."@,
            ConnectionState::ConnectedBT(info) => res matches Some(t) && t@ == "Connected to "@ + info@,
            ConnectionState::ConnectedIP(info) => res matches Some(t) && t@ == "Connected to "@ + info@,
            _ => res is None,
        },
{
    match s {
        ConnectionState::Connecting(info) => {
            let mut t: String = String::new();
            crate::text::push_str(&mut t, "Connecting to ");
            crate::text::push_str(&mut t, info.as_str());
            crate::text::push_str(&mut t, "...");
            Some(t)
        },
        ConnectionState::ConnectedBT(info) | ConnectionState::ConnectedIP(info) => {
            let mut t: String = String::new();
            crate::text::push_str(&mut t, "Connected to ");
            crate::text::push_str(&mut t, info.as_str());
            Some(t)
        },
        _ => None,
    }
}

/// The IP connect button is enabled once a hostname was typed.
pub fn ip_connect_enabled(hostname: &String) -> (res: bool)
    ensures
        res == (hostname@.len() > 0),
{
    !hostname.as_str().is_empty()
}

} // verus!
