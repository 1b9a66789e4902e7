use vstd::prelude::*;

verus! {

/// Name for what `base64::engine::general_purpose::STANDARD.decode` returns for a text: the
/// bytes it encodes in the standard alphabet with padding, or nothing when it is not such a
/// text.
pub uninterp spec fn base64_standard_decode(text: Seq<char>) -> Option<Seq<u8>>;

/// Decodes standard, padded base64 (`base64::engine::general_purpose::STANDARD.decode`);
/// `None` when the crate reports a decode error.
#[verifier::external_body]
fn base64_decode(text: &str) -> (res: Option<Vec<u8>>)
    ensures
        match res {
            Some(v) => base64_standard_decode(text@) == Some(v@),
            None => base64_standard_decode(text@) is None,
        },
{
    base64::Engine::decode(&base64::engine::general_purpose::STANDARD, text).ok()
}

/// A file chosen for upload: its name and contents.
#[derive(Clone, Debug)]
pub struct PendingFile {
    pub name: String,
    pub data: Vec<u8>,
}

/// The upload side of the file-transfer page.
#[derive(Clone, Debug)]
pub struct UploadState {
    /// A file is dragged over the drop zone.
    pub drag_active: bool,
    /// The file waiting to be uploaded.
    pub pending: Option<PendingFile>,
    /// Why the last upload failed.
    pub error: Option<String>,
    /// The last upload succeeded.
    pub ok: bool,
    /// An upload is under way.
    pub busy: bool,
}

/// What the drop zone reports.
#[derive(Clone, Debug)]
pub enum DropEvent {
    DragEnter,
    DragLeave,
    /// A dropped file: its name and its contents in base64, as far as the message carried them.
    Drop { name: Option<String>, data: Option<String> },
    /// Any other message.
    Other,
}

/// The page before anything happened.
pub fn initial_upload_state() -> (res: UploadState)
    ensures
        !res.drag_active,
        res.pending is None,
        res.error is None,
        !res.ok,
        !res.busy,
{
    UploadState { drag_active: false, pending: None, error: None, ok: false, busy: false }
}

/// A file was chosen (picked or dropped and decoded): it becomes the pending file and the
/// outcome of the previous upload is cleared.
pub fn choose_file(state: UploadState, name: String, data: Vec<u8>) -> (res: UploadState)
    ensures
        res.drag_active == state.drag_active,
        res.pending matches Some(p) && p.name@ == name@ && p.data@ == data@,
        res.error is None,
        !res.ok,
        res.busy == state.busy,
{
    UploadState { drag_active: state.drag_active, pending: Some(PendingFile { name, data }), error: None, ok: false, busy: state.busy }
}

/// A dropped file once its contents were decoded: the drag highlight ends; with both a name and
/// decoded contents the file is chosen, otherwise nothing else changes.
pub fn apply_drop(state: UploadState, name: Option<String>, decoded: Option<Vec<u8>>) -> (res: UploadState)
    ensures
        !res.drag_active,
        res.busy == state.busy,
        match (name, decoded) {
            (Some(n), Some(d)) => {
                &&& res.pending matches Some(p) && p.name@ == n@ && p.data@ == d@
                &&& res.error is None
                &&& !res.ok
            },
            _ => {
                &&& res.pending == state.pending
                &&& res.error == state.error
                &&& res.ok == state.ok
            },
        },
{
    let cleared: UploadState = UploadState { drag_active: false, ..state };
    match (name, decoded) {
        (Some(n), Some(d)) => choose_file(cleared, n, d),
        _ => cleared,
    }
}

/// The drop zone's reaction to a message: `dragenter` highlights it, `dragleave` ends the
/// highlight, a drop ends it and chooses the file when the message carries a name and valid
/// base64 contents; other messages change nothing.
pub fn drop_zone_step(state: UploadState, event: DropEvent) -> (res: UploadState)
    ensures
        match event {
            DropEvent::DragEnter => res == UploadState { drag_active: true, ..state },
            DropEvent::DragLeave => res == UploadState { drag_active: false, ..state },
            DropEvent::Drop { name, data } => {
                let decoded: Option<Seq<u8>> = match data {
                    Some(t) => base64_standard_decode(t@),
                    None => None,
                };
                &&& !res.drag_active
                &&& res.busy == state.busy
                &&& match (name, decoded) {
                    (Some(n), Some(d)) => {
                        &&& res.pending matches Some(p) && p.name@ == n@ && p.data@ == d
                        &&& res.error is None
                        &&& !res.ok
                    },
                    _ => {
                        &&& res.pending == state.pending
                        &&& res.error == state.error
                        &&& res.ok == state.ok
                    },
                }
            },
            DropEvent::Other => res == state,
        },
{
    match event {
        DropEvent::DragEnter => UploadState { drag_active: true, ..state },
        DropEvent::DragLeave => UploadState { drag_active: false, ..state },
        DropEvent::Drop { name, data } => {
            let decoded: Option<Vec<u8>> = match data {
                Some(t) => base64_decode(t.as_str()),
                None => None,
            };
            apply_drop(state, name, decoded)
        },
        DropEvent::Other => state,
    }
}

/// Clearing the chosen file.
pub fn clear_pending(state: UploadState) -> (res: UploadState)
    ensures
        res == (UploadState { pending: None, ok: false, error: None, ..state }),
{
    UploadState { pending: None, ok: false, error: None, ..state }
}

/// Starting an upload: possible only with a pending file; marks the page busy and clears the
/// previous outcome.
pub fn start_upload(state: UploadState) -> (res: Option<UploadState>)
    ensures
        state.pending is None ==> res is None,
        state.pending is Some ==> res == Some(UploadState { busy: true, error: None, ok: false, ..state }),
{
    if state.pending.is_none() {
        return None;
    }
    Some(UploadState { busy: true, error: None, ok: false, ..state })
}

/// The outcome of an upload: success clears the pending file, a failure keeps it and shows
/// the node's message; either way the page is no longer busy.
pub fn finish_upload(state: UploadState, outcome: Result<(), String>) -> (res: UploadState)
    ensures
        !res.busy,
        res.drag_active == state.drag_active,
        outcome is Ok ==> res.ok && res.pending is None && res.error is None,
        outcome matches Err(e) ==> !res.ok && res.pending == state.pending && res.error == Some(e),
{
    match outcome {
        Ok(()) => UploadState { ok: true, pending: None, error: None, busy: false, ..state },
        Err(e) => UploadState { ok: false, error: Some(e), busy: false, ..state },
    }
}

/// CSS class of the drop zone.
pub fn dropzone_class(drag_active: bool) -> (res: &'static str)
    ensures
        res@ == if drag_active { "ft-dropzone ft-dropzone-active"@ } else { "ft-dropzone"@ },
{
    if drag_active { "ft-dropzone ft-dropzone-active" } else { "ft-dropzone" }
}

/// Placeholder of the empty archive list on the file-transfer page.
pub fn transfer_placeholder(connected: bool) -> (res: &'static str)
    ensures
        res@ == if connected { "No archives found on connected node"@ } else { "No archives — connect to a node"@ },
{
    if connected { "No archives found on connected node" } else { "No archives — connect to a node" }
}

} // verus!
