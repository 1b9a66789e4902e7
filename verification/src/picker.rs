use vstd::prelude::*;
use crate::lexical::{ascending, sort_strings};
use crate::text::push_str;

verus! {

/// Directory of the locally stored recordings.
pub const LOCAL_CAPTURE_DIR: &'static str = "./captures";

/// Name prefix of recording archives.
pub const ARCHIVE_FILE_PREFIX: &'static str = "archive_";

/// Where the data-source dialog stands.
#[derive(Clone, Debug)]
pub enum PickerState {
    SelectSource,
    NodeList { files: Vec<String> },
    ClientList { files: Vec<String> },
    Loading(String),
    Error(String),
}

/// `name` starts with the archive prefix.
pub open spec fn is_archive_name(name: Seq<char>) -> bool {
    name.len() >= ARCHIVE_FILE_PREFIX@.len() && name.take(ARCHIVE_FILE_PREFIX@.len() as int) == ARCHIVE_FILE_PREFIX@
}

/// Whether a file name starts with the archive prefix (`starts_with`).
pub fn is_archive(name: &String) -> (res: bool)
    ensures
        res == is_archive_name(name@),
{
    let cs: Vec<char> = crate::text::chars_of(name.as_str());
    let pre: Vec<char> = crate::text::chars_of(ARCHIVE_FILE_PREFIX);
    if cs.len() < pre.len() {
        return false;
    }
    let mut i: usize = 0;
    while i < pre.len()
        invariant
            cs@ == name@,
            pre@ == ARCHIVE_FILE_PREFIX@,
            pre@.len() <= cs@.len(),
            i <= pre@.len(),
            forall|k: int| 0 <= k < i ==> cs@[k] == pre@[k],
        decreases pre@.len() - i,
    {
        if cs[i] != pre[i] {
            assert(name@.take(pre@.len() as int)[i as int] != ARCHIVE_FILE_PREFIX@[i as int]);
            return false;
        }
        i = i + 1;
    }
    assert(name@.take(pre@.len() as int) =~= ARCHIVE_FILE_PREFIX@);
    true
}

/// The recordings of the local capture directory, given the names of its entries: the names
/// with the archive prefix, in ascending order.
pub fn local_archives(entries: &Vec<String>) -> (res: Vec<String>)
    ensures
        ascending(res.deep_view()),
        res.deep_view().to_multiset() == entries.deep_view().filter(|n: Seq<char>| is_archive_name(n)).to_multiset(),
{
    let ghost keep = |n: Seq<char>| is_archive_name(n);
    let mut kept: Vec<String> = Vec::new();
    let mut i: usize = 0;
    while i < entries.len()
        invariant
            i <= entries@.len(),
            keep == (|n: Seq<char>| is_archive_name(n)),
            kept.deep_view() == entries.deep_view().take(i as int).filter(keep),
        decreases entries@.len() - i,
    {
        assert(entries.deep_view().take(i + 1).drop_last() =~= entries.deep_view().take(i as int));
        reveal_with_fuel(Seq::filter, 1);
        if is_archive(&entries[i]) {
            kept.push(entries[i].clone());
            assert(kept.deep_view() =~= entries.deep_view().take(i as int).filter(keep).push(entries@[i as int]@));
        }
        i = i + 1;
    }
    assert(entries.deep_view().take(entries@.len() as int) =~= entries.deep_view());
    sort_strings(&kept)
}

/// Message while a recording loads: `Loading <name>…`.
pub fn loading_message(name: &str) -> (res: String)
    ensures
        res@ == "Loading "@ + name@ + "…"@,
{
    let mut s: String = String::new();
    push_str(&mut s, "Loading ");
    push_str(&mut s, name);
    push_str(&mut s, "…");
    s
}

/// Message while the node's recordings are listed.
pub fn fetching_message() -> (res: String)
    ensures
        res@ == "Fetching file list from node…"@,
{
    "Fetching file list from node…".to_owned()
}

/// The dialog after the node answered the list request: its recordings, or the error.
pub fn after_node_list(result: Result<Vec<String>, String>) -> (res: PickerState)
    ensures
        result matches Ok(files) ==> res matches PickerState::NodeList { files: f } && f@ == files@,
        result matches Err(e) ==> res matches PickerState::Error(m) && m@ == e@,
{
    match result {
        Ok(files) => PickerState::NodeList { files },
        Err(e) => PickerState::Error(e),
    }
}

/// Heading of a recording list.
pub fn list_heading(is_node: bool) -> (res: &'static str)
    ensures
        res@ == if is_node { "Recordings stored on the node:"@ } else { "Locally stored recordings:"@ },
{
    if is_node { "Recordings stored on the node:" } else { "Locally stored recordings:" }
}

} // verus!
