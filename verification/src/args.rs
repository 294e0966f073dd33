//! Plain records for a parsed command line.
//!
//! The caller parses its command line however it likes and hands the result
//! over as these plain values; nothing here reads the environment.

use vstd::prelude::*;
use crate::errors::{Error, ErrorKind};
use crate::note::{Profile, Status};

verus! {

/// The tool's name and version.
pub fn version() -> (r: String)
    ensures
        r@ == "theca 0.1.0"@,
{
    "theca 0.1.0".to_owned()
}

/// Every option and argument a single invocation can carry.
#[derive(Clone)]
pub struct Args {
    pub cmd_add: bool,
    pub cmd_clear: bool,
    pub cmd_del: bool,
    pub cmd_decrypt_profile: bool,
    pub cmd_edit: bool,
    pub cmd_encrypt_profile: bool,
    pub cmd_import: bool,
    pub cmd_info: bool,
    pub cmd_list_profiles: bool,
    pub cmd_new_profile: bool,
    pub cmd_search: bool,
    pub cmd_transfer: bool,
    pub cmd__: bool,
    pub arg_id: Vec<usize>,
    pub arg_name: Vec<String>,
    pub arg_pattern: String,
    pub arg_title: String,
    pub flag_body: Vec<String>,
    pub flag_condensed: bool,
    pub flag_datesort: bool,
    pub flag_editor: bool,
    pub flag_encrypted: bool,
    pub flag_json: bool,
    pub flag_key: String,
    pub flag_limit: usize,
    pub flag_new_key: String,
    pub flag_none: bool,
    pub flag_profile: String,
    pub flag_profile_folder: String,
    pub flag_regex: bool,
    pub flag_reverse: bool,
    pub flag_search_body: bool,
    pub flag_started: bool,
    pub flag_urgent: bool,
    pub flag_version: bool,
    pub flag_yes: bool,
}

/// The boolean switches most operations care about, gathered in one place.
#[derive(Clone, Copy)]
pub struct BoolFlags {
    pub condensed: bool,
    pub datesort: bool,
    pub editor: bool,
    pub encrypted: bool,
    pub json: bool,
    pub regex: bool,
    pub reverse: bool,
    pub search_body: bool,
    pub yes: bool,
}

impl BoolFlags {
    /// Gather the switches out of a full argument record.
    pub fn from_args(args: &Args) -> (r: BoolFlags)
        ensures
            r.condensed == args.flag_condensed,
            r.datesort == args.flag_datesort,
            r.editor == args.flag_editor,
            r.encrypted == args.flag_encrypted,
            r.json == args.flag_json,
            r.regex == args.flag_regex,
            r.reverse == args.flag_reverse,
            r.search_body == args.flag_search_body,
            r.yes == args.flag_yes,
    {
        BoolFlags {
            condensed: args.flag_condensed,
            datesort: args.flag_datesort,
            editor: args.flag_editor,
            encrypted: args.flag_encrypted,
            json: args.flag_json,
            regex: args.flag_regex,
            reverse: args.flag_reverse,
            search_body: args.flag_search_body,
            yes: args.flag_yes,
        }
    }
}

impl Default for BoolFlags {
    /// Every switch off.
    fn default() -> (r: BoolFlags)
        ensures
            !r.condensed && !r.datesort && !r.editor && !r.encrypted && !r.json,
            !r.regex && !r.reverse && !r.search_body && !r.yes,
    {
        BoolFlags {
            condensed: false,
            datesort: false,
            editor: false,
            encrypted: false,
            json: false,
            regex: false,
            reverse: false,
            search_body: false,
            yes: false,
        }
    }
}

/// Whether the command these arguments ask for mutates the profile and so
/// must end in a save.
pub fn is_mutating(args: &Args) -> (r: bool)
    ensures
        r == (args.cmd_add || args.cmd_edit || args.cmd_encrypt_profile || args.cmd_del
            || args.cmd_decrypt_profile || args.cmd_transfer || args.cmd_clear
            || args.cmd_new_profile),
{
    args.cmd_add || args.cmd_edit || args.cmd_encrypt_profile || args.cmd_del
        || args.cmd_decrypt_profile || args.cmd_transfer || args.cmd_clear
        || args.cmd_new_profile
}

/// The arguments for replaying a command against a freshly loaded profile
/// after a save-time conflict.
///
/// The command must not prompt an interactive editor again: the editor
/// switch goes off, and the body text captured during the first run — it
/// sits in the last note of the stale profile — is substituted as the
/// supplied body.  Everything else carries over unchanged.
pub fn replay_args(args: Args, profile: &Profile) -> (r: Args)
    ensures
        r.flag_editor == false,
        args.flag_editor ==> r.flag_body@.len() == 1 && r.flag_body@[0]@ == (
        if profile@.notes.len() == 0 {
            Seq::<char>::empty()
        } else {
            profile@.notes.last().body
        }),
        !args.flag_editor ==> r.flag_body == args.flag_body,
        r.cmd_add == args.cmd_add,
        r.cmd_clear == args.cmd_clear,
        r.cmd_del == args.cmd_del,
        r.cmd_decrypt_profile == args.cmd_decrypt_profile,
        r.cmd_edit == args.cmd_edit,
        r.cmd_encrypt_profile == args.cmd_encrypt_profile,
        r.cmd_import == args.cmd_import,
        r.cmd_info == args.cmd_info,
        r.cmd_list_profiles == args.cmd_list_profiles,
        r.cmd_new_profile == args.cmd_new_profile,
        r.cmd_search == args.cmd_search,
        r.cmd_transfer == args.cmd_transfer,
        r.cmd__ == args.cmd__,
        r.arg_id == args.arg_id,
        r.arg_name == args.arg_name,
        r.arg_pattern == args.arg_pattern,
        r.arg_title == args.arg_title,
        r.flag_condensed == args.flag_condensed,
        r.flag_datesort == args.flag_datesort,
        r.flag_encrypted == args.flag_encrypted,
        r.flag_json == args.flag_json,
        r.flag_key == args.flag_key,
        r.flag_limit == args.flag_limit,
        r.flag_new_key == args.flag_new_key,
        r.flag_none == args.flag_none,
        r.flag_profile == args.flag_profile,
        r.flag_profile_folder == args.flag_profile_folder,
        r.flag_regex == args.flag_regex,
        r.flag_reverse == args.flag_reverse,
        r.flag_search_body == args.flag_search_body,
        r.flag_started == args.flag_started,
        r.flag_urgent == args.flag_urgent,
        r.flag_version == args.flag_version,
        r.flag_yes == args.flag_yes,
{
    let mut a = args;
    if a.flag_editor {
        a.flag_editor = false;
        let captured: String = if profile.notes.len() == 0 {
            String::new()
        } else {
            profile.notes[profile.notes.len() - 1].body.clone()
        };
        a.flag_body = vec![captured];
    }
    a
}

/// Turn the three status switches into at most one status.
///
/// At most one switch may be set; two at once is a `ValidationError`.
pub fn extract_status(none: bool, started: bool, urgent: bool) -> (r: Result<
    Option<Status>,
    Error,
>)
    ensures
        (none && !started && !urgent) ==> r == Result::<Option<Status>, Error>::Ok(
            Some(Status::Blank),
        ),
        (!none && started && !urgent) ==> r == Result::<Option<Status>, Error>::Ok(
            Some(Status::Started),
        ),
        (!none && !started && urgent) ==> r == Result::<Option<Status>, Error>::Ok(
            Some(Status::Urgent),
        ),
        (!none && !started && !urgent) ==> r == Result::<Option<Status>, Error>::Ok(
            None::<Status>,
        ),
        ((none && started) || (none && urgent) || (started && urgent)) ==> (r is Err
            && r->Err_0.kind == ErrorKind::ValidationError),
{
    match (none, started, urgent) {
        (true, false, false) => Ok(Some(Status::Blank)),
        (false, true, false) => Ok(Some(Status::Started)),
        (false, false, true) => Ok(Some(Status::Urgent)),
        (false, false, false) => Ok(None),
        _ => Err(Error::new(ErrorKind::ValidationError, "can only specify one status")),
    }
}

} // verus!
