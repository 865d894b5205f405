//! The system event type names.

use vstd::prelude::*;

verus! {

pub const BELL: &'static str = "bell";

pub const TITLE_CHANGE: &'static str = "title_change";

pub const NOTIFICATION: &'static str = "notification";

pub const FOCUS_REQUEST: &'static str = "focus_request";

pub const CURSOR_VISIBLE: &'static str = "cursor_visible";

pub const SESSION_START: &'static str = "session_start";

pub const SESSION_EXIT: &'static str = "session_exit";

pub const SESSION_EXEC: &'static str = "session_exec";

pub const SESSION_RESPAWN: &'static str = "session_respawn";

/// Written by a daemon that could not kill everything it started.
pub const SESSION_DESCENDANTS_SURVIVED: &'static str = "session_descendants_survived";

pub const SESSION_ABANDONED: &'static str = "session_abandoned";

pub const SESSION_FLAPPING: &'static str = "session_flapping";

pub const DISPLAY_NAME_CHANGE: &'static str = "display_name_change";

pub const TAGS_CHANGE: &'static str = "tags_change";

pub const METADATA_CHANGE: &'static str = "metadata_change";

/// Prefix of user-published events.
pub const USER_PREFIX: &'static str = "user.";

/// How the types are spelled.
pub proof fn law_spelled_types()
    ensures
        BELL@ == "bell"@ && TITLE_CHANGE@ == "title_change"@ && NOTIFICATION@ == "notification"@,
        FOCUS_REQUEST@ == "focus_request"@ && CURSOR_VISIBLE@ == "cursor_visible"@,
        SESSION_START@ == "session_start"@ && SESSION_EXIT@ == "session_exit"@,
        SESSION_EXEC@ == "session_exec"@ && SESSION_RESPAWN@ == "session_respawn"@,
        SESSION_DESCENDANTS_SURVIVED@ == "session_descendants_survived"@,
        SESSION_ABANDONED@ == "session_abandoned"@ && SESSION_FLAPPING@ == "session_flapping"@,
        DISPLAY_NAME_CHANGE@ == "display_name_change"@ && TAGS_CHANGE@ == "tags_change"@,
        METADATA_CHANGE@ == "metadata_change"@ && USER_PREFIX@ == "user."@,
{
}

} // verus!
