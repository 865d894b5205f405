//! Terminal reset sequences.

use vstd::prelude::*;

verus! {

/// Reset the terminal modes that a program may have enabled, so that the
/// terminal is usable after a detach or a peek. Screen content is not cleared.
/// In order: leave the alternate screen; cursor keys to normal; autowrap on;
/// origin mode off; mouse click, button-event and any-event reporting off;
/// focus reporting off; SGR mouse mode off; show the cursor; bracketed paste
/// off; insert mode off; scroll region, attributes and cursor style reset;
/// keypad mode off; ASCII charset; all keyboard protocol levels popped.
pub const TERMINAL_SANITIZE: &'static str =
    "\x1b[?1049l\x1b[?1l\x1b[?7h\x1b[?6l\x1b[?1000l\x1b[?1002l\x1b[?1003l\x1b[?1004l\x1b[?1006l\x1b[?25h\x1b[?2004l\x1b[4l\x1b[r\x1b[0m\x1b[0 q\x1b>\x1b(B\x1b[<99u";

/// Move the cursor to the bottom of the visible screen, so that status lines
/// land below the session's content.
pub const CURSOR_TO_BOTTOM: &'static str = "\x1b[999;1H";

/// Clear the screen and home the cursor; written before every screen replay.
pub const CLEAR_SCREEN_HOME: &'static str = "\x1b[2J\x1b[H";

/// The resets, one after the other, and the two positions of the cursor.
pub proof fn law_reset_sequences()
    ensures
        TERMINAL_SANITIZE@ == "\x1b[?1049l"@ + "\x1b[?1l"@ + "\x1b[?7h"@ + "\x1b[?6l"@
            + "\x1b[?1000l"@ + "\x1b[?1002l"@ + "\x1b[?1003l"@ + "\x1b[?1004l"@ + "\x1b[?1006l"@
            + "\x1b[?25h"@ + "\x1b[?2004l"@ + "\x1b[4l"@ + "\x1b[r"@ + "\x1b[0m"@ + "\x1b[0 q"@
            + "\x1b>"@ + "\x1b(B"@ + "\x1b[<99u"@,
        CURSOR_TO_BOTTOM@ == seq!['\x1b', '[', '9', '9', '9', ';', '1', 'H'],
        CLEAR_SCREEN_HOME@ == seq!['\x1b', '[', '2', 'J', '\x1b', '[', 'H'],
{
    reveal_strlit("\x1b[?1049l\x1b[?1l\x1b[?7h\x1b[?6l\x1b[?1000l\x1b[?1002l\x1b[?1003l\x1b[?1004l\x1b[?1006l\x1b[?25h\x1b[?2004l\x1b[4l\x1b[r\x1b[0m\x1b[0 q\x1b>\x1b(B\x1b[<99u");
    reveal_strlit("\x1b[?1049l");
    reveal_strlit("\x1b[?1l");
    reveal_strlit("\x1b[?7h");
    reveal_strlit("\x1b[?6l");
    reveal_strlit("\x1b[?1000l");
    reveal_strlit("\x1b[?1002l");
    reveal_strlit("\x1b[?1003l");
    reveal_strlit("\x1b[?1004l");
    reveal_strlit("\x1b[?1006l");
    reveal_strlit("\x1b[?25h");
    reveal_strlit("\x1b[?2004l");
    reveal_strlit("\x1b[4l");
    reveal_strlit("\x1b[r");
    reveal_strlit("\x1b[0m");
    reveal_strlit("\x1b[0 q");
    reveal_strlit("\x1b>");
    reveal_strlit("\x1b(B");
    reveal_strlit("\x1b[<99u");
    reveal_strlit("\x1b[999;1H");
    reveal_strlit("\x1b[2J\x1b[H");
    assert(TERMINAL_SANITIZE@ =~= "\x1b[?1049l"@ + "\x1b[?1l"@ + "\x1b[?7h"@ + "\x1b[?6l"@
        + "\x1b[?1000l"@ + "\x1b[?1002l"@ + "\x1b[?1003l"@ + "\x1b[?1004l"@ + "\x1b[?1006l"@
        + "\x1b[?25h"@ + "\x1b[?2004l"@ + "\x1b[4l"@ + "\x1b[r"@ + "\x1b[0m"@ + "\x1b[0 q"@
        + "\x1b>"@ + "\x1b(B"@ + "\x1b[<99u"@);
    assert(CURSOR_TO_BOTTOM@ =~= seq!['\x1b', '[', '9', '9', '9', ';', '1', 'H']);
    assert(CLEAR_SCREEN_HOME@ =~= seq!['\x1b', '[', '2', 'J', '\x1b', '[', 'H']);
}

} // verus!
