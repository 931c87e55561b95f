//! The status line: cursor position, input mode, wrap, file and project.
use vstd::prelude::*;
use crate::app::App;
use crate::text::{blen, decimal, decimal_string, spaces, str_blen};

verus! {

/// The left part: `" L:<line> C:<col>  <mode>  <wrap>  <file> <dirty>"`,
/// line and column counted from 1.
pub open spec fn status_left(a: App) -> Seq<char> {
    " L:"@ + decimal((a.cursor_line + 1) as nat) + " C:"@ + decimal((a.cursor_col + 1) as nat) + "  "@
        + (if a.insert_mode { "Insert"@ } else { "Overwrite"@ }) + "  "@
        + (if a.word_wrap { "Wrap"@ } else { Seq::<char>::empty() }) + "  "@
        + a.document.shown_name() + " "@ + (if a.is_dirty { "*"@ } else { Seq::<char>::empty() })
}

/// The project part: `"[Project: <name>]  "`, or nothing.
pub open spec fn status_project(a: App) -> Seq<char> {
    match a.project_name {
        Some(n) => "[Project: "@ + n@ + "]  "@,
        None => Seq::<char>::empty(),
    }
}

/// The spaces between the left part and the right-aligned rest: what is
/// left of the width, or one when nothing is.
pub open spec fn status_padding(a: App, width: int) -> int {
    let used = blen(status_left(a)) + blen("VibeWrite95 "@) + blen(status_project(a));
    if width > used { width - used } else { 1 }
}

/// The whole status line for a line `width` columns wide.
pub open spec fn status_text(a: App, width: int) -> Seq<char> {
    status_left(a) + Seq::new(status_padding(a, width) as nat, |i: int| ' ') + status_project(a) + "VibeWrite95 "@
}

/// The status line.
pub fn status_line_text(app: &App, width: u16) -> (r: String)
    requires
        app.cursor_line < usize::MAX,
        app.cursor_col < usize::MAX,
        blen(status_left(*app)) + blen("VibeWrite95 "@) + blen(status_project(*app)) <= usize::MAX,
    ensures
        r@ == status_text(*app, width as int),
{
    let mut left = String::from_str(" L:");
    let l = decimal_string(app.cursor_line + 1);
    left.append(l.as_str());
    left.append(" C:");
    let c = decimal_string(app.cursor_col + 1);
    left.append(c.as_str());
    left.append("  ");
    left.append(if app.insert_mode { "Insert" } else { "Overwrite" });
    left.append("  ");
    left.append(if app.word_wrap { "Wrap" } else { "" });
    left.append("  ");
    let name = app.document.file_name();
    left.append(name.as_str());
    left.append(" ");
    left.append(if app.is_dirty { "*" } else { "" });
    proof {
        reveal_strlit("");
    }
    assert(left@ =~= status_left(*app));
    let right = "VibeWrite95 ";
    let project = match &app.project_name {
        Some(n) => {
            let mut p = String::from_str("[Project: ");
            p.append(n.as_str());
            p.append("]  ");
            p
        },
        None => String::new(),
    };
    assert(project@ =~= status_project(*app));
    let used = str_blen(left.as_str()) + str_blen(right) + str_blen(project.as_str());
    let w = width as usize;
    let padding = if w > used { w - used } else { 1 };
    let mut line = left;
    let pad = spaces(padding);
    line.append(pad.as_str());
    line.append(project.as_str());
    line.append(right);
    assert(line@ =~= status_text(*app, width as int));
    line
}

} // verus!
