//! Whether the terminal gets ANSI colors: `NO_COLOR` turns them off,
//! `CLICOLOR_FORCE` (anything but `0`) on, `TERM=dumb` off; otherwise only
//! a terminal that renders escapes gets them.
use vstd::prelude::*;
use crate::text::str_eq;

verus! {

/// What the environment decides about colors, when it decides: `NO_COLOR`
/// (any value) turns them off, `CLICOLOR_FORCE` other than `0` turns them
/// on, `TERM=dumb` turns them off.
pub open spec fn env_color_choice_spec(
    no_color: bool,
    clicolor_force: Option<Seq<char>>,
    term: Option<Seq<char>>,
) -> Option<bool> {
    if no_color {
        Some(false)
    } else if clicolor_force matches Some(f) && f != "0"@ {
        Some(true)
    } else if term matches Some(t) && t == "dumb"@ {
        Some(false)
    } else {
        None
    }
}

/// The view of an optional text.
pub open spec fn opt_str(o: Option<&str>) -> Option<Seq<char>> {
    match o {
        Some(s) => Some(s@),
        None => None,
    }
}

/// What the environment decides about colors; none when it leaves it to
/// whether standard output is a terminal that renders escapes.
pub fn env_color_choice(no_color: bool, clicolor_force: Option<&str>, term: Option<&str>) -> (r:
    Option<bool>)
    ensures
        r == env_color_choice_spec(no_color, opt_str(clicolor_force), opt_str(term)),
{
    if no_color {
        return Some(false);
    }
    match clicolor_force {
        Some(f) => {
            if !str_eq(f, "0") {
                return Some(true);
            }
        },
        None => {},
    }
    match term {
        Some(t) => {
            if str_eq(t, "dumb") {
                return Some(false);
            }
        },
        None => {},
    }
    None
}

} // verus!
