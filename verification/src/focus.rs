//! The focused application, as the focus hint names it.

use vstd::prelude::*;

use crate::text;
use crate::text::{chars_of, string_of, Class};
use crate::unicode;

verus! {

/// The application id that the contents of the focus hint give: trimmed, in lower case.
pub open spec fn focus_of(hint: Seq<char>) -> Seq<char> {
    unicode::lowercase(text::trim(hint))
}

/// The id names no application window: it is empty or it is the desktop shell's.
pub open spec fn is_desktop(focus: Seq<char>) -> bool {
    focus.len() == 0 || text::contains(focus, "plasmashell"@)
}

/// The focused application's id from the contents of the focus hint. Empty when nothing is
/// focused; a hint that cannot be read counts as empty.
pub fn read_focus(hint: &str) -> (r: String)
    ensures
        r@ == focus_of(hint@),
{
    string_of(&text::lowered(&text::trimmed(&chars_of(hint), Class::Whitespace)))
}

/// True if `focus` names the desktop shell.
pub fn is_shell(focus: &str) -> (r: bool)
    ensures
        r == text::contains(focus@, "plasmashell"@),
{
    text::includes(&chars_of(focus), &chars_of("plasmashell"))
}

/// True when no application window is focused, going by the contents of the focus hint.
pub fn no_window_focused(hint: &str) -> (r: bool)
    ensures
        r == is_desktop(focus_of(hint@)),
{
    let focus = read_focus(hint);
    focus.as_str().is_empty() || is_shell(focus.as_str())
}

/// The hint names the application by what is left of it without the white space around it, in
/// lower case; a hint of white space alone names none.
pub proof fn law_focus_is_the_trimmed_hint(p: Seq<char>, id: Seq<char>, q: Seq<char>)
    requires
        forall|i: int| 0 <= i < p.len() ==> unicode::whitespace(#[trigger] p[i]),
        forall|i: int| 0 <= i < q.len() ==> unicode::whitespace(#[trigger] q[i]),
        id.len() > 0 ==> !unicode::whitespace(id[0]) && !unicode::whitespace(id.last()),
    ensures
        focus_of(p + id + q) == unicode::lowercase(id),
        id.len() == 0 ==> focus_of(p + id + q).len() == 0,
{
    text::law_trim(p, id, q);
}

/// Nothing but an empty id, or one that has the desktop shell's name in it, stands for the
/// desktop.
pub proof fn law_desktop(focus: Seq<char>, a: Seq<char>, b: Seq<char>)
    ensures
        is_desktop(focus) <==> focus.len() == 0 || exists|at: int|
            0 <= at <= focus.len() && "plasmashell"@.is_prefix_of(#[trigger] focus.skip(at)),
        is_desktop(a + "plasmashell"@ + b),
        is_desktop(Seq::empty()),
{
    text::law_contains(focus, "plasmashell"@, a, b);
}

} // verus!
