use vstd::prelude::*;

verus! {

/// The glyph set used for task markers: icon glyphs, or plain ASCII for
/// terminals without them.
#[derive(Clone, Copy, Debug, PartialEq, Eq, Structural)]
pub enum Theme {
    Default,
    Compatible,
}

impl Theme {
    /// The marker of a completed task.
    pub fn get_completed(&self) -> (r: &'static str)
        ensures
            r@ == match self {
                Theme::Default => "\u{f0134}"@,
                Theme::Compatible => "[x]"@,
            },
    {
        match self {
            Theme::Default => "\u{f0134}",
            Theme::Compatible => "[x]",
        }
    }

    /// The marker of a task about to be deleted.
    pub fn get_delete(&self) -> (r: &'static str)
        ensures
            r@ == match self {
                Theme::Default => "\u{f0130}"@,
                Theme::Compatible => "[-]"@,
            },
    {
        match self {
            Theme::Default => "\u{f0130}",
            Theme::Compatible => "[-]",
        }
    }

    /// The marker of a task not yet completed.
    pub fn get_uncompleted(&self) -> (r: &'static str)
        ensures
            r@ == match self {
                Theme::Default => "\u{f0130}"@,
                Theme::Compatible => "[ ]"@,
            },
    {
        match self {
            Theme::Default => "\u{f0130}",
            Theme::Compatible => "[ ]",
        }
    }

    /// The other theme.
    pub fn change_theme(&self) -> (r: Theme)
        ensures
            r != *self,
    {
        match self {
            Theme::Default => Theme::Compatible,
            Theme::Compatible => Theme::Default,
        }
    }
}

} // verus!
