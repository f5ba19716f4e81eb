//! ANSI colouring that can be switched off.

use vstd::prelude::*;

verus! {

/// Wraps text in ANSI styles, or leaves it alone when colour is off.
pub struct Palette {
    enabled: bool,
}

impl Palette {
    /// Whether this palette emits escape sequences.
    pub closed spec fn is_enabled(&self) -> bool {
        self.enabled
    }

    /// `text` in the style `code`: `ESC [ code m text ESC [ 0 m` when
    /// enabled, `text` itself otherwise.
    pub open spec fn styled(&self, code: Seq<char>, text: Seq<char>) -> Seq<char> {
        if self.is_enabled() {
            "\x1b["@ + code + "m"@ + text + "\x1b[0m"@
        } else {
            text
        }
    }

    /// The palette that `new(disable_color)` makes.
    pub closed spec fn new_spec(disable_color: bool) -> Self {
        Palette { enabled: !disable_color }
    }

    /// The palette made for `disable_color` is enabled exactly when colour is not disabled.
    pub proof fn lemma_new_spec(disable_color: bool)
        ensures
            Palette::new_spec(disable_color).is_enabled() == !disable_color,
    {
    }

    pub fn new(disable_color: bool) -> (p: Self)
        ensures
            p == Palette::new_spec(disable_color),
            p.is_enabled() == !disable_color,
    {
        Self { enabled: !disable_color }
    }

    fn wrap(&self, code: &str, text: &str) -> (r: String)
        ensures
            r@ == self.styled(code@, text@),
    {
        if self.enabled {
            let mut out = String::new();
            out.append("\x1b[");
            out.append(code);
            out.append("m");
            out.append(text);
            out.append("\x1b[0m");
            out
        } else {
            text.to_owned()
        }
    }

    pub fn bold(&self, text: &str) -> (r: String)
        ensures
            r@ == self.styled("1"@, text@),
    {
        self.wrap("1", text)
    }

    pub fn dim(&self, text: &str) -> (r: String)
        ensures
            r@ == self.styled("2"@, text@),
    {
        self.wrap("2", text)
    }

    pub fn red(&self, text: &str) -> (r: String)
        ensures
            r@ == self.styled("31"@, text@),
    {
        self.wrap("31", text)
    }

    pub fn green(&self, text: &str) -> (r: String)
        ensures
            r@ == self.styled("32"@, text@),
    {
        self.wrap("32", text)
    }

    pub fn yellow(&self, text: &str) -> (r: String)
        ensures
            r@ == self.styled("33"@, text@),
    {
        self.wrap("33", text)
    }

    pub fn blue(&self, text: &str) -> (r: String)
        ensures
            r@ == self.styled("34"@, text@),
    {
        self.wrap("34", text)
    }
}

}
