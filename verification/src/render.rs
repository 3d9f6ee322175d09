//! What the renderer is told of a text: its words, its style, and whether
//! it has to be laid out again.

use vstd::prelude::*;
use crate::text::FontStyle;

verus! {

/// The point of a text that is put on the text's position.
#[derive(Clone, Copy, Debug, PartialEq, Eq, Structural)]
pub enum TextAnchor {
    Center,
    TopLeft,
}

/// A text to draw.
pub struct TextModel {
    pub string: String,
    pub fontstyle: FontStyle,
    pub text_anchor: TextAnchor,
    /// Where the renderer keeps the text's layout, once it has made one.
    pub text_oidx: Option<usize>,
    /// The layout is out of date.
    pub dirty: bool,
}

impl TextModel {
    /// A text that has not been laid out yet.
    pub fn new(string: String, fontstyle: FontStyle, text_anchor: TextAnchor) -> (model: Self)
        ensures
            model.string == string,
            model.fontstyle == fontstyle,
            model.text_anchor == text_anchor,
            model.text_oidx is None,
            model.dirty,
    {
        TextModel {
            string: string,
            fontstyle: fontstyle,
            text_anchor: text_anchor,
            text_oidx: None,
            dirty: true,
        }
    }

    /// Replaces the words and marks the layout as out of date.
    pub fn update_string(&mut self, newstr: String)
        ensures
            final(self).string == newstr,
            final(self).dirty,
            final(self).fontstyle == old(self).fontstyle,
            final(self).text_anchor == old(self).text_anchor,
            final(self).text_oidx == old(self).text_oidx,
    {
        self.string = newstr;
        self.dirty = true;
    }
}

/// The size of the playing field in a window of the given size: all of
/// its width, and its height less two lines of text.
pub fn compute_field(width: u16, height: u16, text_height: u16) -> (field: [u16; 2])
    requires
        text_height * 2 <= height,
    ensures
        field[0] == width,
        field[1] == height - text_height * 2,
{
    [width, height - (text_height * 2)]
}

} // verus!
