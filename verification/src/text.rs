//! Styles of the text that is shown over the world.

use vstd::prelude::*;
use crate::color::{white, Color};

verus! {

/// How heavy a font is drawn.
#[derive(Clone, Copy, Debug, PartialEq, Eq, Structural)]
pub enum FontWeight {
    Normal,
}

/// The font, size and colour of a text.
#[derive(Clone, Debug)]
pub struct FontStyle {
    /// The height of the font in points.
    pub size: u32,
    /// The name by which the font was loaded.
    pub name: String,
    pub weight: FontWeight,
    pub color: Color,
}

impl FontStyle {
    /// The style of text for which nothing else is asked: small, white,
    /// in the font without a name.
    pub fn default() -> (style: FontStyle)
        ensures
            style.size == 10,
            style.name@ == ""@,
            style.weight == FontWeight::Normal,
            style.color == white(),
    {
        FontStyle { size: 10, name: "".to_owned(), weight: FontWeight::Normal, color: Color::white() }
    }
}

/// The style of a title.
pub fn title_style() -> (style: FontStyle)
    ensures
        style.size == 56,
        style.name@ == "edundot"@,
        style.weight == FontWeight::Normal,
        style.color == white(),
{
    FontStyle { size: 56, name: "edundot".to_owned(), weight: FontWeight::Normal, color: Color::white() }
}

/// The style of the hints that teach the game.
pub fn tuto_style() -> (style: FontStyle)
    ensures
        style.size == 30,
        style.name@ == "V5PRD___"@,
        style.weight == FontWeight::Normal,
        style.color == white(),
{
    FontStyle { size: 30, name: "V5PRD___".to_owned(), weight: FontWeight::Normal, color: Color::white() }
}

/// The style of the texts that report the state of the game.
pub fn ui_style() -> (style: FontStyle)
    ensures
        style.size == 28,
        style.name@ == "edundot"@,
        style.weight == FontWeight::Normal,
        style.color == white(),
{
    FontStyle { size: 28, name: "edundot".to_owned(), weight: FontWeight::Normal, color: Color::white() }
}

} // verus!
