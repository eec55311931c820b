//! Property type tables and the class hierarchy.
//!
//! Each class level and each compound property has a table of property types,
//! indexed by bit position in that level's bitmask. The tables follow the v5
//! ordering; the v8 reader uses them too for structural decoding.
use vstd::prelude::*;

use super::PropType;
use crate::text::str_eq;

verus! {

/// The property type tables.
#[derive(Debug, Clone, Copy, PartialEq, Eq, Structural)]
pub enum TypeTable {
    /// A level with no known properties.
    Empty,
    /// XuiElement (v5 ordering, 14 properties).
    XuiElement,
    /// XuiFigure: Stroke, Fill, Closed, Points.
    Figure,
    /// The Stroke compound.
    Stroke,
    /// The Fill compound.
    Fill,
    /// The Gradient compound.
    Gradient,
    /// XuiControl (v5 ordering, 19 properties).
    Control,
    /// XuiScene.
    Scene,
    /// XuiButton.
    Button,
    /// XuiNavButton.
    NavButton,
    /// XuiTabScene.
    TabScene,
    /// XuiText.
    Text,
    /// XuiImage.
    Image,
    /// XuiHtmlElement (v5 only): one string.
    Html,
}

pub open spec fn table_types(t: TypeTable) -> Seq<PropType> {
    match t {
        TypeTable::Empty => seq![],
        TypeTable::XuiElement => seq![
            PropType::String,
            PropType::Float,
            PropType::Float,
            PropType::Vector3,
            PropType::Vector3,
            PropType::Quaternion,
            PropType::Float,
            PropType::Unsigned,
            PropType::Vector3,
            PropType::Bool,
            PropType::Unsigned,
            PropType::Bool,
            PropType::Bool,
            PropType::Color,
        ],
        TypeTable::Figure => seq![
            PropType::Compound,
            PropType::Compound,
            PropType::Bool,
            PropType::Custom,
        ],
        TypeTable::Stroke => seq![PropType::Float, PropType::Color],
        TypeTable::Fill => seq![
            PropType::Unsigned,
            PropType::Color,
            PropType::String,
            PropType::Compound,
            PropType::Vector3,
            PropType::Vector3,
            PropType::Float,
            PropType::Unsigned,
            PropType::Unsigned,
            PropType::Unsigned,
            PropType::Unsigned,
        ],
        TypeTable::Gradient => seq![
            PropType::Bool,
            PropType::Unsigned,
            PropType::Color,
            PropType::Float,
        ],
        TypeTable::Control => seq![
            PropType::String,
            PropType::String,
            PropType::Bool,
            PropType::Bool,
            PropType::String,
            PropType::String,
            PropType::String,
            PropType::String,
            PropType::String,
            PropType::String,
            PropType::String,
            PropType::Float,
            PropType::String,
            PropType::Bool,
            PropType::Bool,
            PropType::Bool,
            PropType::String,
            PropType::Float,
            PropType::Bool,
        ],
        TypeTable::Scene => seq![
            PropType::String,
            PropType::String,
            PropType::String,
            PropType::String,
            PropType::String,
            PropType::Unsigned,
            PropType::Bool,
            PropType::Bool,
        ],
        TypeTable::Button => seq![
            PropType::Unsigned,
            PropType::String,
            PropType::String,
            PropType::String,
            PropType::String,
            PropType::String,
            PropType::String,
        ],
        TypeTable::NavButton => seq![
            PropType::String,
            PropType::Bool,
            PropType::Unsigned,
            PropType::Unsigned,
        ],
        TypeTable::TabScene => seq![
            PropType::Unsigned,
            PropType::Bool,
            PropType::Bool,
            PropType::Bool,
            PropType::Bool,
            PropType::Unsigned,
        ],
        TypeTable::Text => seq![
            PropType::String,
            PropType::Color,
            PropType::Color,
            PropType::Float,
            PropType::String,
            PropType::Unsigned,
            PropType::Integer,
            PropType::Float,
        ],
        TypeTable::Image => seq![
            PropType::Unsigned,
            PropType::String,
            PropType::Unsigned,
            PropType::String,
            PropType::Unsigned,
        ],
        TypeTable::Html => seq![PropType::String],
    }
}

/// The type of property `bit` in table `t`, if the table has that many.
pub open spec fn type_of(t: TypeTable, bit: int) -> Option<PropType> {
    if 0 <= bit < table_types(t).len() {
        Some(table_types(t)[bit])
    } else {
        None
    }
}

pub fn table_len(t: TypeTable) -> (n: usize)
    ensures
        n == table_types(t).len(),
{
    match t {
        TypeTable::Empty => 0,
        TypeTable::XuiElement => 14,
        TypeTable::Figure => 4,
        TypeTable::Stroke => 2,
        TypeTable::Fill => 11,
        TypeTable::Gradient => 4,
        TypeTable::Control => 19,
        TypeTable::Scene => 8,
        TypeTable::Button => 7,
        TypeTable::NavButton => 4,
        TypeTable::TabScene => 6,
        TypeTable::Text => 8,
        TypeTable::Image => 5,
        TypeTable::Html => 1,
    }
}

/// The type of property `bit` in table `t`.
pub fn type_at(t: TypeTable, bit: u32) -> (r: Option<PropType>)
    ensures
        r == type_of(t, bit as int),
{
    let n = table_len(t);
    if bit as usize >= n {
        return None;
    }
    let b = bit as usize;
    let ty = match t {
        TypeTable::Empty => PropType::Unsigned,
        TypeTable::XuiElement => match b {
            0 => PropType::String,
            1 | 2 | 6 => PropType::Float,
            3 | 4 | 8 => PropType::Vector3,
            5 => PropType::Quaternion,
            7 | 10 => PropType::Unsigned,
            9 | 11 | 12 => PropType::Bool,
            _ => PropType::Color,
        },
        TypeTable::Figure => match b {
            0 | 1 => PropType::Compound,
            2 => PropType::Bool,
            _ => PropType::Custom,
        },
        TypeTable::Stroke => match b {
            0 => PropType::Float,
            _ => PropType::Color,
        },
        TypeTable::Fill => match b {
            0 | 7 | 8 | 9 | 10 => PropType::Unsigned,
            1 => PropType::Color,
            2 => PropType::String,
            3 => PropType::Compound,
            4 | 5 => PropType::Vector3,
            _ => PropType::Float,
        },
        TypeTable::Gradient => match b {
            0 => PropType::Bool,
            1 => PropType::Unsigned,
            2 => PropType::Color,
            _ => PropType::Float,
        },
        TypeTable::Control => match b {
            2 | 3 | 13 | 14 | 15 | 18 => PropType::Bool,
            11 | 17 => PropType::Float,
            _ => PropType::String,
        },
        TypeTable::Scene => match b {
            5 => PropType::Unsigned,
            6 | 7 => PropType::Bool,
            _ => PropType::String,
        },
        TypeTable::Button => match b {
            0 => PropType::Unsigned,
            _ => PropType::String,
        },
        TypeTable::NavButton => match b {
            0 => PropType::String,
            1 => PropType::Bool,
            _ => PropType::Unsigned,
        },
        TypeTable::TabScene => match b {
            0 | 5 => PropType::Unsigned,
            _ => PropType::Bool,
        },
        TypeTable::Text => match b {
            0 | 4 => PropType::String,
            1 | 2 => PropType::Color,
            3 | 7 => PropType::Float,
            5 => PropType::Unsigned,
            _ => PropType::Integer,
        },
        TypeTable::Image => match b {
            1 | 3 => PropType::String,
            _ => PropType::Unsigned,
        },
        TypeTable::Html => PropType::String,
    };
    Some(ty)
}

/// The derived levels of a class above XuiElement, from the level just above
/// XuiElement to the class's own level.
/// Unknown classes are taken to have one derived level.
pub open spec fn spec_hierarchy(c: Seq<char>) -> Seq<TypeTable> {
    if c == "XuiFigure"@ {
        seq![TypeTable::Figure]
    } else if c == "XuiText"@ {
        seq![TypeTable::Text]
    } else if c == "XuiImage"@ {
        seq![TypeTable::Image]
    } else if c == "XuiControl"@ {
        seq![TypeTable::Control]
    } else if c == "XuiLabel"@ || c == "XuiCheckbox"@ || c == "XuiRadioButton"@ || c
        == "XuiRadioGroup"@ || c == "XuiScrollEnd"@ || c == "XuiScrollBar"@ || c == "XuiList"@
        || c == "XuiProgressBar"@ || c == "XuiSlider"@ || c == "XuiEdit"@ || c == "XuiCaret"@ {
        seq![TypeTable::Control, TypeTable::Empty]
    } else if c == "XuiButton"@ {
        seq![TypeTable::Control, TypeTable::Button]
    } else if c == "XuiScene"@ {
        seq![TypeTable::Control, TypeTable::Scene]
    } else if c == "XuiNavButton"@ {
        seq![TypeTable::Control, TypeTable::Button, TypeTable::NavButton]
    } else if c == "XuiBackButton"@ {
        seq![TypeTable::Control, TypeTable::Button, TypeTable::Empty]
    } else if c == "XuiTabScene"@ {
        seq![TypeTable::Control, TypeTable::Scene, TypeTable::TabScene]
    } else if c == "XuiMessageBox"@ || c == "XuiPerspectiveScene"@ {
        seq![TypeTable::Control, TypeTable::Scene, TypeTable::Empty]
    } else if c == "XuiListItem"@ || c == "XuiCommonList"@ {
        seq![TypeTable::Control, TypeTable::Empty, TypeTable::Empty]
    } else if c == "XuiTextureSurface"@ || c == "XuiSoundXAudio"@ {
        seq![TypeTable::Empty, TypeTable::Empty]
    } else if c == "XuiHtmlElement"@ {
        seq![TypeTable::Html]
    } else {
        // XuiCanvas, XuiGroup, XuiNineGrid, XuiSound, XuiVisual, XuiTransition,
        // XuiImagePresenter, XuiTextPresenter, XuiGridPanel, XuiShader,
        // XuiVariable and unknown classes: one derived level without known
        // properties.
        seq![TypeTable::Empty]
    }
}

/// Returns the chain of type tables of the derived levels of `class_name`
/// (XuiElement is read first, separately), from the level just above
/// XuiElement to the class's own level.
/// Confirmed from CXuiClassBase<T>::Register() in xamd.dll.
pub fn get_hierarchy(class_name: &str) -> (r: Vec<TypeTable>)
    ensures
        r@ == spec_hierarchy(class_name@),
{
    let c = class_name;
    let r = if str_eq(c, "XuiFigure") {
        vec![TypeTable::Figure]
    } else if str_eq(c, "XuiText") {
        vec![TypeTable::Text]
    } else if str_eq(c, "XuiImage") {
        vec![TypeTable::Image]
    } else if str_eq(c, "XuiControl") {
        vec![TypeTable::Control]
    } else if str_eq(c, "XuiLabel") || str_eq(c, "XuiCheckbox") || str_eq(c, "XuiRadioButton")
        || str_eq(c, "XuiRadioGroup") || str_eq(c, "XuiScrollEnd") || str_eq(c, "XuiScrollBar")
        || str_eq(c, "XuiList") || str_eq(c, "XuiProgressBar") || str_eq(c, "XuiSlider")
        || str_eq(c, "XuiEdit") || str_eq(c, "XuiCaret") {
        vec![TypeTable::Control, TypeTable::Empty]
    } else if str_eq(c, "XuiButton") {
        vec![TypeTable::Control, TypeTable::Button]
    } else if str_eq(c, "XuiScene") {
        vec![TypeTable::Control, TypeTable::Scene]
    } else if str_eq(c, "XuiNavButton") {
        vec![TypeTable::Control, TypeTable::Button, TypeTable::NavButton]
    } else if str_eq(c, "XuiBackButton") {
        vec![TypeTable::Control, TypeTable::Button, TypeTable::Empty]
    } else if str_eq(c, "XuiTabScene") {
        vec![TypeTable::Control, TypeTable::Scene, TypeTable::TabScene]
    } else if str_eq(c, "XuiMessageBox") || str_eq(c, "XuiPerspectiveScene") {
        vec![TypeTable::Control, TypeTable::Scene, TypeTable::Empty]
    } else if str_eq(c, "XuiListItem") || str_eq(c, "XuiCommonList") {
        vec![TypeTable::Control, TypeTable::Empty, TypeTable::Empty]
    } else if str_eq(c, "XuiTextureSurface") || str_eq(c, "XuiSoundXAudio") {
        vec![TypeTable::Empty, TypeTable::Empty]
    } else if str_eq(c, "XuiHtmlElement") {
        vec![TypeTable::Html]
    } else {
        vec![TypeTable::Empty]
    };
    assert(r@ =~= spec_hierarchy(class_name@));
    r
}

/// The sub-type table of compound property `bit` in table `parent`.
pub open spec fn compound_sub_types(parent: TypeTable, bit: u32) -> Option<TypeTable> {
    match parent {
        TypeTable::Figure => if bit == 0 {
            Some(TypeTable::Stroke)
        } else if bit == 1 {
            Some(TypeTable::Fill)
        } else {
            None
        },
        TypeTable::Fill => if bit == 3 {
            Some(TypeTable::Gradient)
        } else {
            None
        },
        _ => None,
    }
}

pub fn get_compound_sub_types(parent: TypeTable, bit: u32) -> (r: Option<TypeTable>)
    ensures
        r == compound_sub_types(parent, bit),
{
    match parent {
        TypeTable::Figure => match bit {
            0 => Some(TypeTable::Stroke),
            1 => Some(TypeTable::Fill),
            _ => None,
        },
        TypeTable::Fill => match bit {
            3 => Some(TypeTable::Gradient),
            _ => None,
        },
        _ => None,
    }
}

/// Gradient properties that are indexed arrays: StopColor and StopPos.
pub open spec fn gradient_array_bit(bit: u32) -> bool {
    bit == 2 || bit == 3
}

pub fn is_gradient_array_prop(bit: u32) -> (r: bool)
    ensures
        r == gradient_array_bit(bit),
{
    bit == 2 || bit == 3
}

/// Whether property `bit` of table `types` is an indexed array (has a count
/// prefix).
pub open spec fn array_property(types: TypeTable, bit: u32) -> bool {
    types == TypeTable::Gradient && gradient_array_bit(bit)
}

pub fn is_array_property(types: TypeTable, bit: u32) -> (r: bool)
    ensures
        r == array_property(types, bit),
{
    if types == TypeTable::Gradient {
        return is_gradient_array_prop(bit);
    }
    false
}

} // verus!
