//! Property name tables: the XML element name of each bit of each class level
//! and compound property, in the v5 ordering.
use vstd::prelude::*;

use crate::text::push_str;
use crate::text::str_eq;
use crate::xur::path_view;
use crate::xur::tables::compound_sub_types;
use crate::xur::tables::get_compound_sub_types;
use crate::xur::tables::get_hierarchy;
use crate::xur::tables::array_property;
use crate::xur::tables::is_array_property;
use crate::xur::tables::spec_hierarchy;
use crate::xur::tables::TypeTable;
use crate::xur::KeyframePath;
use crate::xur::SPath;

verus! {

/// The property name tables.
#[derive(Debug, Clone, Copy, PartialEq, Eq, Structural)]
pub enum NameTable {
    /// A level without known property names.
    Empty,
    Element,
    Figure,
    Stroke,
    Fill,
    Control,
    Scene,
    Button,
    NavButton,
    TabScene,
    Text,
    Image,
    Gradient,
    Label,
    Checkbox,
    Slider,
    Edit,
    List,
    CommonList,
    Sound,
    SoundXAudio,
    HtmlElement,
    TextPresenter,
    ImagePresenter,
    GamerCard,
    BotdScene,
    ScrollEnd,
    DashScene,
    BotdOfflineContainer,
    BotdOfflineScene,
    Fall07BotdScene,
    ScriptScene,
}

/// The names of table `t`, indexed by bit.
pub open spec fn table_names(t: NameTable) -> Seq<Seq<char>> {
    match t {
        NameTable::Empty => seq![],
        NameTable::Element => seq![
            "Id"@,
            "Width"@,
            "Height"@,
            "Position"@,
            "Scale"@,
            "Rotation"@,
            "Opacity"@,
            "Anchor"@,
            "Pivot"@,
            "Show"@,
            "BlendMode"@,
            "DisableTimelineRecursion"@,
            "ColorWriteFlags"@,
            "ColorFactor"@,
        ],
        NameTable::Figure => seq!["Stroke"@, "Fill"@, "Closed"@, "Points"@],
        NameTable::Stroke => seq!["StrokeWidth"@, "StrokeColor"@],
        NameTable::Fill => seq![
            "FillType"@,
            "FillColor"@,
            "TextureFileName"@,
            "Gradient"@,
            "Translation"@,
            "Scale"@,
            "Rotation"@,
            "WrapX"@,
            "WrapY"@,
            "BrushFlags"@,
            "TransformVersion"@,
        ],
        NameTable::Control => seq![
            "ClassOverride"@,
            "Visual"@,
            "Enabled"@,
            "UnfocusedInput"@,
            "NavLeft"@,
            "NavRight"@,
            "NavUp"@,
            "NavDown"@,
            "NavTabForward"@,
            "NavTabBackward"@,
            "Text"@,
            "PointSize"@,
            "ImagePath"@,
            "HasContextMenu"@,
            "SizeToText"@,
            "UseNuiAsMouse"@,
            "AutoId"@,
            "HoverSelectTimer"@,
            "QuickInput"@,
        ],
        NameTable::Scene => seq![
            "DefaultFocus"@,
            "TransFrom"@,
            "TransTo"@,
            "TransBackFrom"@,
            "TransBackTo"@,
            "InterruptTransitions"@,
            "IgnorePresses"@,
            "RecurseTransitions"@,
        ],
        NameTable::Button => seq![
            "PressKey"@,
            "PressPath"@,
            "PressAction"@,
            "BackPath"@,
            "BackAction"@,
            "OverPath"@,
            "OverAction"@,
        ],
        NameTable::NavButton => seq![
            "PressPath"@,
            "StayVisible"@,
            "SrcTransIndex"@,
            "DestTransIndex"@,
        ],
        NameTable::TabScene => seq![
            "TabCount"@,
            "Wrap"@,
            "UserInterrupt"@,
            "VerticalTabs"@,
            "NoAutoHide"@,
            "DefaultTab"@,
        ],
        NameTable::Text => seq![
            "Text"@,
            "TextColor"@,
            "DropShadowColor"@,
            "PointSize"@,
            "Font"@,
            "TextStyle"@,
            "LineSpacingAdjust"@,
            "TextScale"@,
        ],
        NameTable::Image => seq![
            "SizeMode"@,
            "ImagePath"@,
            "BrushFlags"@,
            "TextureSurfaceElement"@,
            "LoadType"@,
        ],
        NameTable::Gradient => seq!["Radial"@, "NumStops"@, "StopColor"@, "StopPos"@],
        NameTable::Label => seq!["MaxFlowLines"@],
        NameTable::Checkbox => seq!["PressKey"@],
        NameTable::Slider => seq![
            "RangeMin"@,
            "RangeMax"@,
            "Value"@,
            "Step"@,
            "Vertical"@,
            "AccelInc"@,
            "AccelTime"@,
        ],
        NameTable::Edit => seq![
            "TextLimit"@,
            "AllowedChars"@,
            "PasswordChar"@,
            "ReadOnly"@,
            "Multiline"@,
            "SmoothScroll"@,
        ],
        NameTable::List => seq!["Wrap"@, "WrapBump"@],
        NameTable::CommonList => seq!["ItemsText"@, "ItemsImage"@, "ItemsNavPath"@],
        NameTable::Sound => seq!["State"@, "Loop"@, "Finish"@, "Volume"@],
        NameTable::SoundXAudio => seq!["File"@],
        NameTable::HtmlElement => seq!["Text"@],
        NameTable::TextPresenter => seq![
            "TextColor"@,
            "DropShadowColor"@,
            "PointSize"@,
            "Font"@,
            "TextStyle"@,
            "LineSpacing"@,
            "Unknown"@,
            "TextScale"@,
        ],
        NameTable::ImagePresenter => seq!["SizeMode"@, "ImagePath"@, "BrushFlags"@],
        NameTable::GamerCard => seq!["Format"@, "ShowExtendedPanel"@],
        NameTable::BotdScene => seq![
            "Unknown"@,
            "Unknown"@,
            "Unknown"@,
            "Unknown"@,
            "DefaultVisual"@,
        ],
        NameTable::ScrollEnd => seq!["ScrollEndType"@],
        NameTable::DashScene => seq![
            "PanelScenePaths"@,
            "PanelStrings"@,
            "PanelSettings"@,
            "Unknown"@,
            "MetaPanelScene"@,
            "Unknown"@,
        ],
        NameTable::BotdOfflineContainer => seq!["Unknown"@, "BannerPath"@],
        NameTable::BotdOfflineScene => seq!["BannerPath"@],
        NameTable::Fall07BotdScene => seq![
            "Unknown0"@,
            "Unknown1"@,
            "Unknown2"@,
            "Unknown3"@,
            "Unknown4"@,
            "Unknown5"@,
            "VisualOverride"@,
        ],
        NameTable::ScriptScene => seq!["ScriptPath"@],
    }
}

/// The names of table `t` as string slices.
fn names_vec(t: NameTable) -> (r: Vec<&'static str>)
    ensures
        r@.len() == table_names(t).len(),
        forall|i: int| 0 <= i < r@.len() ==> #[trigger] r@[i]@ == table_names(t)[i],
{
    let r = match t {
        NameTable::Empty => vec![],
        NameTable::Element => vec![
            "Id",
            "Width",
            "Height",
            "Position",
            "Scale",
            "Rotation",
            "Opacity",
            "Anchor",
            "Pivot",
            "Show",
            "BlendMode",
            "DisableTimelineRecursion",
            "ColorWriteFlags",
            "ColorFactor",
        ],
        NameTable::Figure => vec!["Stroke", "Fill", "Closed", "Points"],
        NameTable::Stroke => vec!["StrokeWidth", "StrokeColor"],
        NameTable::Fill => vec![
            "FillType",
            "FillColor",
            "TextureFileName",
            "Gradient",
            "Translation",
            "Scale",
            "Rotation",
            "WrapX",
            "WrapY",
            "BrushFlags",
            "TransformVersion",
        ],
        NameTable::Control => vec![
            "ClassOverride",
            "Visual",
            "Enabled",
            "UnfocusedInput",
            "NavLeft",
            "NavRight",
            "NavUp",
            "NavDown",
            "NavTabForward",
            "NavTabBackward",
            "Text",
            "PointSize",
            "ImagePath",
            "HasContextMenu",
            "SizeToText",
            "UseNuiAsMouse",
            "AutoId",
            "HoverSelectTimer",
            "QuickInput",
        ],
        NameTable::Scene => vec![
            "DefaultFocus",
            "TransFrom",
            "TransTo",
            "TransBackFrom",
            "TransBackTo",
            "InterruptTransitions",
            "IgnorePresses",
            "RecurseTransitions",
        ],
        NameTable::Button => vec![
            "PressKey",
            "PressPath",
            "PressAction",
            "BackPath",
            "BackAction",
            "OverPath",
            "OverAction",
        ],
        NameTable::NavButton => vec!["PressPath", "StayVisible", "SrcTransIndex", "DestTransIndex"],
        NameTable::TabScene => vec![
            "TabCount",
            "Wrap",
            "UserInterrupt",
            "VerticalTabs",
            "NoAutoHide",
            "DefaultTab",
        ],
        NameTable::Text => vec![
            "Text",
            "TextColor",
            "DropShadowColor",
            "PointSize",
            "Font",
            "TextStyle",
            "LineSpacingAdjust",
            "TextScale",
        ],
        NameTable::Image => vec![
            "SizeMode",
            "ImagePath",
            "BrushFlags",
            "TextureSurfaceElement",
            "LoadType",
        ],
        NameTable::Gradient => vec!["Radial", "NumStops", "StopColor", "StopPos"],
        NameTable::Label => vec!["MaxFlowLines"],
        NameTable::Checkbox => vec!["PressKey"],
        NameTable::Slider => vec![
            "RangeMin",
            "RangeMax",
            "Value",
            "Step",
            "Vertical",
            "AccelInc",
            "AccelTime",
        ],
        NameTable::Edit => vec![
            "TextLimit",
            "AllowedChars",
            "PasswordChar",
            "ReadOnly",
            "Multiline",
            "SmoothScroll",
        ],
        NameTable::List => vec!["Wrap", "WrapBump"],
        NameTable::CommonList => vec!["ItemsText", "ItemsImage", "ItemsNavPath"],
        NameTable::Sound => vec!["State", "Loop", "Finish", "Volume"],
        NameTable::SoundXAudio => vec!["File"],
        NameTable::HtmlElement => vec!["Text"],
        NameTable::TextPresenter => vec![
            "TextColor",
            "DropShadowColor",
            "PointSize",
            "Font",
            "TextStyle",
            "LineSpacing",
            "Unknown",
            "TextScale",
        ],
        NameTable::ImagePresenter => vec!["SizeMode", "ImagePath", "BrushFlags"],
        NameTable::GamerCard => vec!["Format", "ShowExtendedPanel"],
        NameTable::BotdScene => vec!["Unknown", "Unknown", "Unknown", "Unknown", "DefaultVisual"],
        NameTable::ScrollEnd => vec!["ScrollEndType"],
        NameTable::DashScene => vec![
            "PanelScenePaths",
            "PanelStrings",
            "PanelSettings",
            "Unknown",
            "MetaPanelScene",
            "Unknown",
        ],
        NameTable::BotdOfflineContainer => vec!["Unknown", "BannerPath"],
        NameTable::BotdOfflineScene => vec!["BannerPath"],
        NameTable::Fall07BotdScene => vec![
            "Unknown0",
            "Unknown1",
            "Unknown2",
            "Unknown3",
            "Unknown4",
            "Unknown5",
            "VisualOverride",
        ],
        NameTable::ScriptScene => vec!["ScriptPath"],
    };
    r
}

/// The name of bit `bit` in table `t`, or `Unknown` past its end.
pub open spec fn name_or_unknown(t: NameTable, bit: int) -> Seq<char> {
    if 0 <= bit < table_names(t).len() {
        table_names(t)[bit]
    } else {
        "Unknown"@
    }
}

/// The name of bit `bit` in table `t`, or `Unknown` past its end.
pub fn name_at(t: NameTable, bit: u32) -> (r: &'static str)
    ensures
        r@ == name_or_unknown(t, bit as int),
{
    let names = names_vec(t);
    if (bit as usize) < names.len() {
        names[bit as usize]
    } else {
        "Unknown"
    }
}

/// The number of names in table `t`.
pub fn table_len(t: NameTable) -> (n: usize)
    ensures
        n == table_names(t).len(),
{
    names_vec(t).len()
}

/// The table of levels 1, 2 and 3 of a class, by level.
pub open spec fn pick(level: int, l1: NameTable, l2: NameTable, l3: NameTable) -> NameTable {
    if level == 1 {
        l1
    } else if level == 2 {
        l2
    } else if level == 3 {
        l3
    } else {
        NameTable::Empty
    }
}

fn pick_level(level: usize, l1: NameTable, l2: NameTable, l3: NameTable) -> (r: NameTable)
    ensures
        r == pick(level as int, l1, l2, l3),
{
    if level == 1 {
        l1
    } else if level == 2 {
        l2
    } else if level == 3 {
        l3
    } else {
        NameTable::Empty
    }
}

/// The name table of derived level `level` of class `c` (level 1 is the
/// level just above XuiElement); the first matching class wins.
pub open spec fn level_names(c: Seq<char>, level: int) -> NameTable {
    let e = NameTable::Empty;
    let ctl = NameTable::Control;
    let scene = NameTable::Scene;
    if c == "XuiFigure"@ {
        pick(level, NameTable::Figure, e, e)
    } else if c == "XuiCanvas"@ {
        e
    } else if c == "XuiText"@ {
        pick(level, NameTable::Text, e, e)
    } else if c == "XuiImage"@ {
        pick(level, NameTable::Image, e, e)
    } else if c == "XuiControl"@ {
        pick(level, ctl, e, e)
    } else if c == "XuiButton"@ {
        pick(level, ctl, NameTable::Button, e)
    } else if c == "XuiScene"@ {
        pick(level, ctl, scene, e)
    } else if c == "XuiNavButton"@ {
        pick(level, ctl, NameTable::Button, NameTable::NavButton)
    } else if c == "XuiTabScene"@ {
        pick(level, ctl, scene, NameTable::TabScene)
    } else if c == "XuiLabel"@ {
        pick(level, ctl, NameTable::Label, e)
    } else if c == "XuiCheckbox"@ {
        pick(level, ctl, NameTable::Checkbox, e)
    } else if c == "XuiSlider"@ {
        pick(level, ctl, NameTable::Slider, e)
    } else if c == "XuiEdit"@ {
        pick(level, ctl, NameTable::Edit, e)
    } else if c == "XuiList"@ {
        pick(level, ctl, NameTable::List, e)
    } else if c == "XuiCommonList"@ {
        pick(level, ctl, NameTable::List, NameTable::CommonList)
    } else if c == "XuiListItem"@ {
        pick(level, ctl, NameTable::Checkbox, e)
    } else if c == "XuiRadioButton"@ || c == "XuiRadioGroup"@ || c == "XuiScrollBar"@ || c
        == "XuiProgressBar"@ || c == "XuiCaret"@ || c == "XuiMessageBox"@ || c
        == "XuiPerspectiveScene"@ {
        pick(level, ctl, e, e)
    } else if c == "XuiSoundXAudio"@ {
        pick(level, NameTable::Sound, NameTable::SoundXAudio, e)
    } else if c == "XuiTextPresenter"@ {
        pick(level, NameTable::TextPresenter, e, e)
    } else if c == "XuiImagePresenter"@ {
        pick(level, NameTable::ImagePresenter, e, e)
    } else if c == "XuiScrollEnd"@ {
        pick(level, ctl, NameTable::ScrollEnd, e)
    } else if c == "XuiGamerCard"@ {
        pick(level, ctl, NameTable::GamerCard, e)
    } else if c == "XuiBackButton"@ {
        pick(level, ctl, NameTable::Button, e)
    } else if c == "XuiBOTDScene"@ {
        pick(level, ctl, scene, NameTable::BotdScene)
    } else if c == "XuiBOTDContainer"@ {
        pick(level, ctl, scene, e)
    } else if c == "XuiBOTDOfflineContainer"@ {
        pick(level, ctl, scene, NameTable::BotdOfflineContainer)
    } else if c == "XuiBOTDOfflineScene"@ {
        pick(level, ctl, scene, NameTable::BotdOfflineScene)
    } else if c == "XuiFall07BOTDScene"@ {
        pick(level, ctl, scene, NameTable::Fall07BotdScene)
    } else if c == "LiveVisionControl"@ {
        pick(level, ctl, e, e)
    } else if c == "VideoData"@ {
        pick(level, ctl, scene, e)
    } else if c == "ScriptImage"@ {
        pick(level, ctl, e, e)
    } else if c == "ScriptList"@ {
        pick(level, ctl, NameTable::List, e)
    } else if c == "ScriptScene"@ {
        pick(level, ctl, scene, NameTable::ScriptScene)
    } else if c == "XuiHtmlElement"@ {
        pick(level, NameTable::HtmlElement, e, e)
    } else if c == "DashScene"@ || c == "DashMainScene"@ || c == "DashMediaScene"@ || c
        == "DashSystemScene"@ || c == "DashBladeTab"@ || c == "DashLiveScene"@ || c
        == "DashLiveSignedIn"@ || c == "DashLiveSignedOut"@ || c == "DashLiveConnected"@ {
        pick(level, ctl, scene, NameTable::DashScene)
    } else {
        e
    }
}

/// Maps a class and a derived hierarchy level to its property name table.
/// The levels mirror `get_hierarchy`: level 1 is the first derived class above
/// XuiElement.
pub fn get_names_for_hierarchy_level(class: &str, level: usize) -> (r: NameTable)
    ensures
        r == level_names(class@, level as int),
{
    let e = NameTable::Empty;
    let ctl = NameTable::Control;
    let scene = NameTable::Scene;
    let c = class;
    if str_eq(c, "XuiFigure") {
        pick_level(level, NameTable::Figure, e, e)
    } else if str_eq(c, "XuiCanvas") {
        e
    } else if str_eq(c, "XuiText") {
        pick_level(level, NameTable::Text, e, e)
    } else if str_eq(c, "XuiImage") {
        pick_level(level, NameTable::Image, e, e)
    } else if str_eq(c, "XuiControl") {
        pick_level(level, ctl, e, e)
    } else if str_eq(c, "XuiButton") {
        pick_level(level, ctl, NameTable::Button, e)
    } else if str_eq(c, "XuiScene") {
        pick_level(level, ctl, scene, e)
    } else if str_eq(c, "XuiNavButton") {
        pick_level(level, ctl, NameTable::Button, NameTable::NavButton)
    } else if str_eq(c, "XuiTabScene") {
        pick_level(level, ctl, scene, NameTable::TabScene)
    } else if str_eq(c, "XuiLabel") {
        pick_level(level, ctl, NameTable::Label, e)
    } else if str_eq(c, "XuiCheckbox") {
        pick_level(level, ctl, NameTable::Checkbox, e)
    } else if str_eq(c, "XuiSlider") {
        pick_level(level, ctl, NameTable::Slider, e)
    } else if str_eq(c, "XuiEdit") {
        pick_level(level, ctl, NameTable::Edit, e)
    } else if str_eq(c, "XuiList") {
        pick_level(level, ctl, NameTable::List, e)
    } else if str_eq(c, "XuiCommonList") {
        pick_level(level, ctl, NameTable::List, NameTable::CommonList)
    } else if str_eq(c, "XuiListItem") {
        pick_level(level, ctl, NameTable::Checkbox, e)
    } else if str_eq(c, "XuiRadioButton") || str_eq(c, "XuiRadioGroup") || str_eq(
        c,
        "XuiScrollBar",
    ) || str_eq(c, "XuiProgressBar") || str_eq(c, "XuiCaret") || str_eq(c, "XuiMessageBox")
        || str_eq(c, "XuiPerspectiveScene") {
        pick_level(level, ctl, e, e)
    } else if str_eq(c, "XuiSoundXAudio") {
        pick_level(level, NameTable::Sound, NameTable::SoundXAudio, e)
    } else if str_eq(c, "XuiTextPresenter") {
        pick_level(level, NameTable::TextPresenter, e, e)
    } else if str_eq(c, "XuiImagePresenter") {
        pick_level(level, NameTable::ImagePresenter, e, e)
    } else if str_eq(c, "XuiScrollEnd") {
        pick_level(level, ctl, NameTable::ScrollEnd, e)
    } else if str_eq(c, "XuiGamerCard") {
        pick_level(level, ctl, NameTable::GamerCard, e)
    } else if str_eq(c, "XuiBackButton") {
        pick_level(level, ctl, NameTable::Button, e)
    } else if str_eq(c, "XuiBOTDScene") {
        pick_level(level, ctl, scene, NameTable::BotdScene)
    } else if str_eq(c, "XuiBOTDContainer") {
        pick_level(level, ctl, scene, e)
    } else if str_eq(c, "XuiBOTDOfflineContainer") {
        pick_level(level, ctl, scene, NameTable::BotdOfflineContainer)
    } else if str_eq(c, "XuiBOTDOfflineScene") {
        pick_level(level, ctl, scene, NameTable::BotdOfflineScene)
    } else if str_eq(c, "XuiFall07BOTDScene") {
        pick_level(level, ctl, scene, NameTable::Fall07BotdScene)
    } else if str_eq(c, "LiveVisionControl") {
        pick_level(level, ctl, e, e)
    } else if str_eq(c, "VideoData") {
        pick_level(level, ctl, scene, e)
    } else if str_eq(c, "ScriptImage") {
        pick_level(level, ctl, e, e)
    } else if str_eq(c, "ScriptList") {
        pick_level(level, ctl, NameTable::List, e)
    } else if str_eq(c, "ScriptScene") {
        pick_level(level, ctl, scene, NameTable::ScriptScene)
    } else if str_eq(c, "XuiHtmlElement") {
        pick_level(level, NameTable::HtmlElement, e, e)
    } else if str_eq(c, "DashScene") || str_eq(c, "DashMainScene") || str_eq(c, "DashMediaScene")
        || str_eq(c, "DashSystemScene") || str_eq(c, "DashBladeTab") || str_eq(c, "DashLiveScene")
        || str_eq(c, "DashLiveSignedIn") || str_eq(c, "DashLiveSignedOut") || str_eq(
        c,
        "DashLiveConnected",
    ) {
        pick_level(level, ctl, scene, NameTable::DashScene)
    } else {
        e
    }
}

/// The sub-property name table of the compound property called `name`.
pub open spec fn compound_names(name: Seq<char>) -> NameTable {
    if name == "Stroke"@ {
        NameTable::Stroke
    } else if name == "Fill"@ {
        NameTable::Fill
    } else if name == "Gradient"@ {
        NameTable::Gradient
    } else {
        NameTable::Empty
    }
}

pub fn get_compound_names(compound_name: &str) -> (r: NameTable)
    ensures
        r == compound_names(compound_name@),
{
    if str_eq(compound_name, "Stroke") {
        NameTable::Stroke
    } else if str_eq(compound_name, "Fill") {
        NameTable::Fill
    } else if str_eq(compound_name, "Gradient") {
        NameTable::Gradient
    } else {
        NameTable::Empty
    }
}

/// Gradient properties at bits 2 (StopColor) and 3 (StopPos) are arrays.
pub open spec fn compound_array_prop(names: NameTable, bit: u32) -> bool {
    names == NameTable::Gradient && (bit == 2 || bit == 3)
}

pub fn is_compound_array_prop(names: NameTable, bit: u32) -> (r: bool)
    ensures
        r == compound_array_prop(names, bit),
{
    names == NameTable::Gradient && (bit == 2 || bit == 3)
}

/// The name of sub-property `bit` of the compound whose type table is
/// `parent`.
pub open spec fn compound_prop_name(parent: TypeTable, bit: u32) -> Seq<char> {
    if parent == TypeTable::Figure {
        name_or_unknown(NameTable::Figure, bit as int)
    } else if parent == TypeTable::Fill {
        name_or_unknown(NameTable::Fill, bit as int)
    } else if parent == TypeTable::Gradient {
        name_or_unknown(NameTable::Gradient, bit as int)
    } else if parent == TypeTable::Stroke {
        name_or_unknown(NameTable::Stroke, bit as int)
    } else {
        "Unknown"@
    }
}

pub fn get_compound_prop_name(parent_types: TypeTable, bit: u32) -> (r: &'static str)
    ensures
        r@ == compound_prop_name(parent_types, bit),
{
    if parent_types == TypeTable::Figure {
        return name_at(NameTable::Figure, bit);
    }
    if parent_types == TypeTable::Fill {
        return name_at(NameTable::Fill, bit);
    }
    if parent_types == TypeTable::Gradient {
        return name_at(NameTable::Gradient, bit);
    }
    if parent_types == TypeTable::Stroke {
        return name_at(NameTable::Stroke, bit);
    }
    "Unknown"
}

/// The name of the property that a timeline path addresses: `hier_level` 0
/// is the class's own level, and levels past the class's derived levels are
/// XuiElement's.
pub open spec fn timeline_prop_name(class: Seq<char>, hier_level: u8, prop_idx: u8) -> Seq<char> {
    let h = spec_hierarchy(class);
    if hier_level >= h.len() {
        name_or_unknown(NameTable::Element, prop_idx as int)
    } else {
        name_or_unknown(level_names(class, h.len() - hier_level), prop_idx as int)
    }
}

pub fn resolve_timeline_prop_name(class_name: &str, hier_level: u8, prop_idx: u8) -> (r:
    &'static str)
    ensures
        r@ == timeline_prop_name(class_name@, hier_level, prop_idx),
{
    let hierarchy = get_hierarchy(class_name);
    let hl = hier_level as usize;
    if hl >= hierarchy.len() {
        return name_at(NameTable::Element, prop_idx as u32);
    }
    let writer_level = hierarchy.len() - hl;
    let names = get_names_for_hierarchy_level(class_name, writer_level);
    name_at(names, prop_idx as u32)
}

/// The type table that holds the property a timeline path starts at.
pub open spec fn path_parent_types(class: Seq<char>, hier_level: u8) -> TypeTable {
    let h = spec_hierarchy(class);
    if hier_level >= h.len() {
        TypeTable::XuiElement
    } else {
        h[h.len() - 1 - hier_level]
    }
}

fn parent_types_of(class_name: &str, hier_level: u8) -> (r: TypeTable)
    ensures
        r == path_parent_types(class_name@, hier_level),
{
    let hierarchy = get_hierarchy(class_name);
    let hl = hier_level as usize;
    if hl >= hierarchy.len() {
        TypeTable::XuiElement
    } else {
        hierarchy[hierarchy.len() - 1 - hl]
    }
}

/// Walks a compound path from sub-table `cur` through `extra[i..]`: appends
/// `.name` for each step, stops after the last step or when a step is not a
/// compound, and takes `dflt` as the array index when the last step is an
/// array property of the Gradient table (StopColor, StopPos).
pub open spec fn drill(
    cur: TypeTable,
    extra: Seq<u8>,
    i: int,
    dflt: Option<u32>,
    dotted: Seq<char>,
    index: Option<u32>,
) -> (Seq<char>, Option<u32>)
    decreases extra.len() - i,
{
    if i < 0 || i >= extra.len() {
        (dotted, index)
    } else {
        let sub = extra[i] as u32;
        let dotted2 = dotted + "."@ + compound_prop_name(cur, sub);
        let index2 = if i == extra.len() - 1 && array_property(cur, sub) {
            dflt
        } else {
            index
        };
        if i < extra.len() - 1 {
            match compound_sub_types(cur, sub) {
                Some(deeper) => drill(deeper, extra, i + 1, dflt, dotted2, index2),
                None => (dotted2, index2),
            }
        } else {
            (dotted2, index2)
        }
    }
}

/// A timeline property as a dotted path with an optional array index, such as
/// `Position`, `Fill.FillType`, or `Fill.Gradient.StopColor` with index 0.
pub open spec fn timeline_prop(class: Seq<char>, p: SPath) -> (Seq<char>, Option<u32>) {
    if p.depth <= 1 || p.extra_bytes.len() == 0 {
        if p.prop_name.len() > 0 {
            (p.prop_name, None)
        } else {
            (timeline_prop_name(class, p.hier_level, p.prop_idx), None)
        }
    } else {
        let top = timeline_prop_name(class, p.hier_level, p.prop_idx);
        match compound_sub_types(path_parent_types(class, p.hier_level), p.prop_idx as u32) {
            Some(sub) => drill(sub, p.extra_bytes, 0, p.default_value, top, None),
            None => (top, None),
        }
    }
}

/// Formats a timeline property as a dotted path with an optional array index.
pub fn format_timeline_prop(class_name: &str, path: &KeyframePath) -> (r: (String, Option<u32>))
    ensures
        (r.0@, r.1) == timeline_prop(class_name@, path_view(*path)),
{
    let ghost p = path_view(*path);
    if path.depth <= 1 || path.extra_bytes.len() == 0 {
        let mut name = String::new();
        if path.prop_name.as_str().unicode_len() > 0 {
            push_str(&mut name, path.prop_name.as_str());
        } else {
            push_str(&mut name, resolve_timeline_prop_name(class_name, path.hier_level, path.prop_idx));
        }
        proof {
            assert(name@ =~= timeline_prop(class_name@, p).0);
        }
        return (name, None);
    }
    let parent_types = parent_types_of(class_name, path.hier_level);
    let top_name = resolve_timeline_prop_name(class_name, path.hier_level, path.prop_idx);
    let mut dotted = String::new();
    push_str(&mut dotted, top_name);
    assert(dotted@ =~= top_name@);
    let mut array_index: Option<u32> = None;
    let extra = &path.extra_bytes;
    let n = extra.len();
    if let Some(sub_types) = get_compound_sub_types(parent_types, path.prop_idx as u32) {
        let mut current = sub_types;
        let mut i: usize = 0;
        while i < n
            invariant_except_break
                i <= n,
                n == extra@.len(),
                n > 0,
                extra@ == p.extra_bytes,
                p == path_view(*path),
                drill(current, extra@, i as int, path.default_value, dotted@, array_index)
                    == drill(sub_types, extra@, 0, path.default_value, top_name@, None),
            ensures
                (dotted@, array_index) == drill(
                    sub_types,
                    extra@,
                    0,
                    path.default_value,
                    top_name@,
                    None,
                ),
            decreases n - i,
        {
            let sub_idx = extra[i];
            let ghost before = dotted@;
            push_str(&mut dotted, ".");
            push_str(&mut dotted, get_compound_prop_name(current, sub_idx as u32));
            if i == n - 1 && is_array_property(current, sub_idx as u32) {
                array_index = path.default_value;
            }
            if i < n - 1 {
                match get_compound_sub_types(current, sub_idx as u32) {
                    Some(deeper) => {
                        current = deeper;
                    },
                    None => {
                        break;
                    },
                }
            } else {
                i = i + 1;
                break;
            }
            i = i + 1;
        }
    }
    (dotted, array_index)
}

/// The last name along a compound timeline path: the name of the deepest
/// sub-property that `extra[i..]` reaches from sub-table `cur`.
pub open spec fn drill_last(cur: TypeTable, extra: Seq<u8>, i: int, last: Seq<char>) -> Seq<char>
    decreases extra.len() - i,
{
    if i < 0 || i >= extra.len() {
        last
    } else {
        let sub = extra[i] as u32;
        let name = compound_prop_name(cur, sub);
        if i < extra.len() - 1 {
            match compound_sub_types(cur, sub) {
                Some(deeper) => drill_last(deeper, extra, i + 1, name),
                None => name,
            }
        } else {
            name
        }
    }
}

/// The name of the deepest sub-property along a compound timeline path.
pub open spec fn compound_timeline_prop_name(
    class: Seq<char>,
    hier_level: u8,
    prop_idx: u8,
    extra: Seq<u8>,
) -> Seq<char> {
    let top = timeline_prop_name(class, hier_level, prop_idx);
    match compound_sub_types(path_parent_types(class, hier_level), prop_idx as u32) {
        Some(sub) => drill_last(sub, extra, 0, top),
        None => top,
    }
}

pub fn resolve_compound_timeline_prop_name(
    class_name: &str,
    hier_level: u8,
    prop_idx: u8,
    extra_bytes: &[u8],
) -> (r: String)
    ensures
        r@ == compound_timeline_prop_name(class_name@, hier_level, prop_idx, extra_bytes@),
{
    let parent_types = parent_types_of(class_name, hier_level);
    let mut last_name: &str = resolve_timeline_prop_name(class_name, hier_level, prop_idx);
    let ghost top = last_name@;
    let n = extra_bytes.len();
    if let Some(sub_types) = get_compound_sub_types(parent_types, prop_idx as u32) {
        let mut current = sub_types;
        let mut i: usize = 0;
        while i < n
            invariant_except_break
                i <= n,
                n == extra_bytes@.len(),
                drill_last(current, extra_bytes@, i as int, last_name@) == drill_last(
                    sub_types,
                    extra_bytes@,
                    0,
                    top,
                ),
            ensures
                last_name@ == drill_last(sub_types, extra_bytes@, 0, top),
            decreases n - i,
        {
            let sub_idx = extra_bytes[i];
            last_name = get_compound_prop_name(current, sub_idx as u32);
            if i < n - 1 {
                match get_compound_sub_types(current, sub_idx as u32) {
                    Some(deeper) => {
                        current = deeper;
                    },
                    None => {
                        break;
                    },
                }
            } else {
                break;
            }
            i = i + 1;
        }
    }
    let mut r = String::new();
    push_str(&mut r, last_name);
    assert(r@ =~= last_name@);
    r
}

} // verus!
