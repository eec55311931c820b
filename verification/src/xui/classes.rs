//! XUI class extension files: the custom (non-SDK) classes that a scene uses,
//! their base classes and their own property definitions.
use vstd::prelude::*;

use crate::text::chars_of;
use crate::text::contains_str;
use crate::text::push_str;
use crate::text::str_eq;
use crate::text::string_from_chars;
use crate::xur::object_view;
use crate::xur::string_at;
use crate::xur::strings_view;
use crate::xur::tables::get_hierarchy;
use crate::xur::tables::spec_hierarchy;
use crate::xur::tables::table_len;
use crate::xur::tables::table_types;
use crate::xur::tables::type_at;
use crate::xur::Object;
use crate::xur::PropType;
use crate::xur::SObject;
use crate::xur::Xur;
use super::names::get_names_for_hierarchy_level;
use super::names::level_names;
use super::names::name_at;
use super::names::name_or_unknown;

verus! {

// ---------------------------------------------------------------------------
// Order of class names
// ---------------------------------------------------------------------------

/// Lexicographic order by code point from position `i` on: the order in
/// which Rust compares `String`s.
pub open spec fn lex_from(a: Seq<char>, b: Seq<char>, i: int) -> bool
    decreases a.len() - i,
{
    if i < 0 || i >= a.len() {
        0 <= i < b.len()
    } else if i >= b.len() {
        false
    } else if a[i] != b[i] {
        a[i] < b[i]
    } else {
        lex_from(a, b, i + 1)
    }
}

/// `a` comes strictly before `b`.
pub open spec fn lex_lt(a: Seq<char>, b: Seq<char>) -> bool {
    lex_from(a, b, 0)
}

proof fn lemma_lex_irreflexive(a: Seq<char>, i: int)
    requires
        0 <= i,
    ensures
        !lex_from(a, a, i),
    decreases a.len() - i,
{
    if i < a.len() {
        lemma_lex_irreflexive(a, i + 1);
    }
}

proof fn lemma_lex_transitive(a: Seq<char>, b: Seq<char>, c: Seq<char>, i: int)
    requires
        0 <= i,
        lex_from(a, b, i),
        lex_from(b, c, i),
    ensures
        lex_from(a, c, i),
    decreases a.len() - i,
{
    if i < a.len() && i < b.len() && i < c.len() && a[i] == b[i] && b[i] == c[i] {
        lemma_lex_transitive(a, b, c, i + 1);
    }
}

proof fn lemma_lex_total(a: Seq<char>, b: Seq<char>, i: int)
    requires
        0 <= i <= a.len(),
        i <= b.len(),
        !lex_from(a, b, i),
        !lex_from(b, a, i),
    ensures
        a.len() == b.len(),
        forall|j: int| i <= j < a.len() ==> a[j] == b[j],
    decreases a.len() - i,
{
    if i < a.len() && i < b.len() {
        lemma_lex_total(a, b, i + 1);
    }
}

/// Two different strings are ordered one way or the other.
pub proof fn lemma_lex_trichotomy(a: Seq<char>, b: Seq<char>)
    ensures
        a == b || lex_lt(a, b) || lex_lt(b, a),
        !(lex_lt(a, b) && lex_lt(b, a)),
        !lex_lt(a, a),
{
    lemma_lex_irreflexive(a, 0);
    if !lex_lt(a, b) && !lex_lt(b, a) {
        lemma_lex_total(a, b, 0);
        assert(a =~= b);
    }
    if lex_lt(a, b) && lex_lt(b, a) {
        lemma_lex_transitive(a, b, a, 0);
    }
}

/// Compares two strings by code point.
pub fn str_lt(a: &str, b: &str) -> (r: bool)
    ensures
        r == lex_lt(a@, b@),
{
    let x = chars_of(a);
    let y = chars_of(b);
    let mut i: usize = 0;
    while i < x.len() && i < y.len()
        invariant
            i <= x@.len(),
            i <= y@.len(),
            x@ == a@,
            y@ == b@,
            lex_lt(a@, b@) == lex_from(a@, b@, i as int),
        decreases x@.len() - i,
    {
        if x[i] != y[i] {
            return x[i] < y[i];
        }
        i = i + 1;
    }
    i == x.len() && i < y.len()
}

/// A set of class names, kept in ascending order without repeats (the order
/// of the keys of a `BTreeMap<String, _>`).
pub struct ClassSet {
    names: Vec<String>,
}

/// Strictly ascending: ordered and without repeats.
pub open spec fn ascending(s: Seq<Seq<char>>) -> bool {
    forall|i: int, j: int| 0 <= i < j < s.len() ==> lex_lt(#[trigger] s[i], #[trigger] s[j])
}

impl View for ClassSet {
    type V = Seq<Seq<char>>;

    closed spec fn view(&self) -> Seq<Seq<char>> {
        strings_view(self.names@)
    }
}

impl ClassSet {
    #[verifier::type_invariant]
    spec fn sorted(self) -> bool {
        ascending(strings_view(self.names@))
    }

    /// The empty set.
    pub fn new() -> (r: Self)
        ensures
            r@ == Seq::<Seq<char>>::empty(),
            ascending(r@),
    {
        let r = ClassSet { names: Vec::new() };
        assert(strings_view(r.names@) =~= Seq::<Seq<char>>::empty());
        r
    }

    pub fn len(&self) -> (n: usize)
        ensures
            n == self@.len(),
    {
        self.names.len()
    }

    pub fn is_empty(&self) -> (r: bool)
        ensures
            r == (self@.len() == 0),
    {
        self.names.len() == 0
    }

    /// The name at position `i` of the ascending order.
    pub fn get(&self, i: usize) -> (r: &str)
        requires
            i < self@.len(),
        ensures
            r@ == self@[i as int],
    {
        self.names[i].as_str()
    }

    /// Whether `name` is in the set.
    pub fn contains(&self, name: &str) -> (r: bool)
        ensures
            r == self@.contains(name@),
    {
        let mut i: usize = 0;
        while i < self.names.len()
            invariant
                i <= self@.len(),
                forall|j: int| 0 <= j < i ==> self@[j] != name@,
            decreases self@.len() - i,
        {
            if str_eq(self.names[i].as_str(), name) {
                assert(self@[i as int] == name@);
                return true;
            }
            i = i + 1;
        }
        false
    }

    /// Adds `name`, keeping the order; a name already there is not added
    /// twice.
    pub fn insert(&mut self, name: String)
        ensures
            final(self)@.to_set() == old(self)@.to_set().insert(name@),
            old(self)@.contains(name@) ==> final(self)@ == old(self)@,
            !old(self)@.contains(name@) ==> final(self)@.len() == old(self)@.len() + 1,
            ascending(final(self)@),
    {
        proof {
            use_type_invariant(&*self);
        }
        let ghost old_v = self@;
        let mut k: usize = 0;
        while k < self.names.len() && str_lt(self.names[k].as_str(), name.as_str())
            invariant
                k <= self@.len(),
                self@ == old_v,
                ascending(old_v),
                forall|j: int| 0 <= j < k ==> lex_lt(#[trigger] old_v[j], name@),
            decreases self@.len() - k,
        {
            k = k + 1;
        }
        if k < self.names.len() && str_eq(self.names[k].as_str(), name.as_str()) {
            proof {
                assert(old_v[k as int] == name@);
                assert(old_v.to_set().insert(name@) =~= old_v.to_set());
            }
            return;
        }
        proof {
            assert forall|j: int| k <= j < old_v.len() implies lex_lt(name@, #[trigger] old_v[j]) by {
                lemma_lex_trichotomy(old_v[k as int], name@);
                if j > k {
                    lemma_lex_transitive(name@, old_v[k as int], old_v[j], 0);
                }
            }
            assert forall|j: int| 0 <= j < old_v.len() implies old_v[j] != name@ by {
                if j < k {
                    lemma_lex_trichotomy(old_v[j], name@);
                } else {
                    lemma_lex_trichotomy(name@, old_v[j]);
                }
            }
        }
        let ghost nv = name@;
        let ghost new_v = old_v.insert(k as int, nv);
        let mut names: Vec<String> = Vec::new();
        std::mem::swap(&mut names, &mut self.names);
        names.insert(k, name);
        proof {
            assert(strings_view(names@) =~= new_v);
            assert forall|i: int, j: int| 0 <= i < j < new_v.len() implies lex_lt(
                #[trigger] new_v[i],
                #[trigger] new_v[j],
            ) by {
                if i < k && j > k {
                    assert(new_v[j] == old_v[j - 1]);
                } else if j < k {
                } else if i > k {
                    assert(new_v[i] == old_v[i - 1]);
                    assert(new_v[j] == old_v[j - 1]);
                }
            }
            assert(new_v.to_set() =~= old_v.to_set().insert(nv)) by {
                assert forall|x: Seq<char>| new_v.to_set().contains(x) implies old_v.to_set().insert(
                    nv,
                ).contains(x) by {
                    let w = choose|w: int| 0 <= w < new_v.len() && new_v[w] == x;
                    if w > k {
                        assert(old_v[w - 1] == x);
                    } else if w < k {
                        assert(old_v[w] == x);
                    }
                }
                assert forall|x: Seq<char>| old_v.to_set().insert(nv).contains(x) implies new_v.to_set().contains(
                    x,
                ) by {
                    if x == nv {
                        assert(new_v[k as int] == x);
                    } else {
                        let w = choose|w: int| 0 <= w < old_v.len() && old_v[w] == x;
                        if w < k {
                            assert(new_v[w] == x);
                        } else {
                            assert(new_v[w + 1] == x);
                        }
                    }
                }
            }
        }
        self.names = names;
    }
}

// ---------------------------------------------------------------------------
// Standard classes and base classes
// ---------------------------------------------------------------------------

/// Standard XUI SDK classes, which need no extension file.
pub open spec fn standard_classes() -> Seq<Seq<char>> {
    seq![
        "XuiElement"@,
        "XuiCanvas"@,
        "XuiFigure"@,
        "XuiText"@,
        "XuiImage"@,
        "XuiGroup"@,
        "XuiNineGrid"@,
        "XuiSound"@,
        "XuiVisual"@,
        "XuiTransition"@,
        "XuiImagePresenter"@,
        "XuiTextPresenter"@,
        "XuiGridPanel"@,
        "XuiShader"@,
        "XuiVariable"@,
        "XuiControl"@,
        "XuiLabel"@,
        "XuiCheckbox"@,
        "XuiRadioButton"@,
        "XuiRadioGroup"@,
        "XuiScrollEnd"@,
        "XuiScrollBar"@,
        "XuiList"@,
        "XuiProgressBar"@,
        "XuiSlider"@,
        "XuiEdit"@,
        "XuiCaret"@,
        "XuiButton"@,
        "XuiScene"@,
        "XuiNavButton"@,
        "XuiBackButton"@,
        "XuiTabScene"@,
        "XuiMessageBox"@,
        "XuiPerspectiveScene"@,
        "XuiListItem"@,
        "XuiCommonList"@,
        "XuiTextureSurface"@,
        "XuiSoundXAudio"@,
        "XuiHtmlElement"@,
    ]
}

pub open spec fn is_standard(c: Seq<char>) -> bool {
    standard_classes().contains(c)
}

/// Whether `class` is a standard XUI SDK class.
pub fn is_standard_class(class: &str) -> (r: bool)
    ensures
        r == is_standard(class@),
{
    let list: Vec<&str> = vec![
        "XuiElement",
        "XuiCanvas",
        "XuiFigure",
        "XuiText",
        "XuiImage",
        "XuiGroup",
        "XuiNineGrid",
        "XuiSound",
        "XuiVisual",
        "XuiTransition",
        "XuiImagePresenter",
        "XuiTextPresenter",
        "XuiGridPanel",
        "XuiShader",
        "XuiVariable",
        "XuiControl",
        "XuiLabel",
        "XuiCheckbox",
        "XuiRadioButton",
        "XuiRadioGroup",
        "XuiScrollEnd",
        "XuiScrollBar",
        "XuiList",
        "XuiProgressBar",
        "XuiSlider",
        "XuiEdit",
        "XuiCaret",
        "XuiButton",
        "XuiScene",
        "XuiNavButton",
        "XuiBackButton",
        "XuiTabScene",
        "XuiMessageBox",
        "XuiPerspectiveScene",
        "XuiListItem",
        "XuiCommonList",
        "XuiTextureSurface",
        "XuiSoundXAudio",
        "XuiHtmlElement",
    ];
    let r = contains_str(&list, class);
    proof {
        assert(list@.len() == standard_classes().len());
        assert forall|i: int| 0 <= i < list@.len() implies #[trigger] list@[i]@
            == standard_classes()[i] by {}
        if r {
            let i = choose|i: int| 0 <= i < list@.len() && #[trigger] list@[i]@ == class@;
            assert(standard_classes()[i] == class@);
        } else {
            assert forall|i: int| 0 <= i < standard_classes().len() implies standard_classes()[i]
                != class@ by {
                assert(list@[i]@ == standard_classes()[i]);
            }
        }
    }
    r
}

pub open spec fn is_ascii_digit(c: char) -> bool {
    '0' <= c <= '9'
}

/// `s` without its trailing ASCII digits.
pub open spec fn trim_digits(s: Seq<char>) -> Seq<char>
    decreases s.len(),
{
    if s.len() > 0 && is_ascii_digit(s.last()) {
        trim_digits(s.drop_last())
    } else {
        s
    }
}

/// Removes the trailing ASCII digits of `s`.
pub fn trim_end_digits(s: &str) -> (r: String)
    ensures
        r@ == trim_digits(s@),
{
    let cs = chars_of(s);
    let mut k = cs.len();
    assert(cs@.subrange(0, k as int) =~= s@);
    while k > 0 && '0' <= cs[k - 1] && cs[k - 1] <= '9'
        invariant
            k <= cs@.len(),
            cs@ == s@,
            trim_digits(cs@.subrange(0, k as int)) == trim_digits(s@),
        decreases k,
    {
        assert(cs@.subrange(0, k as int).drop_last() =~= cs@.subrange(0, k - 1));
        k = k - 1;
    }
    assert(cs@.subrange(0, cs@.len() as int) =~= s@);
    string_from_chars(&cs, 0, k)
}

/// The base class of a custom class.
pub open spec fn base_class(c: Seq<char>) -> Seq<char> {
    if c == "DashScene"@ {
        "XuiScene"@
    } else if c == "DashBladeTab"@ || c == "DashMainScene"@ || c == "DashMediaScene"@ || c
        == "DashSystemScene"@ || c == "DashLiveScene"@ || c == "DashLiveSignedIn"@ || c
        == "DashLiveSignedOut"@ || c == "DashLiveConnected"@ {
        "DashScene"@
    } else if c == "XuiBOTDScene"@ || c == "XuiBOTDContainer"@ || c == "XuiBOTDOfflineContainer"@
        || c == "XuiBOTDOfflineScene"@ || c == "XuiFall07BOTDScene"@ || c == "ScriptScene"@ || c
        == "VideoData"@ {
        "XuiScene"@
    } else if c == "XuiGamerCard"@ || c == "XuiPanel"@ || c == "LiveVisionControl"@ || c
        == "ScriptImage"@ {
        "XuiControl"@
    } else if c == "ScriptList"@ {
        "XuiList"@
    } else if c == "XuiButton_Multiline"@ {
        "XuiButton"@
    } else {
        let base = trim_digits(c);
        if base != c && is_standard(base) {
            base
        } else {
            "XuiControl"@
        }
    }
}

/// The custom scene classes of the known table, which derive from `XuiScene`.
pub open spec fn custom_scene_classes() -> Seq<Seq<char>> {
    seq![
        "DashScene"@,
        "XuiBOTDScene"@,
        "XuiBOTDContainer"@,
        "XuiBOTDOfflineContainer"@,
        "XuiBOTDOfflineScene"@,
        "XuiFall07BOTDScene"@,
        "ScriptScene"@,
        "VideoData"@,
    ]
}

/// The Dash blade scenes, which derive from `DashScene`.
pub open spec fn dash_blade_classes() -> Seq<Seq<char>> {
    seq![
        "DashBladeTab"@,
        "DashMainScene"@,
        "DashMediaScene"@,
        "DashSystemScene"@,
        "DashLiveScene"@,
        "DashLiveSignedIn"@,
        "DashLiveSignedOut"@,
        "DashLiveConnected"@,
    ]
}

/// The custom control classes of the known table, which derive from
/// `XuiControl`.
pub open spec fn custom_control_classes() -> Seq<Seq<char>> {
    seq![
        "XuiGamerCard"@,
        "XuiPanel"@,
        "LiveVisionControl"@,
        "ScriptImage"@,
    ]
}

/// The base classes of the known custom classes: the custom scenes
/// (`ScriptScene` among them) derive from `XuiScene`, the Dash blades from
/// `DashScene` (itself a `XuiScene`), the custom controls from `XuiControl`,
/// `ScriptList` from `XuiList` and `XuiButton_Multiline` from `XuiButton`.
pub proof fn lemma_known_base_classes()
    ensures
        forall|i: int|
            0 <= i < custom_scene_classes().len() ==> base_class(#[trigger] custom_scene_classes()[i])
                == "XuiScene"@,
        forall|i: int|
            0 <= i < dash_blade_classes().len() ==> base_class(#[trigger] dash_blade_classes()[i])
                == "DashScene"@,
        forall|i: int|
            0 <= i < custom_control_classes().len() ==> base_class(
                #[trigger] custom_control_classes()[i],
            ) == "XuiControl"@,
        base_class("ScriptList"@) == "XuiList"@,
        base_class("XuiButton_Multiline"@) == "XuiButton"@,
        base_class(base_class("DashMainScene"@)) == "XuiScene"@,
{
    reveal_strlit("DashBladeTab");
    reveal_strlit("DashLiveConnected");
    reveal_strlit("DashLiveScene");
    reveal_strlit("DashLiveSignedIn");
    reveal_strlit("DashLiveSignedOut");
    reveal_strlit("DashMainScene");
    reveal_strlit("DashMediaScene");
    reveal_strlit("DashScene");
    reveal_strlit("DashSystemScene");
    reveal_strlit("LiveVisionControl");
    reveal_strlit("ScriptImage");
    reveal_strlit("ScriptList");
    reveal_strlit("ScriptScene");
    reveal_strlit("VideoData");
    reveal_strlit("XuiBOTDContainer");
    reveal_strlit("XuiBOTDOfflineContainer");
    reveal_strlit("XuiBOTDOfflineScene");
    reveal_strlit("XuiBOTDScene");
    reveal_strlit("XuiButton");
    reveal_strlit("XuiButton_Multiline");
    reveal_strlit("XuiControl");
    reveal_strlit("XuiFall07BOTDScene");
    reveal_strlit("XuiGamerCard");
    reveal_strlit("XuiList");
    reveal_strlit("XuiPanel");
    reveal_strlit("XuiScene");
    assert("DashScene"@.len() == 9);
    assert("XuiBOTDScene"@.len() == 12);
    assert("XuiBOTDContainer"@.len() == 16);
    assert("XuiBOTDOfflineContainer"@.len() == 23);
    assert("XuiBOTDOfflineScene"@.len() == 19);
    assert("XuiFall07BOTDScene"@.len() == 18);
    assert("ScriptScene"@.len() == 11);
    assert("VideoData"@.len() == 9);
    assert("DashBladeTab"@.len() == 12);
    assert("DashMainScene"@.len() == 13);
    assert("DashMediaScene"@.len() == 14);
    assert("DashSystemScene"@.len() == 15);
    assert("DashLiveScene"@.len() == 13);
    assert("DashLiveSignedIn"@.len() == 16);
    assert("DashLiveSignedOut"@.len() == 17);
    assert("DashLiveConnected"@.len() == 17);
    assert("XuiGamerCard"@.len() == 12);
    assert("XuiPanel"@.len() == 8);
    assert("LiveVisionControl"@.len() == 17);
    assert("ScriptImage"@.len() == 11);
    assert("ScriptList"@.len() == 10);
    assert("XuiButton_Multiline"@.len() == 19);
    assert("DashScene"@[0] == 'D' && "DashScene"@[3] == 'h');
    assert("XuiBOTDScene"@[0] == 'X' && "XuiBOTDScene"@[3] == 'B');
    assert("XuiBOTDContainer"@[0] == 'X' && "XuiBOTDContainer"@[3] == 'B');
    assert("XuiBOTDOfflineContainer"@[0] == 'X' && "XuiBOTDOfflineContainer"@[3] == 'B');
    assert("XuiBOTDOfflineScene"@[0] == 'X' && "XuiBOTDOfflineScene"@[3] == 'B');
    assert("XuiFall07BOTDScene"@[0] == 'X' && "XuiFall07BOTDScene"@[3] == 'F');
    assert("ScriptScene"@[0] == 'S' && "ScriptScene"@[3] == 'i');
    assert("VideoData"@[0] == 'V' && "VideoData"@[3] == 'e');
    assert("DashBladeTab"@[0] == 'D' && "DashBladeTab"@[3] == 'h');
    assert("DashMainScene"@[0] == 'D' && "DashMainScene"@[3] == 'h');
    assert("DashMediaScene"@[0] == 'D' && "DashMediaScene"@[3] == 'h');
    assert("DashSystemScene"@[0] == 'D' && "DashSystemScene"@[3] == 'h');
    assert("DashLiveScene"@[0] == 'D' && "DashLiveScene"@[3] == 'h');
    assert("DashLiveSignedIn"@[0] == 'D' && "DashLiveSignedIn"@[3] == 'h');
    assert("DashLiveSignedOut"@[0] == 'D' && "DashLiveSignedOut"@[3] == 'h');
    assert("DashLiveConnected"@[0] == 'D' && "DashLiveConnected"@[3] == 'h');
    assert("XuiGamerCard"@[0] == 'X' && "XuiGamerCard"@[3] == 'G');
    assert("XuiPanel"@[0] == 'X' && "XuiPanel"@[3] == 'P');
    assert("LiveVisionControl"@[0] == 'L' && "LiveVisionControl"@[3] == 'e');
    assert("ScriptImage"@[0] == 'S' && "ScriptImage"@[3] == 'i');
    assert(base_class("DashScene"@) == "XuiScene"@);
    assert(base_class("XuiBOTDScene"@) == "XuiScene"@);
    assert(base_class("XuiBOTDContainer"@) == "XuiScene"@);
    assert(base_class("XuiBOTDOfflineContainer"@) == "XuiScene"@);
    assert(base_class("XuiBOTDOfflineScene"@) == "XuiScene"@);
    assert(base_class("XuiFall07BOTDScene"@) == "XuiScene"@);
    assert(base_class("ScriptScene"@) == "XuiScene"@);
    assert(base_class("VideoData"@) == "XuiScene"@);
    assert(base_class("XuiGamerCard"@) == "XuiControl"@);
    assert(base_class("XuiPanel"@) == "XuiControl"@);
    if "LiveVisionControl"@ == "DashLiveSignedOut"@ || "LiveVisionControl"@ == "DashLiveConnected"@ {
        assert("LiveVisionControl"@[0] == 'D');
    }
    assert(base_class("LiveVisionControl"@) == "XuiControl"@);
    if "ScriptImage"@ == "ScriptScene"@ {
        assert("ScriptImage"@[6] == "ScriptScene"@[6]);
    }
    assert(base_class("ScriptImage"@) == "XuiControl"@);
    if "XuiButton_Multiline"@ == "XuiBOTDOfflineScene"@ {
        assert("XuiButton_Multiline"@[4] == "XuiBOTDOfflineScene"@[4]);
    }
    assert(base_class("ScriptList"@) == "XuiList"@);
}

fn owned(s: &str) -> (r: String)
    ensures
        r@ == s@,
{
    let mut r = String::new();
    push_str(&mut r, s);
    assert(r@ =~= s@);
    r
}

/// Determines the base class name for a custom class.
pub fn base_class_for(class_name: &str) -> (r: String)
    ensures
        r@ == base_class(class_name@),
{
    let c = class_name;
    if str_eq(c, "DashScene") {
        owned("XuiScene")
    } else if str_eq(c, "DashBladeTab") || str_eq(c, "DashMainScene") || str_eq(c, "DashMediaScene")
        || str_eq(c, "DashSystemScene") || str_eq(c, "DashLiveScene") || str_eq(
        c,
        "DashLiveSignedIn",
    ) || str_eq(c, "DashLiveSignedOut") || str_eq(c, "DashLiveConnected") {
        owned("DashScene")
    } else if str_eq(c, "XuiBOTDScene") || str_eq(c, "XuiBOTDContainer") || str_eq(
        c,
        "XuiBOTDOfflineContainer",
    ) || str_eq(c, "XuiBOTDOfflineScene") || str_eq(c, "XuiFall07BOTDScene") || str_eq(
        c,
        "ScriptScene",
    ) || str_eq(c, "VideoData") {
        owned("XuiScene")
    } else if str_eq(c, "XuiGamerCard") || str_eq(c, "XuiPanel") || str_eq(c, "LiveVisionControl")
        || str_eq(c, "ScriptImage") {
        owned("XuiControl")
    } else if str_eq(c, "ScriptList") {
        owned("XuiList")
    } else if str_eq(c, "XuiButton_Multiline") {
        owned("XuiButton")
    } else {
        let base = trim_end_digits(c);
        if !str_eq(base.as_str(), c) && is_standard_class(base.as_str()) {
            base
        } else {
            owned("XuiControl")
        }
    }
}

// ---------------------------------------------------------------------------
// Own property definitions
// ---------------------------------------------------------------------------

/// The type attribute of a property definition.
pub open spec fn prop_type_label(t: PropType) -> Seq<char> {
    match t {
        PropType::Bool => "bool"@,
        PropType::Integer => "integer"@,
        PropType::Unsigned => "unsigned"@,
        PropType::Float => "float"@,
        PropType::String => "string"@,
        PropType::Color => "color"@,
        PropType::Vector3 => "vector"@,
        PropType::Quaternion => "quaternion"@,
        PropType::Compound => "object"@,
        PropType::Custom => "custom"@,
    }
}

pub fn type_str(t: PropType) -> (r: &'static str)
    ensures
        r@ == prop_type_label(t),
{
    match t {
        PropType::Bool => "bool",
        PropType::Integer => "integer",
        PropType::Unsigned => "unsigned",
        PropType::Float => "float",
        PropType::String => "string",
        PropType::Color => "color",
        PropType::Vector3 => "vector",
        PropType::Quaternion => "quaternion",
        PropType::Compound => "object",
        PropType::Custom => "custom",
    }
}

/// The (name, type) pairs of the properties that a class defines at its own
/// (last) hierarchy level.
pub open spec fn own_props(c: Seq<char>) -> Seq<(Seq<char>, Seq<char>)> {
    let h = spec_hierarchy(c);
    if h.len() == 0 {
        Seq::empty()
    } else {
        let own = table_types(h[h.len() - 1]);
        let names = level_names(c, h.len() as int);
        Seq::new(own.len(), |i: int| (name_or_unknown(names, i), prop_type_label(own[i])))
    }
}

pub open spec fn pairs_view(v: Seq<(&str, &str)>) -> Seq<(Seq<char>, Seq<char>)> {
    Seq::new(v.len(), |i: int| (v[i].0@, v[i].1@))
}

/// The own (leaf-level) property definitions of a class, as (name, type)
/// pairs.
pub fn own_properties_for(class_name: &str) -> (r: Vec<(&'static str, &'static str)>)
    ensures
        pairs_view(r@) == own_props(class_name@),
{
    let hierarchy = get_hierarchy(class_name);
    let mut r: Vec<(&'static str, &'static str)> = Vec::new();
    if hierarchy.len() == 0 {
        assert(pairs_view(r@) =~= own_props(class_name@));
        return r;
    }
    let own_types = hierarchy[hierarchy.len() - 1];
    let names = get_names_for_hierarchy_level(class_name, hierarchy.len());
    let n = table_len(own_types);
    let ghost own = table_types(own_types);
    let mut i: usize = 0;
    while i < n
        invariant
            i <= n,
            n == own.len(),
            own == table_types(own_types),
            names == level_names(class_name@, hierarchy@.len() as int),
            own_types == hierarchy@[hierarchy@.len() - 1],
            hierarchy@ == spec_hierarchy(class_name@),
            hierarchy@.len() > 0,
            r@.len() == i,
            forall|j: int| 0 <= j < i ==> (#[trigger] r@[j].0@, r@[j].1@) == own_props(class_name@)[j],
        decreases n - i,
    {
        let t = match type_at(own_types, i as u32) {
            Some(t) => t,
            None => PropType::Bool,
        };
        let name = name_at(names, i as u32);
        let label = type_str(t);
        assert(t == own[i as int]);
        assert(name@ == name_or_unknown(names, i as int));
        assert(own_props(class_name@)[i as int] == (name@, label@));
        r.push((name, label));
        i = i + 1;
    }
    assert(pairs_view(r@) =~= own_props(class_name@));
    r
}

// ---------------------------------------------------------------------------
// Collecting custom classes
// ---------------------------------------------------------------------------

/// A class that needs an extension file: not a standard class, and not a
/// standard class with a numeric suffix.
pub open spec fn is_custom(c: Seq<char>) -> bool {
    !is_standard(c) && (trim_digits(c) == c || !is_standard(trim_digits(c)))
}

/// The custom classes used by `o` and its descendants.
pub open spec fn custom_classes(o: SObject, strings: Seq<Seq<char>>) -> Set<Seq<char>>
    decreases o, 0int,
{
    let own = match string_at(strings, o.class_name) {
        Some(c) => if is_custom(c) {
            set![c]
        } else {
            Set::empty()
        },
        None => Set::empty(),
    };
    own.union(custom_classes_of(o.children, strings))
}

/// The custom classes used by the objects `os` and their descendants.
pub open spec fn custom_classes_of(os: Seq<SObject>, strings: Seq<Seq<char>>) -> Set<Seq<char>>
    decreases os, 1int,
{
    if os.len() == 0 {
        Set::empty()
    } else {
        custom_classes_of(os.subrange(0, os.len() - 1), strings).union(
            custom_classes(os[os.len() - 1], strings),
        )
    }
}

/// Whether `class` needs an extension file.
pub fn is_custom_class(class: &str) -> (r: bool)
    ensures
        r == is_custom(class@),
{
    if is_standard_class(class) {
        return false;
    }
    let base = trim_end_digits(class);
    str_eq(base.as_str(), class) || !is_standard_class(base.as_str())
}

/// Collects all non-standard class names of an object tree.
pub fn collect_custom_classes(obj: &Object, strings: &Vec<String>, out: &mut ClassSet)
    ensures
        final(out)@.to_set() == old(out)@.to_set().union(
            custom_classes(object_view(*obj), strings_view(strings@)),
        ),
        ascending(final(out)@),
    decreases *obj,
{
    let ghost strs = strings_view(strings@);
    let ghost o = object_view(*obj);
    let ghost start = out@.to_set();
    if obj.class_name >= 1 && ((obj.class_name - 1) as usize) < strings.len() {
        let class = &strings[(obj.class_name - 1) as usize];
        if is_custom_class(class.as_str()) {
            out.insert(class.clone());
        }
    }
    let ghost own = match string_at(strs, o.class_name) {
        Some(c) => if is_custom(c) {
            set![c]
        } else {
            Set::<Seq<char>>::empty()
        },
        None => Set::<Seq<char>>::empty(),
    };
    assert(out@.to_set() =~= start.union(own));
    let mut i: usize = 0;
    while i < obj.children.len()
        invariant
            i <= obj.children@.len(),
            strs == strings_view(strings@),
            o == object_view(*obj),
            out@.to_set() == start.union(own).union(
                custom_classes_of(o.children.subrange(0, i as int), strs),
            ),
        decreases obj.children@.len() - i,
    {
        proof {
            crate::xur::lemma_object_view(*obj);
        }
        collect_custom_classes(&obj.children[i], strings, out);
        proof {
            let cs = o.children.subrange(0, (i + 1) as int);
            assert(cs.subrange(0, i as int) =~= o.children.subrange(0, i as int));
            assert(cs[i as int] == object_view(obj.children@[i as int]));
            assert(out@.to_set() =~= start.union(own).union(custom_classes_of(cs, strs)));
        }
        i = i + 1;
    }
    proof {
        crate::xur::lemma_object_view(*obj);
        assert(o.children.subrange(0, o.children.len() as int) =~= o.children);
        assert(out@.to_set() =~= start.union(custom_classes(o, strs)));
    }
    proof {
        use_type_invariant(&*out);
    }
}

/// Collects the custom classes of a XUR into a shared set (for archive-wide
/// consolidation).
pub fn collect_custom_classes_from_xur(xur: &Xur, out: &mut ClassSet)
    ensures
        final(out)@.to_set() == old(out)@.to_set().union(custom_classes(xur@.root, xur@.strings)),
        ascending(final(out)@),
{
    collect_custom_classes(&xur.root, &xur.strings, out);
}

// ---------------------------------------------------------------------------
// Extension documents
// ---------------------------------------------------------------------------

/// The property definitions of `props`, skipping unnamed slots.
pub open spec fn prop_defs(props: Seq<(Seq<char>, Seq<char>)>) -> Seq<char>
    decreases props.len(),
{
    if props.len() == 0 {
        Seq::empty()
    } else {
        let (name, ty) = props.last();
        prop_defs(props.drop_last()) + if name == "Unknown"@ {
            Seq::empty()
        } else {
            "<PropDef Flags=\"\" Name=\""@ + name + "\" Type=\""@ + ty + "\" Editor=\"\">\n"@
                + "<DefaultVal></DefaultVal>\n"@ + "</PropDef>\n"@
        }
    }
}

/// The `XUIClass` element of class `c`.
pub open spec fn class_element(c: Seq<char>) -> Seq<char> {
    "<XUIClass Name=\""@ + c + "\" BaseClassName=\""@ + base_class(c) + "\""@
        + " Bitmap=\"\" Icon=\"\" DefaultWidth=\"100\" DefaultHeight=\"100\" Description=\""@ + c
        + "\">\n"@ + prop_defs(own_props(c)) + "</XUIClass>\n"@
}

/// The `XUIClass` elements of `cs`, in order.
pub open spec fn class_elements(cs: Seq<Seq<char>>) -> Seq<char>
    decreases cs.len(),
{
    if cs.len() == 0 {
        Seq::empty()
    } else {
        class_elements(cs.drop_last()) + class_element(cs.last())
    }
}

pub open spec fn extension_open() -> Seq<char> {
    "<XUIClassExtension version=\"0001\">\n"@
}

pub open spec fn extension_close() -> Seq<char> {
    "</XUIClassExtension>\n"@
}

/// Appends the `XUIClass` element of `class_name`.
fn push_class_element(out: &mut String, class_name: &str)
    ensures
        final(out)@ == old(out)@ + class_element(class_name@),
{
    let base = base_class_for(class_name);
    let props = own_properties_for(class_name);
    let mut e = String::new();
    push_str(&mut e, "<XUIClass Name=\"");
    push_str(&mut e, class_name);
    push_str(&mut e, "\" BaseClassName=\"");
    push_str(&mut e, base.as_str());
    push_str(&mut e, "\"");
    push_str(
        &mut e,
        " Bitmap=\"\" Icon=\"\" DefaultWidth=\"100\" DefaultHeight=\"100\" Description=\"",
    );
    push_str(&mut e, class_name);
    push_str(&mut e, "\">\n");
    let ghost head = e@;
    let ghost ps = pairs_view(props@);
    let mut i: usize = 0;
    while i < props.len()
        invariant
            i <= props@.len(),
            ps == pairs_view(props@),
            e@ == head + prop_defs(ps.subrange(0, i as int)),
        decreases props@.len() - i,
    {
        let (name, type_str) = props[i];
        let ghost before = e@;
        if !str_eq(name, "Unknown") {
            push_str(&mut e, "<PropDef Flags=\"\" Name=\"");
            push_str(&mut e, name);
            push_str(&mut e, "\" Type=\"");
            push_str(&mut e, type_str);
            push_str(&mut e, "\" Editor=\"\">\n");
            push_str(&mut e, "<DefaultVal></DefaultVal>\n");
            push_str(&mut e, "</PropDef>\n");
        }
        proof {
            let sub = ps.subrange(0, (i + 1) as int);
            assert(sub.drop_last() =~= ps.subrange(0, i as int));
            assert(sub.last() == (name@, type_str@));
            assert(e@ =~= head + prop_defs(sub));
        }
        i = i + 1;
    }
    push_str(&mut e, "</XUIClass>\n");
    assert(ps.subrange(0, ps.len() as int) =~= ps);
    assert(e@ =~= class_element(class_name@));
    push_str(out, e.as_str());
}

/// The extension document for the custom classes `cs`, or none when there
/// are none.
pub open spec fn extensions_doc(cs: Seq<Seq<char>>) -> Option<Seq<char>> {
    if cs.len() == 0 {
        None
    } else {
        Some(extension_open() + class_elements(cs) + extension_close())
    }
}

/// Generates XUI class extension XML from a set of custom class names.
/// Returns `None` when the set is empty.
pub fn generate_class_extensions_from_map(custom: &ClassSet) -> (r: Option<String>)
    ensures
        ascending(custom@),
        match extensions_doc(custom@) {
            Some(d) => r matches Some(s) && s@ == d,
            None => r is None,
        },
{
    proof {
        use_type_invariant(custom);
    }
    if custom.is_empty() {
        return None;
    }
    let mut out = String::new();
    push_str(&mut out, "<XUIClassExtension version=\"0001\">\n");
    let n = custom.len();
    let mut i: usize = 0;
    while i < n
        invariant
            i <= n,
            n == custom@.len(),
            out@ == extension_open() + class_elements(custom@.subrange(0, i as int)),
        decreases n - i,
    {
        let ghost before = out@;
        push_class_element(&mut out, custom.get(i));
        proof {
            let sub = custom@.subrange(0, (i + 1) as int);
            assert(sub.drop_last() =~= custom@.subrange(0, i as int));
            assert(out@ =~= extension_open() + class_elements(sub));
        }
        i = i + 1;
    }
    push_str(&mut out, "</XUIClassExtension>\n");
    assert(custom@.subrange(0, n as int) =~= custom@);
    Some(out)
}

/// Generates XUI class extension XML for all non-standard classes of a XUR
/// file. Returns `None` when there are none.
pub fn generate_class_extensions(xur: &Xur) -> (r: Option<String>)
    ensures
        exists|cs: Seq<Seq<char>>|
            {
                &&& ascending(cs)
                &&& cs.to_set() == custom_classes(xur@.root, xur@.strings)
                &&& match extensions_doc(cs) {
                    Some(d) => r matches Some(s) && s@ == d,
                    None => r is None,
                }
            },
{
    let mut custom = ClassSet::new();
    assert(custom@.to_set() =~= Set::<Seq<char>>::empty());
    collect_custom_classes(&xur.root, &xur.strings, &mut custom);
    proof {
        use_type_invariant(&custom);
        assert(custom@.to_set() =~= custom_classes(xur@.root, xur@.strings));
    }
    generate_class_extensions_from_map(&custom)
}

/// The extension document of a single class.
pub open spec fn single_extension_doc(c: Seq<char>) -> Seq<char> {
    extension_open() + class_element(c) + extension_close()
}

/// Generates a XUI class extension XML file for a single class.
pub fn generate_single_class_extension(class_name: &str) -> (r: String)
    ensures
        r@ == single_extension_doc(class_name@),
{
    let mut out = String::new();
    push_str(&mut out, "<XUIClassExtension version=\"0001\">\n");
    push_class_element(&mut out, class_name);
    push_str(&mut out, "</XUIClassExtension>\n");
    assert(out@ =~= single_extension_doc(class_name@));
    out
}

// ---------------------------------------------------------------------------
// Laws
// ---------------------------------------------------------------------------

/// A set of names has one ascending order: two ascending sequences with the
/// same elements are equal. So a `ClassSet` is determined by its names, and
/// `generate_class_extensions` by the custom classes of the XUR.
pub proof fn lemma_ascending_unique(a: Seq<Seq<char>>, b: Seq<Seq<char>>)
    requires
        ascending(a),
        ascending(b),
        a.to_set() == b.to_set(),
    ensures
        a == b,
    decreases a.len(),
{
    if a.len() == 0 {
        if b.len() > 0 {
            assert(b.to_set().contains(b[0]));
        }
        assert(a =~= b);
    } else {
        assert(a.to_set().contains(a[0]));
        assert(b.to_set().contains(a[0]));
        let j = choose|j: int| 0 <= j < b.len() && b[j] == a[0];
        assert(b.to_set().contains(b[0]));
        assert(a.to_set().contains(b[0]));
        let i = choose|i: int| 0 <= i < a.len() && a[i] == b[0];
        if j > 0 {
            assert(lex_lt(b[0], b[j]));
            lemma_lex_trichotomy(a[0], a[0]);
            if i > 0 {
                assert(lex_lt(a[0], a[i]));
                lemma_lex_transitive(a[0], b[0], a[0], 0);
            }
            assert(false);
        }
        assert(a[0] == b[0]);
        let ta = a.drop_first();
        let tb = b.drop_first();
        assert forall|x: Seq<char>| ta.to_set().contains(x) implies tb.to_set().contains(x) by {
            let k = choose|k: int| 0 <= k < ta.len() && ta[k] == x;
            assert(a[k + 1] == x);
            assert(lex_lt(a[0], a[k + 1]));
            lemma_lex_trichotomy(a[0], x);
            assert(b.to_set().contains(x));
            let m = choose|m: int| 0 <= m < b.len() && b[m] == x;
            assert(m != 0);
            assert(tb[m - 1] == x);
        }
        assert forall|x: Seq<char>| tb.to_set().contains(x) implies ta.to_set().contains(x) by {
            let k = choose|k: int| 0 <= k < tb.len() && tb[k] == x;
            assert(b[k + 1] == x);
            assert(lex_lt(b[0], b[k + 1]));
            lemma_lex_trichotomy(b[0], x);
            assert(a.to_set().contains(x));
            let m = choose|m: int| 0 <= m < a.len() && a[m] == x;
            assert(m != 0);
            assert(ta[m - 1] == x);
        }
        assert(ta.to_set() =~= tb.to_set());
        assert(ascending(ta)) by {
            assert forall|p: int, q: int| 0 <= p < q < ta.len() implies lex_lt(
                #[trigger] ta[p],
                #[trigger] ta[q],
            ) by {
                assert(ta[p] == a[p + 1]);
                assert(ta[q] == a[q + 1]);
            }
        }
        assert(ascending(tb)) by {
            assert forall|p: int, q: int| 0 <= p < q < tb.len() implies lex_lt(
                #[trigger] tb[p],
                #[trigger] tb[q],
            ) by {
                assert(tb[p] == b[p + 1]);
                assert(tb[q] == b[q + 1]);
            }
        }
        lemma_ascending_unique(ta, tb);
        assert(a =~= b) by {
            assert forall|k: int| 0 <= k < a.len() implies a[k] == b[k] by {
                if k > 0 {
                    assert(a[k] == ta[k - 1]);
                    assert(b[k] == tb[k - 1]);
                }
            }
        }
    }
}

} // verus!
