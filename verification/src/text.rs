//! Chat text components: the raw recursive form carried in JSON
//! payloads, the flat styled runs they normalize to, and the sixteen
//! named colors with their formatting codes.

use vstd::prelude::*;
use vstd::std_specs::iter::IteratorSpec;
use vstd::string::StringExecFns;

use crate::strutil::push_char;

verus! {

/// One of the sixteen named chat colors.
#[derive(Debug, Clone, Copy, PartialEq, Eq, Structural)]
pub enum ColorName {
    Black,
    DarkBlue,
    DarkGreen,
    DarkAqua,
    DarkRed,
    DarkPurple,
    Gold,
    Gray,
    DarkGray,
    Blue,
    Green,
    Aqua,
    Red,
    LightPurple,
    Yellow,
    White,
}

/// The formatting code character of a named color.
pub open spec fn spec_color_code(c: ColorName) -> char {
    match c {
        ColorName::Black => '0',
        ColorName::DarkBlue => '1',
        ColorName::DarkGreen => '2',
        ColorName::DarkAqua => '3',
        ColorName::DarkRed => '4',
        ColorName::DarkPurple => '5',
        ColorName::Gold => '6',
        ColorName::Gray => '7',
        ColorName::DarkGray => '8',
        ColorName::Blue => '9',
        ColorName::Green => 'a',
        ColorName::Aqua => 'b',
        ColorName::Red => 'c',
        ColorName::LightPurple => 'd',
        ColorName::Yellow => 'e',
        ColorName::White => 'f',
    }
}

/// The named color a formatting code denotes, if any.
pub open spec fn spec_color_of_code(code: char) -> Option<ColorName> {
    if code == '0' {
        Some(ColorName::Black)
    } else if code == '1' {
        Some(ColorName::DarkBlue)
    } else if code == '2' {
        Some(ColorName::DarkGreen)
    } else if code == '3' {
        Some(ColorName::DarkAqua)
    } else if code == '4' {
        Some(ColorName::DarkRed)
    } else if code == '5' {
        Some(ColorName::DarkPurple)
    } else if code == '6' {
        Some(ColorName::Gold)
    } else if code == '7' {
        Some(ColorName::Gray)
    } else if code == '8' {
        Some(ColorName::DarkGray)
    } else if code == '9' {
        Some(ColorName::Blue)
    } else if code == 'a' {
        Some(ColorName::Green)
    } else if code == 'b' {
        Some(ColorName::Aqua)
    } else if code == 'c' {
        Some(ColorName::Red)
    } else if code == 'd' {
        Some(ColorName::LightPurple)
    } else if code == 'e' {
        Some(ColorName::Yellow)
    } else if code == 'f' {
        Some(ColorName::White)
    } else {
        None
    }
}

impl ColorName {
    /// The formatting code of this color.
    pub fn to_code(self) -> (r: char)
        ensures
            r == spec_color_code(self),
    {
        match self {
            ColorName::Black => '0',
            ColorName::DarkBlue => '1',
            ColorName::DarkGreen => '2',
            ColorName::DarkAqua => '3',
            ColorName::DarkRed => '4',
            ColorName::DarkPurple => '5',
            ColorName::Gold => '6',
            ColorName::Gray => '7',
            ColorName::DarkGray => '8',
            ColorName::Blue => '9',
            ColorName::Green => 'a',
            ColorName::Aqua => 'b',
            ColorName::Red => 'c',
            ColorName::LightPurple => 'd',
            ColorName::Yellow => 'e',
            ColorName::White => 'f',
        }
    }

    /// The color a formatting code denotes.
    pub fn from_code(code: char) -> (r: Option<ColorName>)
        ensures
            r == spec_color_of_code(code),
    {
        match code {
            '0' => Some(ColorName::Black),
            '1' => Some(ColorName::DarkBlue),
            '2' => Some(ColorName::DarkGreen),
            '3' => Some(ColorName::DarkAqua),
            '4' => Some(ColorName::DarkRed),
            '5' => Some(ColorName::DarkPurple),
            '6' => Some(ColorName::Gold),
            '7' => Some(ColorName::Gray),
            '8' => Some(ColorName::DarkGray),
            '9' => Some(ColorName::Blue),
            'a' => Some(ColorName::Green),
            'b' => Some(ColorName::Aqua),
            'c' => Some(ColorName::Red),
            'd' => Some(ColorName::LightPurple),
            'e' => Some(ColorName::Yellow),
            'f' => Some(ColorName::White),
            _ => None,
        }
    }

    /// The CSS foreground color of this named color.
    pub open spec fn spec_foreground_color(self) -> Seq<char> {
        match self {
            ColorName::Black => "#000000"@,
            ColorName::DarkBlue => "#0000aa"@,
            ColorName::DarkGreen => "#00aa00"@,
            ColorName::DarkAqua => "#00aaaa"@,
            ColorName::DarkRed => "#aa0000"@,
            ColorName::DarkPurple => "#aa00aa"@,
            ColorName::Gold => "#ffaa00"@,
            ColorName::Gray => "#aaaaaa"@,
            ColorName::DarkGray => "#555555"@,
            ColorName::Blue => "#5555ff"@,
            ColorName::Green => "#55ff55"@,
            ColorName::Aqua => "#55ffff"@,
            ColorName::Red => "#ff5555"@,
            ColorName::LightPurple => "#ff55ff"@,
            ColorName::Yellow => "#ffff55"@,
            ColorName::White => "#ffffff"@,
        }
    }

    /// The CSS background color of this named color.
    pub open spec fn spec_background_color(self) -> Seq<char> {
        match self {
            ColorName::Black => "#000000"@,
            ColorName::DarkBlue => "#00002a"@,
            ColorName::DarkGreen => "#002a00"@,
            ColorName::DarkAqua => "#002a2a"@,
            ColorName::DarkRed => "#2a0000"@,
            ColorName::DarkPurple => "#2a002a"@,
            ColorName::Gold => "#2a2a00"@,
            ColorName::Gray => "##2a2a2a"@,
            ColorName::DarkGray => "#151515"@,
            ColorName::Blue => "#15153f"@,
            ColorName::Green => "#153f15"@,
            ColorName::Aqua => "#153f3f"@,
            ColorName::Red => "#3f1515"@,
            ColorName::LightPurple => "#3f153f"@,
            ColorName::Yellow => "#3f3f15"@,
            ColorName::White => "#3f3f3f"@,
        }
    }

    /// The CSS foreground color of this named color.
    pub fn foreground_color(&self) -> (r: &'static str)
        ensures
            r@ == self.spec_foreground_color(),
    {
        match self {
            ColorName::Black => "#000000",
            ColorName::DarkBlue => "#0000aa",
            ColorName::DarkGreen => "#00aa00",
            ColorName::DarkAqua => "#00aaaa",
            ColorName::DarkRed => "#aa0000",
            ColorName::DarkPurple => "#aa00aa",
            ColorName::Gold => "#ffaa00",
            ColorName::Gray => "#aaaaaa",
            ColorName::DarkGray => "#555555",
            ColorName::Blue => "#5555ff",
            ColorName::Green => "#55ff55",
            ColorName::Aqua => "#55ffff",
            ColorName::Red => "#ff5555",
            ColorName::LightPurple => "#ff55ff",
            ColorName::Yellow => "#ffff55",
            ColorName::White => "#ffffff",
        }
    }

    /// The CSS background color of this named color, dimmed.
    pub fn background_color(&self) -> (r: &'static str)
        ensures
            r@ == self.spec_background_color(),
    {
        match self {
            ColorName::Black => "#000000",
            ColorName::DarkBlue => "#00002a",
            ColorName::DarkGreen => "#002a00",
            ColorName::DarkAqua => "#002a2a",
            ColorName::DarkRed => "#2a0000",
            ColorName::DarkPurple => "#2a002a",
            ColorName::Gold => "#2a2a00",
            ColorName::Gray => "##2a2a2a",
            ColorName::DarkGray => "#151515",
            ColorName::Blue => "#15153f",
            ColorName::Green => "#153f15",
            ColorName::Aqua => "#153f3f",
            ColorName::Red => "#3f1515",
            ColorName::LightPurple => "#3f153f",
            ColorName::Yellow => "#3f3f15",
            ColorName::White => "#3f3f3f",
        }
    }
}

/// A chat color: one of the named colors, or a literal color string.
#[derive(Debug)]
pub enum Color {
    Named(ColorName),
    Hex(String),
}

/// The mathematical shadow of a `Color`.
pub enum ColorV {
    Named(ColorName),
    Hex(Seq<char>),
}

impl View for Color {
    type V = ColorV;

    open spec fn view(&self) -> ColorV {
        match self {
            Color::Named(c) => ColorV::Named(*c),
            Color::Hex(s) => ColorV::Hex(s@),
        }
    }
}

impl Clone for Color {
    fn clone(&self) -> (r: Self)
        ensures
            r@ == self@,
    {
        match self {
            Color::Named(c) => Color::Named(*c),
            Color::Hex(s) => Color::Hex(s.clone()),
        }
    }
}

impl Color {
    /// The CSS foreground color.
    pub fn foreground_color(&self) -> (r: &str)
        ensures
            r@ == spec_color_foreground(self@),
    {
        match self {
            Color::Named(color_name) => color_name.foreground_color(),
            Color::Hex(color) => color.as_str(),
        }
    }

    /// The CSS background color.
    pub fn background_color(&self) -> (r: &str)
        ensures
            r@ == spec_color_background(self@),
    {
        match self {
            Color::Named(color_name) => color_name.background_color(),
            Color::Hex(color) => color.as_str(),
        }
    }
}

pub open spec fn spec_color_foreground(c: ColorV) -> Seq<char> {
    match c {
        ColorV::Named(name) => name.spec_foreground_color(),
        ColorV::Hex(s) => s,
    }
}

pub open spec fn spec_color_background(c: ColorV) -> Seq<char> {
    match c {
        ColorV::Named(name) => name.spec_background_color(),
        ColorV::Hex(s) => s,
    }
}

/// A chat component as it appears in JSON: an object, an array whose
/// head carries the rest as extra children, or a bare string.
#[derive(Debug)]
pub enum RawTextComponent {
    Object(RawTextComponentObject),
    Array(Vec<RawTextComponent>),
    String(String),
}

/// The object form of a chat component: text plus optional styling and
/// children.
#[derive(Debug)]
pub struct RawTextComponentObject {
    pub text: String,
    pub bold: Option<bool>,
    pub italic: Option<bool>,
    pub underlined: Option<bool>,
    pub strikethrough: Option<bool>,
    pub obfuscated: Option<bool>,
    pub color: Option<Color>,
    pub extra: Option<Vec<RawTextComponent>>,
}

/// The mathematical shadow of a `RawTextComponent`.
pub enum TextV {
    Object(ObjV),
    Array(Seq<TextV>),
    String(Seq<char>),
}

/// The mathematical shadow of a `RawTextComponentObject`.
pub struct ObjV {
    pub text: Seq<char>,
    pub bold: Option<bool>,
    pub italic: Option<bool>,
    pub underlined: Option<bool>,
    pub strikethrough: Option<bool>,
    pub obfuscated: Option<bool>,
    pub color: Option<ColorV>,
    pub extra: Option<Seq<TextV>>,
}

/// The view of one component.
pub open spec fn text_view(c: RawTextComponent) -> TextV
    decreases c,
{
    match c {
        RawTextComponent::Object(o) => TextV::Object(obj_view(o)),
        RawTextComponent::Array(items) => TextV::Array(texts_view(items@)),
        RawTextComponent::String(s) => TextV::String(s@),
    }
}

/// The views of a list of components.
pub open spec fn texts_view(s: Seq<RawTextComponent>) -> Seq<TextV>
    decreases s,
{
    if s.len() == 0 {
        Seq::empty()
    } else {
        seq![text_view(s[0])] + texts_view(s.drop_first())
    }
}

/// The view of one component object.
pub open spec fn obj_view(o: RawTextComponentObject) -> ObjV
    decreases o,
{
    ObjV {
        text: o.text@,
        bold: o.bold,
        italic: o.italic,
        underlined: o.underlined,
        strikethrough: o.strikethrough,
        obfuscated: o.obfuscated,
        color: match o.color {
            Some(c) => Some(c@),
            None => None,
        },
        extra: match o.extra {
            Some(items) => Some(texts_view(items@)),
            None => None,
        },
    }
}

impl View for RawTextComponent {
    type V = TextV;

    open spec fn view(&self) -> TextV {
        text_view(*self)
    }
}

impl View for RawTextComponentObject {
    type V = ObjV;

    open spec fn view(&self) -> ObjV {
        obj_view(*self)
    }
}

/// Indexing fact for `texts_view`.
pub proof fn lemma_texts_view_index(s: Seq<RawTextComponent>)
    ensures
        texts_view(s).len() == s.len(),
        forall|i: int| 0 <= i < s.len() ==> #[trigger] texts_view(s)[i] == text_view(s[i]),
    decreases s,
{
    if s.len() > 0 {
        lemma_texts_view_index(s.drop_first());
        assert forall|i: int| 0 <= i < s.len() implies #[trigger] texts_view(s)[i] == text_view(
            s[i],
        ) by {
            if i > 0 {
                assert(texts_view(s)[i] == texts_view(s.drop_first())[i - 1]);
                assert(s.drop_first()[i - 1] == s[i]);
            }
        }
    }
}

impl RawTextComponentObject {
    /// An empty, unstyled object.
    pub fn empty() -> (r: RawTextComponentObject)
        ensures
            r@ == empty_obj(),
    {
        RawTextComponentObject {
            text: String::new(),
            bold: None,
            italic: None,
            underlined: None,
            strikethrough: None,
            obfuscated: None,
            color: None,
            extra: None,
        }
    }
}

/// The empty, unstyled object.
pub open spec fn empty_obj() -> ObjV {
    ObjV {
        text: Seq::empty(),
        bold: None,
        italic: None,
        underlined: None,
        strikethrough: None,
        obfuscated: None,
        color: None,
        extra: None,
    }
}

/// One flat styled run after normalization.
#[derive(Debug)]
pub struct ElaboratedTextComponent {
    pub text: String,
    pub bold: bool,
    pub italic: bool,
    pub underlined: bool,
    pub strikethrough: bool,
    pub obfuscated: bool,
    pub color: Option<Color>,
}

/// The mathematical shadow of an `ElaboratedTextComponent`.
pub struct ElabV {
    pub text: Seq<char>,
    pub bold: bool,
    pub italic: bool,
    pub underlined: bool,
    pub strikethrough: bool,
    pub obfuscated: bool,
    pub color: Option<ColorV>,
}

impl View for ElaboratedTextComponent {
    type V = ElabV;

    open spec fn view(&self) -> ElabV {
        ElabV {
            text: self.text@,
            bold: self.bold,
            italic: self.italic,
            underlined: self.underlined,
            strikethrough: self.strikethrough,
            obfuscated: self.obfuscated,
            color: match self.color {
                Some(ref c) => Some(c@),
                None => None,
            },
        }
    }
}


/// The size of a component tree, for termination of the normalizers.
pub open spec fn comp_size(t: TextV) -> nat
    decreases t,
{
    match t {
        TextV::String(_) => 1,
        TextV::Array(items) => 1 + comps_size(items),
        TextV::Object(o) => 1 + (match o.extra {
            Some(items) => comps_size(items),
            None => 0,
        }),
    }
}

pub open spec fn comps_size(items: Seq<TextV>) -> nat
    decreases items,
{
    if items.len() == 0 {
        0
    } else {
        1 + comp_size(items[0]) + comps_size(items.drop_first())
    }
}

/// The size of an object, measured as the component it came from.
pub open spec fn obj_size(o: ObjV) -> nat {
    1 + (match o.extra {
        Some(items) => comps_size(items),
        None => 0,
    })
}

proof fn lemma_comps_size_concat(a: Seq<TextV>, b: Seq<TextV>)
    ensures
        comps_size(a + b) == comps_size(a) + comps_size(b),
    decreases a.len(),
{
    if a.len() == 0 {
        assert(a + b =~= b);
    } else {
        lemma_comps_size_concat(a.drop_first(), b);
        assert((a + b).drop_first() =~= a.drop_first() + b);
        assert((a + b)[0] == a[0]);
    }
}

/// How a component collapses to its object form: an object is itself,
/// a string becomes its text, and an array becomes its first element
/// with the remaining elements appended to that element's children.
pub open spec fn obj_of_text(t: TextV) -> ObjV
    decreases t,
{
    match t {
        TextV::Object(o) => o,
        TextV::String(text) => ObjV {
            text: text,
            bold: None,
            italic: None,
            underlined: None,
            strikethrough: None,
            obfuscated: None,
            color: None,
            extra: None,
        },
        TextV::Array(items) => {
            if items.len() == 0 {
                empty_obj()
            } else {
                let first = obj_of_text(items[0]);
                if items.len() > 1 {
                    ObjV {
                        extra: Some(
                            match first.extra {
                                Some(e) => e + items.drop_first(),
                                None => items.drop_first(),
                            },
                        ),
                        ..first
                    }
                } else {
                    first
                }
            }
        },
    }
}

/// The collapse never grows the tree.
pub proof fn lemma_obj_of_text_size(t: TextV)
    ensures
        obj_size(obj_of_text(t)) <= comp_size(t),
    decreases t,
{
    match t {
        TextV::Object(_) => {},
        TextV::String(_) => {},
        TextV::Array(items) => {
            if items.len() == 0 {
            } else {
                lemma_obj_of_text_size(items[0]);
                let first = obj_of_text(items[0]);
                if items.len() > 1 {
                    match first.extra {
                        Some(e) => {
                            lemma_comps_size_concat(e, items.drop_first());
                        },
                        None => {},
                    }
                }
            }
        },
    }
}

/// A style a parent hands its children: each field either forced or
/// left to the child.
pub struct StyleV {
    pub bold: Option<bool>,
    pub italic: Option<bool>,
    pub underlined: Option<bool>,
    pub strikethrough: Option<bool>,
    pub obfuscated: Option<bool>,
    pub color: Option<ColorV>,
}

/// The empty style: nothing forced.
pub open spec fn default_style() -> StyleV {
    StyleV {
        bold: None,
        italic: None,
        underlined: None,
        strikethrough: None,
        obfuscated: None,
        color: None,
    }
}

/// A child's value wins over the parent's; the parent fills gaps.
pub open spec fn merge_opt<T>(parent: Option<T>, current: Option<T>) -> Option<T> {
    match current {
        Some(v) => Some(v),
        None => parent,
    }
}

/// The style an object elaborates under a parent style.
pub open spec fn merged_style(parent: StyleV, o: ObjV) -> StyleV {
    StyleV {
        bold: merge_opt(parent.bold, o.bold),
        italic: merge_opt(parent.italic, o.italic),
        underlined: merge_opt(parent.underlined, o.underlined),
        strikethrough: merge_opt(parent.strikethrough, o.strikethrough),
        obfuscated: merge_opt(parent.obfuscated, o.obfuscated),
        color: merge_opt(parent.color, o.color),
    }
}

/// The flat run an object's own text produces under a style.
pub open spec fn styled_run(text: Seq<char>, style: StyleV) -> ElabV {
    ElabV {
        text: text,
        bold: style.bold == Some(true),
        italic: style.italic == Some(true),
        underlined: style.underlined == Some(true),
        strikethrough: style.strikethrough == Some(true),
        obfuscated: style.obfuscated == Some(true),
        color: style.color,
    }
}

/// Elaborating an object: its own run, then its children under the
/// merged style.
pub open spec fn elaborate_obj(parent: StyleV, o: ObjV) -> Seq<ElabV>
    decreases obj_size(o), 0int,
{
    let style = merged_style(parent, o);
    seq![styled_run(o.text, style)] + (match o.extra {
        Some(items) => elaborate_list(style, items),
        None => Seq::empty(),
    })
}

/// Elaborating a run of children, left to right.
pub open spec fn elaborate_list(parent: StyleV, items: Seq<TextV>) -> Seq<ElabV>
    decreases comps_size(items), 1int,
    via elaborate_list_decreases
{
    if items.len() == 0 {
        Seq::empty()
    } else {
        elaborate_obj(parent, obj_of_text(items[0])) + elaborate_list(parent, items.drop_first())
    }
}

#[via_fn]
proof fn elaborate_list_decreases(parent: StyleV, items: Seq<TextV>) {
    if items.len() > 0 {
        lemma_obj_of_text_size(items[0]);
    }
}

/// The full normalization: collapse to an object, then flatten to
/// styled runs under no inherited style.
pub open spec fn elaborated(t: TextV) -> Seq<ElabV> {
    elaborate_obj(default_style(), obj_of_text(t))
}

impl RawTextComponentObject {
    /// Collapse any component into its object form.
    pub fn from_component(value: RawTextComponent) -> (r: RawTextComponentObject)
        ensures
            obj_view(r) == obj_of_text(text_view(value)),
        decreases comp_size(text_view(value)),
    {
        match value {
            RawTextComponent::Object(o) => o,
            RawTextComponent::String(text) => RawTextComponentObject {
                text,
                bold: None,
                italic: None,
                underlined: None,
                strikethrough: None,
                obfuscated: None,
                color: None,
                extra: None,
            },
            RawTextComponent::Array(arr) => {
                let ghost orig: Seq<RawTextComponent> = arr@;
                let ghost items_v = texts_view(orig);
                proof {
                    lemma_texts_view_index(orig);
                }
                if arr.len() == 0 {
                    proof {
                        assert(items_v.len() == 0);
                    }
                    return RawTextComponentObject::empty();
                }
                let mut arr = arr;
                let first_component = arr.remove(0);
                proof {
                    assert(arr@ =~= orig.drop_first());
                    lemma_texts_view_drop_first(orig);
                    assert(texts_view(arr@) == items_v.drop_first());
                    assert(text_view(first_component) == items_v[0]);
                    assert(comps_size(items_v) == 1 + comp_size(items_v[0]) + comps_size(
                        items_v.drop_first(),
                    ));
                }
                let mut first = RawTextComponentObject::from_component(first_component);
                let ghost first_spec = obj_of_text(items_v[0]);
                if arr.len() > 0 {
                    let extra: Vec<RawTextComponent> = match first.extra {
                        Some(mut e) => {
                            let ghost e0: Seq<RawTextComponent> = e@;
                            e.append(&mut arr);
                            proof {
                                assert(e@ =~= e0 + orig.drop_first());
                                lemma_texts_view_concat_full(e0, orig.drop_first());
                                assert(texts_view(e@) == texts_view(e0) + items_v.drop_first());
                            }
                            e
                        },
                        None => arr,
                    };
                    let r = RawTextComponentObject {
                        text: first.text,
                        bold: first.bold,
                        italic: first.italic,
                        underlined: first.underlined,
                        strikethrough: first.strikethrough,
                        obfuscated: first.obfuscated,
                        color: first.color,
                        extra: Some(extra),
                    };
                    proof {
                        assert(items_v.len() > 1);
                        assert(obj_view(r) == obj_of_text(text_view(value)));
                    }
                    r
                } else {
                    proof {
                        assert(items_v.len() == 1);
                    }
                    first
                }
            },
        }
    }
}

/// The view of a concatenation is the concatenation of the views.
pub proof fn lemma_texts_view_concat_full(a: Seq<RawTextComponent>, b: Seq<RawTextComponent>)
    ensures
        texts_view(a + b) == texts_view(a) + texts_view(b),
    decreases a.len(),
{
    if a.len() == 0 {
        assert(a + b =~= b);
        assert(texts_view(a) =~= Seq::<TextV>::empty());
        assert(texts_view(a) + texts_view(b) =~= texts_view(b));
    } else {
        lemma_texts_view_concat_full(a.drop_first(), b);
        assert((a + b).drop_first() =~= a.drop_first() + b);
        assert((a + b)[0] == a[0]);
        assert(texts_view(a + b) =~= texts_view(a) + texts_view(b));
    }
}

/// Dropping the first element commutes with taking views.
pub proof fn lemma_texts_view_drop_first(s: Seq<RawTextComponent>)
    requires
        s.len() > 0,
    ensures
        texts_view(s.drop_first()) == texts_view(s).drop_first(),
{
    assert(texts_view(s) == seq![text_view(s[0])] + texts_view(s.drop_first()));
    assert(texts_view(s).drop_first() =~= texts_view(s.drop_first()));
}


/// An inheritable style, executable form.
#[derive(Debug)]
pub struct StyleSettings {
    pub bold: Option<bool>,
    pub italic: Option<bool>,
    pub underlined: Option<bool>,
    pub strikethrough: Option<bool>,
    pub obfuscated: Option<bool>,
    pub color: Option<Color>,
}

impl View for StyleSettings {
    type V = StyleV;

    open spec fn view(&self) -> StyleV {
        StyleV {
            bold: self.bold,
            italic: self.italic,
            underlined: self.underlined,
            strikethrough: self.strikethrough,
            obfuscated: self.obfuscated,
            color: match self.color {
                Some(ref c) => Some(c@),
                None => None,
            },
        }
    }
}

fn clone_opt_color(c: &Option<Color>) -> (r: Option<Color>)
    ensures
        (match r {
            Some(cr) => match c {
                Some(co) => cr@ == co@,
                None => false,
            },
            None => c is None,
        }),
{
    match c {
        Some(color) => Some(color.clone()),
        None => None,
    }
}

fn merge_bool(parent: &Option<bool>, current: &Option<bool>) -> (r: Option<bool>)
    ensures
        r == merge_opt(*parent, *current),
{
    match current {
        Some(b) => Some(*b),
        None => *parent,
    }
}

fn is_set(v: &Option<bool>) -> (r: bool)
    ensures
        r == (*v == Some(true)),
{
    match v {
        Some(true) => true,
        _ => false,
    }
}

proof fn lemma_comps_size_element(items: Seq<TextV>, i: int)
    requires
        0 <= i < items.len(),
    ensures
        comp_size(items[i]) < comps_size(items),
    decreases i,
{
    if i == 0 {
    } else {
        lemma_comps_size_element(items.drop_first(), i - 1);
        assert(items.drop_first()[i - 1] == items[i]);
    }
}

impl ElaboratedTextComponent {
    /// Flatten any component into its styled runs.
    pub fn from_text_component(component: RawTextComponent) -> (r: Vec<ElaboratedTextComponent>)
        ensures
            r@.map_values(|e: ElaboratedTextComponent| e@) == elaborated(text_view(component)),
    {
        let ghost tv = text_view(component);
        proof {
            lemma_obj_of_text_size(tv);
        }
        let object = RawTextComponentObject::from_component(component);
        ElaboratedTextComponent::from_text_component_object(object)
    }

    /// Flatten an object form into its styled runs.
    pub fn from_text_component_object(object: RawTextComponentObject) -> (r: Vec<
        ElaboratedTextComponent,
    >)
        ensures
            r@.map_values(|e: ElaboratedTextComponent| e@) == elaborate_obj(
                default_style(),
                obj_view(object),
            ),
    {
        let mut out: Vec<ElaboratedTextComponent> = Vec::new();
        let parent = StyleSettings {
            bold: None,
            italic: None,
            underlined: None,
            strikethrough: None,
            obfuscated: None,
            color: None,
        };
        proof {
            assert(out@.map_values(|e: ElaboratedTextComponent| e@) =~= Seq::<ElabV>::empty());
        }
        elaborate_into(&mut out, &parent, object);
        proof {
            assert(out@.map_values(|e: ElaboratedTextComponent| e@) =~= elaborate_obj(
                default_style(),
                obj_view(object),
            ));
        }
        out
    }
}

/// The views of a run list.
pub open spec fn elab_views(s: Seq<ElaboratedTextComponent>) -> Seq<ElabV> {
    s.map_values(|e: ElaboratedTextComponent| e@)
}

/// Append an object's styled runs, under an inherited style.
fn elaborate_into(
    out: &mut Vec<ElaboratedTextComponent>,
    parent: &StyleSettings,
    object: RawTextComponentObject,
)
    ensures
        elab_views(final(out)@) == elab_views(old(out)@) + elaborate_obj(parent@, obj_view(object)),
    decreases obj_size(obj_view(object)), 0int,
{
    let ghost ov = obj_view(*&object);
    let ghost style_v = merged_style(parent@, ov);
    let current = StyleSettings {
        bold: merge_bool(&parent.bold, &object.bold),
        italic: merge_bool(&parent.italic, &object.italic),
        underlined: merge_bool(&parent.underlined, &object.underlined),
        strikethrough: merge_bool(&parent.strikethrough, &object.strikethrough),
        obfuscated: merge_bool(&parent.obfuscated, &object.obfuscated),
        color: match (&parent.color, &object.color) {
            (_, Some(c)) => Some(c.clone()),
            (Some(c), None) => Some(c.clone()),
            (None, None) => None,
        },
    };
    proof {
        assert(current@ == style_v);
    }
    let run = ElaboratedTextComponent {
        text: object.text,
        bold: is_set(&current.bold),
        italic: is_set(&current.italic),
        underlined: is_set(&current.underlined),
        strikethrough: is_set(&current.strikethrough),
        obfuscated: is_set(&current.obfuscated),
        color: clone_opt_color(&current.color),
    };
    proof {
        assert(run@ == styled_run(ov.text, style_v));
    }
    out.push(run);
    proof {
        assert(elab_views(out@) =~= elab_views(old(out)@) + seq![styled_run(ov.text, style_v)]);
    }
    let mut items: Vec<RawTextComponent> = match object.extra {
        Some(items) => items,
        None => Vec::new(),
    };
    let ghost extra_v: Seq<TextV> = match ov.extra {
        Some(e) => e,
        None => Seq::empty(),
    };
    proof {
        assert(texts_view(items@) == extra_v);
    }
    let ghost base: Seq<ElabV> = elab_views(old(out)@) + seq![styled_run(ov.text, style_v)];
    while items.len() > 0
        invariant
            base == elab_views(old(out)@) + seq![styled_run(ov.text, style_v)],
            style_v == current@,
            comps_size(texts_view(items@)) <= comps_size(extra_v),
            extra_v == (match ov.extra {
                Some(e) => e,
                None => Seq::<TextV>::empty(),
            }),
            ov == obj_view(object),
            elab_views(out@) + elaborate_list(style_v, texts_view(items@)) == base
                + elaborate_list(style_v, extra_v),
        decreases comps_size(texts_view(items@)),
    {
        let ghost before: Seq<RawTextComponent> = items@;
        let item = items.remove(0);
        proof {
            assert(items@ =~= before.drop_first());
            lemma_texts_view_drop_first(before);
            lemma_texts_view_index(before);
            assert(text_view(item) == texts_view(before)[0]);
            lemma_obj_of_text_size(text_view(item));
            assert(comps_size(texts_view(before)) == 1 + comp_size(texts_view(before)[0])
                + comps_size(texts_view(before).drop_first()));
        }
        let obj = RawTextComponentObject::from_component(item);
        elaborate_into(out, &current, obj);
        proof {
            assert(elaborate_list(style_v, texts_view(before)) == elaborate_obj(
                style_v,
                obj_of_text(texts_view(before)[0]),
            ) + elaborate_list(style_v, texts_view(items@)));
            assert(elab_views(out@) + elaborate_list(style_v, texts_view(items@)) =~= base
                + elaborate_list(style_v, extra_v));
        }
    }
    proof {
        assert(texts_view(items@).len() == 0);
        assert(elaborate_list(style_v, texts_view(items@)) == Seq::<ElabV>::empty());
        assert(elab_views(out@) =~= base + elaborate_list(style_v, extra_v));
        assert(elab_views(out@) =~= elab_views(old(out)@) + elaborate_obj(parent@, ov));
    }
}


/// A fully-resolved style for the formatting-code decoder.
pub struct RunStyleV {
    pub bold: bool,
    pub italic: bool,
    pub underlined: bool,
    pub strikethrough: bool,
    pub obfuscated: bool,
    pub color: Option<ColorV>,
}

/// The unstyled starting state.
pub open spec fn plain_style() -> RunStyleV {
    RunStyleV {
        bold: false,
        italic: false,
        underlined: false,
        strikethrough: false,
        obfuscated: false,
        color: None,
    }
}

/// What one formatting code does to the current style: a color code
/// sets the color, the five toggles set their flag, `r` resets
/// everything, and anything else is ignored.
pub open spec fn apply_code(style: RunStyleV, c: char) -> RunStyleV {
    match spec_color_of_code(c) {
        Some(color) => RunStyleV { color: Some(ColorV::Named(color)), ..style },
        None => {
            if c == 'k' {
                RunStyleV { obfuscated: true, ..style }
            } else if c == 'l' {
                RunStyleV { bold: true, ..style }
            } else if c == 'm' {
                RunStyleV { strikethrough: true, ..style }
            } else if c == 'n' {
                RunStyleV { underlined: true, ..style }
            } else if c == 'o' {
                RunStyleV { italic: true, ..style }
            } else if c == 'r' {
                plain_style()
            } else {
                style
            }
        },
    }
}

/// The run a style and text produce.
pub open spec fn run_of(text: Seq<char>, style: RunStyleV) -> ElabV {
    ElabV {
        text: text,
        bold: style.bold,
        italic: style.italic,
        underlined: style.underlined,
        strikethrough: style.strikethrough,
        obfuscated: style.obfuscated,
        color: style.color,
    }
}

/// The decoder's state machine: scanning text (accumulating `text`),
/// or expecting the code character after a section sign. A section
/// sign flushes the accumulated text, except at the very start; at the
/// end of input the accumulated text flushes unless a code is pending.
pub open spec fn decode_codes_from(
    chars: Seq<char>,
    at_start: bool,
    in_code: bool,
    style: RunStyleV,
    text: Seq<char>,
) -> Seq<ElabV>
    decreases chars.len(),
{
    if chars.len() == 0 {
        if in_code {
            Seq::empty()
        } else {
            seq![run_of(text, style)]
        }
    } else if in_code {
        decode_codes_from(chars.drop_first(), false, false, apply_code(style, chars[0]), Seq::empty())
    } else if chars[0] == '\u{a7}' {
        (if at_start {
            Seq::empty()
        } else {
            seq![run_of(text, style)]
        }) + decode_codes_from(chars.drop_first(), false, true, style, Seq::empty())
    } else {
        decode_codes_from(chars.drop_first(), false, false, style, text.push(chars[0]))
    }
}

/// What decoding a legacy formatting-code string yields.
pub open spec fn decoded_codes(chars: Seq<char>) -> Seq<ElabV> {
    decode_codes_from(chars, true, false, plain_style(), Seq::empty())
}

impl ElaboratedTextComponent {
    /// Decode a string styled with legacy section-sign formatting codes
    /// into flat styled runs.
    pub fn decode_formatting_codes(string: &str) -> (r: Vec<ElaboratedTextComponent>)
        ensures
            elab_views(r@) == decoded_codes(string@),
    {
        broadcast use vstd::string::axiom_spec_iter, vstd::string::next_postcondition;

        let ghost full: Seq<char> = string@;
        let mut it = string.chars();
        let mut out: Vec<ElaboratedTextComponent> = Vec::new();
        let mut text = String::new();
        let mut bold = false;
        let mut italic = false;
        let mut underlined = false;
        let mut strikethrough = false;
        let mut obfuscated = false;
        let mut color: Option<Color> = None;
        let mut at_start = true;
        let mut in_code = false;
        let ghost mut i: int = 0;
        proof {
            assert(full.skip(0) =~= full);
            assert(elab_views(out@) =~= Seq::<ElabV>::empty());
        }
        loop
            invariant
                0 <= i <= full.len(),
                full == string@,
                it.remaining() == full.skip(i),
                at_start ==> i == 0 && !in_code && text@.len() == 0,
                in_code ==> text@.len() == 0,
                elab_views(out@) + decode_codes_from(
                    full.skip(i),
                    at_start,
                    in_code,
                    current_run_style(bold, italic, underlined, strikethrough, obfuscated, color),
                    text@,
                ) == decoded_codes(full),
            decreases full.len() - i,
        {
            let ghost style_v = current_run_style(
                bold,
                italic,
                underlined,
                strikethrough,
                obfuscated,
                color,
            );
            let ghost text0: Seq<char> = text@;
            let c = match it.next() {
                None => {
                    proof {
                        assert(full.skip(i).len() == 0);
                    }
                    if in_code {
                        return out;
                    } else {
                        let ghost prev: Seq<ElabV> = elab_views(out@);
                        let ghost flushed: Seq<char> = text@;
                        let run = ElaboratedTextComponent {
                            text,
                            bold,
                            italic,
                            underlined,
                            strikethrough,
                            obfuscated,
                            color,
                        };
                        proof {
                            assert(run@ == run_of(flushed, style_v));
                        }
                        out.push(run);
                        proof {
                            assert(elab_views(out@) =~= prev + seq![run_of(flushed, style_v)]);
                            assert(elab_views(out@) =~= decoded_codes(full));
                        }
                        return out;
                    }
                },
                Some(c) => c,
            };
            assert(c == full[i]);
            proof {
                assert(full.skip(i).drop_first() =~= full.skip(i + 1));
                assert(full.skip(i)[0] == full[i]);
            }
            if in_code {
                match ColorName::from_code(c) {
                    Some(name) => {
                        color = Some(Color::Named(name));
                    },
                    None => {
                        if c == 'k' {
                            obfuscated = true;
                        } else if c == 'l' {
                            bold = true;
                        } else if c == 'm' {
                            strikethrough = true;
                        } else if c == 'n' {
                            underlined = true;
                        } else if c == 'o' {
                            italic = true;
                        } else if c == 'r' {
                            bold = false;
                            italic = false;
                            underlined = false;
                            strikethrough = false;
                            obfuscated = false;
                            color = None;
                        }
                    },
                }
                in_code = false;
                proof {
                    assert(current_run_style(
                        bold,
                        italic,
                        underlined,
                        strikethrough,
                        obfuscated,
                        color,
                    ) == apply_code(style_v, c));
                    assert(text@ =~= Seq::<char>::empty());
                }
            } else if c == '\u{a7}' {
                if !at_start {
                    let ghost prev: Seq<ElabV> = elab_views(out@);
                    let ghost flushed: Seq<char> = text@;
                    let run = ElaboratedTextComponent {
                        text,
                        bold,
                        italic,
                        underlined,
                        strikethrough,
                        obfuscated,
                        color: clone_opt_color(&color),
                    };
                    proof {
                        assert(run@ == run_of(flushed, style_v));
                    }
                    out.push(run);
                    proof {
                        assert(elab_views(out@) =~= prev + seq![run_of(flushed, style_v)]);
                    }
                    text = String::new();
                } else {
                    text = String::new();
                }
                in_code = true;
                at_start = false;
            } else {
                push_char(&mut text, c);
                at_start = false;
                proof {
                    assert(text@ =~= text0.push(c));
                }
            }
            proof {
                assert(elab_views(out@) + decode_codes_from(
                    full.skip(i + 1),
                    at_start,
                    in_code,
                    current_run_style(bold, italic, underlined, strikethrough, obfuscated, color),
                    text@,
                ) =~= decoded_codes(full));
                i = i + 1;
            }
        }
    }
}

/// The style the decoder's executable flags denote.
pub open spec fn current_run_style(
    bold: bool,
    italic: bool,
    underlined: bool,
    strikethrough: bool,
    obfuscated: bool,
    color: Option<Color>,
) -> RunStyleV {
    RunStyleV {
        bold: bold,
        italic: italic,
        underlined: underlined,
        strikethrough: strikethrough,
        obfuscated: obfuscated,
        color: match color {
            Some(c) => Some(c@),
            None => None,
        },
    }
}

} // verus!
