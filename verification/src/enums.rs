//! Enumerations of the engine's components, convertible to and from `u32`.
use vstd::prelude::*;

verus! {

/// A component value that can be converted to and from a `u32`.
pub trait EnumComponent: Sized {
    spec fn spec_to_u32(&self) -> u32;

    spec fn spec_from_u32(value: u32) -> Option<Self>;

    fn to_u32(&self) -> (r: u32)
        ensures
            r == self.spec_to_u32(),
    ;

    fn from_u32(value: u32) -> (r: Option<Self>)
        ensures
            r == Self::spec_from_u32(value),
    ;

    /// Converting to `u32` and back gives the value back.
    proof fn lemma_round_trip(x: Self)
        ensures
            Self::spec_from_u32(x.spec_to_u32()) == Some(x),
    ;

    /// A `u32` that converts to a value is the number of that value.
    proof fn lemma_from_u32_inverse(value: u32)
        ensures
            Self::spec_from_u32(value) matches Some(x) ==> x.spec_to_u32() == value,
    ;
}

/// Layout alignment.
#[derive(Clone, Copy, PartialEq, Eq, Structural, Debug)]
pub enum Align {
    Begin,
    Center,
    End,
}

impl Align {
    /// The default value: `Begin`.
    pub fn default() -> (r: Self)
        ensures
            r == Align::Begin,
    {
        Align::Begin
    }
}

impl EnumComponent for Align {
    open spec fn spec_to_u32(&self) -> u32 {
        match self {
            Align::Begin => 0,
            Align::Center => 1,
            Align::End => 2,
        }
    }

    open spec fn spec_from_u32(value: u32) -> Option<Self> {
        if value == 0 {
            Some(Align::Begin)
        } else if value == 1 {
            Some(Align::Center)
        } else if value == 2 {
            Some(Align::End)
        } else {
            None
        }
    }

    fn to_u32(&self) -> (r: u32) {
        match self {
            Align::Begin => 0,
            Align::Center => 1,
            Align::End => 2,
        }
    }

    fn from_u32(value: u32) -> (r: Option<Self>) {
        if value == 0 {
            return Some(Align::Begin);
        }
        if value == 1 {
            return Some(Align::Center);
        }
        if value == 2 {
            return Some(Align::End);
        }
        None
    }

    proof fn lemma_round_trip(x: Self) {
    }

    proof fn lemma_from_u32_inverse(value: u32) {
    }
}

/// Layout fit.
#[derive(Clone, Copy, PartialEq, Eq, Structural, Debug)]
pub enum Fit {
    Nothing,
    Parent,
    Children,
}

impl Fit {
    /// The default value: `None`.
    pub fn default() -> (r: Self)
        ensures
            r == Fit::Nothing,
    {
        Fit::Nothing
    }
}

impl EnumComponent for Fit {
    open spec fn spec_to_u32(&self) -> u32 {
        match self {
            Fit::Nothing => 0,
            Fit::Parent => 1,
            Fit::Children => 2,
        }
    }

    open spec fn spec_from_u32(value: u32) -> Option<Self> {
        if value == 0 {
            Some(Fit::Nothing)
        } else if value == 1 {
            Some(Fit::Parent)
        } else if value == 2 {
            Some(Fit::Children)
        } else {
            None
        }
    }

    fn to_u32(&self) -> (r: u32) {
        match self {
            Fit::Nothing => 0,
            Fit::Parent => 1,
            Fit::Children => 2,
        }
    }

    fn from_u32(value: u32) -> (r: Option<Self>) {
        if value == 0 {
            return Some(Fit::Nothing);
        }
        if value == 1 {
            return Some(Fit::Parent);
        }
        if value == 2 {
            return Some(Fit::Children);
        }
        None
    }

    proof fn lemma_round_trip(x: Self) {
    }

    proof fn lemma_from_u32_inverse(value: u32) {
    }
}

/// Layout orientation.
#[derive(Clone, Copy, PartialEq, Eq, Structural, Debug)]
pub enum Orientation {
    Horizontal,
    Vertical,
}

impl Orientation {
    /// The default value: `Horizontal`.
    pub fn default() -> (r: Self)
        ensures
            r == Orientation::Horizontal,
    {
        Orientation::Horizontal
    }
}

impl EnumComponent for Orientation {
    open spec fn spec_to_u32(&self) -> u32 {
        match self {
            Orientation::Horizontal => 0,
            Orientation::Vertical => 1,
        }
    }

    open spec fn spec_from_u32(value: u32) -> Option<Self> {
        if value == 0 {
            Some(Orientation::Horizontal)
        } else if value == 1 {
            Some(Orientation::Vertical)
        } else {
            None
        }
    }

    fn to_u32(&self) -> (r: u32) {
        match self {
            Orientation::Horizontal => 0,
            Orientation::Vertical => 1,
        }
    }

    fn from_u32(value: u32) -> (r: Option<Self>) {
        if value == 0 {
            return Some(Orientation::Horizontal);
        }
        if value == 1 {
            return Some(Orientation::Vertical);
        }
        None
    }

    proof fn lemma_round_trip(x: Self) {
    }

    proof fn lemma_from_u32_inverse(value: u32) {
    }
}

/// The edge to dock to.
#[derive(Clone, Copy, PartialEq, Eq, Structural, Debug)]
pub enum Docking {
    Left,
    Right,
    Top,
    Bottom,
    Fill,
}

impl Docking {
    /// The default value: `Left`.
    pub fn default() -> (r: Self)
        ensures
            r == Docking::Left,
    {
        Docking::Left
    }
}

impl EnumComponent for Docking {
    open spec fn spec_to_u32(&self) -> u32 {
        match self {
            Docking::Left => 0,
            Docking::Right => 1,
            Docking::Top => 2,
            Docking::Bottom => 3,
            Docking::Fill => 4,
        }
    }

    open spec fn spec_from_u32(value: u32) -> Option<Self> {
        if value == 0 {
            Some(Docking::Left)
        } else if value == 1 {
            Some(Docking::Right)
        } else if value == 2 {
            Some(Docking::Top)
        } else if value == 3 {
            Some(Docking::Bottom)
        } else if value == 4 {
            Some(Docking::Fill)
        } else {
            None
        }
    }

    fn to_u32(&self) -> (r: u32) {
        match self {
            Docking::Left => 0,
            Docking::Right => 1,
            Docking::Top => 2,
            Docking::Bottom => 3,
            Docking::Fill => 4,
        }
    }

    fn from_u32(value: u32) -> (r: Option<Self>) {
        if value == 0 {
            return Some(Docking::Left);
        }
        if value == 1 {
            return Some(Docking::Right);
        }
        if value == 2 {
            return Some(Docking::Top);
        }
        if value == 3 {
            return Some(Docking::Bottom);
        }
        if value == 4 {
            return Some(Docking::Fill);
        }
        None
    }

    proof fn lemma_round_trip(x: Self) {
    }

    proof fn lemma_from_u32_inverse(value: u32) {
    }
}

/// The type of the layout to use.
#[derive(Clone, Copy, PartialEq, Eq, Structural, Debug)]
pub enum Layout {
    Flow,
    Dock,
    Bookcase,
    WidthToChildren,
}

impl Layout {
    /// The default value: `Flow`.
    pub fn default() -> (r: Self)
        ensures
            r == Layout::Flow,
    {
        Layout::Flow
    }
}

impl EnumComponent for Layout {
    open spec fn spec_to_u32(&self) -> u32 {
        match self {
            Layout::Flow => 0,
            Layout::Dock => 1,
            Layout::Bookcase => 2,
            Layout::WidthToChildren => 3,
        }
    }

    open spec fn spec_from_u32(value: u32) -> Option<Self> {
        if value == 0 {
            Some(Layout::Flow)
        } else if value == 1 {
            Some(Layout::Dock)
        } else if value == 2 {
            Some(Layout::Bookcase)
        } else if value == 3 {
            Some(Layout::WidthToChildren)
        } else {
            None
        }
    }

    fn to_u32(&self) -> (r: u32) {
        match self {
            Layout::Flow => 0,
            Layout::Dock => 1,
            Layout::Bookcase => 2,
            Layout::WidthToChildren => 3,
        }
    }

    fn from_u32(value: u32) -> (r: Option<Self>) {
        if value == 0 {
            return Some(Layout::Flow);
        }
        if value == 1 {
            return Some(Layout::Dock);
        }
        if value == 2 {
            return Some(Layout::Bookcase);
        }
        if value == 3 {
            return Some(Layout::WidthToChildren);
        }
        None
    }

    proof fn lemma_round_trip(x: Self) {
    }

    proof fn lemma_from_u32_inverse(value: u32) {
    }
}

/// The content type of the package.
#[derive(Clone, Copy, PartialEq, Eq, Structural, Debug)]
pub enum PackageContent {
    Playable,
    Asset,
    Tool,
    Mod,
}

impl PackageContent {
    /// The default value: `Playable`.
    pub fn default() -> (r: Self)
        ensures
            r == PackageContent::Playable,
    {
        PackageContent::Playable
    }
}

impl EnumComponent for PackageContent {
    open spec fn spec_to_u32(&self) -> u32 {
        match self {
            PackageContent::Playable => 0,
            PackageContent::Asset => 1,
            PackageContent::Tool => 2,
            PackageContent::Mod => 3,
        }
    }

    open spec fn spec_from_u32(value: u32) -> Option<Self> {
        if value == 0 {
            Some(PackageContent::Playable)
        } else if value == 1 {
            Some(PackageContent::Asset)
        } else if value == 2 {
            Some(PackageContent::Tool)
        } else if value == 3 {
            Some(PackageContent::Mod)
        } else {
            None
        }
    }

    fn to_u32(&self) -> (r: u32) {
        match self {
            PackageContent::Playable => 0,
            PackageContent::Asset => 1,
            PackageContent::Tool => 2,
            PackageContent::Mod => 3,
        }
    }

    fn from_u32(value: u32) -> (r: Option<Self>) {
        if value == 0 {
            return Some(PackageContent::Playable);
        }
        if value == 1 {
            return Some(PackageContent::Asset);
        }
        if value == 2 {
            return Some(PackageContent::Tool);
        }
        if value == 3 {
            return Some(PackageContent::Mod);
        }
        None
    }

    proof fn lemma_round_trip(x: Self) {
    }

    proof fn lemma_from_u32_inverse(value: u32) {
    }
}

/// Style of the font.
#[derive(Clone, Copy, PartialEq, Eq, Structural, Debug)]
pub enum FontStyle {
    Bold,
    BoldItalic,
    Medium,
    MediumItalic,
    Regular,
    Italic,
    Light,
    LightItalic,
}

impl FontStyle {
    /// The default value: `Bold`.
    pub fn default() -> (r: Self)
        ensures
            r == FontStyle::Bold,
    {
        FontStyle::Bold
    }
}

impl EnumComponent for FontStyle {
    open spec fn spec_to_u32(&self) -> u32 {
        match self {
            FontStyle::Bold => 0,
            FontStyle::BoldItalic => 1,
            FontStyle::Medium => 2,
            FontStyle::MediumItalic => 3,
            FontStyle::Regular => 4,
            FontStyle::Italic => 5,
            FontStyle::Light => 6,
            FontStyle::LightItalic => 7,
        }
    }

    open spec fn spec_from_u32(value: u32) -> Option<Self> {
        if value == 0 {
            Some(FontStyle::Bold)
        } else if value == 1 {
            Some(FontStyle::BoldItalic)
        } else if value == 2 {
            Some(FontStyle::Medium)
        } else if value == 3 {
            Some(FontStyle::MediumItalic)
        } else if value == 4 {
            Some(FontStyle::Regular)
        } else if value == 5 {
            Some(FontStyle::Italic)
        } else if value == 6 {
            Some(FontStyle::Light)
        } else if value == 7 {
            Some(FontStyle::LightItalic)
        } else {
            None
        }
    }

    fn to_u32(&self) -> (r: u32) {
        match self {
            FontStyle::Bold => 0,
            FontStyle::BoldItalic => 1,
            FontStyle::Medium => 2,
            FontStyle::MediumItalic => 3,
            FontStyle::Regular => 4,
            FontStyle::Italic => 5,
            FontStyle::Light => 6,
            FontStyle::LightItalic => 7,
        }
    }

    fn from_u32(value: u32) -> (r: Option<Self>) {
        if value == 0 {
            return Some(FontStyle::Bold);
        }
        if value == 1 {
            return Some(FontStyle::BoldItalic);
        }
        if value == 2 {
            return Some(FontStyle::Medium);
        }
        if value == 3 {
            return Some(FontStyle::MediumItalic);
        }
        if value == 4 {
            return Some(FontStyle::Regular);
        }
        if value == 5 {
            return Some(FontStyle::Italic);
        }
        if value == 6 {
            return Some(FontStyle::Light);
        }
        if value == 7 {
            return Some(FontStyle::LightItalic);
        }
        None
    }

    proof fn lemma_round_trip(x: Self) {
    }

    proof fn lemma_from_u32_inverse(value: u32) {
    }
}

/// The HTTP method.
#[derive(Clone, Copy, PartialEq, Eq, Structural, Debug)]
pub enum HttpMethod {
    Get,
    Post,
}

impl HttpMethod {
    /// The default value: `Get`.
    pub fn default() -> (r: Self)
        ensures
            r == HttpMethod::Get,
    {
        HttpMethod::Get
    }
}

impl EnumComponent for HttpMethod {
    open spec fn spec_to_u32(&self) -> u32 {
        match self {
            HttpMethod::Get => 0,
            HttpMethod::Post => 1,
        }
    }

    open spec fn spec_from_u32(value: u32) -> Option<Self> {
        if value == 0 {
            Some(HttpMethod::Get)
        } else if value == 1 {
            Some(HttpMethod::Post)
        } else {
            None
        }
    }

    fn to_u32(&self) -> (r: u32) {
        match self {
            HttpMethod::Get => 0,
            HttpMethod::Post => 1,
        }
    }

    fn from_u32(value: u32) -> (r: Option<Self>) {
        if value == 0 {
            return Some(HttpMethod::Get);
        }
        if value == 1 {
            return Some(HttpMethod::Post);
        }
        None
    }

    proof fn lemma_round_trip(x: Self) {
    }

    proof fn lemma_from_u32_inverse(value: u32) {
    }
}

/// Each `Align` is numbered by its place in the declaration, from 0, and
/// exactly the numbers below the count of variants read back as one.
pub proof fn lemma_align_numbering()
    ensures
        Align::Begin.spec_to_u32() == 0,
        Align::Center.spec_to_u32() == 1,
        Align::End.spec_to_u32() == 2,
        forall|value: u32| #[trigger] Align::spec_from_u32(value) is Some <==> value < 3,
{
    assert forall|value: u32| #[trigger] Align::spec_from_u32(value) is Some <==> value < 3 by {
        Align::lemma_from_u32_inverse(value);
    }
}

/// Each `Fit` is numbered by its place in the declaration, from 0, and
/// exactly the numbers below the count of variants read back as one.
pub proof fn lemma_fit_numbering()
    ensures
        Fit::Nothing.spec_to_u32() == 0,
        Fit::Parent.spec_to_u32() == 1,
        Fit::Children.spec_to_u32() == 2,
        forall|value: u32| #[trigger] Fit::spec_from_u32(value) is Some <==> value < 3,
{
    assert forall|value: u32| #[trigger] Fit::spec_from_u32(value) is Some <==> value < 3 by {
        Fit::lemma_from_u32_inverse(value);
    }
}

/// Each `Orientation` is numbered by its place in the declaration, from 0, and
/// exactly the numbers below the count of variants read back as one.
pub proof fn lemma_orientation_numbering()
    ensures
        Orientation::Horizontal.spec_to_u32() == 0,
        Orientation::Vertical.spec_to_u32() == 1,
        forall|value: u32| #[trigger] Orientation::spec_from_u32(value) is Some <==> value < 2,
{
    assert forall|value: u32| #[trigger] Orientation::spec_from_u32(value) is Some <==> value < 2 by {
        Orientation::lemma_from_u32_inverse(value);
    }
}

/// Each `Docking` is numbered by its place in the declaration, from 0, and
/// exactly the numbers below the count of variants read back as one.
pub proof fn lemma_docking_numbering()
    ensures
        Docking::Left.spec_to_u32() == 0,
        Docking::Right.spec_to_u32() == 1,
        Docking::Top.spec_to_u32() == 2,
        Docking::Bottom.spec_to_u32() == 3,
        Docking::Fill.spec_to_u32() == 4,
        forall|value: u32| #[trigger] Docking::spec_from_u32(value) is Some <==> value < 5,
{
    assert forall|value: u32| #[trigger] Docking::spec_from_u32(value) is Some <==> value < 5 by {
        Docking::lemma_from_u32_inverse(value);
    }
}

/// Each `Layout` is numbered by its place in the declaration, from 0, and
/// exactly the numbers below the count of variants read back as one.
pub proof fn lemma_layout_numbering()
    ensures
        Layout::Flow.spec_to_u32() == 0,
        Layout::Dock.spec_to_u32() == 1,
        Layout::Bookcase.spec_to_u32() == 2,
        Layout::WidthToChildren.spec_to_u32() == 3,
        forall|value: u32| #[trigger] Layout::spec_from_u32(value) is Some <==> value < 4,
{
    assert forall|value: u32| #[trigger] Layout::spec_from_u32(value) is Some <==> value < 4 by {
        Layout::lemma_from_u32_inverse(value);
    }
}

/// Each `PackageContent` is numbered by its place in the declaration, from 0, and
/// exactly the numbers below the count of variants read back as one.
pub proof fn lemma_package_content_numbering()
    ensures
        PackageContent::Playable.spec_to_u32() == 0,
        PackageContent::Asset.spec_to_u32() == 1,
        PackageContent::Tool.spec_to_u32() == 2,
        PackageContent::Mod.spec_to_u32() == 3,
        forall|value: u32| #[trigger] PackageContent::spec_from_u32(value) is Some <==> value < 4,
{
    assert forall|value: u32| #[trigger] PackageContent::spec_from_u32(value) is Some <==> value < 4 by {
        PackageContent::lemma_from_u32_inverse(value);
    }
}

/// Each `FontStyle` is numbered by its place in the declaration, from 0, and
/// exactly the numbers below the count of variants read back as one.
pub proof fn lemma_font_style_numbering()
    ensures
        FontStyle::Bold.spec_to_u32() == 0,
        FontStyle::BoldItalic.spec_to_u32() == 1,
        FontStyle::Medium.spec_to_u32() == 2,
        FontStyle::MediumItalic.spec_to_u32() == 3,
        FontStyle::Regular.spec_to_u32() == 4,
        FontStyle::Italic.spec_to_u32() == 5,
        FontStyle::Light.spec_to_u32() == 6,
        FontStyle::LightItalic.spec_to_u32() == 7,
        forall|value: u32| #[trigger] FontStyle::spec_from_u32(value) is Some <==> value < 8,
{
    assert forall|value: u32| #[trigger] FontStyle::spec_from_u32(value) is Some <==> value < 8 by {
        FontStyle::lemma_from_u32_inverse(value);
    }
}

/// Each `HttpMethod` is numbered by its place in the declaration, from 0, and
/// exactly the numbers below the count of variants read back as one.
pub proof fn lemma_http_method_numbering()
    ensures
        HttpMethod::Get.spec_to_u32() == 0,
        HttpMethod::Post.spec_to_u32() == 1,
        forall|value: u32| #[trigger] HttpMethod::spec_from_u32(value) is Some <==> value < 2,
{
    assert forall|value: u32| #[trigger] HttpMethod::spec_from_u32(value) is Some <==> value < 2 by {
        HttpMethod::lemma_from_u32_inverse(value);
    }
}

} // verus!
