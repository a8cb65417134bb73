//! Conversions between the engine's values and their representation on the
//! guest/host interface.
use crate::wit;
use vstd::prelude::*;

verus! {

/// Converts from a Rust representation to the interface representation.
pub trait IntoBindgen: Sized {
    type Item;

    /// Whether `r` is the interface representation of `self`.
    spec fn converts_to(self, r: Self::Item) -> bool;

    fn into_bindgen(self) -> (r: Self::Item)
        ensures
            self.converts_to(r),
    ;
}

/// Converts from the interface representation to a Rust representation.
pub trait FromBindgen: Sized {
    type Item;

    /// Whether the conversion of `self` is defined.
    spec fn can_convert(self) -> bool;

    /// Whether `r` is the Rust representation of `self`.
    spec fn converts_from(self, r: Self::Item) -> bool;

    #[allow(clippy::wrong_self_convention)]
    fn from_bindgen(self) -> (r: Self::Item)
        requires
            self.can_convert(),
        ensures
            self.converts_from(r),
    ;
}


/// A vector of 2 `u32`.
#[derive(Clone, Copy, PartialEq, Eq, Structural, Debug)]
pub struct UVec2 {
    pub x: u32,
    pub y: u32,
}

impl UVec2 {
    pub fn new(x: u32, y: u32) -> (r: Self)
        ensures
            r.x == x,
            r.y == y,
    {
        UVec2 { x, y }
    }
}

impl IntoBindgen for UVec2 {
    type Item = wit::Uvec2;

    open spec fn converts_to(self, r: wit::Uvec2) -> bool {
        r.x == self.x && r.y == self.y
    }

    fn into_bindgen(self) -> (r: wit::Uvec2) {
        wit::Uvec2 { x: self.x, y: self.y }
    }
}

impl FromBindgen for wit::Uvec2 {
    type Item = UVec2;

    open spec fn can_convert(self) -> bool {
        true
    }

    open spec fn converts_from(self, r: UVec2) -> bool {
        r.x == self.x && r.y == self.y
    }

    fn from_bindgen(self) -> (r: UVec2) {
        UVec2::new(self.x, self.y)
    }
}

/// A vector of 3 `u32`.
#[derive(Clone, Copy, PartialEq, Eq, Structural, Debug)]
pub struct UVec3 {
    pub x: u32,
    pub y: u32,
    pub z: u32,
}

impl UVec3 {
    pub fn new(x: u32, y: u32, z: u32) -> (r: Self)
        ensures
            r.x == x,
            r.y == y,
            r.z == z,
    {
        UVec3 { x, y, z }
    }
}

impl IntoBindgen for UVec3 {
    type Item = wit::Uvec3;

    open spec fn converts_to(self, r: wit::Uvec3) -> bool {
        r.x == self.x && r.y == self.y && r.z == self.z
    }

    fn into_bindgen(self) -> (r: wit::Uvec3) {
        wit::Uvec3 { x: self.x, y: self.y, z: self.z }
    }
}

impl FromBindgen for wit::Uvec3 {
    type Item = UVec3;

    open spec fn can_convert(self) -> bool {
        true
    }

    open spec fn converts_from(self, r: UVec3) -> bool {
        r.x == self.x && r.y == self.y && r.z == self.z
    }

    fn from_bindgen(self) -> (r: UVec3) {
        UVec3::new(self.x, self.y, self.z)
    }
}

/// A vector of 4 `u32`.
#[derive(Clone, Copy, PartialEq, Eq, Structural, Debug)]
pub struct UVec4 {
    pub x: u32,
    pub y: u32,
    pub z: u32,
    pub w: u32,
}

impl UVec4 {
    pub fn new(x: u32, y: u32, z: u32, w: u32) -> (r: Self)
        ensures
            r.x == x,
            r.y == y,
            r.z == z,
            r.w == w,
    {
        UVec4 { x, y, z, w }
    }
}

impl IntoBindgen for UVec4 {
    type Item = wit::Uvec4;

    open spec fn converts_to(self, r: wit::Uvec4) -> bool {
        r.x == self.x && r.y == self.y && r.z == self.z && r.w == self.w
    }

    fn into_bindgen(self) -> (r: wit::Uvec4) {
        wit::Uvec4 { x: self.x, y: self.y, z: self.z, w: self.w }
    }
}

impl FromBindgen for wit::Uvec4 {
    type Item = UVec4;

    open spec fn can_convert(self) -> bool {
        true
    }

    open spec fn converts_from(self, r: UVec4) -> bool {
        r.x == self.x && r.y == self.y && r.z == self.z && r.w == self.w
    }

    fn from_bindgen(self) -> (r: UVec4) {
        UVec4::new(self.x, self.y, self.z, self.w)
    }
}

/// A vector of 2 `i32`.
#[derive(Clone, Copy, PartialEq, Eq, Structural, Debug)]
pub struct IVec2 {
    pub x: i32,
    pub y: i32,
}

impl IVec2 {
    pub fn new(x: i32, y: i32) -> (r: Self)
        ensures
            r.x == x,
            r.y == y,
    {
        IVec2 { x, y }
    }
}

impl IntoBindgen for IVec2 {
    type Item = wit::Ivec2;

    open spec fn converts_to(self, r: wit::Ivec2) -> bool {
        r.x == self.x && r.y == self.y
    }

    fn into_bindgen(self) -> (r: wit::Ivec2) {
        wit::Ivec2 { x: self.x, y: self.y }
    }
}

impl FromBindgen for wit::Ivec2 {
    type Item = IVec2;

    open spec fn can_convert(self) -> bool {
        true
    }

    open spec fn converts_from(self, r: IVec2) -> bool {
        r.x == self.x && r.y == self.y
    }

    fn from_bindgen(self) -> (r: IVec2) {
        IVec2::new(self.x, self.y)
    }
}

/// A vector of 3 `i32`.
#[derive(Clone, Copy, PartialEq, Eq, Structural, Debug)]
pub struct IVec3 {
    pub x: i32,
    pub y: i32,
    pub z: i32,
}

impl IVec3 {
    pub fn new(x: i32, y: i32, z: i32) -> (r: Self)
        ensures
            r.x == x,
            r.y == y,
            r.z == z,
    {
        IVec3 { x, y, z }
    }
}

impl IntoBindgen for IVec3 {
    type Item = wit::Ivec3;

    open spec fn converts_to(self, r: wit::Ivec3) -> bool {
        r.x == self.x && r.y == self.y && r.z == self.z
    }

    fn into_bindgen(self) -> (r: wit::Ivec3) {
        wit::Ivec3 { x: self.x, y: self.y, z: self.z }
    }
}

impl FromBindgen for wit::Ivec3 {
    type Item = IVec3;

    open spec fn can_convert(self) -> bool {
        true
    }

    open spec fn converts_from(self, r: IVec3) -> bool {
        r.x == self.x && r.y == self.y && r.z == self.z
    }

    fn from_bindgen(self) -> (r: IVec3) {
        IVec3::new(self.x, self.y, self.z)
    }
}

/// A vector of 4 `i32`.
#[derive(Clone, Copy, PartialEq, Eq, Structural, Debug)]
pub struct IVec4 {
    pub x: i32,
    pub y: i32,
    pub z: i32,
    pub w: i32,
}

impl IVec4 {
    pub fn new(x: i32, y: i32, z: i32, w: i32) -> (r: Self)
        ensures
            r.x == x,
            r.y == y,
            r.z == z,
            r.w == w,
    {
        IVec4 { x, y, z, w }
    }
}

impl IntoBindgen for IVec4 {
    type Item = wit::Ivec4;

    open spec fn converts_to(self, r: wit::Ivec4) -> bool {
        r.x == self.x && r.y == self.y && r.z == self.z && r.w == self.w
    }

    fn into_bindgen(self) -> (r: wit::Ivec4) {
        wit::Ivec4 { x: self.x, y: self.y, z: self.z, w: self.w }
    }
}

impl FromBindgen for wit::Ivec4 {
    type Item = IVec4;

    open spec fn can_convert(self) -> bool {
        true
    }

    open spec fn converts_from(self, r: IVec4) -> bool {
        r.x == self.x && r.y == self.y && r.z == self.z && r.w == self.w
    }

    fn from_bindgen(self) -> (r: IVec4) {
        IVec4::new(self.x, self.y, self.z, self.w)
    }
}

/// Nanoseconds in a second.
pub const NANOS_PER_SEC: u32 = 1_000_000_000;

/// A span of time: whole seconds and the nanoseconds below a second.
#[derive(Clone, Copy, PartialEq, Eq, Structural, Debug)]
pub struct Duration {
    secs: u64,
    nanos: u32,
}

impl Duration {
    /// The whole seconds.
    pub closed spec fn spec_secs(self) -> u64 {
        self.secs
    }

    /// The nanoseconds below a second.
    pub closed spec fn spec_nanos(self) -> u32 {
        self.nanos
    }

    /// The nanoseconds are below a second.
    pub open spec fn wf(self) -> bool {
        self.spec_nanos() < NANOS_PER_SEC
    }

    /// Whether `Duration::new(secs, nanos)` is defined: the nanoseconds that
    /// exceed a second carry into the seconds without overflow.
    pub open spec fn new_defined(secs: u64, nanos: u32) -> bool {
        secs + nanos / NANOS_PER_SEC <= u64::MAX
    }

    /// A duration of `secs` seconds and `nanos` nanoseconds; whole seconds in
    /// `nanos` carry into the seconds.
    pub fn new(secs: u64, nanos: u32) -> (r: Self)
        requires
            Duration::new_defined(secs, nanos),
        ensures
            r.wf(),
            r.spec_secs() == secs + nanos / NANOS_PER_SEC,
            r.spec_nanos() == nanos % NANOS_PER_SEC,
    {
        Duration { secs: secs + (nanos / NANOS_PER_SEC) as u64, nanos: nanos % NANOS_PER_SEC }
    }

    /// The whole seconds.
    pub fn as_secs(&self) -> (r: u64)
        ensures
            r == self.spec_secs(),
    {
        self.secs
    }

    /// The nanoseconds below a second.
    pub fn subsec_nanos(&self) -> (r: u32)
        ensures
            r == self.spec_nanos(),
    {
        self.nanos
    }
}

impl IntoBindgen for Duration {
    type Item = wit::Duration;

    open spec fn converts_to(self, r: wit::Duration) -> bool {
        r.seconds == self.spec_secs() && r.nanoseconds == self.spec_nanos()
    }

    fn into_bindgen(self) -> (r: wit::Duration) {
        wit::Duration { seconds: self.as_secs(), nanoseconds: self.subsec_nanos() }
    }
}

impl FromBindgen for wit::Duration {
    type Item = Duration;

    open spec fn can_convert(self) -> bool {
        Duration::new_defined(self.seconds, self.nanoseconds)
    }

    open spec fn converts_from(self, r: Duration) -> bool {
        &&& r.wf()
        &&& r.spec_secs() == self.seconds + self.nanoseconds / NANOS_PER_SEC
        &&& r.spec_nanos() == self.nanoseconds % NANOS_PER_SEC
    }

    fn from_bindgen(self) -> (r: Duration) {
        Duration::new(self.seconds, self.nanoseconds)
    }
}

impl IntoBindgen for bool {
    type Item = bool;

    open spec fn converts_to(self, r: bool) -> bool {
        r == self
    }

    fn into_bindgen(self) -> (r: bool) {
        self
    }
}

impl FromBindgen for bool {
    type Item = bool;

    open spec fn can_convert(self) -> bool {
        true
    }

    open spec fn converts_from(self, r: bool) -> bool {
        r == self
    }

    fn from_bindgen(self) -> (r: bool) {
        self
    }
}

impl IntoBindgen for u8 {
    type Item = u8;

    open spec fn converts_to(self, r: u8) -> bool {
        r == self
    }

    fn into_bindgen(self) -> (r: u8) {
        self
    }
}

impl FromBindgen for u8 {
    type Item = u8;

    open spec fn can_convert(self) -> bool {
        true
    }

    open spec fn converts_from(self, r: u8) -> bool {
        r == self
    }

    fn from_bindgen(self) -> (r: u8) {
        self
    }
}

impl IntoBindgen for u16 {
    type Item = u16;

    open spec fn converts_to(self, r: u16) -> bool {
        r == self
    }

    fn into_bindgen(self) -> (r: u16) {
        self
    }
}

impl FromBindgen for u16 {
    type Item = u16;

    open spec fn can_convert(self) -> bool {
        true
    }

    open spec fn converts_from(self, r: u16) -> bool {
        r == self
    }

    fn from_bindgen(self) -> (r: u16) {
        self
    }
}

impl IntoBindgen for u32 {
    type Item = u32;

    open spec fn converts_to(self, r: u32) -> bool {
        r == self
    }

    fn into_bindgen(self) -> (r: u32) {
        self
    }
}

impl FromBindgen for u32 {
    type Item = u32;

    open spec fn can_convert(self) -> bool {
        true
    }

    open spec fn converts_from(self, r: u32) -> bool {
        r == self
    }

    fn from_bindgen(self) -> (r: u32) {
        self
    }
}

impl IntoBindgen for u64 {
    type Item = u64;

    open spec fn converts_to(self, r: u64) -> bool {
        r == self
    }

    fn into_bindgen(self) -> (r: u64) {
        self
    }
}

impl FromBindgen for u64 {
    type Item = u64;

    open spec fn can_convert(self) -> bool {
        true
    }

    open spec fn converts_from(self, r: u64) -> bool {
        r == self
    }

    fn from_bindgen(self) -> (r: u64) {
        self
    }
}

impl IntoBindgen for i8 {
    type Item = i8;

    open spec fn converts_to(self, r: i8) -> bool {
        r == self
    }

    fn into_bindgen(self) -> (r: i8) {
        self
    }
}

impl FromBindgen for i8 {
    type Item = i8;

    open spec fn can_convert(self) -> bool {
        true
    }

    open spec fn converts_from(self, r: i8) -> bool {
        r == self
    }

    fn from_bindgen(self) -> (r: i8) {
        self
    }
}

impl IntoBindgen for i16 {
    type Item = i16;

    open spec fn converts_to(self, r: i16) -> bool {
        r == self
    }

    fn into_bindgen(self) -> (r: i16) {
        self
    }
}

impl FromBindgen for i16 {
    type Item = i16;

    open spec fn can_convert(self) -> bool {
        true
    }

    open spec fn converts_from(self, r: i16) -> bool {
        r == self
    }

    fn from_bindgen(self) -> (r: i16) {
        self
    }
}

impl IntoBindgen for i32 {
    type Item = i32;

    open spec fn converts_to(self, r: i32) -> bool {
        r == self
    }

    fn into_bindgen(self) -> (r: i32) {
        self
    }
}

impl FromBindgen for i32 {
    type Item = i32;

    open spec fn can_convert(self) -> bool {
        true
    }

    open spec fn converts_from(self, r: i32) -> bool {
        r == self
    }

    fn from_bindgen(self) -> (r: i32) {
        self
    }
}

impl IntoBindgen for i64 {
    type Item = i64;

    open spec fn converts_to(self, r: i64) -> bool {
        r == self
    }

    fn into_bindgen(self) -> (r: i64) {
        self
    }
}

impl FromBindgen for i64 {
    type Item = i64;

    open spec fn can_convert(self) -> bool {
        true
    }

    open spec fn converts_from(self, r: i64) -> bool {
        r == self
    }

    fn from_bindgen(self) -> (r: i64) {
        self
    }
}

impl IntoBindgen for String {
    type Item = String;

    open spec fn converts_to(self, r: String) -> bool {
        r == self
    }

    fn into_bindgen(self) -> (r: String) {
        self
    }
}

impl FromBindgen for String {
    type Item = String;

    open spec fn can_convert(self) -> bool {
        true
    }

    open spec fn converts_from(self, r: String) -> bool {
        r == self
    }

    fn from_bindgen(self) -> (r: String) {
        self
    }
}

impl<T: IntoBindgen> IntoBindgen for Option<T> {
    type Item = Option<T::Item>;

    open spec fn converts_to(self, r: Option<T::Item>) -> bool {
        match (self, r) {
            (Some(a), Some(b)) => a.converts_to(b),
            (None, None) => true,
            _ => false,
        }
    }

    fn into_bindgen(self) -> (r: Option<T::Item>) {
        match self {
            Some(i) => Some(i.into_bindgen()),
            None => None,
        }
    }
}

impl<T: FromBindgen> FromBindgen for Option<T> {
    type Item = Option<T::Item>;

    open spec fn can_convert(self) -> bool {
        self matches Some(a) ==> a.can_convert()
    }

    open spec fn converts_from(self, r: Option<T::Item>) -> bool {
        match (self, r) {
            (Some(a), Some(b)) => a.converts_from(b),
            (None, None) => true,
            _ => false,
        }
    }

    fn from_bindgen(self) -> (r: Option<T::Item>) {
        match self {
            Some(i) => Some(i.from_bindgen()),
            None => None,
        }
    }
}

impl<T: IntoBindgen> IntoBindgen for Vec<T> {
    type Item = Vec<T::Item>;

    open spec fn converts_to(self, r: Vec<T::Item>) -> bool {
        &&& r@.len() == self@.len()
        &&& forall|i: int| 0 <= i < self@.len() ==> #[trigger] self@[i].converts_to(r@[i])
    }

    fn into_bindgen(self) -> (r: Vec<T::Item>) {
        let mut items = self;
        let ghost all = items@;
        let mut rev: Vec<T::Item> = Vec::new();
        while items.len() > 0
            invariant
                items@.len() + rev@.len() == all.len(),
                items@ == all.take(items@.len() as int),
                forall|k: int|
                    0 <= k < rev@.len() ==> #[trigger] all[all.len() - 1 - k].converts_to(rev@[k]),
            decreases items.len(),
        {
            let ghost before = items@;
            let item = items.pop().unwrap();
            assert(item == all[all.len() - 1 - rev@.len()]) by {
                assert(before[before.len() - 1] == all[before.len() - 1]);
            }
            rev.push(item.into_bindgen());
            assert(items@ =~= all.take(items@.len() as int));
        }
        let mut r: Vec<T::Item> = Vec::new();
        while rev.len() > 0
            invariant
                r@.len() + rev@.len() == all.len(),
                forall|k: int|
                    0 <= k < rev@.len() ==> #[trigger] all[all.len() - 1 - k].converts_to(rev@[k]),
                forall|i: int| 0 <= i < r@.len() ==> #[trigger] all[i].converts_to(r@[i]),
            decreases rev.len(),
        {
            let ghost before = rev@;
            let x = rev.pop().unwrap();
            assert(all[all.len() - 1 - (before.len() - 1)].converts_to(x));
            r.push(x);
        }
        r
    }
}

impl<T: FromBindgen> FromBindgen for Vec<T> {
    type Item = Vec<T::Item>;

    open spec fn can_convert(self) -> bool {
        forall|i: int| 0 <= i < self@.len() ==> #[trigger] self@[i].can_convert()
    }

    open spec fn converts_from(self, r: Vec<T::Item>) -> bool {
        &&& r@.len() == self@.len()
        &&& forall|i: int| 0 <= i < self@.len() ==> #[trigger] self@[i].converts_from(r@[i])
    }

    fn from_bindgen(self) -> (r: Vec<T::Item>) {
        let mut items = self;
        let ghost all = items@;
        let mut rev: Vec<T::Item> = Vec::new();
        while items.len() > 0
            invariant
                items@.len() + rev@.len() == all.len(),
                items@ == all.take(items@.len() as int),
                forall|i: int| 0 <= i < all.len() ==> #[trigger] all[i].can_convert(),
                forall|k: int|
                    0 <= k < rev@.len() ==> #[trigger] all[all.len() - 1 - k].converts_from(rev@[k]),
            decreases items.len(),
        {
            let ghost before = items@;
            let item = items.pop().unwrap();
            assert(item == all[all.len() - 1 - rev@.len()]) by {
                assert(before[before.len() - 1] == all[before.len() - 1]);
            }
            rev.push(item.from_bindgen());
            assert(items@ =~= all.take(items@.len() as int));
        }
        let mut r: Vec<T::Item> = Vec::new();
        while rev.len() > 0
            invariant
                r@.len() + rev@.len() == all.len(),
                forall|k: int|
                    0 <= k < rev@.len() ==> #[trigger] all[all.len() - 1 - k].converts_from(rev@[k]),
                forall|i: int| 0 <= i < r@.len() ==> #[trigger] all[i].converts_from(r@[i]),
            decreases rev.len(),
        {
            let ghost before = rev@;
            let x = rev.pop().unwrap();
            assert(all[all.len() - 1 - (before.len() - 1)].converts_from(x));
            r.push(x);
        }
        r
    }
}

/// A duration sent over the interface and read back is the same duration.
pub proof fn lemma_duration_round_trip(d: Duration, sent: wit::Duration, back: Duration)
    requires
        d.wf(),
        d.converts_to(sent),
        sent.converts_from(back),
    ensures
        sent.can_convert(),
        back == d,
{
}

} // verus!
