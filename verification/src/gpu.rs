//! The choices made when the GPU is set up: which graphics backends to try,
//! which device features and limits to ask for, how the swapchain presents,
//! and the sizes of textures and of the buffers they are read back through.
use crate::bindgen::{UVec2, UVec3, UVec4};
use vstd::arithmetic::logarithm::{lemma_log0, lemma_log_s, log};
use vstd::arithmetic::power2::{lemma_pow2_unfold, pow2};
use vstd::prelude::*;

verus! {

/// The number of samples per pixel of render targets.
pub const DEFAULT_SAMPLE_COUNT: u32 = 1;

/// The key under which the GPU is kept.
#[derive(Debug)]
pub struct GpuKey;

/// The operating system that the engine is built for.
#[derive(Clone, Copy, PartialEq, Eq, Structural, Debug)]
pub enum TargetOs {
    Windows,
    MacOs,
    /// The web, through WebAssembly.
    Web,
    /// Any other, such as Linux.
    Other,
}

/// The graphics backends that are tried.
#[derive(Clone, Copy, PartialEq, Eq, Structural, Debug)]
pub enum Backends {
    Vulkan,
    /// The primary backends of the platform.
    Primary,
    BrowserWebGpu,
    All,
}

/// The backends tried on `os`: Vulkan on Windows, the primary ones on macOS,
/// WebGPU on the web and all of them elsewhere.
pub fn backends_for(os: TargetOs) -> (r: Backends)
    ensures
        r == match os {
            TargetOs::Windows => Backends::Vulkan,
            TargetOs::MacOs => Backends::Primary,
            TargetOs::Web => Backends::BrowserWebGpu,
            TargetOs::Other => Backends::All,
        },
{
    match os {
        TargetOs::Windows => Backends::Vulkan,
        TargetOs::MacOs => Backends::Primary,
        TargetOs::Web => Backends::BrowserWebGpu,
        TargetOs::Other => Backends::All,
    }
}

/// The device features asked for.
#[derive(Clone, Copy, PartialEq, Eq, Structural, Debug)]
pub struct DeviceFeatures {
    pub texture_adapter_specific_format_features: bool,
    pub indirect_first_instance: bool,
    pub multi_draw_indirect: bool,
    pub multi_draw_indirect_count: bool,
}

/// The features asked for on `os`: the adapter's own texture format
/// features always; none more on macOS; the first instance of indirect draws
/// on the web; indirect draws with their count read from the GPU elsewhere.
pub fn features_for(os: TargetOs) -> (r: DeviceFeatures)
    ensures
        r.texture_adapter_specific_format_features,
        r.indirect_first_instance == (os == TargetOs::Web),
        r.multi_draw_indirect == (os == TargetOs::Windows || os == TargetOs::Other),
        r.multi_draw_indirect_count == (os == TargetOs::Windows || os == TargetOs::Other),
{
    match os {
        TargetOs::MacOs => DeviceFeatures {
            texture_adapter_specific_format_features: true,
            indirect_first_instance: false,
            multi_draw_indirect: false,
            multi_draw_indirect_count: false,
        },
        TargetOs::Web => DeviceFeatures {
            texture_adapter_specific_format_features: true,
            indirect_first_instance: true,
            multi_draw_indirect: false,
            multi_draw_indirect_count: false,
        },
        _ => DeviceFeatures {
            texture_adapter_specific_format_features: true,
            indirect_first_instance: false,
            multi_draw_indirect: true,
            multi_draw_indirect_count: true,
        },
    }
}

/// The device limits asked for beyond the defaults.
#[derive(Clone, Copy, PartialEq, Eq, Structural, Debug)]
pub struct DeviceLimits {
    pub max_bind_groups: u32,
    pub max_storage_buffer_binding_size: u32,
}

/// Eight bind groups, and storage buffer bindings as large as the adapter
/// allows.
pub fn device_limits(adapter_max_storage_buffer_binding_size: u32) -> (r: DeviceLimits)
    ensures
        r.max_bind_groups == 8,
        r.max_storage_buffer_binding_size == adapter_max_storage_buffer_binding_size,
{
    DeviceLimits { max_bind_groups: 8, max_storage_buffer_binding_size: adapter_max_storage_buffer_binding_size }
}

/// How the swapchain presents frames.
#[derive(Clone, Copy, PartialEq, Eq, Structural, Debug)]
pub enum PresentMode {
    /// Waits for the display's refresh, as available.
    AutoVsync,
    /// Does not wait, as available.
    AutoNoVsync,
    /// Does not wait.
    Immediate,
}

/// The present mode when there is a surface: with vertical sync as the
/// settings ask.
pub fn swapchain_mode_for(has_surface: bool, vsync: bool) -> (r: Option<PresentMode>)
    ensures
        r == if !has_surface {
            None
        } else if vsync {
            Some(PresentMode::AutoVsync)
        } else {
            Some(PresentMode::AutoNoVsync)
        },
{
    if has_surface {
        if vsync {
            Some(PresentMode::AutoVsync)
        } else {
            Some(PresentMode::AutoNoVsync)
        }
    } else {
        None
    }
}

/// The present mode in use: the chosen one, else immediate.
pub fn swapchain_mode(chosen: Option<PresentMode>) -> (r: PresentMode)
    ensures
        r == match chosen {
            Some(m) => m,
            None => PresentMode::Immediate,
        },
{
    match chosen {
        Some(m) => m,
        None => PresentMode::Immediate,
    }
}

/// Whether the surface is set up for a window when the GPU is made: there
/// must be a window, a surface, a present mode and a format.
pub fn configures_surface(has_window: bool, has_surface: bool, has_mode: bool, has_format: bool) -> (r:
    bool)
    ensures
        r == (has_window && has_surface && has_mode && has_format),
{
    has_window && has_surface && has_mode && has_format
}

/// Whether a new window size is applied to the surface: only when there is
/// one and the size is not empty.
pub fn resize_applies(has_surface: bool, width: u32, height: u32) -> (r: bool)
    ensures
        r == (has_surface && width > 0 && height > 0),
{
    has_surface && width > 0 && height > 0
}

/// A type that a shader can hold, with its name in WGSL.
pub trait WgslType {
    /// The name of the type in WGSL.
    spec fn spec_wgsl_type() -> Seq<char>;

    /// The name of the type in WGSL.
    fn wgsl_type() -> (r: &'static str)
        ensures
            r@ == Self::spec_wgsl_type(),
    ;
}

impl WgslType for i32 {
    open spec fn spec_wgsl_type() -> Seq<char> {
        "i32"@
    }

    fn wgsl_type() -> (r: &'static str) {
        "i32"
    }
}

impl WgslType for u32 {
    open spec fn spec_wgsl_type() -> Seq<char> {
        "u32"@
    }

    fn wgsl_type() -> (r: &'static str) {
        "u32"
    }
}

impl WgslType for UVec2 {
    open spec fn spec_wgsl_type() -> Seq<char> {
        "vec2<u32>"@
    }

    fn wgsl_type() -> (r: &'static str) {
        "vec2<u32>"
    }
}

impl WgslType for UVec3 {
    open spec fn spec_wgsl_type() -> Seq<char> {
        "vec3<u32>"@
    }

    fn wgsl_type() -> (r: &'static str) {
        "vec3<u32>"
    }
}

impl WgslType for UVec4 {
    open spec fn spec_wgsl_type() -> Seq<char> {
        "vec4<u32>"@
    }

    fn wgsl_type() -> (r: &'static str) {
        "vec4<u32>"
    }
}

/// The bytes of each level of a mip chain from `mip` on, each level half the
/// one before (rounded down), for `levels` levels.
pub open spec fn halving_sum(mip: nat, levels: nat) -> nat
    decreases levels,
{
    if levels == 0 {
        0
    } else {
        mip + halving_sum(mip / 2, (levels - 1) as nat)
    }
}

/// The bytes of a texture whose first level holds `base` bytes, with
/// `mip_level_count` levels (a count of zero counts as one).
pub open spec fn mip_chain_bytes(base: nat, mip_level_count: nat) -> nat {
    if mip_level_count <= 1 {
        base
    } else {
        base + halving_sum(base / 2, (mip_level_count - 1) as nat)
    }
}

/// The levels after the first hold fewer bytes than the first.
pub proof fn lemma_halving_sum_bound(mip: nat, levels: nat)
    ensures
        halving_sum(mip, levels) <= 2 * mip,
        mip > 0 ==> halving_sum(mip, levels) < 2 * mip,
    decreases levels,
{
    if levels > 0 {
        lemma_halving_sum_bound(mip / 2, (levels - 1) as nat);
    }
}

/// A texture with all its levels takes less than twice the bytes of its
/// first level (or nothing, when the first level is empty).
pub proof fn lemma_mip_chain_below_double(base: nat, mip_level_count: nat)
    ensures
        mip_chain_bytes(base, mip_level_count) <= 2 * base,
        base > 0 ==> mip_chain_bytes(base, mip_level_count) < 2 * base,
        mip_chain_bytes(base, mip_level_count) >= base,
{
    if mip_level_count > 1 {
        let k = (mip_level_count - 1) as nat;
        lemma_halving_sum_bound(base / 2, k);
        assert(2 * (base / 2) <= base);
        assert(halving_sum(base / 2, k) <= base);
        if base > 0 {
            if base / 2 > 0 {
                assert(halving_sum(base / 2, k) < base);
            } else {
                assert(halving_sum(base / 2, k) == 0);
            }
        }
    }
}

/// The bytes of a texture of the given size, with `block_size` bytes per
/// texel and `mip_level_count` levels.
pub fn size_in_bytes_from_desc(
    width: u32,
    height: u32,
    depth_or_array_layers: u32,
    block_size: u32,
    mip_level_count: u32,
) -> (r: u64)
    requires
        width * height * depth_or_array_layers * block_size <= u64::MAX,
        mip_chain_bytes(
            (width * height * depth_or_array_layers * block_size) as nat,
            mip_level_count as nat,
        ) <= u64::MAX,
    ensures
        r == mip_chain_bytes(
            (width * height * depth_or_array_layers * block_size) as nat,
            mip_level_count as nat,
        ),
{
    let ghost base = (width * height * depth_or_array_layers * block_size) as nat;
    let w = width as u128;
    let h = height as u128;
    let d = depth_or_array_layers as u128;
    let bs = block_size as u128;
    assert(w * h <= 0xffff_ffff * 0xffff_ffffu128) by (nonlinear_arith)
        requires
            w <= 0xffff_ffff,
            h <= 0xffff_ffff,
    ;
    let a: u128 = w * h;
    assert(a * d <= 0xffff_ffff * 0xffff_ffff * 0xffff_ffffu128) by (nonlinear_arith)
        requires
            a <= 0xffff_ffff * 0xffff_ffffu128,
            d <= 0xffff_ffff,
    ;
    let b: u128 = a * d;
    assert(b * bs <= 0xffff_ffff * 0xffff_ffff * 0xffff_ffff * 0xffff_ffffu128) by (nonlinear_arith)
        requires
            b <= 0xffff_ffff * 0xffff_ffff * 0xffff_ffffu128,
            bs <= 0xffff_ffff,
    ;
    let c: u128 = b * bs;
    assert(c == width * height * depth_or_array_layers * block_size);
    let first: u64 = c as u64;
    let mut mip_size: u64 = first;
    let mut size_in_bytes: u64 = first;
    let mut level: u32 = 1;
    while level < mip_level_count
        invariant
            1 <= level,
            first as nat == base,
            mip_chain_bytes(base, mip_level_count as nat) <= u64::MAX,
            mip_level_count > level ==> size_in_bytes + halving_sum((mip_size / 2) as nat, (
            mip_level_count - level) as nat) == mip_chain_bytes(base, mip_level_count as nat),
            mip_level_count <= level ==> size_in_bytes == mip_chain_bytes(base, mip_level_count as nat),
        decreases mip_level_count - level,
    {
        mip_size = mip_size / 2;
        assert(halving_sum(mip_size as nat, 1) == mip_size) by {
            reveal_with_fuel(halving_sum, 2);
        }
        assert(size_in_bytes + mip_size <= u64::MAX) by {
            lemma_halving_sum_nonneg((mip_size / 2) as nat, (mip_level_count - level - 1) as nat);
        }
        size_in_bytes = size_in_bytes + mip_size;
        level = level + 1;
    }
    size_in_bytes
}

/// The sums of halvings are not negative.
proof fn lemma_halving_sum_nonneg(mip: nat, levels: nat)
    ensures
        halving_sum(mip, levels) >= 0,
{
}

/// The alignment, in bytes, of each row of a texture copied to a buffer.
pub const COPY_BYTES_PER_ROW_ALIGNMENT: usize = 256;

/// The size of a texture: width, height and depth or number of layers.
#[derive(Clone, Copy, PartialEq, Eq, Structural, Debug)]
pub struct Extent3d {
    pub width: u32,
    pub height: u32,
    pub depth_or_array_layers: u32,
}

/// The size that a texture is read back at: its width and height times the
/// samples per pixel.
pub fn reader_size(base_size: Extent3d, sample_count: u32) -> (r: Extent3d)
    requires
        base_size.width * sample_count <= u32::MAX,
        base_size.height * sample_count <= u32::MAX,
    ensures
        r.width == base_size.width * sample_count,
        r.height == base_size.height * sample_count,
        r.depth_or_array_layers == base_size.depth_or_array_layers,
{
    Extent3d {
        width: base_size.width * sample_count,
        height: base_size.height * sample_count,
        depth_or_array_layers: base_size.depth_or_array_layers,
    }
}

/// `bytes` rounded up to a whole number of copy rows.
pub open spec fn padded_row(bytes: nat) -> nat {
    let align = COPY_BYTES_PER_ROW_ALIGNMENT as nat;
    bytes + ((align - bytes % align) as nat % align)
}

/// A padded row is the least whole number of copy rows that holds the row.
pub proof fn lemma_padded_row(bytes: nat)
    ensures
        padded_row(bytes) % (COPY_BYTES_PER_ROW_ALIGNMENT as nat) == 0,
        bytes <= padded_row(bytes) < bytes + COPY_BYTES_PER_ROW_ALIGNMENT,
{
}

/// The layout of a buffer that a texture is copied into, each row padded to
/// the copy alignment.
#[derive(Debug)]
pub struct WgpuBufferDimensions {
    pub size: Extent3d,
    pub unpadded_bytes_per_row: usize,
    pub padded_bytes_per_row: usize,
    pub padded_size: usize,
}

impl WgpuBufferDimensions {
    /// The layout for a texture of `size` with `bytes_per_pixel` bytes per
    /// pixel.
    pub fn new(size: Extent3d, bytes_per_pixel: usize) -> (r: Self)
        requires
            size.width * bytes_per_pixel <= usize::MAX,
            padded_row((size.width * bytes_per_pixel) as nat) <= usize::MAX,
            padded_row((size.width * bytes_per_pixel) as nat) * size.height <= usize::MAX,
            padded_row((size.width * bytes_per_pixel) as nat) * size.height
                * size.depth_or_array_layers <= usize::MAX,
        ensures
            r.size == size,
            r.unpadded_bytes_per_row == size.width * bytes_per_pixel,
            r.padded_bytes_per_row == padded_row(r.unpadded_bytes_per_row as nat),
            r.padded_size == r.padded_bytes_per_row * size.height * size.depth_or_array_layers,
    {
        let unpadded_bytes_per_row = (size.width as usize) * bytes_per_pixel;
        let align = COPY_BYTES_PER_ROW_ALIGNMENT;
        let padding = (align - unpadded_bytes_per_row % align) % align;
        let padded_bytes_per_row = unpadded_bytes_per_row + padding;
        let per_layer = padded_bytes_per_row * (size.height as usize);
        let padded_size = per_layer * (size.depth_or_array_layers as usize);
        WgpuBufferDimensions { size, padded_size, unpadded_bytes_per_row, padded_bytes_per_row }
    }
}

/// The base-2 logarithm of `x`, rounded down.
pub fn floor_log2(x: u32) -> (r: u32)
    requires
        x > 0,
    ensures
        r == log(2, x as int),
{
    let mut v = x;
    let mut r: u32 = 0;
    proof {
        vstd::arithmetic::power2::lemma2_to64();
    }
    while v >= 2
        invariant
            v > 0,
            r <= 32,
            pow2(0) == 1,
            pow2(1) == 2,
            (v as int) < pow2((32 - r) as nat),
            r + log(2, v as int) == log(2, x as int),
        decreases v,
    {
        proof {
            lemma_log_s(2, v as int);
            assert(r <= 30);
            lemma_pow2_unfold((32 - r) as nat);
        }
        v = v / 2;
        r = r + 1;
    }
    proof {
        lemma_log0(2, v as int);
    }
    r
}

/// The number of mip levels given to a single image of `width` by `height`:
/// the base-2 logarithm of its larger side, rounded down, and at least one.
pub fn image_mip_levels(width: u32, height: u32) -> (r: u32)
    requires
        width > 0 || height > 0,
    ensures
        r == (if log(2, if width >= height { width as int } else { height as int }) >= 1 {
            log(2, if width >= height { width as int } else { height as int })
        } else {
            1
        }),
{
    let size_max = if width >= height { width } else { height };
    let levels = floor_log2(size_max);
    if levels >= 1 { levels } else { 1 }
}

/// The number of mip levels given to an array of images of `width` by
/// `height`: the base-2 logarithm of the larger side, rounded down.
pub fn array_mip_levels(width: u32, height: u32) -> (r: u32)
    requires
        width > 0 || height > 0,
    ensures
        r == log(2, if width >= height { width as int } else { height as int }),
{
    let size_max = if width >= height { width } else { height };
    floor_log2(size_max)
}

/// The smallest and the largest of `sizes`, taken side by side (width with
/// width, height with height); both are zero where there are no sizes.
pub fn size_bounds(sizes: &[(u32, u32)]) -> (r: ((u32, u32), (u32, u32)))
    ensures
        sizes@.len() == 0 ==> r == ((0u32, 0u32), (0u32, 0u32)),
        sizes@.len() > 0 ==> {
            &&& forall|i: int| 0 <= i < sizes@.len() ==> r.0.0 <= (#[trigger] sizes@[i]).0 <= r.1.0 && r.0.1 <= sizes@[i].1 <= r.1.1
            &&& exists|i: int| 0 <= i < sizes@.len() && (#[trigger] sizes@[i]).0 == r.0.0
            &&& exists|i: int| 0 <= i < sizes@.len() && (#[trigger] sizes@[i]).1 == r.0.1
            &&& exists|i: int| 0 <= i < sizes@.len() && (#[trigger] sizes@[i]).0 == r.1.0
            &&& exists|i: int| 0 <= i < sizes@.len() && (#[trigger] sizes@[i]).1 == r.1.1
        },
{
    if sizes.len() == 0 {
        return ((0, 0), (0, 0));
    }
    let mut lo = sizes[0];
    let mut hi = sizes[0];
    let mut i: usize = 1;
    while i < sizes.len()
        invariant
            1 <= i <= sizes@.len(),
            forall|k: int| 0 <= k < i ==> lo.0 <= (#[trigger] sizes@[k]).0 <= hi.0 && lo.1 <= sizes@[k].1 <= hi.1,
            exists|k: int| 0 <= k < i && (#[trigger] sizes@[k]).0 == lo.0,
            exists|k: int| 0 <= k < i && (#[trigger] sizes@[k]).1 == lo.1,
            exists|k: int| 0 <= k < i && (#[trigger] sizes@[k]).0 == hi.0,
            exists|k: int| 0 <= k < i && (#[trigger] sizes@[k]).1 == hi.1,
        decreases sizes@.len() - i,
    {
        let (w, h) = sizes[i];
        if w < lo.0 {
            lo.0 = w;
        }
        if h < lo.1 {
            lo.1 = h;
        }
        if w > hi.0 {
            hi.0 = w;
        }
        if h > hi.1 {
            hi.1 = h;
        }
        i = i + 1;
    }
    (lo, hi)
}

/// The rows of a read-back buffer without their padding: the first `n` rows
/// of `padded`, each `padded_row` bytes long, cut to `row` bytes.
pub open spec fn unpadded_rows(padded: Seq<u8>, padded_row: nat, row: nat, n: nat) -> Seq<u8>
    decreases n,
{
    if n == 0 {
        Seq::empty()
    } else {
        unpadded_rows(padded, padded_row, row, (n - 1) as nat) + padded.subrange(
            (n - 1) * padded_row,
            (n - 1) * padded_row + row,
        )
    }
}

/// Takes the padding off each of the `rows` rows of `padded`, whose rows are
/// `padded_bytes_per_row` long and hold `unpadded_bytes_per_row` bytes each.
pub fn unpad_rows(padded: &[u8], padded_bytes_per_row: usize, unpadded_bytes_per_row: usize, rows: usize) -> (r: Vec<u8>)
    requires
        unpadded_bytes_per_row <= padded_bytes_per_row,
        rows * padded_bytes_per_row <= padded@.len(),
    ensures
        r@ == unpadded_rows(padded@, padded_bytes_per_row as nat, unpadded_bytes_per_row as nat, rows as nat),
{
    let total = padded.len();
    let mut r: Vec<u8> = Vec::new();
    let mut i: usize = 0;
    while i < rows
        invariant
            total == padded@.len(),
            unpadded_bytes_per_row <= padded_bytes_per_row,
            rows * padded_bytes_per_row <= padded@.len(),
            i <= rows,
            r@ == unpadded_rows(padded@, padded_bytes_per_row as nat, unpadded_bytes_per_row as nat, i as nat),
        decreases rows - i,
    {
        assert((i + 1) * padded_bytes_per_row <= rows * padded_bytes_per_row) by (nonlinear_arith)
            requires
                i + 1 <= rows,
        ;
        assert((i + 1) * padded_bytes_per_row == i * padded_bytes_per_row + padded_bytes_per_row) by (nonlinear_arith);
        assert(i * padded_bytes_per_row <= rows * padded_bytes_per_row) by (nonlinear_arith)
            requires
                i <= rows,
        ;
        let start = i * padded_bytes_per_row;
        let ghost before = r@;
        let mut j: usize = 0;
        while j < unpadded_bytes_per_row
            invariant
                total == padded@.len(),
                start == i * padded_bytes_per_row,
                start + padded_bytes_per_row <= padded@.len(),
                unpadded_bytes_per_row <= padded_bytes_per_row,
                j <= unpadded_bytes_per_row,
                r@ == before + padded@.subrange(start as int, start + j),
            decreases unpadded_bytes_per_row - j,
        {
            r.push(padded[start + j]);
            assert(padded@.subrange(start as int, start + j + 1) =~= padded@.subrange(start as int, start + j).push(padded@[start + j]));
            j = j + 1;
        }
        i = i + 1;
    }
    r
}

/// Reorders each whole four-byte pixel of `data` as the reader of BGRA
/// textures does: a pixel `[b, g, r, a]` becomes `[r, b, g, a]`. Bytes after
/// the last whole pixel stay as they are.
pub fn swizzle_bgra_pixels(data: &mut Vec<u8>)
    ensures
        final(data)@.len() == old(data)@.len(),
        forall|p: int| 0 <= p < old(data)@.len() / 4 ==> {
            &&& #[trigger] final(data)@[4 * p] == old(data)@[4 * p + 2]
            &&& final(data)@[4 * p + 1] == old(data)@[4 * p]
            &&& final(data)@[4 * p + 2] == old(data)@[4 * p + 1]
            &&& final(data)@[4 * p + 3] == old(data)@[4 * p + 3]
        },
        forall|k: int| 4 * (old(data)@.len() / 4) <= k < old(data)@.len() ==> #[trigger] final(data)@[k] == old(data)@[k],
{
    let ghost start = data@;
    let n = data.len();
    let mut i: usize = 0;
    let ghost mut q: int = 0;
    while n - i >= 4
        invariant
            n == start.len(),
            data@.len() == n,
            i == 4 * q,
            i <= n,
            forall|p: int| 0 <= p < q ==> {
                &&& #[trigger] data@[4 * p] == start[4 * p + 2]
                &&& data@[4 * p + 1] == start[4 * p]
                &&& data@[4 * p + 2] == start[4 * p + 1]
                &&& data@[4 * p + 3] == start[4 * p + 3]
            },
            forall|k: int| i <= k < n ==> #[trigger] data@[k] == start[k],
        decreases n - i,
    {
        let ghost before = data@;
        let b = data[i];
        let g = data[i + 1];
        let r = data[i + 2];
        data.set(i, r);
        data.set(i + 1, b);
        data.set(i + 2, g);
        assert forall|p: int| 0 <= p < q + 1 implies {
            &&& #[trigger] data@[4 * p] == start[4 * p + 2]
            &&& data@[4 * p + 1] == start[4 * p]
            &&& data@[4 * p + 2] == start[4 * p + 1]
            &&& data@[4 * p + 3] == start[4 * p + 3]
        } by {
            if p < q {
                assert(before[4 * p] == start[4 * p + 2]);
            }
        }
        i = i + 4;
        proof {
            q = q + 1;
        }
    }
    assert(q == n / 4);
}

} // verus!
