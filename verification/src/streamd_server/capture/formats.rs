//! Pixel formats and the advertisements that they are chosen from.

use crate::wire::{get_le, le_value};
use vstd::prelude::*;

verus! {

/// Whether to capture via DMA-BUF or SHM.
#[derive(Clone, Copy, Debug, PartialEq, Eq, Structural)]
pub enum CaptureMode {
    DmaBuf,
    Shm,
}

/// Pixel formats of shared-memory frames.
#[derive(Clone, Copy, Debug, PartialEq, Eq, Structural)]
pub enum ShmPixelFormat {
    Xrgb8888,
    Argb8888,
}

/// Pixel formats of DMA-BUF frames.
#[derive(Clone, Copy, Debug, PartialEq, Eq, Structural)]
pub enum DmabufPixelFormat {
    Xrgb8888,
    Argb8888,
}

/// The modifier of a buffer whose rows lie one behind the other.
pub const DRM_FORMAT_MOD_LINEAR: u64 = 0;

/// The code of a pixel format in `wl_shm`.
pub open spec fn shm_code(format: ShmPixelFormat) -> u32 {
    match format {
        ShmPixelFormat::Argb8888 => 0,
        ShmPixelFormat::Xrgb8888 => 1,
    }
}

impl ShmPixelFormat {
    /// The format of a `wl_shm` code, where it is one that can be captured.
    pub open spec fn of_code(code: u32) -> Option<ShmPixelFormat> {
        if code == 0 {
            Some(ShmPixelFormat::Argb8888)
        } else if code == 1 {
            Some(ShmPixelFormat::Xrgb8888)
        } else {
            None
        }
    }

    pub fn from_wayland(code: u32) -> (r: Option<ShmPixelFormat>)
        ensures
            r == ShmPixelFormat::of_code(code),
    {
        if code == 0 {
            Some(ShmPixelFormat::Argb8888)
        } else if code == 1 {
            Some(ShmPixelFormat::Xrgb8888)
        } else {
            None
        }
    }

    pub fn to_wayland(self) -> (r: u32)
        ensures
            r == shm_code(self),
    {
        match self {
            ShmPixelFormat::Argb8888 => 0,
            ShmPixelFormat::Xrgb8888 => 1,
        }
    }
}

/// A format and its `wl_shm` code stand for each other.
pub proof fn shm_codes_are_inverse(format: ShmPixelFormat, code: u32)
    ensures
        ShmPixelFormat::of_code(code) == Some(format) <==> shm_code(format) == code,
{
}

/// The code that four letters make.
pub open spec fn fourcc(a: u8, b: u8, c: u8, d: u8) -> u32 {
    (a + 0x100 * b + 0x1_0000 * c + 0x100_0000 * d) as u32
}

pub fn drm_fourcc(a: u8, b: u8, c: u8, d: u8) -> (r: u32)
    ensures
        r == fourcc(a, b, c, d),
{
    proof {
        let (w, x, y, z) = (a as u32, b as u32, c as u32, d as u32);
        assert(w | (x << 8) | (y << 16) | (z << 24) == w + 0x100 * x + 0x1_0000 * y + 0x100_0000 * z)
            by (bit_vector)
            requires
                w < 256,
                x < 256,
                y < 256,
                z < 256,
        ;
    }
    (a as u32) | ((b as u32) << 8) | ((c as u32) << 16) | ((d as u32) << 24)
}

/// The code of a pixel format in DRM: `XR24` or `AR24`.
pub open spec fn drm_code(format: DmabufPixelFormat) -> u32 {
    match format {
        DmabufPixelFormat::Xrgb8888 => fourcc(88, 82, 50, 52),
        DmabufPixelFormat::Argb8888 => fourcc(65, 82, 50, 52),
    }
}

impl DmabufPixelFormat {
    /// The format of a DRM code, where it is one that can be captured.
    pub open spec fn of_code(code: u32) -> Option<DmabufPixelFormat> {
        if code == drm_code(DmabufPixelFormat::Xrgb8888) {
            Some(DmabufPixelFormat::Xrgb8888)
        } else if code == drm_code(DmabufPixelFormat::Argb8888) {
            Some(DmabufPixelFormat::Argb8888)
        } else {
            None
        }
    }

    pub fn drm_format(self) -> (r: u32)
        ensures
            r == drm_code(self),
    {
        match self {
            DmabufPixelFormat::Xrgb8888 => drm_fourcc(88, 82, 50, 52),
            DmabufPixelFormat::Argb8888 => drm_fourcc(65, 82, 50, 52),
        }
    }

    pub fn from_drm_format(format: u32) -> (r: Option<DmabufPixelFormat>)
        ensures
            r == DmabufPixelFormat::of_code(format),
    {
        if format == drm_fourcc(88, 82, 50, 52) {
            Some(DmabufPixelFormat::Xrgb8888)
        } else if format == drm_fourcc(65, 82, 50, 52) {
            Some(DmabufPixelFormat::Argb8888)
        } else {
            None
        }
    }
}

/// A format and its DRM code stand for each other.
pub proof fn drm_codes_are_inverse(format: DmabufPixelFormat, code: u32)
    ensures
        DmabufPixelFormat::of_code(code) == Some(format) <==> drm_code(format) == code,
{
}

/// The format to capture in, once another one has been advertised: `Xrgb8888`
/// is preferred, and what cannot be captured is passed over.
pub open spec fn shm_choice(current: Option<ShmPixelFormat>, code: u32) -> Option<ShmPixelFormat> {
    match ShmPixelFormat::of_code(code) {
        Some(ShmPixelFormat::Xrgb8888) => Some(ShmPixelFormat::Xrgb8888),
        Some(ShmPixelFormat::Argb8888) => if current == Some(ShmPixelFormat::Xrgb8888) {
            current
        } else {
            Some(ShmPixelFormat::Argb8888)
        },
        None => current,
    }
}

pub fn maybe_update_shm_format(current: Option<ShmPixelFormat>, advertised: u32) -> (r: Option<
    ShmPixelFormat,
>)
    ensures
        r == shm_choice(current, advertised),
{
    match ShmPixelFormat::from_wayland(advertised) {
        Some(ShmPixelFormat::Xrgb8888) => Some(ShmPixelFormat::Xrgb8888),
        Some(ShmPixelFormat::Argb8888) => match current {
            Some(ShmPixelFormat::Xrgb8888) => current,
            _ => Some(ShmPixelFormat::Argb8888),
        },
        None => current,
    }
}

/// The choice after a list of advertisements.
pub open spec fn shm_choices(current: Option<ShmPixelFormat>, codes: Seq<u32>) -> Option<
    ShmPixelFormat,
>
    decreases codes.len(),
{
    if codes.len() == 0 {
        current
    } else {
        shm_choice(shm_choices(current, codes.drop_last()), codes.last())
    }
}

/// In whatever order formats are advertised, the same one is chosen: `Xrgb8888`
/// where it is among them, else `Argb8888`, else none.
pub proof fn shm_choice_needs_no_order(codes: Seq<u32>)
    ensures
        shm_choices(None, codes) == if codes.contains(shm_code(ShmPixelFormat::Xrgb8888)) {
            Some(ShmPixelFormat::Xrgb8888)
        } else if codes.contains(shm_code(ShmPixelFormat::Argb8888)) {
            Some(ShmPixelFormat::Argb8888)
        } else {
            None
        },
    decreases codes.len(),
{
    if codes.len() > 0 {
        let before = codes.drop_last();
        shm_choice_needs_no_order(before);
        assert(codes =~= before.push(codes.last()));
        assert forall|c: u32| codes.contains(c) <==> before.contains(c) || c == codes.last() by {
            if before.contains(c) {
                let i = choose|i: int| 0 <= i < before.len() && before[i] == c;
                assert(codes[i] == c);
            }
            if codes.contains(c) {
                let i = choose|i: int| 0 <= i < codes.len() && codes[i] == c;
                if i < before.len() {
                    assert(before[i] == c);
                }
            }
            assert(codes[codes.len() - 1] == codes.last());
        }
    }
}

/// A format together with the layout of its buffers.
#[derive(Clone, Copy, Debug, PartialEq, Eq, Structural)]
pub struct DmabufFormatSelection {
    pub format: DmabufPixelFormat,
    pub modifier: u64,
}

/// The format to capture in, once another one has been advertised with its
/// modifiers. Only linear buffers are captured, `Xrgb8888` is preferred, and what
/// cannot be captured is passed over.
pub open spec fn dmabuf_choice(
    current: Option<DmabufFormatSelection>,
    code: u32,
    modifiers: Seq<u64>,
) -> Option<DmabufFormatSelection> {
    match DmabufPixelFormat::of_code(code) {
        None => current,
        Some(format) => if !modifiers.contains(DRM_FORMAT_MOD_LINEAR) {
            current
        } else if format is Argb8888 && (current matches Some(c) && c.format is Xrgb8888) {
            current
        } else {
            Some(DmabufFormatSelection { format, modifier: DRM_FORMAT_MOD_LINEAR })
        },
    }
}

pub fn maybe_update_dmabuf_format(
    current: Option<DmabufFormatSelection>,
    drm_format: u32,
    modifiers: &Vec<u64>,
) -> (r: Option<DmabufFormatSelection>)
    ensures
        r == dmabuf_choice(current, drm_format, modifiers@),
{
    let format = match DmabufPixelFormat::from_drm_format(drm_format) {
        Some(format) => format,
        None => {
            return current;
        },
    };
    let mut linear = false;
    let mut i: usize = 0;
    while i < modifiers.len() && !linear
        invariant
            i <= modifiers@.len(),
            linear ==> modifiers@.contains(DRM_FORMAT_MOD_LINEAR),
            !linear ==> forall|j: int| 0 <= j < i ==> modifiers@[j] != DRM_FORMAT_MOD_LINEAR,
        decreases modifiers@.len() - i,
    {
        if modifiers[i] == DRM_FORMAT_MOD_LINEAR {
            assert(modifiers@[i as int] == DRM_FORMAT_MOD_LINEAR);
            linear = true;
        }
        i = i + 1;
    }
    if !linear {
        return current;
    }
    let candidate = DmabufFormatSelection { format, modifier: DRM_FORMAT_MOD_LINEAR };
    match (current, format) {
        (Some(existing), DmabufPixelFormat::Argb8888) => {
            if existing.format == DmabufPixelFormat::Xrgb8888 {
                Some(existing)
            } else {
                Some(candidate)
            }
        },
        _ => Some(candidate),
    }
}

/// A format as the compositor advertises it: its code, and the modifiers of its
/// buffers.
pub struct DmabufAdvert {
    pub code: u32,
    pub modifiers: Seq<u64>,
}

/// The format of this code can be captured in linear buffers.
pub open spec fn offers_linear(adverts: Seq<DmabufAdvert>, format: DmabufPixelFormat) -> bool {
    exists|i: int|
        0 <= i < adverts.len() && (#[trigger] adverts[i]).code == drm_code(format)
            && adverts[i].modifiers.contains(DRM_FORMAT_MOD_LINEAR)
}

/// The choice after a list of advertisements.
pub open spec fn dmabuf_choices(
    current: Option<DmabufFormatSelection>,
    adverts: Seq<DmabufAdvert>,
) -> Option<DmabufFormatSelection>
    decreases adverts.len(),
{
    if adverts.len() == 0 {
        current
    } else {
        dmabuf_choice(
            dmabuf_choices(current, adverts.drop_last()),
            adverts.last().code,
            adverts.last().modifiers,
        )
    }
}

/// In whatever order formats are advertised, the same one is chosen: linear
/// `Xrgb8888` where it is among them, else linear `Argb8888`, else none.
pub proof fn dmabuf_choice_needs_no_order(adverts: Seq<DmabufAdvert>)
    ensures
        dmabuf_choices(None, adverts) == if offers_linear(adverts, DmabufPixelFormat::Xrgb8888) {
            Some(
                DmabufFormatSelection {
                    format: DmabufPixelFormat::Xrgb8888,
                    modifier: DRM_FORMAT_MOD_LINEAR,
                },
            )
        } else if offers_linear(adverts, DmabufPixelFormat::Argb8888) {
            Some(
                DmabufFormatSelection {
                    format: DmabufPixelFormat::Argb8888,
                    modifier: DRM_FORMAT_MOD_LINEAR,
                },
            )
        } else {
            None
        },
    decreases adverts.len(),
{
    if adverts.len() > 0 {
        let before = adverts.drop_last();
        let last = adverts.last();
        dmabuf_choice_needs_no_order(before);
        drm_codes_are_inverse(DmabufPixelFormat::Xrgb8888, last.code);
        drm_codes_are_inverse(DmabufPixelFormat::Argb8888, last.code);
        assert forall|format: DmabufPixelFormat| #[trigger]
            offers_linear(adverts, format) <==> offers_linear(before, format) || (last.code
                == drm_code(format) && last.modifiers.contains(DRM_FORMAT_MOD_LINEAR)) by {
            if offers_linear(before, format) {
                let i = choose|i: int|
                    0 <= i < before.len() && (#[trigger] before[i]).code == drm_code(format)
                        && before[i].modifiers.contains(DRM_FORMAT_MOD_LINEAR);
                assert(adverts[i] == before[i]);
            }
            if offers_linear(adverts, format) {
                let i = choose|i: int|
                    0 <= i < adverts.len() && (#[trigger] adverts[i]).code == drm_code(format)
                        && adverts[i].modifiers.contains(DRM_FORMAT_MOD_LINEAR);
                if i < before.len() {
                    assert(before[i] == adverts[i]);
                }
            }
            assert(adverts[adverts.len() - 1] == last);
        }
    }
}

/// The order of the bytes of a number in the machine's memory.
#[derive(Clone, Copy, Debug, PartialEq, Eq, Structural)]
pub enum ByteOrder {
    Little,
    Big,
}

/// The number that lies in memory as these bytes.
pub open spec fn native(bytes: Seq<u8>, order: ByteOrder) -> nat {
    match order {
        ByteOrder::Little => le_value(bytes),
        ByteOrder::Big => le_value(bytes.reverse()),
    }
}

/// Reads a number of `width` bytes at `at`.
fn get_native(bytes: &[u8], at: usize, width: usize, order: ByteOrder) -> (n: u64)
    requires
        at + width <= bytes@.len(),
        width <= 8,
    ensures
        n == native(bytes@.subrange(at as int, at + width), order),
{
    let ghost these = bytes@.subrange(at as int, at + width);
    match order {
        ByteOrder::Little => get_le(bytes, at, width),
        ByteOrder::Big => {
            let total: usize = bytes.len();
            let mut turned: Vec<u8> = Vec::new();
            let mut i: usize = 0;
            while i < width
                invariant
                    i <= width,
                    at + width <= total == bytes@.len(),
                    these == bytes@.subrange(at as int, at + width),
                    turned@ == these.reverse().take(i as int),
                decreases width - i,
            {
                turned.push(bytes[at + (width - 1 - i)]);
                i = i + 1;
                assert(turned@ =~= these.reverse().take(i as int));
            }
            assert(turned@ =~= these.reverse());
            assert(turned@.subrange(0, width as int) =~= turned@);
            get_le(turned.as_slice(), 0, width)
        },
    }
}

/// The device that an advertisement names.
pub open spec fn dmabuf_device(bytes: Seq<u8>, order: ByteOrder) -> Option<u64> {
    if bytes.len() == 4 || bytes.len() == 8 {
        Some(native(bytes, order) as u64)
    } else {
        None
    }
}

pub fn parse_dmabuf_device(bytes: &[u8], order: ByteOrder) -> (r: Option<u64>)
    ensures
        r == dmabuf_device(bytes@, order),
{
    if bytes.len() == 4 || bytes.len() == 8 {
        assert(bytes@.subrange(0, bytes@.len() as int) =~= bytes@);
        Some(get_native(bytes, 0, bytes.len(), order))
    } else {
        None
    }
}

/// The modifiers that an advertisement lists, eight bytes each; what is left
/// over at the end is no modifier.
pub open spec fn dmabuf_modifiers(bytes: Seq<u8>, order: ByteOrder) -> Seq<u64> {
    Seq::new(
        bytes.len() / 8,
        |i: int| native(bytes.subrange(8 * i, 8 * i + 8), order) as u64,
    )
}

pub fn parse_dmabuf_modifiers(bytes: &[u8], order: ByteOrder) -> (r: Vec<u64>)
    ensures
        r@ == dmabuf_modifiers(bytes@, order),
{
    let total: usize = bytes.len();
    let count: usize = total / 8;
    let mut r: Vec<u64> = Vec::new();
    let mut i: usize = 0;
    while i < count
        invariant
            i <= count,
            count == total / 8,
            total == bytes@.len(),
            r@ == dmabuf_modifiers(bytes@, order).take(i as int),
        decreases count - i,
    {
        r.push(get_native(bytes, 8 * i, 8, order));
        i = i + 1;
        assert(r@ =~= dmabuf_modifiers(bytes@, order).take(i as int));
    }
    assert(r@ =~= dmabuf_modifiers(bytes@, order));
    r
}

/// The codes of the formats: in `wl_shm` 0 for the format with alpha and 1 for the one
/// without, in DRM the letters `AR24` and `XR24`, the first letter in the lowest byte.
pub proof fn formats_have_their_codes(a: u8, b: u8, c: u8, d: u8)
    ensures
        shm_code(ShmPixelFormat::Argb8888) == 0,
        shm_code(ShmPixelFormat::Xrgb8888) == 1,
        drm_code(DmabufPixelFormat::Argb8888) == 0x3432_5241,
        drm_code(DmabufPixelFormat::Xrgb8888) == 0x3432_5258,
        fourcc(a, b, c, d) as nat % 256 == a,
        fourcc(a, b, c, d) as nat / 0x100 % 256 == b,
        fourcc(a, b, c, d) as nat / 0x1_0000 % 256 == c,
        fourcc(a, b, c, d) as nat / 0x100_0000 == d,
        DRM_FORMAT_MOD_LINEAR == 0,
{
}

/// The format without alpha is chosen as soon as it is advertised and kept from then on.
/// The one with alpha is chosen where there is no other. Another code changes nothing.
pub proof fn the_format_without_alpha_is_preferred(current: Option<ShmPixelFormat>, code: u32)
    ensures
        code == 1 ==> (shm_choice(current, code) matches Some(f) && f is Xrgb8888),
        code == 0 && !(current matches Some(f) && f is Xrgb8888) ==> (shm_choice(
            current,
            code,
        ) matches Some(f) && f is Argb8888),
        current matches Some(f) && f is Xrgb8888 ==> shm_choice(current, code) == current,
        code > 1 ==> shm_choice(current, code) == current,
{
}

/// The same for DMA-BUFs, of which only those with linear rows are chosen.
pub proof fn only_linear_buffers_are_chosen(
    current: Option<DmabufFormatSelection>,
    code: u32,
    modifiers: Seq<u64>,
)
    ensures
        ({
            let choice = dmabuf_choice(current, code, modifiers);
            &&& !modifiers.contains(0) ==> choice == current
            &&& code != 0x3432_5258 && code != 0x3432_5241 ==> choice == current
            &&& code == 0x3432_5258 && modifiers.contains(0) ==> (choice matches Some(s)
                && s.format is Xrgb8888 && s.modifier == 0)
            &&& code == 0x3432_5241 && modifiers.contains(0) && !(current matches Some(s)
                && s.format is Xrgb8888) ==> (choice matches Some(s) && s.format is Argb8888
                && s.modifier == 0)
            &&& code == 0x3432_5241 && (current matches Some(s) && s.format is Xrgb8888) ==> choice
                == current
        }),
{
}

proof fn lemma_le_4(s: Seq<u8>)
    requires
        s.len() == 4,
    ensures
        le_value(s) == s[0] + 0x100 * s[1] + 0x1_0000 * s[2] + 0x100_0000 * s[3],
{
    reveal_with_fuel(le_value, 5);
}

proof fn lemma_le_8(s: Seq<u8>)
    requires
        s.len() == 8,
    ensures
        le_value(s) == s[0] + 0x100 * s[1] + 0x1_0000 * s[2] + 0x100_0000 * s[3] + 0x1_0000_0000
            * s[4] + 0x100_0000_0000 * s[5] + 0x1_0000_0000_0000 * s[6] + 0x100_0000_0000_0000
            * s[7],
{
    reveal_with_fuel(le_value, 9);
}

/// A device is named by a number of four or eight bytes in the machine's order, and by
/// nothing else.
pub proof fn devices_are_numbers(bytes: Seq<u8>)
    ensures
        bytes.len() != 4 && bytes.len() != 8 ==> dmabuf_device(bytes, ByteOrder::Little) is None
            && dmabuf_device(bytes, ByteOrder::Big) is None,
        bytes.len() == 4 ==> (dmabuf_device(bytes, ByteOrder::Little) matches Some(n) && n
            == bytes[0] + 0x100 * bytes[1] + 0x1_0000 * bytes[2] + 0x100_0000 * bytes[3]),
        bytes.len() == 4 ==> (dmabuf_device(bytes, ByteOrder::Big) matches Some(n) && n == bytes[3]
            + 0x100 * bytes[2] + 0x1_0000 * bytes[1] + 0x100_0000 * bytes[0]),
        bytes.len() == 8 ==> (dmabuf_device(bytes, ByteOrder::Little) matches Some(n) && n
            == bytes[0] + 0x100 * bytes[1] + 0x1_0000 * bytes[2] + 0x100_0000 * bytes[3]
            + 0x1_0000_0000 * bytes[4] + 0x100_0000_0000 * bytes[5] + 0x1_0000_0000_0000 * bytes[6]
            + 0x100_0000_0000_0000 * bytes[7]),
        bytes.len() == 8 ==> dmabuf_device(bytes, ByteOrder::Big) == dmabuf_device(
            bytes.reverse(),
            ByteOrder::Little,
        ),
{
    if bytes.len() == 4 {
        lemma_le_4(bytes);
        lemma_le_4(bytes.reverse());
    } else if bytes.len() == 8 {
        lemma_le_8(bytes);
        lemma_le_8(bytes.reverse());
    }
}

/// Modifiers are listed one behind the other, eight bytes each.
pub proof fn modifiers_are_listed_in_a_row(bytes: Seq<u8>, i: int)
    requires
        0 <= i,
        8 * i + 8 <= bytes.len(),
    ensures
        ({
            let list = dmabuf_modifiers(bytes, ByteOrder::Little);
            let b = bytes.skip(8 * i);
            &&& 8 * list.len() <= bytes.len() < 8 * list.len() + 8
            &&& i < list.len()
            &&& list[i] == b[0] + 0x100 * b[1] + 0x1_0000 * b[2] + 0x100_0000 * b[3]
                + 0x1_0000_0000 * b[4] + 0x100_0000_0000 * b[5] + 0x1_0000_0000_0000 * b[6]
                + 0x100_0000_0000_0000 * b[7]
            &&& dmabuf_modifiers(bytes, ByteOrder::Big).len() == list.len()
            &&& Some(dmabuf_modifiers(bytes, ByteOrder::Big)[i]) == dmabuf_device(
                bytes.subrange(8 * i, 8 * i + 8),
                ByteOrder::Big,
            )
        }),
{
    lemma_le_8(bytes.subrange(8 * i, 8 * i + 8));
}

} // verus!
