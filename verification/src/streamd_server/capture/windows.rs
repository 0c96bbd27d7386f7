//! Windows desktop capture via DXGI Desktop Duplication.

use crate::streamd_proto::packets::{opt_view, DisplayInfo, DisplayInfoView};
use crate::streamd_server::capture::pixels::WindowsFrameFormat;
use crate::streamd_server::capture::pointer::{
    can_be_placed, on_display, CursorShapeError, PointerPosition, PointerShape, PointerTracker,
    PointerTrackerView,
};
use crate::text::{decimal, push_decimal, push_quoted, quoted, trim, trimmed};
use crate::yin_yang_proto::packets::{
    RemoteCursorShape, RemoteCursorShapeView, RemoteCursorState,
};
use vstd::prelude::*;
use vstd::slice::slice_subrange;
use vstd::string::StringExecFns;

verus! {

/// The vendor whose adapters convert HDR frames themselves.
pub const NVIDIA_VENDOR_ID: u32 = 0x10DE;

/// The codes of the pixel formats that can be captured.
pub const DXGI_FORMAT_R16G16B16A16_FLOAT: u32 = 10;

pub const DXGI_FORMAT_B8G8R8A8_UNORM: u32 = 87;

pub const DXGI_FORMAT_B8G8R8X8_UNORM: u32 = 88;

/// The pixel format of a code, where it is one that can be captured.
pub open spec fn frame_format(code: u32) -> Option<WindowsFrameFormat> {
    if code == DXGI_FORMAT_B8G8R8A8_UNORM {
        Some(WindowsFrameFormat::Bgra8)
    } else if code == DXGI_FORMAT_B8G8R8X8_UNORM {
        Some(WindowsFrameFormat::Bgrx8)
    } else if code == DXGI_FORMAT_R16G16B16A16_FLOAT {
        Some(WindowsFrameFormat::RgbaF16)
    } else {
        None
    }
}

pub fn pixel_format_from_dxgi(format: u32) -> (r: Option<WindowsFrameFormat>)
    ensures
        r == frame_format(format),
{
    if format == DXGI_FORMAT_B8G8R8A8_UNORM {
        Some(WindowsFrameFormat::Bgra8)
    } else if format == DXGI_FORMAT_B8G8R8X8_UNORM {
        Some(WindowsFrameFormat::Bgrx8)
    } else if format == DXGI_FORMAT_R16G16B16A16_FLOAT {
        Some(WindowsFrameFormat::RgbaF16)
    } else {
        None
    }
}

// ---------------------------------------------------------------------------
// Displays
// ---------------------------------------------------------------------------

/// The text of UTF-16 code units, with a replacement character for each that is
/// no part of a character.
pub uninterp spec fn utf16_text(units: Seq<u16>) -> Seq<char>;

/// `String::from_utf16_lossy`. Which characters the units stand for is not
/// stated.
#[verifier::external_body]
fn from_utf16_lossy(units: &[u16]) -> (r: String)
    ensures
        r@ == utf16_text(units@),
{
    String::from_utf16_lossy(units)
}

/// The units before the first zero.
pub open spec fn until_zero(units: Seq<u16>) -> Seq<u16>
    decreases units.len(),
{
    if units.len() == 0 || units[0] == 0 {
        Seq::empty()
    } else {
        seq![units[0]] + until_zero(units.skip(1))
    }
}

/// Reads a text that ends at the first zero, or with its buffer.
pub fn wide_string(chars: &[u16]) -> (r: String)
    ensures
        r@ == utf16_text(until_zero(chars@)),
{
    let ghost all = chars@;
    let mut end: usize = 0;
    assert(all.take(0) + until_zero(all.skip(0)) =~= until_zero(all)) by {
        assert(all.skip(0) =~= all);
    }
    while end < chars.len() && chars[end] != 0
        invariant
            end <= all.len(),
            all == chars@,
            until_zero(all) == all.take(end as int) + until_zero(all.skip(end as int)),
        decreases all.len() - end,
    {
        let rest = Ghost(all.skip(end as int));
        assert(rest@.skip(1) =~= all.skip(end as int + 1));
        assert(all.take(end as int) + (seq![rest@[0]] + until_zero(rest@.skip(1))) =~= all.take(
            end as int + 1,
        ) + until_zero(all.skip(end as int + 1)));
        end = end + 1;
    }
    assert(until_zero(all) =~= all.take(end as int));
    assert(all.subrange(0, end as int) =~= all.take(end as int));
    from_utf16_lossy(slice_subrange(chars, 0, end))
}

/// The identifier of an output, by the places of its adapter and its own.
pub open spec fn output_id(adapter_index: nat, output_index: nat) -> Seq<char> {
    "windows:"@ + decimal(adapter_index) + ":"@ + decimal(output_index)
}

pub fn windows_display_id(adapter_index: u32, output_index: u32) -> (r: String)
    ensures
        r@ == output_id(adapter_index as nat, output_index as nat),
{
    let mut r = String::from_str("windows:");
    push_decimal(&mut r, adapter_index as u64);
    r.append(":");
    push_decimal(&mut r, output_index as u64);
    r
}

/// The description of an output: its adapter's name and its own, where the former
/// adds to the latter.
pub open spec fn output_description(adapter_name: Seq<char>, output_name: Seq<char>) -> Option<
    Seq<char>,
> {
    if trimmed(adapter_name).len() == 0 || trimmed(adapter_name) == output_name {
        None
    } else {
        Some(trimmed(adapter_name) + " / "@ + output_name)
    }
}

pub fn windows_display_description(adapter_name: &str, output_name: &String) -> (r: Option<String>)
    ensures
        opt_view(r) == output_description(adapter_name@, output_name@),
{
    let mut text = String::from_str(trim(adapter_name));
    if text.as_str().unicode_len() == 0 || text == *output_name {
        return None;
    }
    text.append(" / ");
    text.append(output_name.as_str());
    Some(text)
}

/// A part of the desktop.
#[derive(Clone, Copy, Debug, PartialEq, Eq, Structural)]
pub struct DesktopRect {
    pub left: i32,
    pub top: i32,
    pub right: i32,
    pub bottom: i32,
}

impl DesktopRect {
    /// Its sides can be measured in 32 bits.
    pub open spec fn measurable(self) -> bool {
        &&& i32::MIN <= self.right - self.left <= i32::MAX
        &&& i32::MIN <= self.bottom - self.top <= i32::MAX
    }

    pub open spec fn width(self) -> u32 {
        if self.right > self.left {
            (self.right - self.left) as u32
        } else {
            0
        }
    }

    pub open spec fn height(self) -> u32 {
        if self.bottom > self.top {
            (self.bottom - self.top) as u32
        } else {
            0
        }
    }
}

pub fn display_width(rect: &DesktopRect) -> (r: u32)
    requires
        rect.measurable(),
    ensures
        r == rect.width(),
{
    let width: i32 = rect.right - rect.left;
    if width > 0 {
        width as u32
    } else {
        0
    }
}

pub fn display_height(rect: &DesktopRect) -> (r: u32)
    requires
        rect.measurable(),
    ensures
        r == rect.height(),
{
    let height: i32 = rect.bottom - rect.top;
    if height > 0 {
        height as u32
    } else {
        0
    }
}

/// An output as the system describes it.
#[derive(Debug)]
pub struct OutputDesc {
    pub device_name: Vec<u16>,
    pub attached: bool,
    pub desktop: DesktopRect,
}

pub struct OutputDescView {
    pub device_name: Seq<u16>,
    pub attached: bool,
    pub desktop: DesktopRect,
}

impl View for OutputDesc {
    type V = OutputDescView;

    open spec fn view(&self) -> OutputDescView {
        OutputDescView {
            device_name: self.device_name@,
            attached: self.attached,
            desktop: self.desktop,
        }
    }
}

/// An adapter as the system describes it, with its outputs.
#[derive(Debug)]
pub struct AdapterDesc {
    pub description: Vec<u16>,
    pub vendor_id: u32,
    pub outputs: Vec<OutputDesc>,
}

/// An output that can be captured.
#[derive(Debug)]
pub struct SelectedOutput {
    pub adapter_index: u32,
    pub output_index: u32,
    pub info: DisplayInfo,
    pub origin: (i32, i32),
    pub vendor_id: u32,
}

pub struct SelectedOutputView {
    pub adapter_index: u32,
    pub output_index: u32,
    pub info: DisplayInfoView,
    pub origin: (i32, i32),
    pub vendor_id: u32,
}

impl View for SelectedOutput {
    type V = SelectedOutputView;

    open spec fn view(&self) -> SelectedOutputView {
        SelectedOutputView {
            adapter_index: self.adapter_index,
            output_index: self.output_index,
            info: self.info@,
            origin: self.origin,
            vendor_id: self.vendor_id,
        }
    }
}

pub open spec fn selected_views(outputs: Seq<SelectedOutput>) -> Seq<SelectedOutputView> {
    outputs.map_values(|o: SelectedOutput| o@)
}

/// An output, as the `index`th display.
pub open spec fn as_display(
    adapter: AdapterDesc,
    adapter_index: nat,
    output: OutputDesc,
    output_index: nat,
    index: nat,
) -> SelectedOutputView {
    let name = utf16_text(until_zero(output.device_name@));
    SelectedOutputView {
        adapter_index: adapter_index as u32,
        output_index: output_index as u32,
        info: DisplayInfoView {
            id: output_id(adapter_index, output_index),
            index: index as u32,
            name,
            description: output_description(
                utf16_text(until_zero(adapter.description@)),
                name,
            ),
            width: output.desktop.width(),
            height: output.desktop.height(),
        },
        origin: (output.desktop.left, output.desktop.top),
        vendor_id: adapter.vendor_id,
    }
}

/// `before`, and the first `n` outputs of an adapter that show the desktop.
pub open spec fn with_outputs(
    before: Seq<SelectedOutputView>,
    adapter: AdapterDesc,
    adapter_index: nat,
    n: nat,
) -> Seq<SelectedOutputView>
    decreases n,
{
    if n == 0 {
        before
    } else {
        let so_far = with_outputs(before, adapter, adapter_index, (n - 1) as nat);
        let output = adapter.outputs@[n - 1];
        if output.attached {
            so_far.push(
                as_display(adapter, adapter_index, output, (n - 1) as nat, so_far.len()),
            )
        } else {
            so_far
        }
    }
}

/// The outputs of the first `n` adapters that show the desktop, numbered in order.
pub open spec fn desktop_outputs(adapters: Seq<AdapterDesc>, n: nat) -> Seq<SelectedOutputView>
    decreases n,
{
    if n == 0 {
        Seq::empty()
    } else {
        with_outputs(
            desktop_outputs(adapters, (n - 1) as nat),
            adapters[n - 1],
            (n - 1) as nat,
            adapters[n - 1].outputs@.len(),
        )
    }
}

/// The sides of every output that shows the desktop can be measured.
pub open spec fn all_measurable(adapters: Seq<AdapterDesc>) -> bool {
    forall|a: int, o: int|
        0 <= a < adapters.len() && 0 <= o < adapters[a].outputs@.len() && (
        #[trigger] adapters[a].outputs@[o]).attached ==> adapters[a].outputs@[o].desktop.measurable()
}

/// How many of the first `n` outputs show the desktop.
pub open spec fn attached_count(outputs: Seq<OutputDesc>, n: nat) -> nat
    decreases n,
{
    if n == 0 {
        0
    } else {
        attached_count(outputs, (n - 1) as nat) + if outputs[n - 1].attached {
            1nat
        } else {
            0nat
        }
    }
}

/// How many outputs of the first `n` adapters show the desktop.
pub open spec fn display_count(adapters: Seq<AdapterDesc>, n: nat) -> nat
    decreases n,
{
    if n == 0 {
        0
    } else {
        display_count(adapters, (n - 1) as nat) + attached_count(
            adapters[n - 1].outputs@,
            adapters[n - 1].outputs@.len(),
        )
    }
}

/// There are no more adapters, outputs of each and displays than 32 bits can
/// number.
pub open spec fn countable(adapters: Seq<AdapterDesc>) -> bool {
    &&& adapters.len() <= u32::MAX
    &&& forall|a: int| 0 <= a < adapters.len() ==> (#[trigger] adapters[a]).outputs@.len() <= u32::MAX
    &&& display_count(adapters, adapters.len()) <= u32::MAX
}

proof fn lemma_with_outputs_len(
    before: Seq<SelectedOutputView>,
    adapter: AdapterDesc,
    adapter_index: nat,
    n: nat,
)
    ensures
        with_outputs(before, adapter, adapter_index, n).len() == before.len() + attached_count(
            adapter.outputs@,
            n,
        ),
    decreases n,
{
    if n > 0 {
        lemma_with_outputs_len(before, adapter, adapter_index, (n - 1) as nat);
    }
}

/// The list holds as many displays as there are outputs that show the desktop.
pub proof fn every_attached_output_is_listed(adapters: Seq<AdapterDesc>, n: nat)
    requires
        n <= adapters.len(),
    ensures
        desktop_outputs(adapters, n).len() == display_count(adapters, n),
    decreases n,
{
    if n > 0 {
        every_attached_output_is_listed(adapters, (n - 1) as nat);
        lemma_with_outputs_len(
            desktop_outputs(adapters, (n - 1) as nat),
            adapters[n - 1],
            (n - 1) as nat,
            adapters[n - 1].outputs@.len(),
        );
    }
}

proof fn lemma_outputs_grow(adapters: Seq<AdapterDesc>, n: nat, k: nat)
    requires
        n < adapters.len(),
        k <= adapters[n as int].outputs@.len(),
    ensures
        with_outputs(desktop_outputs(adapters, n), adapters[n as int], n, k).len()
            <= display_count(adapters, adapters.len()),
    decreases adapters.len() - n, adapters[n as int].outputs@.len() - k,
{
    if k < adapters[n as int].outputs@.len() {
        lemma_outputs_grow(adapters, n, k + 1);
    } else if n + 1 < adapters.len() {
        lemma_outputs_grow(adapters, n + 1, 0);
    } else {
        every_attached_output_is_listed(adapters, adapters.len());
    }
}

/// The outputs that show the desktop. That there is none is an error.
pub fn enumerate_outputs(adapters: &Vec<AdapterDesc>) -> (r: Result<Vec<SelectedOutput>, String>)
    requires
        all_measurable(adapters@),
        countable(adapters@),
    ensures
        match r {
            Ok(outputs) => outputs@.len() > 0 && selected_views(outputs@) == desktop_outputs(
                adapters@,
                adapters@.len(),
            ),
            Err(text) => display_count(adapters@, adapters@.len()) == 0 && text@
                == "no attached desktop output was found for capture"@,
        },
{
    let mut displays: Vec<SelectedOutput> = Vec::new();
    let mut a: usize = 0;
    assert(selected_views(displays@) =~= Seq::empty());
    while a < adapters.len()
        invariant
            a <= adapters@.len(),
            all_measurable(adapters@),
            countable(adapters@),
            selected_views(displays@) == desktop_outputs(adapters@, a as nat),
        decreases adapters@.len() - a,
    {
        let adapter = &adapters[a];
        let adapter_name = wide_string(adapter.description.as_slice());
        let ghost before = desktop_outputs(adapters@, a as nat);
        let mut o: usize = 0;
        while o < adapter.outputs.len()
            invariant
                a < adapters@.len(),
                *adapter == adapters@[a as int],
                o <= adapter.outputs@.len(),
                adapter_name@ == utf16_text(until_zero(adapter.description@)),
                all_measurable(adapters@),
                countable(adapters@),
                before == desktop_outputs(adapters@, a as nat),
                selected_views(displays@) == with_outputs(before, *adapter, a as nat, o as nat),
            decreases adapter.outputs@.len() - o,
        {
            let output = &adapter.outputs[o];
            if output.attached {
                proof {
                    lemma_outputs_grow(adapters@, a as nat, o as nat + 1);
                    assert(adapters@[a as int].outputs@[o as int].attached);
                }
                let name = wide_string(output.device_name.as_slice());
                let description = windows_display_description(adapter_name.as_str(), &name);
                let info = DisplayInfo {
                    id: windows_display_id(a as u32, o as u32),
                    index: displays.len() as u32,
                    name,
                    description,
                    width: display_width(&output.desktop),
                    height: display_height(&output.desktop),
                };
                let ghost was = displays@;
                let display = SelectedOutput {
                    adapter_index: a as u32,
                    output_index: o as u32,
                    info,
                    origin: (output.desktop.left, output.desktop.top),
                    vendor_id: adapter.vendor_id,
                };
                displays.push(display);
                assert(selected_views(displays@) =~= selected_views(was).push(display@));
            }
            o = o + 1;
        }
        a = a + 1;
    }
    if displays.len() == 0 {
        proof {
            every_attached_output_is_listed(adapters@, adapters@.len());
        }
        return Err(String::from_str("no attached desktop output was found for capture"));
    }
    Ok(displays)
}

/// The output to capture, or why there is none.
pub open spec fn chosen(outputs: Seq<SelectedOutputView>, id: Option<Seq<char>>) -> Result<
    int,
    Seq<char>,
> {
    if outputs.len() == 0 {
        Err("no attached desktop output was found for capture"@)
    } else {
        match id {
            None => Ok(0),
            Some(id) => match place_of(outputs, id) {
                Some(i) => Ok(i as int),
                None => Err("Windows display "@ + quoted(id) + " is not available"@),
            },
        }
    }
}

/// The place of the first output with this identifier.
pub open spec fn place_of(outputs: Seq<SelectedOutputView>, id: Seq<char>) -> Option<nat>
    decreases outputs.len(),
{
    if outputs.len() == 0 {
        None
    } else {
        match place_of(outputs.drop_last(), id) {
            Some(i) => Some(i),
            None => if outputs.last().info.id == id {
                Some((outputs.len() - 1) as nat)
            } else {
                None
            },
        }
    }
}

/// The place of the output to capture.
pub fn select_output(outputs: &Vec<SelectedOutput>, display_id: &Option<String>) -> (r: Result<
    usize,
    String,
>)
    ensures
        match chosen(selected_views(outputs@), opt_view(*display_id)) {
            Ok(i) => r matches Ok(k) && k == i && k < outputs@.len(),
            Err(reason) => r matches Err(text) && text@ == reason,
        },
{
    if outputs.len() == 0 {
        return Err(String::from_str("no attached desktop output was found for capture"));
    }
    let id = match display_id {
        None => {
            return Ok(0);
        },
        Some(id) => id,
    };
    let ghost all = selected_views(outputs@);
    let mut i: usize = 0;
    while i < outputs.len()
        invariant
            i <= outputs@.len(),
            outputs@.len() > 0,
            all == selected_views(outputs@),
            *display_id == Some(*id),
            place_of(all.take(i as int), id@) is None,
        decreases outputs@.len() - i,
    {
        assert(all.take(i as int + 1).drop_last() =~= all.take(i as int));
        if outputs[i].info.id == *id {
            proof {
                assert(place_of(all.take(i as int + 1), id@) == Some(i as nat));
                lemma_place_stays(all, id@, i as nat + 1);
            }
            return Ok(i);
        }
        i = i + 1;
    }
    assert(all.take(all.len() as int) =~= all);
    let mut reason = String::from_str("Windows display ");
    push_quoted(&mut reason, id.as_str());
    reason.append(" is not available");
    Err(reason)
}

proof fn lemma_place_stays(outputs: Seq<SelectedOutputView>, id: Seq<char>, n: nat)
    requires
        n <= outputs.len(),
        place_of(outputs.take(n as int), id) is Some,
    ensures
        place_of(outputs, id) == place_of(outputs.take(n as int), id),
    decreases outputs.len() - n,
{
    if n < outputs.len() {
        assert(outputs.take(n as int + 1).drop_last() =~= outputs.take(n as int));
        lemma_place_stays(outputs, id, n + 1);
    } else {
        assert(outputs.take(n as int) =~= outputs);
    }
}

/// Displays are numbered by their places in the list.
pub proof fn displays_are_numbered(adapters: Seq<AdapterDesc>, n: nat, i: int)
    requires
        n <= adapters.len(),
        0 <= i < display_count(adapters, n) <= u32::MAX,
    ensures
        desktop_outputs(adapters, n)[i].info.index == i,
    decreases n,
{
    every_attached_output_is_listed(adapters, n);
    if n > 0 {
        every_attached_output_is_listed(adapters, (n - 1) as nat);
        let last = adapters[n - 1];
        lemma_numbered(
            desktop_outputs(adapters, (n - 1) as nat),
            last,
            (n - 1) as nat,
            last.outputs@.len(),
            i,
        );
        if i < desktop_outputs(adapters, (n - 1) as nat).len() {
            displays_are_numbered(adapters, (n - 1) as nat, i);
        }
    }
}

proof fn lemma_numbered(
    before: Seq<SelectedOutputView>,
    adapter: AdapterDesc,
    adapter_index: nat,
    n: nat,
    i: int,
)
    ensures
        with_outputs(before, adapter, adapter_index, n).len() >= before.len(),
        0 <= i < before.len() ==> with_outputs(before, adapter, adapter_index, n)[i] == before[i],
        before.len() <= i < with_outputs(before, adapter, adapter_index, n).len() <= u32::MAX
            ==> with_outputs(before, adapter, adapter_index, n)[i].info.index == i,
    decreases n,
{
    if n > 0 {
        lemma_numbered(before, adapter, adapter_index, (n - 1) as nat, i);
    }
}

// ---------------------------------------------------------------------------
// The capture of a desktop
// ---------------------------------------------------------------------------

/// A texture by its size and the code of its format.
#[derive(Clone, Copy, Debug, PartialEq, Eq, Structural)]
pub struct TextureDesc {
    pub width: u32,
    pub height: u32,
    pub format: u32,
}

/// What came of asking for the next frame.
#[derive(Clone, Copy, Debug, PartialEq, Eq, Structural)]
pub enum Acquired {
    Frame,
    Timeout,
    AccessLost,
    Failed,
}

/// What to do about it.
#[derive(Clone, Copy, Debug, PartialEq, Eq, Structural)]
pub enum AcquireStep {
    /// Take the frame in.
    Process,
    /// Ask again.
    Again,
    /// Set the duplication up anew, then ask again.
    Recreate,
    /// Give up.
    Fail,
}

/// How a frame is converted.
#[derive(Clone, Copy, Debug, PartialEq, Eq, Structural)]
pub enum Conversion {
    /// On the GPU, with the renderer at hand.
    Gpu { resource_id: u64 },
    /// On the GPU, with a new renderer of this size, under this number.
    NewGpu { resource_id: u64, width: u32, height: u32 },
    /// On the CPU, through the staging texture, which is to be made anew or not.
    Cpu { new_staging: bool },
}

/// A renderer on the GPU.
#[derive(Clone, Copy, Debug, PartialEq, Eq, Structural)]
pub struct GpuRenderer {
    pub width: u32,
    pub height: u32,
    pub resource_id: u64,
    /// The formats for which it has an input texture.
    pub fp16_input: bool,
    pub bgra_input: bool,
    pub bgrx_input: bool,
}

impl GpuRenderer {
    pub open spec fn fresh(width: u32, height: u32, resource_id: u64) -> GpuRenderer {
        GpuRenderer {
            width,
            height,
            resource_id,
            fp16_input: false,
            bgra_input: false,
            bgrx_input: false,
        }
    }

    pub fn matches(&self, width: u32, height: u32) -> (r: bool)
        ensures
            r == (self.width == width && self.height == height),
    {
        self.width == width && self.height == height
    }

    pub open spec fn has_input(self, format: WindowsFrameFormat) -> bool {
        match format {
            WindowsFrameFormat::RgbaF16 => self.fp16_input,
            WindowsFrameFormat::Bgra8 => self.bgra_input,
            WindowsFrameFormat::Bgrx8 => self.bgrx_input,
        }
    }

    /// Makes sure of an input texture for a format. One is to be created if this
    /// returns `true`.
    pub fn shader_input(&mut self, format: WindowsFrameFormat) -> (create: bool)
        ensures
            create == !old(self).has_input(format),
            final(self).has_input(format),
            *final(self) == (GpuRenderer {
                fp16_input: old(self).fp16_input || format is RgbaF16,
                bgra_input: old(self).bgra_input || format is Bgra8,
                bgrx_input: old(self).bgrx_input || format is Bgrx8,
                ..*old(self)
            }),
    {
        match format {
            WindowsFrameFormat::RgbaF16 => {
                let create = !self.fp16_input;
                self.fp16_input = true;
                create
            },
            WindowsFrameFormat::Bgra8 => {
                let create = !self.bgra_input;
                self.bgra_input = true;
                create
            },
            WindowsFrameFormat::Bgrx8 => {
                let create = !self.bgrx_input;
                self.bgrx_input = true;
                create
            },
        }
    }
}

/// How the shader reads the source: as sRGB, or as linear half precision.
pub fn source_transfer(format: WindowsFrameFormat) -> (r: u32)
    ensures
        r == if format is RgbaF16 {
            1u32
        } else {
            0u32
        },
{
    match format {
        WindowsFrameFormat::RgbaF16 => 1,
        _ => 0,
    }
}

/// The capture of a desktop.
#[derive(Clone, Copy, Debug)]
pub struct DesktopCapture {
    pub gpu_fp16_enabled: bool,
    pub gpu_renderer: Option<GpuRenderer>,
    pub next_gpu_resource_id: u64,
    pub staging: Option<TextureDesc>,
}

impl DesktopCapture {
    /// The renderer at hand fits the frame.
    pub open spec fn renderer_fits(self, frame: TextureDesc) -> bool {
        self.gpu_renderer matches Some(r) && r.width == frame.width && r.height == frame.height
    }

    /// How a frame is converted: on the GPU as long as that works.
    pub open spec fn conversion(self, frame: TextureDesc) -> Conversion {
        if self.gpu_fp16_enabled {
            if self.renderer_fits(frame) {
                Conversion::Gpu { resource_id: self.gpu_renderer->0.resource_id }
            } else {
                Conversion::NewGpu {
                    resource_id: self.next_gpu_resource_id,
                    width: frame.width,
                    height: frame.height,
                }
            }
        } else {
            Conversion::Cpu { new_staging: self.staging != Some(frame) }
        }
    }

    pub fn new(vendor_id: u32) -> (r: DesktopCapture)
        ensures
            r == (DesktopCapture {
                gpu_fp16_enabled: vendor_id == NVIDIA_VENDOR_ID,
                gpu_renderer: None,
                next_gpu_resource_id: 1,
                staging: None,
            }),
    {
        DesktopCapture {
            gpu_fp16_enabled: vendor_id == NVIDIA_VENDOR_ID,
            gpu_renderer: None,
            next_gpu_resource_id: 1,
            staging: None,
        }
    }

    /// From now on frames are converted on the CPU.
    pub fn disable_gpu_fp16(&mut self)
        ensures
            *final(self) == (DesktopCapture {
                gpu_fp16_enabled: false,
                gpu_renderer: None,
                ..*old(self)
            }),
    {
        self.gpu_fp16_enabled = false;
        self.gpu_renderer = None;
    }

    /// The duplication was set up anew: nothing that was made for it is kept.
    pub fn recreate_duplication(&mut self)
        ensures
            *final(self) == (DesktopCapture { staging: None, gpu_renderer: None, ..*old(self) }),
    {
        self.staging = None;
        self.gpu_renderer = None;
    }

    /// What to do about the reply to a request for a frame.
    pub fn acquired(reply: Acquired) -> (r: AcquireStep)
        ensures
            r == match reply {
                Acquired::Frame => AcquireStep::Process,
                Acquired::Timeout => AcquireStep::Again,
                Acquired::AccessLost => AcquireStep::Recreate,
                Acquired::Failed => AcquireStep::Fail,
            },
    {
        match reply {
            Acquired::Frame => AcquireStep::Process,
            Acquired::Timeout => AcquireStep::Again,
            Acquired::AccessLost => AcquireStep::Recreate,
            Acquired::Failed => AcquireStep::Fail,
        }
    }

    /// Plans the conversion of a frame. A number that is given out is not given
    /// out again.
    pub fn plan(&mut self, frame: TextureDesc) -> (r: Conversion)
        ensures
            r == old(self).conversion(frame),
            *final(self) == (DesktopCapture {
                next_gpu_resource_id: if r is NewGpu {
                    if old(self).next_gpu_resource_id == u64::MAX {
                        0
                    } else {
                        (old(self).next_gpu_resource_id + 1) as u64
                    }
                } else {
                    old(self).next_gpu_resource_id
                },
                ..*old(self)
            }),
    {
        if self.gpu_fp16_enabled {
            if let Some(renderer) = self.gpu_renderer {
                if renderer.matches(frame.width, frame.height) {
                    return Conversion::Gpu { resource_id: renderer.resource_id };
                }
            }
            let resource_id = self.next_gpu_resource_id;
            self.next_gpu_resource_id = if resource_id == u64::MAX {
                0
            } else {
                resource_id + 1
            };
            return Conversion::NewGpu {
                resource_id,
                width: frame.width,
                height: frame.height,
            };
        }
        let recreate = match self.staging {
            Some(desc) => desc.width != frame.width || desc.height != frame.height || desc.format
                != frame.format,
            None => true,
        };
        Conversion::Cpu { new_staging: recreate }
    }

    /// The renderer was created.
    pub fn renderer_created(&mut self, width: u32, height: u32, resource_id: u64)
        ensures
            *final(self) == (DesktopCapture {
                gpu_renderer: Some(GpuRenderer::fresh(width, height, resource_id)),
                ..*old(self)
            }),
    {
        self.gpu_renderer = Some(
            GpuRenderer {
                width,
                height,
                resource_id,
                fp16_input: false,
                bgra_input: false,
                bgrx_input: false,
            },
        );
    }

    /// The staging texture was created.
    pub fn staging_created(&mut self, frame: TextureDesc)
        ensures
            *final(self) == (DesktopCapture { staging: Some(frame), ..*old(self) }),
    {
        self.staging = Some(frame);
    }
}

/// A renderer is used again for the next frame of the same size, and so is a
/// staging texture for the next frame of the same size and format.
pub proof fn what_fits_is_used_again(capture: DesktopCapture, frame: TextureDesc, resource_id: u64)
    ensures
        capture.gpu_fp16_enabled ==> (DesktopCapture {
            gpu_renderer: Some(GpuRenderer::fresh(frame.width, frame.height, resource_id)),
            ..capture
        }).conversion(frame) == (Conversion::Gpu { resource_id }),
        !capture.gpu_fp16_enabled ==> (DesktopCapture {
            staging: Some(frame),
            ..capture
        }).conversion(frame) == (Conversion::Cpu { new_staging: false }),
{
}

/// Once the GPU has failed, no frame is converted on it.
pub proof fn failed_gpus_are_left_alone(capture: DesktopCapture, frame: TextureDesc)
    requires
        !capture.gpu_fp16_enabled,
    ensures
        capture.conversion(frame) is Cpu,
{
}

// ---------------------------------------------------------------------------
// A captured frame
// ---------------------------------------------------------------------------

/// What the duplication tells with a frame.
#[derive(Debug)]
pub struct FrameReport {
    /// Where the pointer is, if it moved.
    pub position: Option<PointerPosition>,
    /// The image of the pointer, if it changed.
    pub shape: Option<PointerShape>,
    /// The frame, if there is one.
    pub texture: Option<TextureDesc>,
}

/// News of the pointer, for the client.
#[derive(Debug)]
pub enum CursorEvent {
    Shape(RemoteCursorShape),
    State(RemoteCursorState),
}

pub enum CursorEventView {
    Shape(RemoteCursorShapeView),
    State(RemoteCursorState),
}

impl View for CursorEvent {
    type V = CursorEventView;

    open spec fn view(&self) -> CursorEventView {
        match self {
            CursorEvent::Shape(shape) => CursorEventView::Shape(shape@),
            CursorEvent::State(state) => CursorEventView::State(*state),
        }
    }
}

pub open spec fn event_views(events: Seq<CursorEvent>) -> Seq<CursorEventView> {
    events.map_values(|e: CursorEvent| e@)
}

/// Why a frame cannot be captured.
#[derive(Clone, Copy, Debug, PartialEq, Eq, Structural)]
pub enum FrameError {
    Cursor(CursorShapeError),
    NoFrame,
    /// The format, by its code.
    UnsupportedFormat(u32),
}

/// A frame that is captured: its format, and how it is converted.
#[derive(Clone, Copy, Debug, PartialEq, Eq, Structural)]
pub struct FrameTask {
    pub format: WindowsFrameFormat,
    pub conversion: Conversion,
}

/// What to tell the client of the pointer, and then to do with the frame.
#[derive(Debug)]
pub struct FrameResult {
    pub events: Vec<CursorEvent>,
    pub frame: Result<FrameTask, FrameError>,
}

/// The pointer, once a frame has told of it.
pub open spec fn pointer_after(pointer: PointerTrackerView, report: FrameReport) -> PointerTrackerView {
    pointer.told(report.position, report.shape)
}

/// The state of the pointer at a time.
pub open spec fn pointer_state(pointer: PointerTrackerView, timestamp_us: u64) -> RemoteCursorState {
    RemoteCursorState {
        timestamp_us,
        generation: pointer.cursor.shape_generation,
        visible: pointer.cursor.visible,
        x: on_display(pointer.cursor, pointer.display_origin).0 as i32,
        y: on_display(pointer.cursor, pointer.display_origin).1 as i32,
    }
}

/// The news of the pointer's image.
pub open spec fn shape_news(pointer: PointerTrackerView) -> Seq<CursorEventView> {
    match pointer.unsent_shape() {
        Ok(Some(shape)) => seq![CursorEventView::Shape(shape)],
        _ => Seq::empty(),
    }
}

/// The news of the pointer that go with a frame: its image if it is new, then its
/// state, where the frame can be captured.
pub open spec fn frame_news(
    pointer: PointerTrackerView,
    texture: Option<TextureDesc>,
    timestamp_us: u64,
) -> Seq<CursorEventView> {
    if pointer.unsent_shape() is Ok && (texture matches Some(t) && frame_format(t.format) is Some) {
        shape_news(pointer).push(CursorEventView::State(pointer_state(pointer, timestamp_us)))
    } else {
        shape_news(pointer)
    }
}

/// What is done with the frame.
pub open spec fn frame_outcome(
    pointer: PointerTrackerView,
    capture: DesktopCapture,
    texture: Option<TextureDesc>,
) -> Result<FrameTask, FrameError> {
    match pointer.unsent_shape() {
        Err(error) => Err(FrameError::Cursor(error)),
        Ok(_) => match texture {
            None => Err(FrameError::NoFrame),
            Some(t) => match frame_format(t.format) {
                None => Err(FrameError::UnsupportedFormat(t.format)),
                Some(format) => Ok(FrameTask { format, conversion: capture.conversion(t) }),
            },
        },
    }
}

/// The pointer, once its image has been told.
pub open spec fn pointer_told(pointer: PointerTrackerView) -> PointerTrackerView {
    if pointer.has_news() && pointer.unsent_shape() is Ok {
        PointerTrackerView { sent_generation: pointer.cursor.shape_generation, ..pointer }
    } else {
        pointer
    }
}

/// Takes a frame of the duplication in: the pointer first, then the frame.
pub fn take_frame(
    pointer: &mut PointerTracker,
    capture: &mut DesktopCapture,
    report: FrameReport,
    timestamp_us: u64,
) -> (r: FrameResult)
    requires
        pointer_after(old(pointer)@, report).unsent_shape() is Ok && (report.texture matches Some(t)
            && frame_format(t.format) is Some) ==> can_be_placed(
            pointer_after(old(pointer)@, report).cursor,
            old(pointer)@.display_origin,
        ),
    ensures
        ({
            let after = pointer_after(old(pointer)@, report);
            &&& final(pointer)@ == pointer_told(after)
            &&& event_views(r.events@) == frame_news(after, report.texture, timestamp_us)
            &&& r.frame == frame_outcome(after, *old(capture), report.texture)
            &&& *final(capture) == (DesktopCapture {
                next_gpu_resource_id: final(capture).next_gpu_resource_id,
                ..*old(capture)
            })
            &&& final(capture).next_gpu_resource_id == if (r.frame matches Ok(task)
                && task.conversion is NewGpu) {
                if old(capture).next_gpu_resource_id == u64::MAX {
                    0
                } else {
                    (old(capture).next_gpu_resource_id + 1) as u64
                }
            } else {
                old(capture).next_gpu_resource_id
            }
        }),
{
    let ghost after = pointer_after(pointer@, report);
    let mut events: Vec<CursorEvent> = Vec::new();
    if let Some(position) = report.position {
        pointer.move_to(position);
    }
    if let Some(shape) = report.shape {
        pointer.reshape(shape);
    }
    assert(pointer@ == after);
    match pointer.unsent_shape() {
        Err(error) => {
            assert(event_views(events@) =~= shape_news(after));
            return FrameResult { events, frame: Err(FrameError::Cursor(error)) };
        },
        Ok(None) => {},
        Ok(Some(shape)) => {
            let event = CursorEvent::Shape(shape);
            events.push(event);
        },
    }
    assert(event_views(events@) =~= shape_news(after));
    if pointer.has_news() {
        pointer.shape_published();
    }
    let texture = match report.texture {
        Some(texture) => texture,
        None => {
            return FrameResult { events, frame: Err(FrameError::NoFrame) };
        },
    };
    let format = match pixel_format_from_dxgi(texture.format) {
        Some(format) => format,
        None => {
            return FrameResult {
                events,
                frame: Err(FrameError::UnsupportedFormat(texture.format)),
            };
        },
    };
    let state = pointer.state(timestamp_us);
    assert(state == pointer_state(after, timestamp_us));
    let ghost told = events@;
    let event = CursorEvent::State(state);
    events.push(event);
    assert(event_views(events@) =~= event_views(told).push(event@));
    let conversion = capture.plan(texture);
    FrameResult { events, frame: Ok(FrameTask { format, conversion }) }
}

/// The client knows the image of the pointer before it is told of a state with
/// it: the image of a state's number was sent with that frame or before, where it
/// can be sent at all.
pub proof fn images_precede_their_states(
    pointer: PointerTrackerView,
    report: FrameReport,
    timestamp_us: u64,
)
    ensures
        ({
            let after = pointer_after(pointer, report);
            let news = frame_news(after, report.texture, timestamp_us);
            news.len() > 0 && (news.last() matches CursorEventView::State(_))
                ==> (news.last() matches CursorEventView::State(state) && (state.generation == 0
                || state.generation == pointer_told(after).sent_generation))
        }),
{
}

// ---------------------------------------------------------------------------
// What is shown
// ---------------------------------------------------------------------------

/// The formats that can be captured are those of three codes, and no other.
pub proof fn formats_are_told_by_their_codes(code: u32)
    ensures
        frame_format(code) matches Some(f) && f is Bgra8 <==> code == 87,
        frame_format(code) matches Some(f) && f is Bgrx8 <==> code == 88,
        frame_format(code) matches Some(f) && f is RgbaF16 <==> code == 10,
{
}

/// A text in a buffer ends before its first zero, or with the buffer.
pub proof fn texts_end_at_the_first_zero(units: Seq<u16>)
    ensures
        ({
            let text = until_zero(units);
            &&& text.len() <= units.len()
            &&& text == units.take(text.len() as int)
            &&& forall|i: int| 0 <= i < text.len() ==> #[trigger] text[i] != 0
            &&& text.len() < units.len() ==> units[text.len() as int] == 0
        }),
    decreases units.len(),
{
    if units.len() > 0 && units[0] != 0 {
        texts_end_at_the_first_zero(units.skip(1));
        let rest = until_zero(units.skip(1));
        let text = until_zero(units);
        assert(text =~= units.take(text.len() as int)) by {
            assert forall|i: int| 0 < i < text.len() implies text[i] == units[i] by {
                assert(text[i] == rest[i - 1]);
            }
        }
    } else {
        assert(until_zero(units) =~= units.take(0));
    }
}

/// A display shows its output: the sides of the part of the desktop that it covers, where
/// that has any, its corner there, and the adapter it is on.
pub proof fn displays_show_their_outputs(
    adapter: AdapterDesc,
    adapter_index: nat,
    output: OutputDesc,
    output_index: nat,
    index: nat,
)
    requires
        adapter_index <= u32::MAX,
        output_index <= u32::MAX,
        index <= u32::MAX,
        output.desktop.measurable(),
    ensures
        ({
            let shown = as_display(adapter, adapter_index, output, output_index, index);
            let rect = output.desktop;
            &&& shown.adapter_index == adapter_index && shown.output_index == output_index
            &&& shown.info.index == index
            &&& shown.info.id == "windows:"@ + decimal(adapter_index) + ":"@ + decimal(output_index)
            &&& shown.info.name == utf16_text(until_zero(output.device_name@))
            &&& shown.origin.0 == rect.left && shown.origin.1 == rect.top
            &&& rect.left <= rect.right ==> rect.left + shown.info.width == rect.right
            &&& rect.top <= rect.bottom ==> rect.top + shown.info.height == rect.bottom
            &&& rect.left > rect.right ==> shown.info.width == 0
            &&& rect.top > rect.bottom ==> shown.info.height == 0
            &&& shown.vendor_id == adapter.vendor_id
        }),
{
}

/// A display is described by its adapter and its own name, unless the adapter's name is
/// blank or the same.
pub proof fn descriptions_name_the_adapter(adapter_name: Seq<char>, output_name: Seq<char>)
    ensures
        trimmed(adapter_name).len() == 0 ==> output_description(adapter_name, output_name) is None,
        trimmed(adapter_name) == output_name ==> output_description(adapter_name, output_name)
            is None,
        trimmed(adapter_name).len() > 0 && trimmed(adapter_name) != output_name
            ==> output_description(adapter_name, output_name) == Some(
            trimmed(adapter_name) + " / "@ + output_name,
        ),
{
}

/// A display of the list stands for this output.
pub open spec fn stands_for(
    shown: SelectedOutputView,
    adapters: Seq<AdapterDesc>,
    n: nat,
    last: nat,
) -> bool {
    let (a, o) = (shown.adapter_index, shown.output_index);
    &&& a < n || (a == n && o < last)
    &&& a < adapters.len()
    &&& o < adapters[a as int].outputs@.len()
    &&& adapters[a as int].outputs@[o as int].attached
    &&& shown.origin.0 == adapters[a as int].outputs@[o as int].desktop.left
    &&& shown.origin.1 == adapters[a as int].outputs@[o as int].desktop.top
    &&& shown.vendor_id == adapters[a as int].vendor_id
}

/// One display comes before another on the adapters.
pub open spec fn comes_before(x: SelectedOutputView, y: SelectedOutputView) -> bool {
    x.adapter_index < y.adapter_index || (x.adapter_index == y.adapter_index && x.output_index
        < y.output_index)
}

spec fn lists_outputs(
    list: Seq<SelectedOutputView>,
    adapters: Seq<AdapterDesc>,
    n: nat,
    last: nat,
) -> bool {
    &&& forall|i: int|
        0 <= i < list.len() ==> stands_for(#[trigger] list[i], adapters, n, last)
    &&& forall|i: int, j: int|
        0 <= i < j < list.len() ==> comes_before(#[trigger] list[i], #[trigger] list[j])
}

proof fn lemma_lists_outputs(adapters: Seq<AdapterDesc>, before: Seq<SelectedOutputView>, a: nat, n: nat)
    requires
        countable(adapters),
        a < adapters.len(),
        n <= adapters[a as int].outputs@.len(),
        lists_outputs(before, adapters, a, 0),
    ensures
        lists_outputs(with_outputs(before, adapters[a as int], a, n), adapters, a, n),
    decreases n,
{
    if n > 0 {
        lemma_lists_outputs(adapters, before, a, (n - 1) as nat);
        let so_far = with_outputs(before, adapters[a as int], a, (n - 1) as nat);
        let list = with_outputs(before, adapters[a as int], a, n);
        assert(adapters[a as int].outputs@.len() <= u32::MAX);
        assert forall|i: int| 0 <= i < list.len() implies stands_for(
            #[trigger] list[i],
            adapters,
            a,
            n,
        ) by {
            if i < so_far.len() {
                assert(list[i] == so_far[i]);
            }
        }
        assert forall|i: int, j: int| 0 <= i < j < list.len() implies comes_before(
            #[trigger] list[i],
            #[trigger] list[j],
        ) by {
            assert(list[i] == so_far[i]);
            assert(stands_for(so_far[i], adapters, a, (n - 1) as nat));
            if j < so_far.len() {
                assert(list[j] == so_far[j]);
            }
        }
    }
}

/// Each display of the list stands for an output that shows the desktop, and they stand in
/// the order of the adapters and of the outputs on them, so none stands there twice.
pub proof fn displays_stand_for_attached_outputs(adapters: Seq<AdapterDesc>, n: nat, i: int, j: int)
    requires
        countable(adapters),
        n <= adapters.len(),
        0 <= i < j < desktop_outputs(adapters, n).len(),
    ensures
        stands_for(desktop_outputs(adapters, n)[i], adapters, n, 0),
        stands_for(desktop_outputs(adapters, n)[j], adapters, n, 0),
        comes_before(desktop_outputs(adapters, n)[i], desktop_outputs(adapters, n)[j]),
{
    lemma_all_stand_for_outputs(adapters, n);
}

proof fn lemma_all_stand_for_outputs(adapters: Seq<AdapterDesc>, n: nat)
    requires
        countable(adapters),
        n <= adapters.len(),
    ensures
        lists_outputs(desktop_outputs(adapters, n), adapters, n, 0),
    decreases n,
{
    if n > 0 {
        let a = (n - 1) as nat;
        lemma_all_stand_for_outputs(adapters, a);
        lemma_lists_outputs(
            adapters,
            desktop_outputs(adapters, a),
            a,
            adapters[a as int].outputs@.len(),
        );
        let list = desktop_outputs(adapters, n);
        assert forall|i: int| 0 <= i < list.len() implies stands_for(
            #[trigger] list[i],
            adapters,
            n,
            0,
        ) by {
            assert(stands_for(list[i], adapters, a, adapters[a as int].outputs@.len()));
        }
    }
}

/// An output is chosen by its identifier: the first that has it, and none where none has.
/// Without an identifier the first output is chosen.
pub proof fn outputs_are_chosen_by_their_identifiers(outputs: Seq<SelectedOutputView>, id: Seq<char>)
    ensures
        match chosen(outputs, Some(id)) {
            Ok(i) => {
                &&& 0 <= i < outputs.len()
                &&& outputs[i].info.id == id
                &&& forall|j: int| 0 <= j < i ==> (#[trigger] outputs[j]).info.id != id
            },
            Err(_) => forall|j: int| 0 <= j < outputs.len() ==> (#[trigger] outputs[j]).info.id != id,
        },
        outputs.len() > 0 ==> chosen(outputs, None) == Ok::<int, Seq<char>>(0),
        outputs.len() == 0 ==> chosen(outputs, None) is Err,
{
    lemma_place_of(outputs, id);
}

proof fn lemma_place_of(outputs: Seq<SelectedOutputView>, id: Seq<char>)
    ensures
        match place_of(outputs, id) {
            Some(i) => {
                &&& i < outputs.len()
                &&& outputs[i as int].info.id == id
                &&& forall|j: int| 0 <= j < i ==> (#[trigger] outputs[j]).info.id != id
            },
            None => forall|j: int| 0 <= j < outputs.len() ==> (#[trigger] outputs[j]).info.id != id,
        },
    decreases outputs.len(),
{
    if outputs.len() > 0 {
        let fewer = outputs.drop_last();
        lemma_place_of(fewer, id);
        assert forall|j: int| 0 <= j < fewer.len() implies fewer[j] == #[trigger] outputs[j] by {}
    }
}

/// How a frame is converted: on the GPU where that works, with the renderer at hand where
/// it was made for frames of this size and with a new one else; and on the CPU where it
/// does not, with a new staging texture unless the one at hand has this size and format.
pub proof fn frames_are_converted_where_it_works(capture: DesktopCapture, frame: TextureDesc)
    ensures
        ({
            let fits = capture.gpu_renderer matches Some(r) && r.width == frame.width && r.height
                == frame.height;
            let staged = capture.staging matches Some(t) && t.width == frame.width && t.height
                == frame.height && t.format == frame.format;
            match capture.conversion(frame) {
                Conversion::Gpu { resource_id } => capture.gpu_fp16_enabled && fits && resource_id
                    == capture.gpu_renderer->0.resource_id,
                Conversion::NewGpu { resource_id, width, height } => capture.gpu_fp16_enabled
                    && !fits && resource_id == capture.next_gpu_resource_id && width == frame.width
                    && height == frame.height,
                Conversion::Cpu { new_staging } => !capture.gpu_fp16_enabled && new_staging
                    == !staged,
            }
        }),
{
}

/// What a frame tells of the pointer reaches the client: its image where that is new, and
/// then its state, with the time of the frame, the number of the image and the place of
/// the image's corner. A frame that cannot be captured brings no state.
pub proof fn the_client_is_told_of_the_pointer(
    pointer: PointerTrackerView,
    texture: Option<TextureDesc>,
    timestamp_us: u64,
)
    requires
        can_be_placed(pointer.cursor, pointer.display_origin),
    ensures
        ({
            let news = frame_news(pointer, texture, timestamp_us);
            let captured = pointer.unsent_shape() is Ok && (texture matches Some(t) && (t.format
                == 10 || t.format == 87 || t.format == 88));
            let images: nat = match pointer.unsent_shape() {
                Ok(Some(_)) => 1,
                _ => 0,
            };
            &&& news.len() == images + if captured {
                1nat
            } else {
                0nat
            }
            &&& pointer.unsent_shape() matches Ok(Some(shape)) ==> news[0]
                == CursorEventView::Shape(shape)
            &&& captured ==> (news.last() matches CursorEventView::State(state) && ({
                &&& state.timestamp_us == timestamp_us
                &&& state.generation == pointer.cursor.shape_generation
                &&& state.visible == pointer.cursor.visible
                &&& state.x + pointer.cursor.hot_x + pointer.display_origin.0 == pointer.cursor.x
                &&& state.y + pointer.cursor.hot_y + pointer.display_origin.1 == pointer.cursor.y
            }))
        }),
{
}

/// What becomes of a frame: a pointer image that cannot be sent is its first error, then
/// that there is no frame, then a format that cannot be captured; else it is captured in
/// its format and converted as planned.
pub proof fn frames_fail_for_a_reason(
    pointer: PointerTrackerView,
    capture: DesktopCapture,
    texture: Option<TextureDesc>,
)
    ensures
        match frame_outcome(pointer, capture, texture) {
            Err(FrameError::Cursor(e)) => pointer.unsent_shape() matches Err(why) && why == e,
            Err(FrameError::NoFrame) => pointer.unsent_shape() is Ok && texture is None,
            Err(FrameError::UnsupportedFormat(code)) => pointer.unsent_shape() is Ok && (
            texture matches Some(t) && t.format == code && code != 10 && code != 87 && code != 88),
            Ok(task) => pointer.unsent_shape() is Ok && (texture matches Some(t) && task.conversion
                == capture.conversion(t) && (task.format is RgbaF16 <==> t.format == 10) && (
            task.format is Bgra8 <==> t.format == 87) && (task.format is Bgrx8 <==> t.format == 88)),
        },
{
}

/// A pointer image that was told counts as sent, so it is not told again with the next
/// frame; one that cannot be sent stays unsent.
pub proof fn told_images_count_as_sent(pointer: PointerTrackerView)
    ensures
        ({
            let after = pointer_told(pointer);
            &&& after.cursor == pointer.cursor && after.display_origin == pointer.display_origin
            &&& pointer.unsent_shape() is Ok && pointer.cursor.shape_generation != 0
                ==> after.sent_generation == pointer.cursor.shape_generation && !after.has_news()
            &&& pointer.unsent_shape() is Err ==> after == pointer
        }),
{
}

/// A renderer begins in the size and for the resource that it was made for, without an
/// input texture of any format.
pub proof fn renderers_begin_without_inputs(
    width: u32,
    height: u32,
    resource_id: u64,
    format: WindowsFrameFormat,
)
    ensures
        ({
            let r = GpuRenderer::fresh(width, height, resource_id);
            &&& r.width == width && r.height == height && r.resource_id == resource_id
            &&& !r.has_input(format)
        }),
{
}

} // verus!
