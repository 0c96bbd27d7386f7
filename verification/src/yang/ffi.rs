//! What the C interface hands out and takes in, as plain values.

use crate::clock::now_us;
use crate::yang::options::{
    bits_per_second, clamp, clamped, mbps_to_bps, session_id, session_id_at, ClientOptions,
    ClientOptionsView,
};
use crate::yin_yang_proto::packets::{DisplayInfo, DisplayInfoView};
use vstd::prelude::*;
use vstd::utf8::encode_utf8;

verus! {

/// The options of a connection, as the caller gives them.
#[derive(Debug)]
pub struct ConnectOptions {
    /// Display selector, where one is given.
    pub display_selector: Option<String>,
    /// Maximum bitrate cap in Mbps; `0` = unlimited.
    pub max_bitrate_mbps: u32,
    /// Minimum bitrate floor for adaptive control in Mbps; `0` = no floor.
    pub min_bitrate_mbps: u32,
    pub max_fps: u8,
    pub min_fps: u8,
    pub adaptive_streaming: bool,
    pub interpolate: bool,
}

/// The options that they stand for. An empty selector selects nothing.
pub open spec fn connect_options(opts: ConnectOptions, id: Seq<char>) -> ClientOptionsView {
    let max_fps = clamped(opts.max_fps, 1, 120);
    ClientOptionsView {
        client_session_id: id,
        adaptive_streaming: opts.adaptive_streaming,
        display_selector: match opts.display_selector {
            Some(text) => if text@.len() > 0 {
                Some(text@)
            } else {
                None
            },
            None => None,
        },
        list_displays: false,
        max_fps,
        min_fps: clamped(opts.min_fps, 1, max_fps),
        min_bitrate_bps: bits_per_second(Some(opts.min_bitrate_mbps)),
        max_bitrate_bps: bits_per_second(Some(opts.max_bitrate_mbps)),
        interpolate: opts.interpolate,
    }
}

pub fn client_options(opts: ConnectOptions, client_session_id: String) -> (r: ClientOptions)
    ensures
        r@ == connect_options(opts, client_session_id@),
{
    let max_fps: u8 = clamp(opts.max_fps, 1, 120);
    let min_fps: u8 = clamp(opts.min_fps, 1, max_fps);
    let display_selector = match opts.display_selector {
        Some(text) => {
            if text.as_str().unicode_len() > 0 {
                Some(text)
            } else {
                None
            }
        },
        None => None,
    };
    ClientOptions {
        client_session_id,
        adaptive_streaming: opts.adaptive_streaming,
        list_displays: false,
        display_selector,
        max_fps,
        min_fps,
        max_bitrate_bps: mbps_to_bps(Some(opts.max_bitrate_mbps)),
        min_bitrate_bps: mbps_to_bps(Some(opts.min_bitrate_mbps)),
        interpolate: opts.interpolate,
    }
}

/// The identifier of a session that this process begins now.
pub fn new_session_id(process_id: u32) -> (r: String)
    ensures
        exists|us: u64| r@ == #[trigger] session_id("yang-ffi-"@, process_id, us),
{
    session_id_at("yang-ffi-", process_id, now_us())
}

/// A text in a buffer of `size` bytes: as many of its bytes as leave room for a
/// zero, then zeros.
pub open spec fn c_text(text: Seq<char>, size: nat) -> Seq<u8> {
    let bytes = encode_utf8(text);
    Seq::new(
        size,
        |i: int|
            if i < bytes.len() && i < size - 1 {
                bytes[i]
            } else {
                0u8
            },
    )
}

/// A text in a buffer of `size` bytes.
pub fn copy_str_to_cchar_buf(text: &str, size: usize) -> (r: Vec<u8>)
    requires
        size > 0,
    ensures
        r@ == c_text(text@, size as nat),
{
    let bytes = text.as_bytes();
    let mut r: Vec<u8> = Vec::new();
    let mut i: usize = 0;
    while i < size
        invariant
            i <= size,
            size > 0,
            bytes@ == encode_utf8(text@),
            r@ == c_text(text@, size as nat).take(i as int),
        decreases size - i,
    {
        if i < bytes.len() && i < size - 1 {
            r.push(bytes[i]);
        } else {
            r.push(0);
        }
        i = i + 1;
        assert(r@ =~= c_text(text@, size as nat).take(i as int));
    }
    assert(r@ =~= c_text(text@, size as nat));
    r
}

/// A text in a buffer ends with a zero, and what precedes it is the text as far as
/// it fits.
pub proof fn c_texts_end_with_zero(text: Seq<char>, size: nat)
    requires
        size > 0,
    ensures
        c_text(text, size).len() == size,
        c_text(text, size)[size - 1] == 0,
        encode_utf8(text).len() < size ==> c_text(text, size).take(
            encode_utf8(text).len() as int,
        ) == encode_utf8(text),
        encode_utf8(text).len() >= size ==> c_text(text, size).take(size - 1) == encode_utf8(
            text,
        ).take(size - 1),
{
    let bytes = encode_utf8(text);
    if bytes.len() < size {
        assert(c_text(text, size).take(bytes.len() as int) =~= bytes);
    } else {
        assert(c_text(text, size).take(size - 1) =~= bytes.take(size - 1));
    }
}

/// A display, as the caller gets it.
#[derive(Debug)]
pub struct DisplayEntry {
    pub index: u32,
    pub width: u32,
    pub height: u32,
    pub name: Vec<u8>,
    pub id: Vec<u8>,
    pub description: Vec<u8>,
}

pub struct DisplayEntryView {
    pub index: u32,
    pub width: u32,
    pub height: u32,
    pub name: Seq<u8>,
    pub id: Seq<u8>,
    pub description: Seq<u8>,
}

impl View for DisplayEntry {
    type V = DisplayEntryView;

    open spec fn view(&self) -> DisplayEntryView {
        DisplayEntryView {
            index: self.index,
            width: self.width,
            height: self.height,
            name: self.name@,
            id: self.id@,
            description: self.description@,
        }
    }
}

/// The entry of a display.
pub open spec fn entry(d: DisplayInfoView) -> DisplayEntryView {
    DisplayEntryView {
        index: d.index,
        width: d.width,
        height: d.height,
        name: c_text(d.name, 128),
        id: c_text(d.id, 128),
        description: c_text(
            match d.description {
                Some(text) => text,
                None => Seq::empty(),
            },
            256,
        ),
    }
}

pub fn display_entry(display: &DisplayInfo) -> (r: DisplayEntry)
    ensures
        r@ == entry(display@),
{
    let description = match &display.description {
        Some(text) => copy_str_to_cchar_buf(text.as_str(), 256),
        None => {
            let none = String::new();
            assert(none@ =~= Seq::empty());
            copy_str_to_cchar_buf(none.as_str(), 256)
        },
    };
    DisplayEntry {
        index: display.index,
        width: display.width,
        height: display.height,
        name: copy_str_to_cchar_buf(display.name.as_str(), 128),
        id: copy_str_to_cchar_buf(display.id.as_str(), 128),
        description,
    }
}

/// The entries of the first displays, no more than `max_count` of them; none at
/// all can be asked for with a count that is not positive.
pub fn display_entries(displays: &Vec<DisplayInfo>, max_count: i32) -> (r: Option<
    Vec<DisplayEntry>,
>)
    ensures
        r is Some <==> max_count > 0,
        r matches Some(entries) ==> entries@.len() == if displays@.len() < max_count {
            displays@.len()
        } else {
            max_count as nat
        },
        r matches Some(entries) ==> forall|i: int|
            0 <= i < entries@.len() ==> (#[trigger] entries@[i])@ == entry(displays@[i]@),
{
    if max_count <= 0 {
        return None;
    }
    let mut r: Vec<DisplayEntry> = Vec::new();
    let mut i: usize = 0;
    while i < displays.len() && i < max_count as usize
        invariant
            i <= displays@.len(),
            0 < max_count,
            i <= max_count,
            r@.len() == i,
            forall|j: int| 0 <= j < i ==> (#[trigger] r@[j])@ == entry(displays@[j]@),
        decreases displays@.len() - i,
    {
        r.push(display_entry(&displays[i]));
        i = i + 1;
    }
    Some(r)
}

/// A connection is made as the caller wishes: rates within 1 and 120, megabits of a
/// million bits each, and no display selected by an empty text.
pub proof fn connections_are_made_as_wished(opts: ConnectOptions, id: Seq<char>)
    ensures
        ({
            let options = connect_options(opts, id);
            &&& options.client_session_id == id
            &&& !options.list_displays
            &&& options.adaptive_streaming == opts.adaptive_streaming
            &&& options.interpolate == opts.interpolate
            &&& opts.display_selector is None ==> options.display_selector is None
            &&& opts.display_selector matches Some(text) ==> (text@.len() > 0
                ==> options.display_selector == Some(text@)) && (text@.len() == 0
                ==> options.display_selector is None)
            &&& 1 <= options.min_fps <= options.max_fps <= 120
            &&& 1 <= opts.max_fps <= 120 ==> options.max_fps == opts.max_fps
            &&& opts.max_fps == 0 ==> options.max_fps == 1
            &&& opts.max_fps > 120 ==> options.max_fps == 120
            &&& 1 <= opts.min_fps <= options.max_fps ==> options.min_fps == opts.min_fps
            &&& opts.min_fps == 0 ==> options.min_fps == 1
            &&& opts.min_fps > options.max_fps ==> options.min_fps == options.max_fps
            &&& opts.min_bitrate_mbps <= 4_294 ==> options.min_bitrate_bps == opts.min_bitrate_mbps
                * 1_000_000
            &&& opts.max_bitrate_mbps <= 4_294 ==> options.max_bitrate_bps == opts.max_bitrate_mbps
                * 1_000_000
            &&& opts.min_bitrate_mbps > 4_294 ==> options.min_bitrate_bps == u32::MAX
            &&& opts.max_bitrate_mbps > 4_294 ==> options.max_bitrate_bps == u32::MAX
        }),
{
}

/// Behind a text that fits, its buffer holds nothing but zeros.
pub proof fn c_texts_are_padded_with_zeros(text: Seq<char>, size: nat, i: int)
    requires
        encode_utf8(text).len() <= i < size,
    ensures
        c_text(text, size)[i] == 0,
{
}

/// The caller gets each display with its index and its size, and with its name, its
/// identifier and its description in buffers of 128, 128 and 256 bytes.
pub proof fn displays_are_handed_out_as_they_are(d: DisplayInfoView)
    ensures
        ({
            let e = entry(d);
            let about = match d.description {
                Some(text) => text,
                None => Seq::empty(),
            };
            &&& e.index == d.index && e.width == d.width && e.height == d.height
            &&& e.name.len() == 128 && e.id.len() == 128 && e.description.len() == 256
            &&& encode_utf8(d.name).len() < 128 ==> encode_utf8(d.name).is_prefix_of(e.name)
            &&& encode_utf8(d.id).len() < 128 ==> encode_utf8(d.id).is_prefix_of(e.id)
            &&& encode_utf8(about).len() < 256 ==> encode_utf8(about).is_prefix_of(e.description)
            &&& d.description is None ==> forall|i: int|
                0 <= i < 256 ==> #[trigger] e.description[i] == 0
        }),
{
    let e = entry(d);
    let about = match d.description {
        Some(text) => text,
        None => Seq::empty(),
    };
    c_texts_end_with_zero(d.name, 128);
    c_texts_end_with_zero(d.id, 128);
    c_texts_end_with_zero(about, 256);
    if d.description is None {
        assert(encode_utf8(Seq::<char>::empty()).len() == 0);
        assert forall|i: int| 0 <= i < 256 implies #[trigger] e.description[i] == 0 by {
            c_texts_are_padded_with_zeros(about, 256, i);
        }
    }
}

} // verus!
