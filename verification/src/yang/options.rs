//! The options of a session.

use crate::clock::now_us;
use crate::text::{decimal, push_decimal};
use crate::yin_yang_proto::packets::opt_view;
use vstd::prelude::*;
use vstd::string::StringExecFns;

verus! {

/// The command line, as given.
#[derive(Debug)]
pub struct Args {
    /// Select a display by index, stable id, name, or description.
    pub display: Option<String>,
    /// List displays exported by the server and exit.
    pub list_displays: bool,
    /// Maximum stream framerate to request from the server.
    pub max_fps: Option<u8>,
    /// Minimum stream framerate the adaptive controller may fall back to.
    pub min_fps: Option<u8>,
    /// Lower bitrate bound for adaptive control, in megabits per second.
    pub min_bitrate_mbps: Option<u32>,
    /// Upper bitrate bound for adaptive control, in megabits per second.
    pub max_bitrate_mbps: Option<u32>,
    /// Disable automatic bitrate/FPS adaptation and hold the requested targets fixed.
    pub fixed_rate: bool,
    /// Enable automatic bitrate/FPS adaptation for this session.
    pub adaptive_rate: bool,
    /// Enable client-side optical-flow frame interpolation.
    pub interpolate: bool,
}

#[derive(Debug)]
pub struct ClientOptions {
    pub client_session_id: String,
    pub adaptive_streaming: bool,
    pub display_selector: Option<String>,
    pub list_displays: bool,
    pub max_fps: u8,
    pub min_fps: u8,
    pub min_bitrate_bps: u32,
    pub max_bitrate_bps: u32,
    pub interpolate: bool,
}

pub struct ClientOptionsView {
    pub client_session_id: Seq<char>,
    pub adaptive_streaming: bool,
    pub display_selector: Option<Seq<char>>,
    pub list_displays: bool,
    pub max_fps: u8,
    pub min_fps: u8,
    pub min_bitrate_bps: u32,
    pub max_bitrate_bps: u32,
    pub interpolate: bool,
}

impl View for ClientOptions {
    type V = ClientOptionsView;

    open spec fn view(&self) -> ClientOptionsView {
        ClientOptionsView {
            client_session_id: self.client_session_id@,
            adaptive_streaming: self.adaptive_streaming,
            display_selector: opt_view(self.display_selector),
            list_displays: self.list_displays,
            max_fps: self.max_fps,
            min_fps: self.min_fps,
            min_bitrate_bps: self.min_bitrate_bps,
            max_bitrate_bps: self.max_bitrate_bps,
            interpolate: self.interpolate,
        }
    }
}

/// `n`, but at least `low` and at most `high`.
pub open spec fn clamped(n: u8, low: u8, high: u8) -> u8 {
    if n < low {
        low
    } else if n > high {
        high
    } else {
        n
    }
}

/// `n`, but at least `low` and at most `high`.
pub fn clamp(n: u8, low: u8, high: u8) -> (r: u8)
    requires
        low <= high,
    ensures
        r == clamped(n, low, high),
{
    if n < low {
        low
    } else if n > high {
        high
    } else {
        n
    }
}

/// A bitrate in bits per second, capped at what 32 bits hold; none given counts
/// as zero.
pub open spec fn bits_per_second(mbps: Option<u32>) -> u32 {
    match mbps {
        Some(m) => if m * 1_000_000 > u32::MAX {
            u32::MAX
        } else {
            (m * 1_000_000) as u32
        },
        None => 0,
    }
}

pub fn mbps_to_bps(mbps: Option<u32>) -> (r: u32)
    ensures
        r == bits_per_second(mbps),
{
    match mbps {
        Some(m) => {
            let bps: u64 = m as u64 * 1_000_000;
            if bps > u32::MAX as u64 {
                u32::MAX
            } else {
                bps as u32
            }
        },
        None => 0,
    }
}

/// The rate to request when none is given: what the screen shows or, failing
/// that, the display's refresh rate or 60, within 30 and 120. Of the screen's
/// number the lowest eight bits count.
pub fn default_requested_max_fps(screen_fps: Option<i64>, refresh_hz: Option<u8>) -> (r: u8)
    ensures
        r == clamped(
            match screen_fps {
                Some(fps) if fps > 0 => fps as u8,
                _ => match refresh_hz {
                    Some(hz) => hz,
                    None => 60,
                },
            },
            30,
            120,
        ),
{
    let fallback: u8 = match refresh_hz {
        Some(hz) => hz,
        None => 60,
    };
    let fps: u8 = match screen_fps {
        Some(fps) => {
            if fps > 0 {
                #[verifier::truncate]
                let low: u8 = fps as u8;
                low
            } else {
                fallback
            }
        },
        None => fallback,
    };
    clamp(fps, 30, 120)
}

/// The highest rate of a session.
pub open spec fn top_rate(args: Args, default_max_fps: u8) -> u8 {
    clamped(
        match args.max_fps {
            Some(fps) => fps,
            None => default_max_fps,
        },
        1,
        120,
    )
}

/// The lowest rate of a session: 30 unless another is given, and no higher than
/// the highest.
pub open spec fn floor_rate(args: Args, max_fps: u8) -> u8 {
    clamped(
        match args.min_fps {
            Some(fps) => fps,
            None => if max_fps >= 30 {
                30
            } else {
                max_fps
            },
        },
        1,
        max_fps,
    )
}

/// The options that a command line stands for.
pub open spec fn options_of(args: Args, default_max_fps: u8, session_id: Seq<char>) -> ClientOptionsView {
    ClientOptionsView {
        client_session_id: session_id,
        adaptive_streaming: args.adaptive_rate && !args.fixed_rate,
        display_selector: opt_view(args.display),
        list_displays: args.list_displays,
        max_fps: top_rate(args, default_max_fps),
        min_fps: floor_rate(args, top_rate(args, default_max_fps)),
        min_bitrate_bps: bits_per_second(args.min_bitrate_mbps),
        max_bitrate_bps: bits_per_second(args.max_bitrate_mbps),
        interpolate: args.interpolate,
    }
}

pub fn client_options_from_args(args: Args, default_max_fps: u8, session_id: String) -> (r:
    ClientOptions)
    ensures
        r@ == options_of(args, default_max_fps, session_id@),
{
    let adaptive_streaming = args.adaptive_rate && !args.fixed_rate;
    let wished: u8 = match args.max_fps {
        Some(fps) => fps,
        None => default_max_fps,
    };
    let max_fps: u8 = clamp(wished, 1, 120);
    let least: u8 = match args.min_fps {
        Some(fps) => fps,
        None => if max_fps >= 30 {
            30
        } else {
            max_fps
        },
    };
    let min_fps: u8 = clamp(least, 1, max_fps);
    ClientOptions {
        client_session_id: session_id,
        adaptive_streaming,
        list_displays: args.list_displays,
        display_selector: args.display,
        max_fps,
        min_fps,
        min_bitrate_bps: mbps_to_bps(args.min_bitrate_mbps),
        max_bitrate_bps: mbps_to_bps(args.max_bitrate_mbps),
        interpolate: args.interpolate,
    }
}

/// The identifier of a session that a process began at a time.
pub open spec fn session_id(prefix: Seq<char>, process_id: u32, us: u64) -> Seq<char> {
    prefix + decimal(process_id as nat) + "-"@ + decimal(us as nat)
}

pub fn session_id_at(prefix: &str, process_id: u32, us: u64) -> (r: String)
    ensures
        r@ == session_id(prefix@, process_id, us),
{
    let mut r = String::from_str(prefix);
    push_decimal(&mut r, process_id as u64);
    r.append("-");
    push_decimal(&mut r, us);
    r
}

/// The identifier of a session that this process begins now.
pub fn new_client_session_id(process_id: u32) -> (r: String)
    ensures
        exists|us: u64| r@ == #[trigger] session_id("yang-"@, process_id, us),
{
    session_id_at("yang-", process_id, now_us())
}

/// Whatever was asked for, the rates of a session are in order: from 1 to 120
/// frames a second, the lowest no higher than the highest.
pub proof fn rates_are_in_order(args: Args, default_max_fps: u8, id: Seq<char>)
    ensures
        ({
            let options = options_of(args, default_max_fps, id);
            1 <= options.min_fps <= options.max_fps <= 120
        }),
{
}

/// The rate is held fixed unless adaptation is asked for and not ruled out.
pub proof fn fixed_rate_wins(args: Args, default_max_fps: u8, id: Seq<char>)
    ensures
        args.fixed_rate || !args.adaptive_rate ==> !options_of(
            args,
            default_max_fps,
            id,
        ).adaptive_streaming,
{
}

/// A rate within the bounds is taken as it is, and one outside of them becomes the bound
/// that it passed.
pub proof fn rates_within_bounds_are_kept(n: u8, low: u8, high: u8)
    requires
        low <= high,
    ensures
        low <= n <= high ==> clamped(n, low, high) == n,
        n < low ==> clamped(n, low, high) == low,
        n > high ==> clamped(n, low, high) == high,
{
}

/// Megabits are a million bits each. Where that is more than 32 bits hold, the most that
/// they hold is meant; none given means zero.
pub proof fn megabits_are_a_million_bits(mbps: u32)
    ensures
        mbps <= 4_294 ==> bits_per_second(Some(mbps)) == mbps * 1_000_000,
        mbps > 4_294 ==> bits_per_second(Some(mbps)) == 0xffff_ffff,
        bits_per_second(None) == 0,
{
}

/// The options of a session are those of the command line. The highest rate is the one
/// given, or else the default; the lowest is the one given, or else 30; both where they
/// are possible at all.
pub proof fn options_are_as_given(args: Args, default_max_fps: u8, id: Seq<char>)
    ensures
        ({
            let options = options_of(args, default_max_fps, id);
            &&& options.client_session_id == id
            &&& options.list_displays == args.list_displays
            &&& options.interpolate == args.interpolate
            &&& options.adaptive_streaming <==> args.adaptive_rate && !args.fixed_rate
            &&& match args.display {
                Some(text) => options.display_selector == Some(text@),
                None => options.display_selector is None,
            }
            &&& args.max_fps matches Some(fps) ==> (1 <= fps <= 120 ==> options.max_fps == fps)
                && (fps == 0 ==> options.max_fps == 1) && (fps > 120 ==> options.max_fps == 120)
            &&& args.max_fps is None && 1 <= default_max_fps <= 120 ==> options.max_fps
                == default_max_fps
            &&& args.min_fps matches Some(fps) ==> (1 <= fps <= options.max_fps ==> options.min_fps
                == fps) && (fps == 0 ==> options.min_fps == 1) && (fps > options.max_fps
                ==> options.min_fps == options.max_fps)
            &&& args.min_fps is None && options.max_fps >= 30 ==> options.min_fps == 30
            &&& args.min_fps is None && options.max_fps < 30 ==> options.min_fps == options.max_fps
            &&& args.min_bitrate_mbps matches Some(m) ==> (m <= 4_294 ==> options.min_bitrate_bps == m
                * 1_000_000)
            &&& args.max_bitrate_mbps matches Some(m) ==> (m <= 4_294 ==> options.max_bitrate_bps == m
                * 1_000_000)
            &&& args.min_bitrate_mbps is None ==> options.min_bitrate_bps == 0
            &&& args.max_bitrate_mbps is None ==> options.max_bitrate_bps == 0
        }),
{
}

/// The identifier of a session is its prefix, then the number of the process, a hyphen
/// and the time, and nothing else.
pub proof fn identifiers_tell_process_and_time(prefix: Seq<char>, process_id: u32, us: u64)
    ensures
        ({
            let id = session_id(prefix, process_id, us);
            let hyphen = prefix.len() + decimal(process_id as nat).len();
            &&& prefix.is_prefix_of(id)
            &&& id.subrange(prefix.len() as int, hyphen as int) == decimal(process_id as nat)
            &&& id[hyphen as int] == '-'
            &&& id.skip(hyphen as int + 1) == decimal(us as nat)
        }),
{
    reveal_strlit("-");
    let id = session_id(prefix, process_id, us);
    let hyphen = prefix.len() + decimal(process_id as nat).len();
    assert(id.subrange(0, prefix.len() as int) =~= prefix);
    assert(id.subrange(prefix.len() as int, hyphen as int) =~= decimal(process_id as nat));
    assert(id.skip(hyphen as int + 1) =~= decimal(us as nat));
}

} // verus!
