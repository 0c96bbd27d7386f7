use clap::builder::RangedU64ValueParser;
use clap::{Arg, ArgAction, Command};
use streamd::yang::ffi::{client_options, copy_str_to_cchar_buf, display_entries, ConnectOptions};
use streamd::yang::options::{
    client_options_from_args, default_requested_max_fps, mbps_to_bps, new_client_session_id,
    session_id_at, Args, ClientOptions,
};
use streamd::yin_yang_proto::packets::DisplayInfo;

/// Reads a command line, and gives the server's address and the options.
fn options_for(line: &[&str]) -> (String, ClientOptions) {
    let number = |name: &'static str| {
        Arg::new(name)
            .long(name)
            .value_parser(RangedU64ValueParser::<u32>::new())
    };
    let flag = |name: &'static str| Arg::new(name).long(name).action(ArgAction::SetTrue);
    let matches = Command::new("yang")
        .arg(Arg::new("server_addr").default_value("127.0.0.1:9000"))
        .arg(Arg::new("display").long("display"))
        .arg(flag("list-displays"))
        .arg(number("max-fps"))
        .arg(number("min-fps"))
        .arg(number("min-bitrate-mbps"))
        .arg(number("max-bitrate-mbps"))
        .arg(flag("fixed-rate").conflicts_with("adaptive-rate"))
        .arg(flag("adaptive-rate").conflicts_with("fixed-rate"))
        .arg(flag("interpolate"))
        .arg(Arg::new("log-filter").long("log-filter"))
        .try_get_matches_from(line)
        .expect("args should parse");
    let count = |name: &str| matches.get_one::<u32>(name).copied();
    let args = Args {
        display: matches.get_one::<String>("display").cloned(),
        list_displays: matches.get_flag("list-displays"),
        max_fps: count("max-fps").map(|fps| fps as u8),
        min_fps: count("min-fps").map(|fps| fps as u8),
        min_bitrate_mbps: count("min-bitrate-mbps"),
        max_bitrate_mbps: count("max-bitrate-mbps"),
        fixed_rate: matches.get_flag("fixed-rate"),
        adaptive_rate: matches.get_flag("adaptive-rate"),
        interpolate: matches.get_flag("interpolate"),
    };
    let address = matches
        .get_one::<String>("server_addr")
        .cloned()
        .expect("has a default");
    let options = client_options_from_args(
        args,
        default_requested_max_fps(None, None),
        new_client_session_id(42),
    );
    (address, options)
}

#[test]
fn parses_default_values() {
    let (server_addr, options) = options_for(&["yang"]);
    assert_eq!(server_addr.to_string(), "127.0.0.1:9000");
    assert!(options.display_selector.is_none());
    assert!(!options.list_displays);
    assert!(!options.client_session_id.is_empty());
    assert!(!options.adaptive_streaming);
    assert_eq!(options.max_fps, default_requested_max_fps(None, None));
    assert_eq!(
        options.min_fps,
        if options.max_fps >= 30 {
            30
        } else {
            options.max_fps
        }
    );
    assert_eq!(options.min_bitrate_bps, 0);
    assert_eq!(options.max_bitrate_bps, 0);
}

#[test]
fn parses_display_selection() {
    let (server_addr, options) = options_for(&[
        "yang",
        "192.168.1.50:9000",
        "--display",
        "wayland:68",
        "--list-displays",
        "--max-fps",
        "120",
        "--min-fps",
        "48",
        "--min-bitrate-mbps",
        "12",
        "--max-bitrate-mbps",
        "40",
        "--adaptive-rate",
        "--log-filter",
        "info,yang=trace",
    ]);
    assert_eq!(server_addr.to_string(), "192.168.1.50:9000");
    assert_eq!(options.display_selector.as_deref(), Some("wayland:68"));
    assert!(options.list_displays);
    assert!(options.adaptive_streaming);
    assert_eq!(options.max_fps, 120);
    assert_eq!(options.min_fps, 48);
    assert_eq!(options.min_bitrate_bps, 12_000_000);
    assert_eq!(options.max_bitrate_bps, 40_000_000);
}

#[test]
fn fixed_rate_flag_keeps_adaptation_disabled() {
    let (_, options) = options_for(&["yang", "--fixed-rate"]);
    assert!(!options.adaptive_streaming);
}

#[test]
fn rates_stay_within_their_bounds() {
    let (_, options) = options_for(&["yang", "--max-fps", "250", "--min-fps", "200"]);
    assert_eq!((options.min_fps, options.max_fps), (120, 120));
    let (_, options) = options_for(&["yang", "--max-fps", "0"]);
    assert_eq!((options.min_fps, options.max_fps), (1, 1));
    let (_, options) = options_for(&["yang", "--max-fps", "24", "--min-fps", "0"]);
    assert_eq!((options.min_fps, options.max_fps), (1, 24));
    let (_, options) = options_for(&["yang", "--max-fps", "24"]);
    assert_eq!((options.min_fps, options.max_fps), (24, 24));
}

#[test]
fn default_rate_comes_from_the_screen() {
    assert_eq!(default_requested_max_fps(None, None), 60);
    assert_eq!(default_requested_max_fps(Some(144), Some(75)), 120);
    assert_eq!(default_requested_max_fps(Some(0), Some(75)), 75);
    assert_eq!(default_requested_max_fps(Some(-5), None), 60);
    assert_eq!(default_requested_max_fps(Some(256), None), 30);
    assert_eq!(default_requested_max_fps(None, Some(24)), 30);
}

#[test]
fn bitrates_are_capped() {
    assert_eq!(mbps_to_bps(None), 0);
    assert_eq!(mbps_to_bps(Some(4294)), 4_294_000_000);
    assert_eq!(mbps_to_bps(Some(4295)), u32::MAX);
}

#[test]
fn session_ids_name_process_and_time() {
    assert_eq!(session_id_at("yang-", 7, 1_000_000), "yang-7-1000000");
    let id = new_client_session_id(7);
    let time: u64 = id
        .strip_prefix("yang-7-")
        .expect("prefix")
        .parse()
        .expect("a time");
    assert!(time > 1_577_836_800_000_000);
}

#[test]
fn ffi_options_are_clamped() {
    let options = client_options(
        ConnectOptions {
            display_selector: Some(String::new()),
            max_bitrate_mbps: 5000,
            min_bitrate_mbps: 2,
            max_fps: 0,
            min_fps: 60,
            adaptive_streaming: true,
            interpolate: true,
        },
        "yang-ffi-1-2".to_string(),
    );
    assert_eq!(options.display_selector, None);
    assert_eq!((options.min_fps, options.max_fps), (1, 1));
    assert_eq!(options.max_bitrate_bps, u32::MAX);
    assert_eq!(options.min_bitrate_bps, 2_000_000);
    assert!(options.adaptive_streaming && options.interpolate && !options.list_displays);
    assert_eq!(options.client_session_id, "yang-ffi-1-2");
}

#[test]
fn texts_are_cut_to_their_buffers() {
    assert_eq!(copy_str_to_cchar_buf("abc", 5), vec![b'a', b'b', b'c', 0, 0]);
    assert_eq!(copy_str_to_cchar_buf("abc", 3), vec![b'a', b'b', 0]);
    assert_eq!(copy_str_to_cchar_buf("é", 2), vec![0xC3, 0]);
    assert_eq!(copy_str_to_cchar_buf("abc", 1), vec![0]);
}

#[test]
fn display_entries_are_counted() {
    let display = |index: u32| DisplayInfo {
        id: format!("wayland:{index}"),
        index,
        name: "DP-3".into(),
        description: Some("Odyssey".into()),
        width: 3840,
        height: 2160,
    };
    let displays = vec![display(0), display(1)];
    assert!(display_entries(&displays, 0).is_none());
    assert!(display_entries(&displays, -1).is_none());
    assert_eq!(display_entries(&displays, 1).expect("entries").len(), 1);
    let entries = display_entries(&displays, 9).expect("entries");
    assert_eq!(entries.len(), 2);
    assert_eq!(entries[1].index, 1);
    assert_eq!((entries[1].width, entries[1].height), (3840, 2160));
    assert_eq!(entries[1].id.len(), 128);
    assert_eq!(&entries[1].id[..11], b"wayland:1\0\0");
    assert_eq!(&entries[1].name[..5], b"DP-3\0");
    assert_eq!(entries[1].description.len(), 256);
    assert_eq!(&entries[1].description[..8], b"Odyssey\0");
}
