use streamd::displays::{display_line, display_lines, select_display, size_to_request};
use streamd::yin_yang_proto::packets::DisplayInfo;

fn display(index: u32, id: &str, name: &str, description: Option<&str>) -> DisplayInfo {
    DisplayInfo {
        id: id.into(),
        index,
        name: name.into(),
        description: description.map(String::from),
        width: 3840,
        height: 2160,
    }
}

fn displays() -> Vec<DisplayInfo> {
    vec![
        display(0, "wayland:67", "HDMI-A-2", Some("ASUSTek VG279Q3A")),
        display(1, "wayland:68", "DP-3", Some("Samsung Odyssey")),
        display(2, "wayland:69", "dp-3", None),
    ]
}

fn selected(selector: &str) -> Option<String> {
    select_display(&displays(), &Some(selector.to_string()))
        .ok()
        .map(|d| d.id)
}

#[test]
fn displays_are_selected_by_each_property() {
    assert_eq!(selected("1").as_deref(), Some("wayland:68"));
    assert_eq!(selected(" wayland:69\n").as_deref(), Some("wayland:69"));
    assert_eq!(selected("HDMI-A-2").as_deref(), Some("wayland:67"));
    assert_eq!(selected("Samsung Odyssey").as_deref(), Some("wayland:68"));
}

#[test]
fn names_are_taken_by_the_letter() {
    assert_eq!(selected("DP-3").as_deref(), Some("wayland:68"));
    assert_eq!(selected("dp-3").as_deref(), Some("wayland:69"));
    assert_eq!(selected("Dp-3"), None);
    assert_eq!(selected("hdmi-a-2"), None);
    assert_eq!(selected("samsung odyssey"), None);
}

#[test]
fn the_first_display_is_the_default_one() {
    let all = displays();
    assert_eq!(select_display(&all, &None).expect("first").id, "wayland:67");
    assert_eq!(
        select_display(&all, &Some("  ".into())).expect("first").id,
        "wayland:67"
    );
}

#[test]
fn selection_fails_with_a_reason() {
    assert_eq!(
        select_display(&vec![], &None).expect_err("no displays"),
        "the server did not report any capture displays"
    );
    assert_eq!(
        select_display(&displays(), &Some(" 7 ".into())).expect_err("no such display"),
        "no display matched selector \"7\"; available selectors are ids, numeric indexes, names, or descriptions"
    );
}

#[test]
fn displays_are_listed_line_by_line() {
    assert_eq!(
        display_line(&displays()[1]),
        "[1] wayland:68 DP-3 3840x2160 (Samsung Odyssey)"
    );
    assert_eq!(display_line(&displays()[2]), "[2] wayland:69 dp-3 3840x2160");
    assert_eq!(display_lines(&displays()).len(), 3);
    assert_eq!(display_lines(&vec![]), vec!["No displays available.".to_string()]);
}

#[test]
fn unknown_sizes_have_defaults() {
    let mut d = display(0, "x", "y", None);
    assert_eq!(size_to_request(&d), (3840, 2160));
    d.width = 0;
    assert_eq!(size_to_request(&d), (1920, 2160));
    d.height = 0;
    assert_eq!(size_to_request(&d), (1920, 1080));
}
