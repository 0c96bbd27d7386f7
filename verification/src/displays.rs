//! The displays of a server as its clients see them.

use crate::text::{
    decimal, number, parse_number, push_decimal, push_quoted, quoted, trim, trimmed,
};
use crate::yin_yang_proto::packets::{display_views, opt_view, DisplayInfo, DisplayInfoView};
use vstd::prelude::*;
use vstd::string::StringExecFns;

verus! {

// ---------------------------------------------------------------------------
// Selection
// ---------------------------------------------------------------------------

/// The first display with a property.
pub open spec fn first_where(
    displays: Seq<DisplayInfoView>,
    wanted: spec_fn(DisplayInfoView) -> bool,
) -> Option<DisplayInfoView>
    decreases displays.len(),
{
    if displays.len() == 0 {
        None
    } else if wanted(displays[0]) {
        Some(displays[0])
    } else {
        first_where(displays.skip(1), wanted)
    }
}

/// A display goes by this number.
pub open spec fn by_index(selector: Seq<char>) -> spec_fn(DisplayInfoView) -> bool {
    |d: DisplayInfoView| number(selector, u32::MAX as nat) == Some(d.index as nat)
}

pub open spec fn by_id(selector: Seq<char>) -> spec_fn(DisplayInfoView) -> bool {
    |d: DisplayInfoView| d.id == selector
}

/// A display has this very name.
pub open spec fn by_name(selector: Seq<char>) -> spec_fn(DisplayInfoView) -> bool {
    |d: DisplayInfoView| d.name == selector
}

/// A display has this very description.
pub open spec fn by_description(selector: Seq<char>) -> spec_fn(DisplayInfoView) -> bool {
    |d: DisplayInfoView| d.description == Some(selector)
}

/// The display that a selector names exactly: by number, else by identifier, else
/// by name, else by description.
pub open spec fn matching(displays: Seq<DisplayInfoView>, selector: Seq<char>) -> Option<
    DisplayInfoView,
> {
    match first_where(displays, by_index(selector)) {
        Some(d) => Some(d),
        None => match first_where(displays, by_id(selector)) {
            Some(d) => Some(d),
            None => match first_where(displays, by_name(selector)) {
                Some(d) => Some(d),
                None => first_where(displays, by_description(selector)),
            },
        },
    }
}

/// The selected display, or why there is none. Without a selector, or with one of
/// white space only, that is the first.
pub open spec fn selection(displays: Seq<DisplayInfoView>, selector: Option<Seq<char>>) -> Result<
    DisplayInfoView,
    Seq<char>,
> {
    if displays.len() == 0 {
        Err("the server did not report any capture displays"@)
    } else if selector is None || trimmed(selector->0).len() == 0 {
        Ok(displays[0])
    } else {
        match matching(displays, trimmed(selector->0)) {
            Some(d) => Ok(d),
            None => Err(
                "no display matched selector "@ + quoted(trimmed(selector->0))
                    + "; available selectors are ids, numeric indexes, names, or descriptions"@,
            ),
        }
    }
}

/// What a selector is compared with.
#[derive(Clone, Copy, Debug, PartialEq, Eq, Structural)]
enum Property {
    Index,
    Id,
    Name,
    Description,
}

spec fn wanted(property: Property, selector: Seq<char>) -> spec_fn(DisplayInfoView) -> bool {
    match property {
        Property::Index => by_index(selector),
        Property::Id => by_id(selector),
        Property::Name => by_name(selector),
        Property::Description => by_description(selector),
    }
}

fn has_property(display: &DisplayInfo, property: Property, selector: &String) -> (r: bool)
    ensures
        r == wanted(property, selector@)(display@),
{
    match property {
        Property::Index => match parse_number(selector.as_str(), u32::MAX) {
            Some(index) => display.index == index,
            None => false,
        },
        Property::Id => display.id == *selector,
        Property::Name => display.name == *selector,
        Property::Description => match &display.description {
            Some(text) => *text == *selector,
            None => false,
        },
    }
}

fn find_display(displays: &Vec<DisplayInfo>, property: Property, selector: &String) -> (r: Option<
    DisplayInfo,
>)
    ensures
        match first_where(display_views(displays@), wanted(property, selector@)) {
            Some(d) => r matches Some(display) && display@ == d,
            None => r is None,
        },
{
    let ghost all = display_views(displays@);
    let ghost wish = wanted(property, selector@);
    let mut i: usize = 0;
    assert(all.skip(0) =~= all);
    while i < displays.len()
        invariant
            i <= displays@.len(),
            all == display_views(displays@),
            wish == wanted(property, selector@),
            first_where(all, wish) == first_where(all.skip(i as int), wish),
        decreases displays@.len() - i,
    {
        if has_property(&displays[i], property, selector) {
            return Some(displays[i].clone());
        }
        assert(all.skip(i as int).skip(1) =~= all.skip(i as int + 1));
        i = i + 1;
    }
    None
}

pub fn select_display(displays: &Vec<DisplayInfo>, selector: &Option<String>) -> (r: Result<
    DisplayInfo,
    String,
>)
    ensures
        match selection(display_views(displays@), opt_view(*selector)) {
            Ok(d) => r matches Ok(display) && display@ == d,
            Err(reason) => r matches Err(text) && text@ == reason,
        },
{
    if displays.len() == 0 {
        return Err(String::from_str("the server did not report any capture displays"));
    }
    let selector = match selector {
        Some(text) => String::from_str(trim(text.as_str())),
        None => {
            return Ok(displays[0].clone());
        },
    };
    if selector.as_str().unicode_len() == 0 {
        return Ok(displays[0].clone());
    }
    if let Some(display) = find_display(displays, Property::Index, &selector) {
        return Ok(display);
    }
    if let Some(display) = find_display(displays, Property::Id, &selector) {
        return Ok(display);
    }
    if let Some(display) = find_display(displays, Property::Name, &selector) {
        return Ok(display);
    }
    if let Some(display) = find_display(displays, Property::Description, &selector) {
        return Ok(display);
    }
    let mut reason = String::from_str("no display matched selector ");
    push_quoted(&mut reason, selector.as_str());
    reason.append("; available selectors are ids, numeric indexes, names, or descriptions");
    Err(reason)
}

/// The size to ask for on a display: its own, or a default where that is not
/// known.
pub open spec fn requested_size(display: DisplayInfoView) -> (u32, u32) {
    (
        if display.width > 0 {
            display.width
        } else {
            1920
        },
        if display.height > 0 {
            display.height
        } else {
            1080
        },
    )
}

pub fn size_to_request(display: &DisplayInfo) -> (r: (u32, u32))
    ensures
        r == requested_size(display@),
{
    let width: u32 = if display.width > 0 {
        display.width
    } else {
        1920
    };
    let height: u32 = if display.height > 0 {
        display.height
    } else {
        1080
    };
    (width, height)
}

// ---------------------------------------------------------------------------
// Listing
// ---------------------------------------------------------------------------

/// A display on a line of its own.
pub open spec fn line(d: DisplayInfoView) -> Seq<char> {
    "["@ + decimal(d.index as nat) + "] "@ + d.id + " "@ + d.name + " "@ + decimal(d.width as nat)
        + "x"@ + decimal(d.height as nat) + match d.description {
        Some(text) => " ("@ + text + ")"@,
        None => Seq::empty(),
    }
}

pub fn display_line(display: &DisplayInfo) -> (r: String)
    ensures
        r@ == line(display@),
{
    let mut r = String::from_str("[");
    push_decimal(&mut r, display.index as u64);
    r.append("] ");
    r.append(display.id.as_str());
    r.append(" ");
    r.append(display.name.as_str());
    r.append(" ");
    push_decimal(&mut r, display.width as u64);
    r.append("x");
    push_decimal(&mut r, display.height as u64);
    let ghost so_far = r@;
    match &display.description {
        Some(text) => {
            r.append(" (");
            r.append(text.as_str());
            r.append(")");
            assert(r@ =~= so_far + (" ("@ + text@ + ")"@));
        },
        None => {
            assert(r@ =~= so_far + Seq::empty());
        },
    }
    r
}

/// The lines in which the displays are listed.
pub open spec fn lines(displays: Seq<DisplayInfoView>) -> Seq<Seq<char>> {
    if displays.len() == 0 {
        seq!["No displays available."@]
    } else {
        displays.map_values(|d: DisplayInfoView| line(d))
    }
}

/// The views of a list of texts.
pub open spec fn text_views(texts: Seq<String>) -> Seq<Seq<char>> {
    texts.map_values(|t: String| t@)
}

/// The lines in which the displays are listed.
pub fn display_lines(displays: &Vec<DisplayInfo>) -> (r: Vec<String>)
    ensures
        text_views(r@) == lines(display_views(displays@)),
{
    let mut r: Vec<String> = Vec::new();
    if displays.len() == 0 {
        let none = String::from_str("No displays available.");
        r.push(none);
        assert(text_views(r@) =~= lines(display_views(displays@)));
        return r;
    }
    let mut i: usize = 0;
    while i < displays.len()
        invariant
            i <= displays@.len(),
            r@.len() == i,
            forall|j: int| 0 <= j < i ==> (#[trigger] r@[j])@ == line(display_views(displays@)[j]),
        decreases displays@.len() - i,
    {
        r.push(display_line(&displays[i]));
        i = i + 1;
    }
    assert(text_views(r@) =~= lines(display_views(displays@)));
    r
}

// ---------------------------------------------------------------------------
// Laws
// ---------------------------------------------------------------------------

/// A selected display is one of the list.
pub proof fn selected_displays_are_listed(
    displays: Seq<DisplayInfoView>,
    selector: Option<Seq<char>>,
)
    ensures
        selection(displays, selector) matches Ok(d) ==> displays.contains(d),
{
    if displays.len() > 0 {
        assert(displays.contains(displays[0]));
        if selector is Some {
            let s = trimmed(selector->0);
            lemma_first_where(displays, by_index(s));
            lemma_first_where(displays, by_id(s));
            lemma_first_where(displays, by_name(s));
            lemma_first_where(displays, by_description(s));
        }
    }
}

/// Without a selector the first display is selected.
pub proof fn first_display_is_the_default(displays: Seq<DisplayInfoView>)
    requires
        displays.len() > 0,
    ensures
        selection(displays, None) == Ok::<DisplayInfoView, Seq<char>>(displays[0]),
{
}

proof fn lemma_first_where(
    displays: Seq<DisplayInfoView>,
    wanted: spec_fn(DisplayInfoView) -> bool,
)
    ensures
        first_where(displays, wanted) matches Some(d) ==> wanted(d) && displays.contains(d),
        first_where(displays, wanted) is None ==> forall|i: int|
            0 <= i < displays.len() ==> !wanted(#[trigger] displays[i]),
    decreases displays.len(),
{
    if displays.len() > 0 {
        let rest = displays.skip(1);
        lemma_first_where(rest, wanted);
        if !wanted(displays[0]) {
            match first_where(rest, wanted) {
                Some(d) => {
                    let i = choose|i: int| 0 <= i < rest.len() && rest[i] == d;
                    assert(displays[i + 1] == d);
                },
                None => {
                    assert forall|i: int| 0 <= i < displays.len() implies !wanted(
                        #[trigger] displays[i],
                    ) by {
                        if i > 0 {
                            assert(rest[i - 1] == displays[i]);
                        }
                    }
                },
            }
        } else {
            assert(displays.contains(displays[0]));
        }
    }
}

/// A display can be selected by its number, its identifier, its very name and its
/// very description: a display is then selected of which the selector is one of
/// these.
pub proof fn every_display_can_be_selected(
    displays: Seq<DisplayInfoView>,
    i: int,
    selector: Seq<char>,
)
    requires
        0 <= i < displays.len(),
    ensures
        trimmed(selector).len() > 0 && names(trimmed(selector), displays[i]) ==> (selection(
            displays,
            Some(selector),
        ) matches Ok(d) && names(trimmed(selector), d)),
{
    let s = trimmed(selector);
    lemma_first_where(displays, by_index(s));
    lemma_first_where(displays, by_id(s));
    lemma_first_where(displays, by_name(s));
    lemma_first_where(displays, by_description(s));
}

/// What names no display exactly, in the very letters, selects none.
pub proof fn other_selectors_are_refused(displays: Seq<DisplayInfoView>, selector: Seq<char>)
    requires
        trimmed(selector).len() > 0,
        forall|i: int| 0 <= i < displays.len() ==> !names(trimmed(selector), #[trigger] displays[i]),
    ensures
        selection(displays, Some(selector)) is Err,
{
    let s = trimmed(selector);
    lemma_first_where(displays, by_index(s));
    lemma_first_where(displays, by_id(s));
    lemma_first_where(displays, by_name(s));
    lemma_first_where(displays, by_description(s));
    assert forall|d: DisplayInfoView| #[trigger] displays.contains(d) implies !names(s, d) by {
        let i = choose|i: int| 0 <= i < displays.len() && displays[i] == d;
        assert(!names(s, displays[i]));
    }
}

/// A selector names a display exactly.
pub open spec fn names(selector: Seq<char>, d: DisplayInfoView) -> bool {
    by_index(selector)(d) || by_id(selector)(d) || by_name(selector)(d) || by_description(
        selector,
    )(d)
}

/// A number goes before all else: where a display goes by it, a display with that
/// number is selected.
pub proof fn numbers_go_first(displays: Seq<DisplayInfoView>, i: int, selector: Seq<char>)
    requires
        0 <= i < displays.len(),
    ensures
        trimmed(selector).len() > 0 && by_index(trimmed(selector))(displays[i]) ==> (selection(
            displays,
            Some(selector),
        ) matches Ok(d) && d.index == displays[i].index),
{
    lemma_first_where(displays, by_index(trimmed(selector)));
}

/// What names a display: its identifier, its name or its description in the very letters,
/// or its number in decimal.
pub proof fn displays_are_named_in_the_very_letters(d: DisplayInfoView, selector: Seq<char>)
    ensures
        names(d.id, d),
        names(d.name, d),
        d.description matches Some(text) ==> names(text, d),
        names(decimal(d.index as nat), d),
        names(selector, d) && number(selector, u32::MAX as nat) is None ==> selector == d.id
            || selector == d.name || Some(selector) == d.description,
{
    crate::text::decimal_is_read_back(d.index as nat, u32::MAX as nat);
}

proof fn lemma_first_is_found(
    displays: Seq<DisplayInfoView>,
    wanted: spec_fn(DisplayInfoView) -> bool,
)
    ensures
        match first_where(displays, wanted) {
            Some(d) => exists|i: int|
                0 <= i < displays.len() && #[trigger] displays[i] == d && wanted(displays[i])
                    && forall|j: int| 0 <= j < i ==> !wanted(#[trigger] displays[j]),
            None => forall|j: int| 0 <= j < displays.len() ==> !wanted(#[trigger] displays[j]),
        },
    decreases displays.len(),
{
    if displays.len() > 0 {
        if wanted(displays[0]) {
            assert(displays[0] == first_where(displays, wanted)->0);
        } else {
            let rest = displays.skip(1);
            lemma_first_is_found(rest, wanted);
            match first_where(rest, wanted) {
                Some(d) => {
                    let i = choose|i: int|
                        0 <= i < rest.len() && #[trigger] rest[i] == d && wanted(rest[i])
                            && forall|j: int| 0 <= j < i ==> !wanted(#[trigger] rest[j]);
                    assert(displays[i + 1] == d);
                    assert forall|j: int| 0 <= j < i + 1 implies !wanted(#[trigger] displays[j]) by {
                        if j > 0 {
                            assert(rest[j - 1] == displays[j]);
                        }
                    }
                },
                None => {
                    assert forall|j: int| 0 <= j < displays.len() implies !wanted(
                        #[trigger] displays[j],
                    ) by {
                        if j > 0 {
                            assert(rest[j - 1] == displays[j]);
                        }
                    }
                },
            }
        }
    }
}

/// Of several ways to read a selector, a number goes first, then an identifier, then a
/// name, then a description; and of several displays that it names in one way, the first
/// is selected.
pub proof fn selectors_are_read_in_order(displays: Seq<DisplayInfoView>, selector: Seq<char>, i: int)
    requires
        trimmed(selector).len() > 0,
        0 <= i < displays.len(),
    ensures
        ({
            let s = trimmed(selector);
            let n = number(s, u32::MAX as nat);
            let numbered = exists|j: int|
                0 <= j < displays.len() && Some((#[trigger] displays[j]).index as nat) == n;
            let identified = exists|j: int|
                0 <= j < displays.len() && (#[trigger] displays[j]).id == s;
            let named = exists|j: int|
                0 <= j < displays.len() && (#[trigger] displays[j]).name == s;
            let chosen = selection(displays, Some(selector));
            &&& Some(displays[i].index as nat) == n && (forall|j: int|
                0 <= j < i ==> Some((#[trigger] displays[j]).index as nat) != n) ==> chosen == Ok::<
                DisplayInfoView,
                Seq<char>,
            >(displays[i])
            &&& !numbered && displays[i].id == s && (forall|j: int|
                0 <= j < i ==> (#[trigger] displays[j]).id != s) ==> chosen == Ok::<
                DisplayInfoView,
                Seq<char>,
            >(displays[i])
            &&& !numbered && !identified && displays[i].name == s && (forall|j: int|
                0 <= j < i ==> (#[trigger] displays[j]).name != s) ==> chosen == Ok::<
                DisplayInfoView,
                Seq<char>,
            >(displays[i])
            &&& !numbered && !identified && !named && displays[i].description == Some(s) && (
            forall|j: int| 0 <= j < i ==> (#[trigger] displays[j]).description != Some(s))
                ==> chosen == Ok::<DisplayInfoView, Seq<char>>(displays[i])
        }),
{
    let s = trimmed(selector);
    lemma_first_is_found(displays, by_index(s));
    lemma_first_is_found(displays, by_id(s));
    lemma_first_is_found(displays, by_name(s));
    lemma_first_is_found(displays, by_description(s));
}

/// The size that is asked for is the display's own; a side that is not known is taken from
/// full HD.
pub proof fn displays_are_asked_for_their_size(d: DisplayInfoView)
    ensures
        d.width > 0 ==> requested_size(d).0 == d.width,
        d.height > 0 ==> requested_size(d).1 == d.height,
        d.width == 0 ==> requested_size(d).0 == 1920,
        d.height == 0 ==> requested_size(d).1 == 1080,
{
}

/// Each display is listed on a line of its own, in the order of the list: its number in
/// brackets, its identifier, its name, its size, and its description in parentheses where
/// it has one. That there is none is said too.
pub proof fn displays_are_listed_line_by_line(displays: Seq<DisplayInfoView>, i: int)
    requires
        0 <= i < displays.len(),
    ensures
        lines(displays).len() == displays.len(),
        ({
            let d = displays[i];
            let shown = "["@ + decimal(d.index as nat) + "] "@ + d.id + " "@ + d.name + " "@
                + decimal(d.width as nat) + "x"@ + decimal(d.height as nat);
            match d.description {
                Some(text) => lines(displays)[i] == shown + " ("@ + text + ")"@,
                None => lines(displays)[i] == shown,
            }
        }),
        lines(Seq::<DisplayInfoView>::empty()) == seq!["No displays available."@],
{
    let d = displays[i];
    let shown = "["@ + decimal(d.index as nat) + "] "@ + d.id + " "@ + d.name + " "@ + decimal(
        d.width as nat,
    ) + "x"@ + decimal(d.height as nat);
    match d.description {
        Some(text) => {
            assert(line(d) =~= shown + " ("@ + text + ")"@);
        },
        None => {
            assert(line(d) =~= shown);
        },
    }
}

} // verus!
