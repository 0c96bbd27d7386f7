//! The outputs of a Wayland compositor as displays.

use crate::streamd_proto::packets::{display_views, opt_view, DisplayInfo, DisplayInfoView};
use crate::text::{
    begins_with, decimal, decimal_is_read_back, number, parse_number, push_decimal, push_quoted,
    quoted, strip_prefix, trim, trimmed,
};
use vstd::prelude::*;
use vstd::string::StringExecFns;

verus! {

// ---------------------------------------------------------------------------
// Identifiers
// ---------------------------------------------------------------------------

/// The identifier of the display with this global name.
pub open spec fn display_id(global_name: u32) -> Seq<char> {
    "wayland:"@ + decimal(global_name as nat)
}

pub fn wayland_display_id(global_name: u32) -> (r: String)
    ensures
        r@ == display_id(global_name),
{
    let mut r = String::from_str("wayland:");
    push_decimal(&mut r, global_name as u64);
    r
}

/// What follows the prefix of an identifier, if it has one.
pub open spec fn bare_id(id: Seq<char>) -> Seq<char> {
    if begins_with(id, "wayland:"@) {
        id.skip("wayland:"@.len() as int)
    } else if begins_with(id, "wl:"@) {
        id.skip("wl:"@.len() as int)
    } else {
        id
    }
}

/// The global name that an identifier stands for.
pub open spec fn id_name(id: Seq<char>) -> Option<u32> {
    match number(bare_id(id), u32::MAX as nat) {
        Some(n) => Some(n as u32),
        None => None,
    }
}

pub fn parse_wayland_display_id(display_id: &str) -> (r: Option<u32>)
    ensures
        r == id_name(display_id@),
{
    let bare = match strip_prefix(display_id, "wayland:") {
        Some(rest) => rest,
        None => match strip_prefix(display_id, "wl:") {
            Some(rest) => rest,
            None => display_id,
        },
    };
    parse_number(bare, u32::MAX)
}

/// The identifier of a display names that display.
pub proof fn display_ids_are_read_back(global_name: u32)
    ensures
        id_name(display_id(global_name)) == Some(global_name),
{
    let id = display_id(global_name);
    let n = "wayland:"@.len() as int;
    assert(id.take(n) =~= "wayland:"@);
    assert(id.skip(n) =~= decimal(global_name as nat));
    decimal_is_read_back(global_name as nat, u32::MAX as nat);
}

// ---------------------------------------------------------------------------
// Globals
// ---------------------------------------------------------------------------

/// A global object that the compositor advertises.
#[derive(Debug)]
pub struct Global {
    pub name: u32,
    pub interface: String,
    pub version: u32,
}

/// A global object of the `wl_output` interface.
#[derive(Clone, Copy, Debug, PartialEq, Eq, Structural)]
pub struct OutputGlobal {
    pub name: u32,
    pub version: u32,
}

/// Puts an output behind those with names that are not larger.
pub open spec fn placed(list: Seq<OutputGlobal>, output: OutputGlobal) -> Seq<OutputGlobal>
    decreases list.len(),
{
    if list.len() == 0 || list.last().name <= output.name {
        list.push(output)
    } else {
        placed(list.drop_last(), output).push(list.last())
    }
}

/// The outputs among the globals, ordered by name.
pub open spec fn outputs_of(globals: Seq<Global>) -> Seq<OutputGlobal>
    decreases globals.len(),
{
    if globals.len() == 0 {
        Seq::empty()
    } else {
        let before = outputs_of(globals.drop_last());
        let last = globals.last();
        if last.interface@ == "wl_output"@ {
            placed(before, OutputGlobal { name: last.name, version: last.version })
        } else {
            before
        }
    }
}

/// Places an output in an ordered list.
fn place(list: &mut Vec<OutputGlobal>, output: OutputGlobal)
    ensures
        final(list)@ == placed(old(list)@, output),
{
    let ghost all = list@;
    let mut at: usize = list.len();
    assert(all.take(at as int) =~= all);
    assert(all.skip(at as int) =~= Seq::empty());
    assert(placed(all, output) =~= placed(all, output) + all.skip(at as int));
    while at > 0 && list[at - 1].name > output.name
        invariant
            list@ == all,
            at <= all.len(),
            placed(all, output) == placed(all.take(at as int), output) + all.skip(at as int),
        decreases at,
    {
        let shorter = Ghost(all.take(at as int));
        assert(shorter@.drop_last() =~= all.take(at as int - 1));
        assert(placed(all.take(at as int - 1), output).push(all[at as int - 1]) + all.skip(at as int)
            =~= placed(all.take(at as int - 1), output) + all.skip(at as int - 1));
        at = at - 1;
    }
    list.insert(at, output);
    assert(list@ =~= all.take(at as int).push(output) + all.skip(at as int));
}

pub fn output_globals(globals: &Vec<Global>) -> (outputs: Vec<OutputGlobal>)
    ensures
        outputs@ == outputs_of(globals@),
{
    let mut outputs: Vec<OutputGlobal> = Vec::new();
    let wanted = String::from_str("wl_output");
    let mut i: usize = 0;
    while i < globals.len()
        invariant
            i <= globals@.len(),
            wanted@ == "wl_output"@,
            outputs@ == outputs_of(globals@.take(i as int)),
        decreases globals@.len() - i,
    {
        assert(globals@.take(i as int + 1).drop_last() =~= globals@.take(i as int));
        let global = &globals[i];
        if global.interface == wanted {
            place(&mut outputs, OutputGlobal { name: global.name, version: global.version });
        }
        i = i + 1;
    }
    assert(globals@.take(globals@.len() as int) =~= globals@);
    outputs
}

/// The first output with this name.
pub open spec fn output_named(outputs: Seq<OutputGlobal>, name: u32) -> Option<OutputGlobal>
    decreases outputs.len(),
{
    if outputs.len() == 0 {
        None
    } else if outputs[0].name == name {
        Some(outputs[0])
    } else {
        output_named(outputs.skip(1), name)
    }
}

/// The output to capture, or why there is none.
pub open spec fn selected(outputs: Seq<OutputGlobal>, id: Option<Seq<char>>) -> Result<
    OutputGlobal,
    Seq<char>,
> {
    if outputs.len() == 0 {
        Err("wl_output global unavailable on the Wayland compositor"@)
    } else {
        match id {
            None => Ok(outputs[0]),
            Some(id) => match id_name(id) {
                None => Err("unsupported Wayland display id "@ + quoted(id)),
                Some(name) => match output_named(outputs, name) {
                    Some(output) => Ok(output),
                    None => Err(
                        "Wayland output "@ + id + " was not advertised by the compositor"@,
                    ),
                },
            },
        }
    }
}

pub fn select_output_global(globals: &Vec<Global>, display_id: &Option<String>) -> (r: Result<
    OutputGlobal,
    String,
>)
    ensures
        match selected(outputs_of(globals@), opt_view(*display_id)) {
            Ok(output) => r == Ok::<OutputGlobal, String>(output),
            Err(reason) => r matches Err(text) && text@ == reason,
        },
{
    let outputs = output_globals(globals);
    if outputs.len() == 0 {
        return Err(String::from_str("wl_output global unavailable on the Wayland compositor"));
    }
    let id = match display_id {
        None => {
            return Ok(outputs[0]);
        },
        Some(id) => id,
    };
    let name: u32 = match parse_wayland_display_id(id.as_str()) {
        Some(name) => name,
        None => {
            let mut reason = String::from_str("unsupported Wayland display id ");
            push_quoted(&mut reason, id.as_str());
            return Err(reason);
        },
    };
    let mut i: usize = 0;
    let ghost all = outputs@;
    assert(all.skip(0) =~= all);
    while i < outputs.len()
        invariant
            i <= all.len(),
            outputs@ == all,
            all == outputs_of(globals@),
            all.len() > 0,
            *display_id == Some(*id),
            id_name(id@) == Some(name),
            output_named(all, name) == output_named(all.skip(i as int), name),
        decreases all.len() - i,
    {
        if outputs[i].name == name {
            return Ok(outputs[i]);
        }
        assert(all.skip(i as int).skip(1) =~= all.skip(i as int + 1));
        i = i + 1;
    }
    let mut reason = String::from_str("Wayland output ");
    reason.append(id.as_str());
    reason.append(" was not advertised by the compositor");
    Err(reason)
}

/// The outputs of the globals are ordered by name, and they are exactly the
/// globals of that interface.
pub proof fn outputs_are_ordered(globals: Seq<Global>)
    ensures
        forall|i: int, j: int|
            0 <= i < j < outputs_of(globals).len() ==> outputs_of(globals)[i].name <= outputs_of(
                globals,
            )[j].name,
        forall|o: OutputGlobal| #[trigger]
            outputs_of(globals).contains(o) <==> exists|i: int|
                0 <= i < globals.len() && #[trigger] globals[i].interface@ == "wl_output"@
                    && globals[i].name == o.name && globals[i].version == o.version,
    decreases globals.len(),
{
    if globals.len() > 0 {
        let before = globals.drop_last();
        let last = globals.last();
        outputs_are_ordered(before);
        let output = OutputGlobal { name: last.name, version: last.version };
        lemma_placed(outputs_of(before), output);
        assert forall|o: OutputGlobal| #[trigger]
            outputs_of(globals).contains(o) <==> exists|i: int|
                0 <= i < globals.len() && #[trigger] globals[i].interface@ == "wl_output"@
                    && globals[i].name == o.name && globals[i].version == o.version by {
            if outputs_of(globals).contains(o) {
                if outputs_of(before).contains(o) {
                    let i = choose|i: int|
                        0 <= i < before.len() && #[trigger] before[i].interface@ == "wl_output"@
                            && before[i].name == o.name && before[i].version == o.version;
                    assert(globals[i].interface@ == "wl_output"@);
                } else {
                    assert(o == output);
                    assert(globals[globals.len() - 1].interface@ == "wl_output"@);
                }
            }
            if exists|i: int|
                0 <= i < globals.len() && #[trigger] globals[i].interface@ == "wl_output"@
                    && globals[i].name == o.name && globals[i].version == o.version {
                let i = choose|i: int|
                    0 <= i < globals.len() && #[trigger] globals[i].interface@ == "wl_output"@
                        && globals[i].name == o.name && globals[i].version == o.version;
                if i < before.len() {
                    assert(before[i].interface@ == "wl_output"@);
                    assert(outputs_of(before).contains(o));
                } else {
                    assert(o == output);
                }
            }
        }
    }
}

proof fn lemma_placed(list: Seq<OutputGlobal>, output: OutputGlobal)
    requires
        forall|i: int, j: int| 0 <= i < j < list.len() ==> list[i].name <= list[j].name,
    ensures
        placed(list, output).len() == list.len() + 1,
        forall|i: int, j: int|
            0 <= i < j < placed(list, output).len() ==> placed(list, output)[i].name <= placed(
                list,
                output,
            )[j].name,
        forall|o: OutputGlobal| #[trigger]
            placed(list, output).contains(o) <==> list.contains(o) || o == output,
    decreases list.len(),
{
    let now = placed(list, output);
    if list.len() == 0 || list.last().name <= output.name {
        assert forall|i: int, j: int| 0 <= i < j < now.len() implies now[i].name <= now[j].name by {
            if j == list.len() {
                assert(list[i].name <= list[list.len() - 1].name);
            }
        }
        assert forall|o: OutputGlobal| #[trigger]
            now.contains(o) <==> list.contains(o) || o == output by {
            if list.contains(o) {
                let i = choose|i: int| 0 <= i < list.len() && list[i] == o;
                assert(now[i] == o);
            }
            assert(now[list.len() as int] == output);
        }
    } else {
        let shorter = list.drop_last();
        lemma_placed(shorter, output);
        let then = placed(shorter, output);
        assert forall|i: int, j: int| 0 <= i < j < now.len() implies now[i].name <= now[j].name by {
            if j == now.len() - 1 {
                assert(then.contains(then[i]));
                if then[i] != output {
                    let k = choose|k: int| 0 <= k < shorter.len() && shorter[k] == then[i];
                    assert(list[k].name <= list[list.len() - 1].name);
                }
            }
        }
        assert forall|o: OutputGlobal| #[trigger]
            now.contains(o) <==> list.contains(o) || o == output by {
            assert(now[now.len() - 1] == list.last());
            if now.contains(o) {
                let i = choose|i: int| 0 <= i < now.len() && now[i] == o;
                if i < then.len() {
                    assert(then.contains(o));
                    if shorter.contains(o) {
                        let k = choose|k: int| 0 <= k < shorter.len() && shorter[k] == o;
                        assert(list[k] == o);
                    }
                } else {
                    assert(list[list.len() - 1] == o);
                }
            }
            if list.contains(o) || o == output {
                if then.contains(o) {
                    let i = choose|i: int| 0 <= i < then.len() && then[i] == o;
                    assert(now[i] == o);
                } else {
                    let k = choose|k: int| 0 <= k < list.len() && list[k] == o;
                    if k < shorter.len() {
                        assert(shorter[k] == o);
                    }
                }
            }
        }
    }
}

// ---------------------------------------------------------------------------
// Discovery
// ---------------------------------------------------------------------------

/// An output and what the compositor has told of it.
#[derive(Debug)]
pub struct DiscoveredOutput {
    pub global_name: u32,
    pub index: u32,
    pub make: Option<String>,
    pub model: Option<String>,
    pub name: Option<String>,
    pub description: Option<String>,
    pub width: u32,
    pub height: u32,
}

#[verifier::ext_equal]
pub struct DiscoveredOutputView {
    pub global_name: u32,
    pub index: u32,
    pub make: Option<Seq<char>>,
    pub model: Option<Seq<char>>,
    pub name: Option<Seq<char>>,
    pub description: Option<Seq<char>>,
    pub width: u32,
    pub height: u32,
}

impl View for DiscoveredOutput {
    type V = DiscoveredOutputView;

    open spec fn view(&self) -> DiscoveredOutputView {
        DiscoveredOutputView {
            global_name: self.global_name,
            index: self.index,
            make: opt_view(self.make),
            model: opt_view(self.model),
            name: opt_view(self.name),
            description: opt_view(self.description),
            width: self.width,
            height: self.height,
        }
    }
}

/// What the compositor tells of an output.
#[derive(Debug)]
pub enum OutputEvent {
    Geometry { make: String, model: String },
    Mode { width: i32, height: i32 },
    Name(String),
    Description(String),
    Other,
}

pub enum OutputEventView {
    Geometry { make: Seq<char>, model: Seq<char> },
    Mode { width: i32, height: i32 },
    Name(Seq<char>),
    Description(Seq<char>),
    Other,
}

impl View for OutputEvent {
    type V = OutputEventView;

    open spec fn view(&self) -> OutputEventView {
        match self {
            OutputEvent::Geometry { make, model } => OutputEventView::Geometry {
                make: make@,
                model: model@,
            },
            OutputEvent::Mode { width, height } => OutputEventView::Mode {
                width: *width,
                height: *height,
            },
            OutputEvent::Name(name) => OutputEventView::Name(name@),
            OutputEvent::Description(text) => OutputEventView::Description(text@),
            OutputEvent::Other => OutputEventView::Other,
        }
    }
}

impl DiscoveredOutputView {
    /// An output of which nothing has been told.
    pub open spec fn blank(global_name: u32, index: u32) -> DiscoveredOutputView {
        DiscoveredOutputView {
            global_name,
            index,
            make: None,
            model: None,
            name: None,
            description: None,
            width: 0,
            height: 0,
        }
    }

    /// The output with what an event tells of it.
    pub open spec fn told(self, event: OutputEventView) -> DiscoveredOutputView {
        match event {
            OutputEventView::Geometry { make, model } => DiscoveredOutputView {
                make: Some(make),
                model: Some(model),
                ..self
            },
            OutputEventView::Mode { width, height } => if width > 0 && height > 0 {
                DiscoveredOutputView { width: width as u32, height: height as u32, ..self }
            } else {
                self
            },
            OutputEventView::Name(name) => DiscoveredOutputView { name: Some(name), ..self },
            OutputEventView::Description(text) => DiscoveredOutputView {
                description: Some(text),
                ..self
            },
            OutputEventView::Other => self,
        }
    }

    /// The display that the output is shown as: under its own name or, failing
    /// that, its maker and model or its number. A description that only repeats
    /// the name is left out.
    pub open spec fn display(self) -> DisplayInfoView {
        let made = made_by(self.make, self.model);
        let name = match self.name {
            Some(name) => name,
            None => match made {
                Some(text) => text,
                None => "wayland-output-"@ + decimal(self.global_name as nat),
            },
        };
        let described = match self.description {
            Some(text) => Some(text),
            None => made,
        };
        DisplayInfoView {
            id: display_id(self.global_name),
            index: self.index,
            name,
            description: if described == Some(name) {
                None
            } else {
                described
            },
            width: self.width,
            height: self.height,
        }
    }
}

/// A text without the white space around it, where there is more to it.
pub open spec fn some_text(text: Option<Seq<char>>) -> Option<Seq<char>> {
    match text {
        Some(t) => if trimmed(t).len() > 0 {
            Some(trimmed(t))
        } else {
            None
        },
        None => None,
    }
}

/// Maker and model as one text.
pub open spec fn made_by(make: Option<Seq<char>>, model: Option<Seq<char>>) -> Option<Seq<char>> {
    match (some_text(make), some_text(model)) {
        (Some(make), Some(model)) => Some(make + " "@ + model),
        (Some(make), None) => Some(make),
        (None, model) => model,
    }
}

fn keep_text(text: &Option<String>) -> (r: Option<String>)
    ensures
        opt_view(r) == some_text(opt_view(*text)),
{
    match text {
        Some(t) => {
            let short = String::from_str(trim(t.as_str()));
            if short.as_str().unicode_len() > 0 {
                Some(short)
            } else {
                None
            }
        },
        None => None,
    }
}

pub fn combine_make_model(make: &Option<String>, model: &Option<String>) -> (r: Option<String>)
    ensures
        opt_view(r) == made_by(opt_view(*make), opt_view(*model)),
{
    match (keep_text(make), keep_text(model)) {
        (Some(mut text), Some(model)) => {
            text.append(" ");
            text.append(model.as_str());
            Some(text)
        },
        (Some(make), None) => Some(make),
        (None, model) => model,
    }
}

impl DiscoveredOutput {
    fn tell(&mut self, event: OutputEvent)
        ensures
            final(self)@ == old(self)@.told(event@),
    {
        match event {
            OutputEvent::Geometry { make, model } => {
                self.make = Some(make);
                self.model = Some(model);
            },
            OutputEvent::Mode { width, height } => {
                if width > 0 && height > 0 {
                    self.width = width as u32;
                    self.height = height as u32;
                }
            },
            OutputEvent::Name(name) => {
                self.name = Some(name);
            },
            OutputEvent::Description(text) => {
                self.description = Some(text);
            },
            OutputEvent::Other => {},
        }
    }

    /// The display that the output is shown as.
    pub fn to_display_info(&self) -> (r: DisplayInfo)
        ensures
            r@ == self@.display(),
    {
        let made = combine_make_model(&self.make, &self.model);
        let name = match &self.name {
            Some(name) => name.clone(),
            None => match &made {
                Some(text) => text.clone(),
                None => {
                    let mut text = String::from_str("wayland-output-");
                    push_decimal(&mut text, self.global_name as u64);
                    text
                },
            },
        };
        let described = match &self.description {
            Some(text) => Some(text.clone()),
            None => made,
        };
        let description = match described {
            Some(text) => {
                if text == name {
                    None
                } else {
                    Some(text)
                }
            },
            None => None,
        };
        DisplayInfo {
            id: wayland_display_id(self.global_name),
            index: self.index,
            name,
            description,
            width: self.width,
            height: self.height,
        }
    }
}

/// The outputs of a compositor, ordered by global name.
#[derive(Debug)]
pub struct OutputDiscoveryState {
    outputs: Vec<DiscoveredOutput>,
}

impl View for OutputDiscoveryState {
    type V = Seq<DiscoveredOutputView>;

    closed spec fn view(&self) -> Seq<DiscoveredOutputView> {
        discovered_views(self.outputs@)
    }
}

pub open spec fn discovered_views(outputs: Seq<DiscoveredOutput>) -> Seq<DiscoveredOutputView> {
    outputs.map_values(|o: DiscoveredOutput| o@)
}

/// The outputs that are asked about, each numbered by its place. Of outputs under
/// one name the last counts.
pub open spec fn asked(outputs: Seq<OutputGlobal>) -> Seq<DiscoveredOutputView>
    decreases outputs.len(),
{
    if outputs.len() == 0 {
        Seq::empty()
    } else {
        let before = asked(outputs.drop_last());
        let last = DiscoveredOutputView::blank(
            outputs.last().name,
            (outputs.len() - 1) as u32,
        );
        if before.len() > 0 && before.last().global_name == last.global_name {
            before.drop_last().push(last)
        } else {
            before.push(last)
        }
    }
}

/// The first output with this name is told of an event.
pub open spec fn told_to(
    outputs: Seq<DiscoveredOutputView>,
    global_name: u32,
    event: OutputEventView,
) -> Seq<DiscoveredOutputView>
    decreases outputs.len(),
{
    if outputs.len() == 0 {
        outputs
    } else if outputs[0].global_name == global_name {
        seq![outputs[0].told(event)] + outputs.skip(1)
    } else {
        seq![outputs[0]] + told_to(outputs.skip(1), global_name, event)
    }
}

impl OutputDiscoveryState {
    /// The outputs of the globals, of which nothing has been told.
    pub fn new(outputs: &Vec<OutputGlobal>) -> (r: OutputDiscoveryState)
        requires
            outputs@.len() <= u32::MAX,
        ensures
            r@ == asked(outputs@),
    {
        let mut list: Vec<DiscoveredOutput> = Vec::new();
        let mut i: usize = 0;
        while i < outputs.len()
            invariant
                i <= outputs@.len() <= u32::MAX,
                discovered_views(list@) == asked(outputs@.take(i as int)),
            decreases outputs@.len() - i,
        {
            assert(outputs@.take(i as int + 1).drop_last() =~= outputs@.take(i as int));
            let ghost before = list@;
            let name = outputs[i].name;
            let last = DiscoveredOutput {
                global_name: name,
                index: i as u32,
                make: None,
                model: None,
                name: None,
                description: None,
                width: 0,
                height: 0,
            };
            assert(last@ =~= DiscoveredOutputView::blank(name, i as u32));
            if list.len() > 0 && list[list.len() - 1].global_name == name {
                list.pop();
                assert(discovered_views(list@) =~= discovered_views(before).drop_last());
            }
            let ghost kept = list@;
            list.push(last);
            assert(discovered_views(list@) =~= discovered_views(kept).push(last@));
            i = i + 1;
        }
        assert(outputs@.take(outputs@.len() as int) =~= outputs@);
        OutputDiscoveryState { outputs: list }
    }

    /// The compositor tells of an output.
    pub fn event(&mut self, global_name: u32, event: OutputEvent)
        ensures
            final(self)@ == told_to(old(self)@, global_name, event@),
    {
        let ghost all = discovered_views(self.outputs@);
        let mut i: usize = 0;
        assert(all.take(0) + told_to(all.skip(0), global_name, event@) =~= told_to(
            all,
            global_name,
            event@,
        )) by {
            assert(all.skip(0) =~= all);
        }
        while i < self.outputs.len() && self.outputs[i].global_name != global_name
            invariant
                i <= self.outputs@.len(),
                all == discovered_views(self.outputs@),
                told_to(all, global_name, event@) == all.take(i as int) + told_to(
                    all.skip(i as int),
                    global_name,
                    event@,
                ),
            decreases self.outputs@.len() - i,
        {
            let rest = Ghost(all.skip(i as int));
            assert(rest@.skip(1) =~= all.skip(i as int + 1));
            assert(all.take(i as int) + (seq![rest@[0]] + told_to(
                rest@.skip(1),
                global_name,
                event@,
            )) =~= all.take(i as int + 1) + told_to(all.skip(i as int + 1), global_name, event@));
            i = i + 1;
        }
        if i < self.outputs.len() {
            let ghost rest = all.skip(i as int);
            let ghost told = event@;
            let mut output = self.outputs.remove(i);
            output.tell(event);
            self.outputs.insert(i, output);
            assert(discovered_views(self.outputs@) =~= all.take(i as int) + (seq![
                rest[0].told(told),
            ] + rest.skip(1)));
        } else {
            assert(all.take(i as int) + all.skip(i as int) =~= all);
        }
    }

    /// The displays of the outputs.
    pub fn into_display_infos(self) -> (r: Vec<DisplayInfo>)
        ensures
            display_views(r@) == self@.map_values(|o: DiscoveredOutputView| o.display()),
    {
        let mut r: Vec<DisplayInfo> = Vec::new();
        let mut i: usize = 0;
        while i < self.outputs.len()
            invariant
                i <= self.outputs@.len(),
                r@.len() == i,
                forall|j: int|
                    0 <= j < i ==> (#[trigger] r@[j])@ == discovered_views(
                        self.outputs@,
                    )[j].display(),
            decreases self.outputs@.len() - i,
        {
            r.push(self.outputs[i].to_display_info());
            i = i + 1;
        }
        assert(display_views(r@) =~= self@.map_values(|o: DiscoveredOutputView| o.display()));
        r
    }
}

/// A display of the list is found again by its identifier: it names the output
/// that it was made from, whatever was told of that output.
pub proof fn displays_name_their_outputs(output: DiscoveredOutputView, event: OutputEventView)
    ensures
        id_name(output.display().id) == Some(output.global_name),
        output.told(event).display().id == output.display().id,
        output.told(event).display().index == output.display().index,
{
    display_ids_are_read_back(output.global_name);
}

/// An identifier may be written with either prefix or with none.
pub proof fn identifiers_have_short_forms(global_name: u32)
    ensures
        id_name("wayland:"@ + decimal(global_name as nat)) == Some(global_name),
        id_name("wl:"@ + decimal(global_name as nat)) == Some(global_name),
        id_name(decimal(global_name as nat)) == Some(global_name),
{
    display_ids_are_read_back(global_name);
    decimal_is_read_back(global_name as nat, u32::MAX as nat);
    let digits = decimal(global_name as nat);
    crate::text::decimals_are_digits(global_name as nat);
    reveal_strlit("wayland:");
    reveal_strlit("wl:");
    let short = "wl:"@ + digits;
    assert(short.take(3) =~= "wl:"@);
    assert(short.skip(3) =~= digits);
    assert(!begins_with(short, "wayland:"@)) by {
        if begins_with(short, "wayland:"@) {
            assert(short.take(8)[1] == short[1]);
        }
    }
    assert(!begins_with(digits, "wayland:"@)) by {
        if begins_with(digits, "wayland:"@) {
            assert(digits.take(8)[0] == digits[0]);
        }
    }
    assert(!begins_with(digits, "wl:"@)) by {
        if begins_with(digits, "wl:"@) {
            assert(digits.take(3)[0] == digits[0]);
        }
    }
}

/// How many of the globals are outputs.
pub open spec fn output_count(globals: Seq<Global>) -> nat
    decreases globals.len(),
{
    if globals.len() == 0 {
        0
    } else {
        output_count(globals.drop_last()) + if globals.last().interface@ == "wl_output"@ {
            1nat
        } else {
            0nat
        }
    }
}

/// Every output among the globals is listed once.
pub proof fn every_output_is_listed(globals: Seq<Global>)
    ensures
        outputs_of(globals).len() == output_count(globals),
    decreases globals.len(),
{
    if globals.len() > 0 {
        every_output_is_listed(globals.drop_last());
        let before = outputs_of(globals.drop_last());
        let last = globals.last();
        lemma_placed_len(before, OutputGlobal { name: last.name, version: last.version });
    }
}

proof fn lemma_placed_len(list: Seq<OutputGlobal>, output: OutputGlobal)
    ensures
        placed(list, output).len() == list.len() + 1,
    decreases list.len(),
{
    if list.len() > 0 {
        lemma_placed_len(list.drop_last(), output);
    }
}

proof fn lemma_output_named(outputs: Seq<OutputGlobal>, name: u32)
    ensures
        match output_named(outputs, name) {
            Some(o) => o.name == name && outputs.contains(o),
            None => forall|i: int| 0 <= i < outputs.len() ==> (#[trigger] outputs[i]).name != name,
        },
    decreases outputs.len(),
{
    if outputs.len() > 0 {
        if outputs[0].name == name {
            assert(outputs.contains(outputs[0]));
        } else {
            let rest = outputs.skip(1);
            lemma_output_named(rest, name);
            match output_named(rest, name) {
                Some(o) => {
                    let i = choose|i: int| 0 <= i < rest.len() && rest[i] == o;
                    assert(outputs[i + 1] == o);
                },
                None => {
                    assert forall|i: int| 0 <= i < outputs.len() implies (
                    #[trigger] outputs[i]).name != name by {
                        if i > 0 {
                            assert(rest[i - 1] == outputs[i]);
                        }
                    }
                },
            }
        }
    }
}

/// An output is selected by the name in its identifier; where no output has that name, or
/// the identifier holds none, there is an error. Without an identifier the first output is
/// selected.
pub proof fn outputs_are_selected_by_name(outputs: Seq<OutputGlobal>, id: Seq<char>)
    ensures
        match selected(outputs, Some(id)) {
            Ok(o) => outputs.contains(o) && id_name(id) == Some(o.name),
            Err(_) => outputs.len() == 0 || id_name(id) is None || forall|i: int|
                0 <= i < outputs.len() ==> Some((#[trigger] outputs[i]).name) != id_name(id),
        },
        outputs.len() > 0 ==> selected(outputs, None) == Ok::<OutputGlobal, Seq<char>>(outputs[0]),
        outputs.len() == 0 ==> selected(outputs, None) is Err,
{
    if let Some(name) = id_name(id) {
        lemma_output_named(outputs, name);
    }
}

/// What the compositor tells of an output is kept: maker and model, the name, the
/// description, and the size of a mode that has one. Nothing else changes.
pub proof fn outputs_are_as_told(
    output: DiscoveredOutputView,
    make: Seq<char>,
    model: Seq<char>,
    width: i32,
    height: i32,
)
    ensures
        ({
            let after = output.told(OutputEventView::Geometry { make, model });
            &&& after.make == Some(make) && after.model == Some(model)
            &&& after.name == output.name && after.description == output.description && after.width
                == output.width && after.height == output.height && after.global_name
                == output.global_name && after.index == output.index
        }),
        ({
            let after = output.told(OutputEventView::Mode { width, height });
            let sized = width > 0 && height > 0;
            &&& sized ==> after.width == width && after.height == height
            &&& !sized ==> after.width == output.width && after.height == output.height
            &&& after.name == output.name && after.description == output.description && after.make
                == output.make && after.model == output.model && after.global_name
                == output.global_name && after.index == output.index
        }),
        ({
            let after = output.told(OutputEventView::Name(make));
            after == (DiscoveredOutputView { name: Some(make), ..output })
        }),
        ({
            let after = output.told(OutputEventView::Description(make));
            after == (DiscoveredOutputView { description: Some(make), ..output })
        }),
        output.told(OutputEventView::Other) == output,
{
}

/// Maker and model are shown with one space between them, each without the white space
/// around it, and one alone where the other is missing or blank.
pub proof fn makers_and_models_are_joined(make: Seq<char>, model: Seq<char>)
    ensures
        trimmed(make).len() > 0 && trimmed(model).len() > 0 ==> made_by(Some(make), Some(model))
            == Some(trimmed(make) + " "@ + trimmed(model)),
        trimmed(make).len() > 0 && trimmed(model).len() == 0 ==> made_by(Some(make), Some(model))
            == Some(trimmed(make)),
        trimmed(make).len() == 0 && trimmed(model).len() > 0 ==> made_by(Some(make), Some(model))
            == Some(trimmed(model)),
        trimmed(make).len() == 0 && trimmed(model).len() == 0 ==> made_by(Some(make), Some(model))
            is None,
        trimmed(make).len() > 0 ==> made_by(Some(make), None) == Some(trimmed(make)),
        trimmed(model).len() > 0 ==> made_by(None, Some(model)) == Some(trimmed(model)),
        made_by(None, None) is None,
{
}

/// A display has the name of its output or, failing that, its maker and model or its
/// number, and the description of its output or, failing that, its maker and model, but
/// never its name again as a description. Its size is that of the output.
pub proof fn displays_are_named_after_their_outputs(output: DiscoveredOutputView)
    ensures
        ({
            let shown = output.display();
            let made = made_by(output.make, output.model);
            &&& output.name matches Some(name) ==> shown.name == name
            &&& output.name is None && made is Some ==> shown.name == made->0
            &&& output.name is None && made is None ==> shown.name == "wayland-output-"@ + decimal(
                output.global_name as nat,
            )
            &&& shown.description != Some(shown.name)
            &&& shown.description is None || shown.description == output.description
                || shown.description == made
            &&& output.description matches Some(text) ==> text != shown.name ==> shown.description
                == Some(text)
            &&& output.description is None && made is Some && made->0 != shown.name
                ==> shown.description == made
            &&& shown.width == output.width && shown.height == output.height && shown.index
                == output.index
            &&& shown.id == "wayland:"@ + decimal(output.global_name as nat)
        }),
{
}

/// Outputs with names of their own are asked about in their order, each under its place.
pub proof fn outputs_are_asked_about_in_order(outputs: Seq<OutputGlobal>)
    requires
        outputs.len() <= u32::MAX,
        forall|i: int, j: int| 0 <= i < j < outputs.len() ==> outputs[i].name < outputs[j].name,
    ensures
        asked(outputs).len() == outputs.len(),
        forall|i: int|
            0 <= i < outputs.len() ==> (#[trigger] asked(outputs)[i]).global_name
                == outputs[i].name && asked(outputs)[i].index == i && asked(outputs)[i].name is None
                && asked(outputs)[i].description is None && asked(outputs)[i].make is None
                && asked(outputs)[i].model is None && asked(outputs)[i].width == 0
                && asked(outputs)[i].height == 0,
    decreases outputs.len(),
{
    if outputs.len() > 0 {
        let fewer = outputs.drop_last();
        outputs_are_asked_about_in_order(fewer);
        let before = asked(fewer);
        if before.len() > 0 {
            assert(before.last() == before[before.len() - 1]);
            assert(outputs[outputs.len() - 2].name < outputs[outputs.len() - 1].name);
        }
        assert forall|i: int| 0 <= i < outputs.len() implies (
        #[trigger] asked(outputs)[i]).global_name == outputs[i].name && asked(outputs)[i].index == i
            && asked(outputs)[i].name is None && asked(outputs)[i].description is None
            && asked(outputs)[i].make is None && asked(outputs)[i].model is None
            && asked(outputs)[i].width == 0 && asked(outputs)[i].height == 0 by {
            if i < before.len() {
                assert(asked(outputs)[i] == before[i]);
            }
        }
    }
}

/// What is told of one output changes no other: of outputs with names of their own, only
/// the one with the name is told.
pub proof fn only_the_named_output_is_told(
    outputs: Seq<DiscoveredOutputView>,
    global_name: u32,
    event: OutputEventView,
    i: int,
)
    requires
        forall|a: int, b: int|
            0 <= a < b < outputs.len() ==> outputs[a].global_name != outputs[b].global_name,
        0 <= i < outputs.len(),
    ensures
        told_to(outputs, global_name, event).len() == outputs.len(),
        told_to(outputs, global_name, event)[i] == if outputs[i].global_name == global_name {
            outputs[i].told(event)
        } else {
            outputs[i]
        },
    decreases outputs.len(),
{
    let rest = outputs.skip(1);
    assert forall|a: int, b: int| 0 <= a < b < rest.len() implies rest[a].global_name
        != rest[b].global_name by {
        assert(rest[a] == outputs[a + 1] && rest[b] == outputs[b + 1]);
    }
    if outputs[0].global_name == global_name {
        if i > 0 {
            assert(outputs[0].global_name != outputs[i].global_name);
        }
    } else if i > 0 {
        only_the_named_output_is_told(rest, global_name, event, i - 1);
    } else if rest.len() > 0 {
        only_the_named_output_is_told(rest, global_name, event, 0);
    }
}

} // verus!
