//! The command line.

use crate::streamd_client::control::{ClientOptions, ClientOptionsView};
use crate::text::{begins_with, starts_with, strip_prefix};
use crate::yin_yang_proto::packets::opt_view;
use vstd::prelude::*;
use vstd::string::StringExecFns;

verus! {

/// An argument of the command line.
#[derive(Debug)]
pub struct Arg {
    pub text: String,
    /// The text is the address of a server.
    pub is_address: bool,
}

/// What a command line asks for.
#[derive(Debug)]
pub enum Parsed {
    /// How the program is used.
    Help,
    /// A session with the server at the address at this place of the command line,
    /// or at the default address.
    Run { address: Option<usize>, options: ClientOptions },
}

pub enum ParsedView {
    Help,
    Run { address: Option<nat>, options: ClientOptionsView },
}

impl View for Parsed {
    type V = ParsedView;

    open spec fn view(&self) -> ParsedView {
        match self {
            Parsed::Help => ParsedView::Help,
            Parsed::Run { address, options } => ParsedView::Run {
                address: match address {
                    Some(i) => Some(*i as nat),
                    None => None,
                },
                options: options@,
            },
        }
    }
}

/// What is wrong with a command line, and at which place.
#[derive(Clone, Copy, Debug, PartialEq, Eq, Structural)]
pub enum ArgsError {
    /// `--display` is the last argument.
    DisplayWithoutValue,
    UnknownFlag(usize),
    BadAddress(usize),
    ExtraArgument(usize),
}

/// The rest of the command line from place `i` on, after `address` and `options`
/// have been read.
pub open spec fn read_from(
    args: Seq<Arg>,
    i: nat,
    address: Option<nat>,
    options: ClientOptionsView,
) -> Result<ParsedView, ArgsError>
    decreases args.len() - i,
{
    if i >= args.len() {
        Ok(ParsedView::Run { address, options })
    } else {
        let text = args[i as int].text@;
        if text == "--help"@ || text == "-h"@ {
            Ok(ParsedView::Help)
        } else if text == "--list-displays"@ {
            read_from(args, i + 1, address, ClientOptionsView { list_displays: true, ..options })
        } else if text == "--display"@ {
            if i + 1 >= args.len() {
                Err(ArgsError::DisplayWithoutValue)
            } else {
                read_from(
                    args,
                    i + 2,
                    address,
                    ClientOptionsView {
                        display_selector: Some(args[i as int + 1].text@),
                        ..options
                    },
                )
            }
        } else if begins_with(text, "--display="@) {
            read_from(
                args,
                i + 1,
                address,
                ClientOptionsView {
                    display_selector: Some(text.skip("--display="@.len() as int)),
                    ..options
                },
            )
        } else if begins_with(text, "-"@) {
            Err(ArgsError::UnknownFlag(i as usize))
        } else if address is None {
            if args[i as int].is_address {
                read_from(args, i + 1, Some(i), options)
            } else {
                Err(ArgsError::BadAddress(i as usize))
            }
        } else {
            Err(ArgsError::ExtraArgument(i as usize))
        }
    }
}

/// What a command line asks for.
pub open spec fn reading(args: Seq<Arg>) -> Result<ParsedView, ArgsError> {
    read_from(
        args,
        0,
        None,
        ClientOptionsView { display_selector: None, list_displays: false },
    )
}

fn is_text(arg: &String, text: &str) -> (r: bool)
    ensures
        r == (arg@ == text@),
{
    *arg == String::from_str(text)
}

/// Reads the arguments behind the program's name.
pub fn parse_args(args: &Vec<Arg>) -> (r: Result<Parsed, ArgsError>)
    ensures
        match reading(args@) {
            Ok(parsed) => r matches Ok(p) && p@ == parsed,
            Err(error) => r == Err::<Parsed, ArgsError>(error),
        },
{
    let mut address: Option<usize> = None;
    let mut selector: Option<String> = None;
    let mut list_displays = false;
    let mut i: usize = 0;
    while i < args.len()
        invariant
            i <= args@.len(),
            reading(args@) == read_from(
                args@,
                i as nat,
                match address {
                    Some(a) => Some(a as nat),
                    None => None,
                },
                ClientOptionsView { display_selector: opt_view(selector), list_displays },
            ),
        decreases args@.len() - i,
    {
        let arg = &args[i].text;
        if is_text(arg, "--help") || is_text(arg, "-h") {
            return Ok(Parsed::Help);
        }
        if is_text(arg, "--list-displays") {
            list_displays = true;
        } else if is_text(arg, "--display") {
            if i + 1 >= args.len() {
                return Err(ArgsError::DisplayWithoutValue);
            }
            selector = Some(args[i + 1].text.clone());
            i = i + 1;
        } else if let Some(rest) = strip_prefix(arg.as_str(), "--display=") {
            selector = Some(String::from_str(rest));
        } else if starts_with(arg.as_str(), "-") {
            return Err(ArgsError::UnknownFlag(i));
        } else if address.is_none() {
            if !args[i].is_address {
                return Err(ArgsError::BadAddress(i));
            }
            address = Some(i);
        } else {
            return Err(ArgsError::ExtraArgument(i));
        }
        i = i + 1;
    }
    Ok(Parsed::Run { address, options: ClientOptions { display_selector: selector, list_displays } })
}

// ---------------------------------------------------------------------------
// Laws
// ---------------------------------------------------------------------------

/// What an argument asks for, wherever it stands: how the program is used; a list of the
/// displays; or a display, named behind the flag or by the next argument. The last display
/// named counts.
pub proof fn flags_are_read_where_they_stand(
    args: Seq<Arg>,
    i: nat,
    address: Option<nat>,
    options: ClientOptionsView,
    name: Seq<char>,
)
    requires
        i < args.len(),
    ensures
        ({
            let text = args[i as int].text@;
            let named = ClientOptionsView { display_selector: Some(name), ..options };
            &&& text == "--help"@ || text == "-h"@ ==> read_from(args, i, address, options) == Ok::<
                ParsedView,
                ArgsError,
            >(ParsedView::Help)
            &&& text == "--list-displays"@ ==> read_from(args, i, address, options) == read_from(
                args,
                i + 1,
                address,
                ClientOptionsView { list_displays: true, ..options },
            )
            &&& text == "--display="@ + name ==> read_from(args, i, address, options) == read_from(
                args,
                i + 1,
                address,
                named,
            )
            &&& text == "--display"@ && i + 1 < args.len() && args[i as int + 1].text@ == name ==> read_from(
                args,
                i,
                address,
                options,
            ) == read_from(args, i + 2, address, named)
            &&& text == "--display"@ && i + 1 == args.len() ==> read_from(args, i, address, options)
                == Err::<ParsedView, ArgsError>(ArgsError::DisplayWithoutValue)
        }),
{
    reveal_strlit("--help");
    reveal_strlit("-h");
    reveal_strlit("--list-displays");
    reveal_strlit("--display");
    reveal_strlit("--display=");
    let text = args[i as int].text@;
    assert("--display"@.len() == 9 && "--help"@.len() == 6 && "-h"@.len() == 2);
    if text == "--list-displays"@ {
        assert(text.len() == 15);
    }
    if text == "--display="@ + name {
        crate::text::prefixes_stand_at_the_front("--display="@, name, text);
        assert(text.skip(10) =~= name);
        assert(text[9] == '=');
        assert(text.len() >= 10);
        if text == "--list-displays"@ {
            assert(text[2] == 'l');
        }
    }
}

/// What does not begin with a dash is the address of the server, once. Another flag, what
/// is no address and a second address are errors, each at its place. At the end of the
/// arguments the session is run with what was read.
pub proof fn other_arguments_are_addresses(
    args: Seq<Arg>,
    i: nat,
    address: Option<nat>,
    options: ClientOptionsView,
)
    requires
        args.len() <= usize::MAX,
    ensures
        i >= args.len() ==> read_from(args, i, address, options) == Ok::<ParsedView, ArgsError>(
            ParsedView::Run { address, options },
        ),
        i < args.len() && !begins_with(args[i as int].text@, "-"@) ==> read_from(
            args,
            i,
            address,
            options,
        ) == if address is Some {
            Err(ArgsError::ExtraArgument(i as usize))
        } else if args[i as int].is_address {
            read_from(args, i + 1, Some(i), options)
        } else {
            Err(ArgsError::BadAddress(i as usize))
        },
        i < args.len() && begins_with(args[i as int].text@, "-"@) && !begins_with(
            args[i as int].text@,
            "--display"@,
        ) && args[i as int].text@ != "--help"@ && args[i as int].text@ != "-h"@
            && args[i as int].text@ != "--list-displays"@ ==> read_from(args, i, address, options)
            == Err::<ParsedView, ArgsError>(ArgsError::UnknownFlag(i as usize)),
{
    reveal_strlit("--help");
    reveal_strlit("-h");
    reveal_strlit("--list-displays");
    reveal_strlit("--display");
    reveal_strlit("--display=");
    reveal_strlit("-");
    if i < args.len() {
        let text = args[i as int].text@;
        if begins_with(text, "--display="@) {
            assert(text.take(10)[0] == text[0]);
            assert(text.take(1) =~= "-"@);
            assert(text.take(9) =~= "--display"@) by {
                assert(text.take(10).take(9) =~= text.take(9));
                assert("--display="@.take(9) =~= "--display"@);
            }
        }
        if text == "--help"@ || text == "-h"@ || text == "--list-displays"@ || text == "--display"@ {
            assert(text[0] == '-');
            assert(text.take(1) =~= "-"@);
            if text == "--display"@ {
                assert(text.take(9) =~= "--display"@);
            }
        }
    }
}

/// A command line is read from its start, with no address, no display and no wish for a
/// list.
pub proof fn command_lines_are_read_from_the_start(args: Seq<Arg>)
    ensures
        reading(args) == read_from(
            args,
            0,
            None,
            ClientOptionsView { display_selector: None, list_displays: false },
        ),
        args.len() == 0 ==> reading(args) == Ok::<ParsedView, ArgsError>(
            ParsedView::Run {
                address: None,
                options: ClientOptionsView { display_selector: None, list_displays: false },
            },
        ),
{
}

} // verus!
