use crate::app::View;
use crate::date::{parse_iso_date, parse_iso_date_text, Day};
use crate::format::push_str;
use crate::time::now;
use vstd::prelude::*;
use vstd::view::View as _;

verus! {

/// How the program was asked to run.
#[derive(Debug)]
pub struct Options {
    /// Use the built-in sample calendar.
    pub demo: bool,
    /// Log in detail.
    pub debug: bool,
    /// Check the setup instead of starting the interface.
    pub doctor: bool,
    /// The day to start on.
    pub date: Day,
    /// The view to start in, instead of the configured one.
    pub view: Option<View>,
    /// The configuration file to use, instead of the default one.
    pub config: Option<String>,
}

/// What the command line asks for.
#[derive(Debug)]
pub enum Invocation {
    /// Start with these options.
    Run(Options),
    /// Print the usage.
    Help,
    /// Print the version.
    Version,
}

/// The options as plain values.
pub struct OptionsModel {
    pub demo: bool,
    pub debug: bool,
    pub doctor: bool,
    pub date: int,
    pub view: Option<View>,
    pub config: Option<Seq<char>>,
}

/// What the command line asks for, as plain values.
pub enum InvocationModel {
    Run(OptionsModel),
    Help,
    Version,
}

impl Options {
    pub open spec fn model(&self) -> OptionsModel {
        OptionsModel {
            demo: self.demo,
            debug: self.debug,
            doctor: self.doctor,
            date: self.date.n as int,
            view: self.view,
            config: match self.config {
                Some(c) => Some(c@),
                None => None,
            },
        }
    }
}

impl Invocation {
    pub open spec fn model(&self) -> InvocationModel {
        match self {
            Invocation::Run(o) => InvocationModel::Run(o.model()),
            Invocation::Help => InvocationModel::Help,
            Invocation::Version => InvocationModel::Version,
        }
    }
}

/// The view a command-line value names.
pub open spec fn view_value(v: Seq<char>) -> Option<View> {
    if v == "agenda"@ {
        Some(View::Agenda)
    } else if v == "week"@ {
        Some(View::Week)
    } else if v == "month"@ {
        Some(View::Month)
    } else {
        None
    }
}

/// Reading the arguments from index `i` on, with the options read so far: flags set options,
/// `--date`, `--view` and `--config` take the next argument as their value, `-h`/`--help` and
/// `-V`/`--version` stop at once, and anything else is an error.
pub open spec fn parse_from(args: Seq<Seq<char>>, i: int, o: OptionsModel) -> Result<InvocationModel, Seq<char>>
    decreases args.len() - i,
{
    if i >= args.len() || i < 0 {
        Ok(InvocationModel::Run(o))
    } else {
        let a = args[i];
        if a == "--demo"@ {
            parse_from(args, i + 1, OptionsModel { demo: true, ..o })
        } else if a == "--debug"@ {
            parse_from(args, i + 1, OptionsModel { debug: true, ..o })
        } else if a == "doctor"@ {
            parse_from(args, i + 1, OptionsModel { doctor: true, ..o })
        } else if a == "--date"@ {
            if i + 1 >= args.len() {
                Err("--date requires YYYY-MM-DD"@)
            } else {
                match parse_iso_date_text(args[i + 1]) {
                    Some(d) => parse_from(args, i + 2, OptionsModel { date: d, ..o }),
                    None => Err("invalid date `"@ + args[i + 1] + "`; expected YYYY-MM-DD"@),
                }
            }
        } else if a == "--view"@ {
            if i + 1 >= args.len() {
                Err("--view requires agenda, week, or month"@)
            } else {
                match view_value(args[i + 1]) {
                    Some(v) => parse_from(args, i + 2, OptionsModel { view: Some(v), ..o }),
                    None => Err("invalid view `"@ + args[i + 1] + "`; expected agenda, week, or month"@),
                }
            }
        } else if a == "--config"@ {
            if i + 1 >= args.len() {
                Err("--config requires a path"@)
            } else {
                parse_from(args, i + 2, OptionsModel { config: Some(args[i + 1]), ..o })
            }
        } else if a == "-h"@ || a == "--help"@ {
            Ok(InvocationModel::Help)
        } else if a == "-V"@ || a == "--version"@ {
            Ok(InvocationModel::Version)
        } else {
            Err("unknown argument `"@ + a + "`; use --help"@)
        }
    }
}

/// The texts of the arguments.
pub open spec fn arg_views(args: Seq<String>) -> Seq<Seq<char>> {
    args.map_values(|a: String| a@)
}

/// The options at the start: nothing set, starting on `today`.
pub open spec fn default_options(today: int) -> OptionsModel {
    OptionsModel { demo: false, debug: false, doctor: false, date: today, view: None, config: None }
}

/// Whether a text equals a literal.
fn is_arg(a: &String, literal: &str) -> (r: bool)
    ensures
        r == (a@ == literal@),
{
    *a == String::from_str(literal)
}

/// `prefix`, the value and `suffix` as one text.
fn quoted(prefix: &str, value: &String, suffix: &str) -> (r: String)
    ensures
        r@ == prefix@ + value@ + suffix@,
{
    let mut s = String::new();
    push_str(&mut s, prefix);
    push_str(&mut s, value.as_str());
    push_str(&mut s, suffix);
    assert(s@ =~= prefix@ + value@ + suffix@);
    s
}

/// Reads the command-line arguments (without the program's name), starting on `today`
/// unless `--date` says otherwise (see `parse_from`).
pub fn parse_options_at(args: &Vec<String>, today: Day) -> (r: Result<Invocation, String>)
    requires
        today.wf(),
    ensures
        match parse_from(arg_views(args@), 0, default_options(today.n as int)) {
            Ok(m) => r matches Ok(inv) && inv.model() == m,
            Err(e) => r matches Err(msg) && msg@ == e,
        },
{
    let ghost av = arg_views(args@);
    let mut o = Options { demo: false, debug: false, doctor: false, date: today, view: None, config: None };
    let mut i: usize = 0;
    assert(o.model() == default_options(today.n as int));
    while i < args.len()
        invariant
            i <= args.len(),
            av == arg_views(args@),
            parse_from(av, i as int, o.model()) == parse_from(av, 0, default_options(today.n as int)),
        decreases args.len() - i,
    {
        let a = &args[i];
        assert(av[i as int] == a@);
        if is_arg(a, "--demo") {
            o.demo = true;
            i = i + 1;
        } else if is_arg(a, "--debug") {
            o.debug = true;
            i = i + 1;
        } else if is_arg(a, "doctor") {
            o.doctor = true;
            i = i + 1;
        } else if is_arg(a, "--date") {
            if i + 1 >= args.len() {
                return Err(String::from_str("--date requires YYYY-MM-DD"));
            }
            let value = &args[i + 1];
            assert(av[i + 1] == value@);
            match parse_iso_date(value.as_str()) {
                Some(d) => o.date = d,
                None => return Err(quoted("invalid date `", value, "`; expected YYYY-MM-DD")),
            }
            i = i + 2;
        } else if is_arg(a, "--view") {
            if i + 1 >= args.len() {
                return Err(String::from_str("--view requires agenda, week, or month"));
            }
            let value = &args[i + 1];
            assert(av[i + 1] == value@);
            let view = if is_arg(value, "agenda") {
                View::Agenda
            } else if is_arg(value, "week") {
                View::Week
            } else if is_arg(value, "month") {
                View::Month
            } else {
                return Err(quoted("invalid view `", value, "`; expected agenda, week, or month"));
            };
            o.view = Some(view);
            i = i + 2;
        } else if is_arg(a, "--config") {
            if i + 1 >= args.len() {
                return Err(String::from_str("--config requires a path"));
            }
            let value = &args[i + 1];
            assert(av[i + 1] == value@);
            o.config = Some(value.clone());
            i = i + 2;
        } else if is_arg(a, "-h") || is_arg(a, "--help") {
            return Ok(Invocation::Help);
        } else if is_arg(a, "-V") || is_arg(a, "--version") {
            return Ok(Invocation::Version);
        } else {
            return Err(quoted("unknown argument `", a, "`; use --help"));
        }
    }
    Ok(Invocation::Run(o))
}

/// Reads the command-line arguments, starting on the current local date unless `--date` says
/// otherwise (see `parse_options_at`).
pub fn parse_options(args: &Vec<String>) -> (r: Result<Invocation, String>)
    ensures
        exists|today: Day|
            today.wf() && match parse_from(arg_views(args@), 0, default_options(today.n as int)) {
                Ok(m) => r matches Ok(inv) && inv.model() == m,
                Err(e) => r matches Err(msg) && msg@ == e,
            },
{
    let today = now().day;
    parse_options_at(args, today)
}

} // verus!
