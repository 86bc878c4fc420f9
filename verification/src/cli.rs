//! The command line, and where the configuration file is.
use vstd::prelude::*;

use crate::config::Setting;
use crate::config::setting_views;
use crate::text::same_text;

verus! {

/// The texts of a list of strings.
pub open spec fn texts(args: Seq<String>) -> Seq<Seq<char>> {
    args.map_values(|a: String| a@)
}

/// The argument after the one at `i`, the value of a flag: `i` moves on to it. Without one the
/// error is `label`.
pub fn next_val(args: &Vec<String>, i: &mut usize, label: &str) -> (r: Result<String, String>)
    requires
        *old(i) < usize::MAX,
    ensures
        *final(i) == *old(i) + 1,
        match r {
            Ok(v) => *final(i) < args@.len() && v@ == args@[*final(i) as int]@,
            Err(m) => *final(i) >= args@.len() && m@ == label@,
        },
{
    *i = *i + 1;
    if *i < args.len() {
        Ok(args[*i].clone())
    } else {
        Err(label.to_owned())
    }
}

/// A path joined to a base: with a `/` between, unless the base is empty or ends in one.
pub open spec fn joined(base: Seq<char>, rel: Seq<char>) -> Seq<char> {
    if base.len() == 0 || base.last() == '/' {
        base + rel
    } else {
        base + seq!['/'] + rel
    }
}

fn join(base: &str, rel: &str) -> (r: String)
    ensures
        r@ == joined(base@, rel@),
{
    let n: usize = base.unicode_len();
    let mut out = base.to_owned();
    if n > 0 && base.get_char(n - 1) != '/' {
        out.push('/');
        assert(out@ =~= base@ + seq!['/']);
    }
    out.append(rel);
    out
}

/// Where the configuration file is by default: under `$XDG_CONFIG_HOME` if that is set and not
/// empty, else under `.config` in `$HOME`.
pub open spec fn default_path(xdg: Option<Seq<char>>, home: Option<Seq<char>>) -> Option<Seq<char>> {
    match xdg {
        Some(x) if x.len() > 0 => Some(joined(x, "wlmatrix/config.toml"@)),
        _ => match home {
            Some(h) => Some(joined(h, ".config/wlmatrix/config.toml"@)),
            None => None,
        },
    }
}

/// The text of an optional string.
pub open spec fn opt_text(s: Option<String>) -> Option<Seq<char>> {
    match s {
        Some(t) => Some(t@),
        None => None,
    }
}

/// Where the configuration file is by default, given the values of `$XDG_CONFIG_HOME` and `$HOME`.
pub fn default_config_path(xdg: &Option<String>, home: &Option<String>) -> (r: Option<String>)
    ensures
        opt_text(r) == default_path(opt_text(*xdg), opt_text(*home)),
{
    if let Some(x) = xdg {
        if !x.as_str().is_empty() {
            return Some(join(x.as_str(), "wlmatrix/config.toml"));
        }
    }
    match home {
        Some(h) => Some(join(h.as_str(), ".config/wlmatrix/config.toml")),
        None => None,
    }
}

/// The place of the first `--config` from `i` on; the end if there is none.
pub open spec fn config_flag(args: Seq<Seq<char>>, i: int) -> int
    decreases args.len() - i,
{
    if i >= args.len() || args[i] == "--config"@ {
        i
    } else {
        config_flag(args, i + 1)
    }
}

/// The configuration file to read: what follows the first `--config`, else the default.
pub open spec fn config_file(
    args: Seq<Seq<char>>,
    xdg: Option<Seq<char>>,
    home: Option<Seq<char>>,
) -> Option<Seq<char>> {
    let i = config_flag(args, 0);
    if i < args.len() && i + 1 < args.len() {
        Some(args[i + 1])
    } else {
        default_path(xdg, home)
    }
}

/// The configuration file to read: what follows the first `--config`, else the default.
pub fn config_path(args: &Vec<String>, xdg: &Option<String>, home: &Option<String>) -> (r: Option<
    String,
>)
    ensures
        opt_text(r) == config_file(texts(args@), opt_text(*xdg), opt_text(*home)),
{
    let n: usize = args.len();
    let mut i: usize = 0;
    while i < n && !same_text(args[i].as_str(), "--config")
        invariant
            i <= n,
            n == args@.len(),
            config_flag(texts(args@), 0) == config_flag(texts(args@), i as int),
        decreases n - i,
    {
        assert(texts(args@)[i as int] == args@[i as int]@);
        i = i + 1;
    }
    if i < n && i + 1 < n {
        assert(texts(args@)[i as int] == args@[i as int]@);
        assert(texts(args@)[i + 1] == args@[i + 1]@);
        Some(args[i + 1].clone())
    } else {
        default_config_path(xdg, home)
    }
}

/// What the program is to do.
pub enum Action {
    /// Show the help text.
    Help,
    /// Show the version.
    Version,
    /// Stop with a message.
    Fail(String),
    /// Run the screensaver.
    Run,
    /// Write one frame to a PNG file.
    Shot(String),
    /// Write an animation to a GIF file.
    Gif(String),
}

/// An action with its text as a sequence of characters.
pub enum ActionView {
    Help,
    Version,
    Fail(Seq<char>),
    Run,
    Shot(Seq<char>),
    Gif(Seq<char>),
}

impl View for Action {
    type V = ActionView;

    open spec fn view(&self) -> ActionView {
        match self {
            Action::Help => ActionView::Help,
            Action::Version => ActionView::Version,
            Action::Fail(m) => ActionView::Fail(m@),
            Action::Run => ActionView::Run,
            Action::Shot(p) => ActionView::Shot(p@),
            Action::Gif(p) => ActionView::Gif(p@),
        }
    }
}

/// What the command line asks for: settings to apply in order, and then an action.
pub struct Plan {
    pub settings: Vec<Setting>,
    pub action: Action,
}

/// A plan with its texts as sequences of characters.
#[verifier::ext_equal]
pub struct PlanView {
    pub settings: Seq<(Seq<char>, Seq<char>)>,
    pub action: ActionView,
}

impl View for Plan {
    type V = PlanView;

    open spec fn view(&self) -> PlanView {
        PlanView { settings: setting_views(self.settings@), action: self.action@ }
    }
}

/// The key of the setting that a flag makes, and the error without a value.
pub open spec fn flag_setting(flag: Seq<char>) -> Option<(Seq<char>, Seq<char>)> {
    if flag == "--fps"@ {
        Some(("fps"@, "--fps requires a number"@))
    } else if flag == "--font-size"@ {
        Some(("font_size"@, "--font-size requires a number"@))
    } else if flag == "--speed"@ {
        Some(("speed"@, "--speed requires MIN-MAX"@))
    } else if flag == "--color"@ {
        Some(("color"@, "--color requires a value"@))
    } else if flag == "--charset"@ {
        Some(("charset"@, "--charset requires a value"@))
    } else {
        None
    }
}

/// A plan that fails.
pub open spec fn failed(message: Seq<char>) -> PlanView {
    PlanView { settings: Seq::empty(), action: ActionView::Fail(message) }
}

/// A plan with settings to apply first.
pub open spec fn preceded(settings: Seq<(Seq<char>, Seq<char>)>, p: PlanView) -> PlanView {
    PlanView { settings: settings + p.settings, action: p.action }
}

/// What the arguments from `i` on ask for, when those before them asked for `action`. Help and
/// version end the reading, and so does the first mistake.
pub open spec fn planned(args: Seq<Seq<char>>, i: int, action: ActionView) -> PlanView
    decreases args.len() + 1 - i,
{
    if i >= args.len() {
        PlanView { settings: Seq::empty(), action }
    } else if args[i] == "-h"@ || args[i] == "--help"@ {
        PlanView { settings: Seq::empty(), action: ActionView::Help }
    } else if args[i] == "-V"@ || args[i] == "--version"@ {
        PlanView { settings: Seq::empty(), action: ActionView::Version }
    } else if args[i] == "--config"@ {
        planned(args, i + 2, action)
    } else if args[i] == "--shot"@ {
        if i + 1 < args.len() {
            planned(args, i + 2, ActionView::Shot(args[i + 1]))
        } else {
            failed("--shot requires a file path"@)
        }
    } else if args[i] == "--gif"@ {
        if i + 1 < args.len() {
            planned(args, i + 2, ActionView::Gif(args[i + 1]))
        } else {
            failed("--gif requires a file path"@)
        }
    } else {
        match flag_setting(args[i]) {
            Some((key, label)) => if i + 1 < args.len() {
                preceded(seq![(key, args[i + 1])], planned(args, i + 2, action))
            } else {
                failed(label)
            },
            None => failed("unknown argument '"@ + args[i] + "'. Try --help."@),
        }
    }
}

fn setting_flag(flag: &str) -> (r: Option<(String, String)>)
    ensures
        match r {
            Some((k, l)) => flag_setting(flag@) == Some((k@, l@)),
            None => flag_setting(flag@) is None,
        },
{
    if same_text(flag, "--fps") {
        Some(("fps".to_owned(), "--fps requires a number".to_owned()))
    } else if same_text(flag, "--font-size") {
        Some(("font_size".to_owned(), "--font-size requires a number".to_owned()))
    } else if same_text(flag, "--speed") {
        Some(("speed".to_owned(), "--speed requires MIN-MAX".to_owned()))
    } else if same_text(flag, "--color") {
        Some(("color".to_owned(), "--color requires a value".to_owned()))
    } else if same_text(flag, "--charset") {
        Some(("charset".to_owned(), "--charset requires a value".to_owned()))
    } else {
        None
    }
}

/// Reads the command line.
pub fn plan(args: &Vec<String>) -> (r: Plan)
    ensures
        r@ == planned(texts(args@), 0, ActionView::Run),
{
    let ghost all = texts(args@);
    let n: usize = args.len();
    let mut settings: Vec<Setting> = Vec::new();
    let mut action: Action = Action::Run;
    let mut i: usize = 0;
    assert(setting_views(settings@) =~= Seq::empty());
    assert(preceded(setting_views(settings@), planned(all, 0, action@)) =~= planned(
        all,
        0,
        ActionView::Run,
    ));
    while i < n
        invariant
            n == args@.len(),
            all == texts(args@),
            preceded(setting_views(settings@), planned(all, i as int, action@)) == planned(
                all,
                0,
                ActionView::Run,
            ),
        decreases n - i,
    {
        let arg = args[i].as_str();
        let ghost at = i as int;
        let ghost done = setting_views(settings@);
        assert(done + Seq::<(Seq<char>, Seq<char>)>::empty() =~= done);
        assert(all[at] == arg@);
        if same_text(arg, "-h") || same_text(arg, "--help") {
            return Plan { settings, action: Action::Help };
        }
        if same_text(arg, "-V") || same_text(arg, "--version") {
            return Plan { settings, action: Action::Version };
        }
        if same_text(arg, "--config") {
            if i + 1 >= n {
                return Plan { settings, action };
            }
            i = i + 1;
        } else if same_text(arg, "--shot") {
            match next_val(args, &mut i, "--shot requires a file path") {
                Ok(p) => {
                    assert(all[at + 1] == p@);
                    action = Action::Shot(p);
                },
                Err(m) => {
                    return Plan { settings, action: Action::Fail(m) };
                },
            }
        } else if same_text(arg, "--gif") {
            match next_val(args, &mut i, "--gif requires a file path") {
                Ok(p) => {
                    assert(all[at + 1] == p@);
                    action = Action::Gif(p);
                },
                Err(m) => {
                    return Plan { settings, action: Action::Fail(m) };
                },
            }
        } else {
            match setting_flag(arg) {
                Some((key, label)) => match next_val(args, &mut i, label.as_str()) {
                    Ok(val) => {
                        assert(all[at + 1] == val@);
                        let ghost one = (key@, val@);
                        settings.push(Setting { key, val });
                        assert(setting_views(settings@) =~= done.push(one));
                        let ghost rest = planned(all, at + 2, action@);
                        assert(done.push(one) + rest.settings =~= done + (seq![one]
                            + rest.settings));
                    },
                    Err(m) => {
                        return Plan { settings, action: Action::Fail(m) };
                    },
                },
                None => {
                    let mut m = "unknown argument '".to_owned();
                    m.append(arg);
                    m.append("'. Try --help.");
                    return Plan { settings, action: Action::Fail(m) };
                },
            }
        }
        i = i + 1;
    }
    assert(setting_views(settings@) + Seq::<(Seq<char>, Seq<char>)>::empty() =~= setting_views(
        settings@,
    ));
    Plan { settings, action }
}

/// What the arguments from `i` on ask for does not depend on those before them.
pub(crate) proof fn earlier_arguments_do_not_matter(args: Seq<Seq<char>>, i: int, j: int, action: ActionView)
    requires
        0 <= i <= args.len(),
        0 <= j,
    ensures
        planned(args, i + j, action) == planned(args.skip(i), j, action),
    decreases args.len() + 1 - i - j,
{
    let rest = args.skip(i);
    if i + j < args.len() {
        assert(rest[j] == args[i + j]);
        if i + j + 1 < args.len() {
            assert(rest[j + 1] == args[i + j + 1]);
            earlier_arguments_do_not_matter(args, i, j + 2, action);
            earlier_arguments_do_not_matter(args, i, j + 2, ActionView::Shot(args[i + j + 1]));
            earlier_arguments_do_not_matter(args, i, j + 2, ActionView::Gif(args[i + j + 1]));
        } else {
            earlier_arguments_do_not_matter(args, i, j + 2, action);
        }
    }
}

/// A flag and its value make one setting, before all that the rest of the line asks for, so flags
/// are applied in the order in which they are given.
pub proof fn flags_are_read_in_order(
    flag: Seq<char>,
    val: Seq<char>,
    rest: Seq<Seq<char>>,
    action: ActionView,
)
    requires
        flag_setting(flag) is Some,
    ensures
        planned(seq![flag, val] + rest, 0, action) == preceded(
            seq![((flag_setting(flag)->Some_0).0, val)],
            planned(rest, 0, action),
        ),
{
    let args = seq![flag, val] + rest;
    flags_are_words();
    assert(args[0] == flag && args[1] == val);
    earlier_arguments_do_not_matter(args, 2, 0, action);
    assert(args.skip(2) =~= rest);
}

proof fn flags_are_words()
    ensures
        flag_setting("-h"@) is None,
        flag_setting("--help"@) is None,
        flag_setting("-V"@) is None,
        flag_setting("--version"@) is None,
        flag_setting("--config"@) is None,
        flag_setting("--shot"@) is None,
        flag_setting("--gif"@) is None,
{
    reveal_strlit("-h");
    reveal_strlit("--help");
    reveal_strlit("-V");
    reveal_strlit("--version");
    reveal_strlit("--config");
    reveal_strlit("--shot");
    reveal_strlit("--gif");
    reveal_strlit("--fps");
    reveal_strlit("--font-size");
    reveal_strlit("--speed");
    reveal_strlit("--color");
    reveal_strlit("--charset");
    assert("--fps"@[2] == 'f' && "--fps"@.len() == 5);
    assert("--font-size"@[2] == 'f' && "--speed"@[2] == 's' && "--color"@[2] == 'c');
    assert("--charset"@[2] == 'c' && "--charset"@.len() == 9 && "--color"@.len() == 7);
    assert("--speed"@.len() == 7 && "--font-size"@.len() == 11);
    assert("--config"@.len() == 8 && "--shot"@.len() == 6 && "--gif"@[2] == 'g');
    assert("--help"@[2] == 'h' && "--version"@[2] == 'v' && "-h"@.len() == 2 && "-V"@.len() == 2);
}

/// A file asked for last is the one that is written.
pub proof fn the_last_picture_wins(
    path: Seq<char>,
    rest: Seq<Seq<char>>,
    a: ActionView,
    b: ActionView,
)
    ensures
        planned(seq!["--shot"@, path] + rest, 0, a) == planned(seq!["--shot"@, path] + rest, 0, b),
        planned(seq!["--gif"@, path] + rest, 0, a) == planned(seq!["--gif"@, path] + rest, 0, b),
        planned(seq!["--shot"@, path], 0, a).action == ActionView::Shot(path),
        planned(seq!["--gif"@, path], 0, a).action == ActionView::Gif(path),
{
    reveal_strlit("-h");
    reveal_strlit("--help");
    reveal_strlit("-V");
    reveal_strlit("--version");
    reveal_strlit("--config");
    reveal_strlit("--shot");
    reveal_strlit("--gif");
    assert("--shot"@.len() == 6 && "--shot"@[2] == 's' && "--help"@[2] == 'h');
    assert("--gif"@.len() == 5 && "--gif"@[2] == 'g' && "--config"@.len() == 8);
    assert("-h"@.len() == 2 && "-V"@.len() == 2 && "--version"@.len() == 9);
    assert((seq!["--shot"@, path] + rest)[0] == "--shot"@);
    assert((seq!["--gif"@, path] + rest)[0] == "--gif"@);
    reveal_with_fuel(planned, 2);
}

} // verus!
