//! What every command line asks for, word by word.
use vstd::prelude::*;

use crate::cli::{
    config_file, config_flag, default_path, earlier_arguments_do_not_matter, opt_text,
    planned, texts,
};
use crate::cli::{Action, ActionView, Plan, PlanView};

verus! {

/// The words that the command line knows, in the order of their lengths.
pub open spec fn known(word: Seq<char>) -> bool {
    ||| word == "-h"@
    ||| word == "-V"@
    ||| word == "--fps"@
    ||| word == "--gif"@
    ||| word == "--help"@
    ||| word == "--shot"@
    ||| word == "--color"@
    ||| word == "--speed"@
    ||| word == "--config"@
    ||| word == "--charset"@
    ||| word == "--version"@
    ||| word == "--font-size"@
}

/// No word that the command line knows is the same as another: they differ in length, or in the
/// first letter after the dashes.
proof fn words_differ()
    ensures
        "-h"@.len() == 2,
        "--help"@.len() == 6,
        "-V"@.len() == 2,
        "--version"@.len() == 9,
        "--config"@.len() == 8,
        "--shot"@.len() == 6,
        "--gif"@.len() == 5,
        "--fps"@.len() == 5,
        "--font-size"@.len() == 11,
        "--speed"@.len() == 7,
        "--color"@.len() == 7,
        "--charset"@.len() == 9,
        "-h"@[1] == 'h',
        "-V"@[1] == 'V',
        "--gif"@[2] == 'g',
        "--fps"@[2] == 'f',
        "--help"@[2] == 'h',
        "--shot"@[2] == 's',
        "--speed"@[2] == 's',
        "--color"@[2] == 'c',
        "--version"@[2] == 'v',
        "--charset"@[2] == 'c',
{
    reveal_strlit("-h");
    reveal_strlit("--help");
    reveal_strlit("-V");
    reveal_strlit("--version");
    reveal_strlit("--config");
    reveal_strlit("--shot");
    reveal_strlit("--gif");
    reveal_strlit("--fps");
    reveal_strlit("--font-size");
    reveal_strlit("--speed");
    reveal_strlit("--color");
    reveal_strlit("--charset");
}

/// Whether a plan makes one setting and then what another plan asks for.
pub open spec fn sets(p: PlanView, key: Seq<char>, val: Seq<char>, after: PlanView) -> bool {
    &&& p.settings.len() == after.settings.len() + 1
    &&& p.settings[0] == (key, val)
    &&& forall|i: int|
        0 <= i < after.settings.len() ==> p.settings[i + 1] == #[trigger] after.settings[i]
    &&& p.action == after.action
}

/// Whether a plan makes no setting and ends in this action.
pub open spec fn only(p: PlanView, action: ActionView) -> bool {
    p.settings.len() == 0 && p.action == action
}

proof fn the_rest_of_the_line(
    word: Seq<char>,
    val: Seq<char>,
    rest: Seq<Seq<char>>,
    action: ActionView,
)
    ensures
        (seq![word, val] + rest)[0] == word,
        (seq![word, val] + rest)[1] == val,
        (seq![word, val] + rest).len() == rest.len() + 2,
        planned(seq![word, val] + rest, 2, action) == planned(rest, 0, action),
{
    let args = seq![word, val] + rest;
    earlier_arguments_do_not_matter(args, 2, 0, action);
    assert(args.skip(2) =~= rest);
}

/// A leading `--config` and its value ask for nothing themselves, and without a value it ends the
/// line.
pub proof fn configuration_files_ask_for_nothing(
    file: Seq<char>,
    rest: Seq<Seq<char>>,
    action: ActionView,
)
    ensures
        planned(seq!["--config"@, file] + rest, 0, action) == planned(rest, 0, action),
        only(planned(seq!["--config"@], 0, action), action),
{
    words_differ();
    the_rest_of_the_line("--config"@, file, rest, action);
    reveal_with_fuel(planned, 2);
}

/// A line without words asks for what was asked for before it.
pub proof fn empty_lines_ask_for_nothing(action: ActionView)
    ensures
        only(planned(Seq::empty(), 0, action), action),
{
}

/// Each of the five flags of a setting makes that setting, with the word after it as it stands, and
/// leaves the rest of the line to be read.
pub proof fn flags_make_their_settings(
    val: Seq<char>,
    rest: Seq<Seq<char>>,
    action: ActionView,
)
    ensures
        sets(
            planned(seq!["--fps"@, val] + rest, 0, action),
            "fps"@,
            val,
            planned(rest, 0, action),
        ),
        sets(
            planned(seq!["--font-size"@, val] + rest, 0, action),
            "font_size"@,
            val,
            planned(rest, 0, action),
        ),
        sets(
            planned(seq!["--speed"@, val] + rest, 0, action),
            "speed"@,
            val,
            planned(rest, 0, action),
        ),
        sets(
            planned(seq!["--color"@, val] + rest, 0, action),
            "color"@,
            val,
            planned(rest, 0, action),
        ),
        sets(
            planned(seq!["--charset"@, val] + rest, 0, action),
            "charset"@,
            val,
            planned(rest, 0, action),
        ),
{
    words_differ();
    the_rest_of_the_line("--fps"@, val, rest, action);
    the_rest_of_the_line("--font-size"@, val, rest, action);
    the_rest_of_the_line("--speed"@, val, rest, action);
    the_rest_of_the_line("--color"@, val, rest, action);
    the_rest_of_the_line("--charset"@, val, rest, action);
}

/// A picture asked for takes the place of what was asked for before it.
pub proof fn pictures_replace_the_action(
    path: Seq<char>,
    rest: Seq<Seq<char>>,
    action: ActionView,
)
    ensures
        planned(seq!["--shot"@, path] + rest, 0, action) == planned(
            rest,
            0,
            ActionView::Shot(path),
        ),
        planned(seq!["--gif"@, path] + rest, 0, action) == planned(rest, 0, ActionView::Gif(path)),
{
    words_differ();
    the_rest_of_the_line("--shot"@, path, rest, ActionView::Shot(path));
    the_rest_of_the_line("--gif"@, path, rest, ActionView::Gif(path));
}

/// Help and version end the line, whatever was asked for before them and whatever follows.
pub proof fn help_and_version_end_the_line(rest: Seq<Seq<char>>, action: ActionView)
    ensures
        only(planned(seq!["-h"@] + rest, 0, action), ActionView::Help),
        only(planned(seq!["--help"@] + rest, 0, action), ActionView::Help),
        only(planned(seq!["-V"@] + rest, 0, action), ActionView::Version),
        only(planned(seq!["--version"@] + rest, 0, action), ActionView::Version),
{
    words_differ();
    assert((seq!["-h"@] + rest)[0] == "-h"@);
    assert((seq!["--help"@] + rest)[0] == "--help"@);
    assert((seq!["-V"@] + rest)[0] == "-V"@);
    assert((seq!["--version"@] + rest)[0] == "--version"@);
}

/// A flag at the end of the line that wants a value stops the program with a message of its own.
pub proof fn flags_want_their_values(action: ActionView)
    ensures
        only(
            planned(seq!["--fps"@], 0, action),
            ActionView::Fail("--fps requires a number"@),
        ),
        only(
            planned(seq!["--font-size"@], 0, action),
            ActionView::Fail("--font-size requires a number"@),
        ),
        only(
            planned(seq!["--speed"@], 0, action),
            ActionView::Fail("--speed requires MIN-MAX"@),
        ),
        only(
            planned(seq!["--color"@], 0, action),
            ActionView::Fail("--color requires a value"@),
        ),
        only(
            planned(seq!["--charset"@], 0, action),
            ActionView::Fail("--charset requires a value"@),
        ),
        only(
            planned(seq!["--shot"@], 0, action),
            ActionView::Fail("--shot requires a file path"@),
        ),
        only(
            planned(seq!["--gif"@], 0, action),
            ActionView::Fail("--gif requires a file path"@),
        ),
{
    words_differ();
}

/// A word that the command line does not know stops the program with a message that names it.
pub proof fn unknown_words_are_named(word: Seq<char>, rest: Seq<Seq<char>>, action: ActionView)
    requires
        !known(word),
    ensures
        only(
            planned(seq![word] + rest, 0, action),
            ActionView::Fail("unknown argument '"@ + word + "'. Try --help."@),
        ),
{
    assert((seq![word] + rest)[0] == word);
}

/// A plan and a command line are seen whole: every setting with its key and its value, the action
/// with its text, and every word.
pub proof fn plans_are_seen_whole(p: Plan, args: Seq<String>)
    ensures
        p@.settings.len() == p.settings@.len(),
        forall|i: int|
            0 <= i < p.settings@.len() ==> #[trigger] p@.settings[i] == (
                p.settings@[i].key@,
                p.settings@[i].val@,
            ),
        p.action is Help <==> p@.action is Help,
        p.action is Version <==> p@.action is Version,
        p.action is Run <==> p@.action is Run,
        p.action matches Action::Fail(m) ==> p@.action == ActionView::Fail(m@),
        p.action matches Action::Shot(m) ==> p@.action == ActionView::Shot(m@),
        p.action matches Action::Gif(m) ==> p@.action == ActionView::Gif(m@),
        texts(args).len() == args.len(),
        forall|i: int| 0 <= i < args.len() ==> #[trigger] texts(args)[i] == args[i]@,
        opt_text(None) is None,
        forall|t: String| #[trigger] opt_text(Some(t)) == Some(t@),
{
}

/// The file named after the first `--config` is the one that is read.
pub proof fn the_first_configuration_file_is_read(
    args: Seq<Seq<char>>,
    i: int,
    xdg: Option<Seq<char>>,
    home: Option<Seq<char>>,
)
    requires
        0 <= i < args.len() - 1,
        args[i] == "--config"@,
        forall|j: int| 0 <= j < i ==> #[trigger] args[j] != "--config"@,
    ensures
        config_file(args, xdg, home) == Some(args[i + 1]),
{
    the_flag_is_found(args, 0, i);
}

proof fn the_flag_is_found(args: Seq<Seq<char>>, from: int, i: int)
    requires
        0 <= from <= i <= args.len(),
        i < args.len() ==> args[i] == "--config"@,
        forall|j: int| 0 <= j < i ==> #[trigger] args[j] != "--config"@,
    ensures
        config_flag(args, from) == i,
    decreases i - from,
{
    if from < i {
        the_flag_is_found(args, from + 1, i);
    }
}

/// Without a `--config` that has a value the default file is read. It is in `wlmatrix` under
/// `$XDG_CONFIG_HOME`, or under `.config` in `$HOME` where the first is not set or empty. Where
/// neither is set there is none.
pub proof fn the_default_file_is_read_otherwise(
    args: Seq<Seq<char>>,
    xdg: Option<Seq<char>>,
    home: Option<Seq<char>>,
    base: Seq<char>,
)
    requires
        forall|j: int| 0 <= j < args.len() - 1 ==> #[trigger] args[j] != "--config"@,
    ensures
        base.len() > 0 && base.last() != '/' && xdg == Some(base) ==> config_file(args, xdg, home) == Some(
            base + "/wlmatrix/config.toml"@,
        ),
        xdg == Some(base.push('/')) ==> config_file(args, xdg, home) == Some(
            base + "/wlmatrix/config.toml"@,
        ),
        xdg is None || xdg == Some(Seq::<char>::empty()) ==> {
            &&& base.len() > 0 && base.last() != '/' && home == Some(base) ==> config_file(args, xdg, home) == Some(
                base + "/.config/wlmatrix/config.toml"@,
            )
            &&& home == Some(base.push('/')) ==> config_file(args, xdg, home) == Some(
                base + "/.config/wlmatrix/config.toml"@,
            )
            &&& home == Some(Seq::<char>::empty()) ==> config_file(args, xdg, home) == Some(
                ".config/wlmatrix/config.toml"@,
            )
            &&& home is None ==> config_file(args, xdg, home) is None
        },
{
    let n = args.len() as int;
    if n > 0 && args[n - 1] == "--config"@ {
        the_flag_is_found(args, 0, n - 1);
    } else {
        the_flag_is_found(args, 0, n);
    }
    assert(config_file(args, xdg, home) == default_path(xdg, home));
    reveal_strlit("/wlmatrix/config.toml");
    reveal_strlit("wlmatrix/config.toml");
    reveal_strlit("/.config/wlmatrix/config.toml");
    reveal_strlit(".config/wlmatrix/config.toml");
    let slash = seq!['/'];
    assert(base.push('/') =~= base + slash);
    assert(slash + "wlmatrix/config.toml"@ =~= "/wlmatrix/config.toml"@);
    assert(slash + ".config/wlmatrix/config.toml"@ =~= "/.config/wlmatrix/config.toml"@);
    assert(base + slash + "wlmatrix/config.toml"@ =~= base + "/wlmatrix/config.toml"@);
    assert(base + slash + ".config/wlmatrix/config.toml"@ =~= base
        + "/.config/wlmatrix/config.toml"@);
    assert(Seq::<char>::empty() + ".config/wlmatrix/config.toml"@
        =~= ".config/wlmatrix/config.toml"@);
}

} // verus!
