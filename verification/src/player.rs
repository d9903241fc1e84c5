//! The decisions of the player shell: mpv-style command-line options, the
//! options the bundled player starts with, which external player to start
//! and how, and the file name of a downloaded update.

use crate::search::{to_lowercase, unicode_lowercase};
use crate::text::{last_index_of, opt_string_view, utf8_len, chars_eq, chars_of, find_char, find_char_of, str_eq, string_of, trim, trimmed};
use vstd::prelude::*;

verus! {

/// Where, in characters, `arg` goes on after its first two bytes; `None`
/// where those bytes do not end at a character boundary (slicing there panics).
pub open spec fn after_two_bytes(arg: Seq<char>) -> Option<int> {
    if arg.len() >= 1 && utf8_len(arg[0]) == 2 {
        Some(1)
    } else if arg.len() >= 2 && utf8_len(arg[0]) == 1 && utf8_len(arg[1]) == 1 {
        Some(2)
    } else {
        None
    }
}

/// The option that an argument `--name=value`, `--no-name` or `--name`
/// stands for: `(name, value)`, `(name, "no")` or `(name, "yes")`. The first
/// two bytes (the dashes) are dropped; the name ends at the first `=`.
pub open spec fn option_of(arg: Seq<char>) -> (Seq<char>, Seq<char>) {
    let body = arg.subrange(after_two_bytes(arg)->0, arg.len() as int);
    let eq = find_char(body, 0, '=');
    if eq < body.len() {
        (body.subrange(0, eq), body.subrange(eq + 1, body.len() as int))
    } else if body.len() >= 3 && body.subrange(0, 3) == "no-"@ {
        (body.subrange(3, body.len() as int), "no"@)
    } else {
        (body, "yes"@)
    }
}

/// Turns an mpv-style `--name=value`, `--name` or `--no-name` argument into
/// an option pair.
pub fn parse_option(arg: &str) -> (r: (String, String))
    requires
        after_two_bytes(arg@) is Some,
    ensures
        (r.0@, r.1@) == option_of(arg@),
{
    proof {
        reveal_strlit("no-");
    }
    let a = chars_of(arg);
    let start: usize = if a.len() >= 1 && (a[0] as u32) >= 0x80 {
        1
    } else {
        2
    };
    let body = vstd::slice::slice_subrange(a.as_slice(), start, a.len());
    let eq = find_char_of(body, 0, '=');
    if eq < body.len() {
        (
            string_of(vstd::slice::slice_subrange(body, 0, eq)),
            string_of(vstd::slice::slice_subrange(body, eq + 1, body.len())),
        )
    } else if body.len() >= 3 && chars_eq(vstd::slice::slice_subrange(body, 0, 3), "no-") {
        (string_of(vstd::slice::slice_subrange(body, 3, body.len())), String::from_str("no"))
    } else {
        (string_of(body), String::from_str("yes"))
    }
}

/// The command line of the bundled player read so far: the options, the files
/// to play, and whether a `--` has ended the options.
pub ghost struct ArgsState {
    pub options: Seq<(Seq<char>, Seq<char>)>,
    pub files: Seq<Seq<char>>,
    pub only_files: bool,
}

pub open spec fn is_option_arg(arg: Seq<char>) -> bool {
    arg.len() >= 2 && arg[0] == '-' && arg[1] == '-'
}

/// The effect of one argument: after `--`, or when it does not start with
/// `--`, it is a file; `--` itself ends the options; anything else is an option.
pub open spec fn read_arg(st: ArgsState, arg: Seq<char>) -> ArgsState {
    if st.only_files || !is_option_arg(arg) {
        ArgsState { options: st.options, files: st.files.push(arg), only_files: st.only_files }
    } else if arg == "--"@ {
        ArgsState { options: st.options, files: st.files, only_files: true }
    } else {
        ArgsState { options: st.options.push(option_of(arg)), files: st.files, only_files: false }
    }
}

/// The state after the arguments `args[..n]`.
pub open spec fn read_args(args: Seq<Seq<char>>, n: int) -> ArgsState
    decreases n,
{
    if n <= 0 {
        ArgsState { options: seq![], files: seq![], only_files: false }
    } else {
        read_arg(read_args(args, n - 1), args[n - 1])
    }
}

pub open spec fn usage_text() -> Seq<char> {
    "usage: mpv [--option=value]... <file-or-url>..."@
}

pub open spec fn strings_view(v: Seq<String>) -> Seq<Seq<char>> {
    v.map_values(|s: String| s@)
}

pub open spec fn option_pairs_view(v: Seq<(String, String)>) -> Seq<(Seq<char>, Seq<char>)> {
    v.map_values(|p: (String, String)| (p.0@, p.1@))
}

/// Splits the command line of the bundled player (without the program name)
/// into options and files; at least one file is needed.
pub fn split_command_line(args: &Vec<String>) -> (r: Result<(Vec<(String, String)>, Vec<String>), String>)
    ensures
        ({
            let st = read_args(strings_view(args@), args@.len() as int);
            match r {
                Ok((options, files)) => st.files.len() > 0 && option_pairs_view(options@)
                    == st.options && strings_view(files@) == st.files,
                Err(e) => st.files.len() == 0 && e@ == usage_text(),
            }
        }),
{
    proof {
        reveal_strlit("--");
    }
    let ghost av = strings_view(args@);
    let mut options: Vec<(String, String)> = Vec::new();
    let mut files: Vec<String> = Vec::new();
    let mut only_files = false;
    let mut i: usize = 0;
    assert(option_pairs_view(options@) =~= seq![]);
    assert(strings_view(files@) =~= seq![]);
    while i < args.len()
        invariant
            i <= args@.len(),
            av == strings_view(args@),
            read_args(av, i as int) == (ArgsState {
                options: option_pairs_view(options@),
                files: strings_view(files@),
                only_files,
            }),
        decreases args@.len() - i,
    {
        let arg = &args[i];
        let a = chars_of(arg.as_str());
        let is_opt = a.len() >= 2 && a[0] == '-' && a[1] == '-';
        let ghost before_o = options@;
        let ghost before_f = files@;
        if only_files || !is_opt {
            files.push(arg.clone());
            assert(strings_view(files@) =~= strings_view(before_f).push(av[i as int]));
        } else if str_eq(arg.as_str(), "--") {
            only_files = true;
        } else {
            let o = parse_option(arg.as_str());
            options.push(o);
            assert(option_pairs_view(options@) =~= option_pairs_view(before_o).push(option_of(av[i as int])));
        }
        i = i + 1;
    }
    assert(av.len() == args@.len());
    if files.len() == 0 {
        Err(String::from_str("usage: mpv [--option=value]... <file-or-url>..."))
    } else {
        Ok((options, files))
    }
}

/// The options the bundled player starts with, before the user's: those of
/// the regular mpv program rather than of an embedded, idle player.
pub open spec fn default_player_options() -> Seq<(Seq<char>, Seq<char>)> {
    seq![
        ("config"@, "yes"@),
        ("idle"@, "no"@),
        ("force-window"@, "yes"@),
        ("osc"@, "yes"@),
        ("input-default-bindings"@, "yes"@),
        ("input-vo-keyboard"@, "yes"@),
        ("terminal"@, "yes"@),
    ]
}

fn pair(a: &str, b: &str) -> (r: (String, String))
    ensures
        r.0@ == a@,
        r.1@ == b@,
{
    (String::from_str(a), String::from_str(b))
}

/// Every option the bundled player is given, in order: the defaults, then the user's.
pub fn startup_options(user: &Vec<(String, String)>) -> (r: Vec<(String, String)>)
    ensures
        option_pairs_view(r@) == default_player_options() + option_pairs_view(user@),
{
    let mut out: Vec<(String, String)> = Vec::new();
    out.push(pair("config", "yes"));
    out.push(pair("idle", "no"));
    out.push(pair("force-window", "yes"));
    out.push(pair("osc", "yes"));
    out.push(pair("input-default-bindings", "yes"));
    out.push(pair("input-vo-keyboard", "yes"));
    out.push(pair("terminal", "yes"));
    assert(option_pairs_view(out@) =~= default_player_options());
    let mut i: usize = 0;
    while i < user.len()
        invariant
            i <= user@.len(),
            option_pairs_view(out@) == default_player_options() + option_pairs_view(user@.take(i as int)),
        decreases user@.len() - i,
    {
        let ghost before = out@;
        out.push((user[i].0.clone(), user[i].1.clone()));
        assert(option_pairs_view(out@) =~= option_pairs_view(before).push((user@[i as int].0@, user@[i as int].1@)));
        assert(option_pairs_view(user@.take(i + 1)) =~= option_pairs_view(user@.take(i as int)).push((user@[i as int].0@, user@[i as int].1@)));
        i = i + 1;
    }
    assert(user@.take(i as int) =~= user@);
    out
}


/// The kinds of external player that can be chosen.
#[derive(Debug, Clone, Copy, PartialEq, Eq, Structural)]
pub enum PlayerKind {
    /// A program that the user picked.
    Custom,
    Mpv,
    Vlc,
    /// Any other name.
    Unsupported,
}

/// The kind of player a lower-cased player name stands for.
pub open spec fn kind_of(lower: Seq<char>) -> PlayerKind {
    if lower == "custom"@ {
        PlayerKind::Custom
    } else if lower == "mpv"@ {
        PlayerKind::Mpv
    } else if lower == "vlc"@ {
        PlayerKind::Vlc
    } else {
        PlayerKind::Unsupported
    }
}

/// The kind of player that the lower-cased name `lower` stands for.
pub fn kind_of_lowercased(lower: &str) -> (r: PlayerKind)
    ensures
        r == kind_of(lower@),
{
    if str_eq(lower, "custom") {
        PlayerKind::Custom
    } else if str_eq(lower, "mpv") {
        PlayerKind::Mpv
    } else if str_eq(lower, "vlc") {
        PlayerKind::Vlc
    } else {
        PlayerKind::Unsupported
    }
}

/// The kind of player that the name `player` stands for, compared without
/// regard to case.
pub fn player_kind(player: &str) -> (r: PlayerKind)
    ensures
        r == kind_of(unicode_lowercase(player@)),
{
    let lower = to_lowercase(player);
    kind_of_lowercased(lower.as_str())
}

pub open spec fn unsupported_player(player: Seq<char>) -> Seq<char> {
    "Unsupported player: "@ + player
}

fn unsupported_message(player: &str) -> (r: String)
    ensures
        r@ == unsupported_player(player@),
{
    let mut m = String::from_str("Unsupported player: ");
    m.append(player);
    m
}

/// The custom program that the user picked, trimmed; `None` where none was picked.
pub open spec fn custom_program_of(custom_path: Option<Seq<char>>) -> Option<Seq<char>> {
    let p = match custom_path {
        Some(p) => trim(p),
        None => seq![],
    };
    if p.len() == 0 {
        None
    } else {
        Some(p)
    }
}

fn custom_program(custom_path: &Option<String>) -> (r: Option<String>)
    ensures
        opt_string_view(r) == custom_program_of(opt_string_view(*custom_path)),
{
    let t = match custom_path {
        Some(p) => {
            let c = chars_of(p.as_str());
            trimmed(c.as_slice())
        },
        None => Vec::new(),
    };
    if t.len() == 0 {
        None
    } else {
        Some(string_of(t.as_slice()))
    }
}

/// How to find out whether a player is installed.
pub enum Availability {
    /// A custom player was chosen but no program was picked: it is not.
    NoProgram,
    /// Look for the picked program: as a path, else on the search path.
    CustomProgram(String),
    /// Look for the named program on the search path.
    NamedProgram(String),
}

pub ghost enum AvailabilityView {
    NoProgram,
    CustomProgram(Seq<char>),
    NamedProgram(Seq<char>),
}

pub open spec fn availability_view(a: Availability) -> AvailabilityView {
    match a {
        Availability::NoProgram => AvailabilityView::NoProgram,
        Availability::CustomProgram(p) => AvailabilityView::CustomProgram(p@),
        Availability::NamedProgram(p) => AvailabilityView::NamedProgram(p@),
    }
}

/// How the availability of a player of kind `kind`, named `player`, is found out.
pub open spec fn availability_of(kind: PlayerKind, player: Seq<char>, custom_path: Option<Seq<char>>) -> Result<AvailabilityView, Seq<char>> {
    match kind {
        PlayerKind::Custom => match custom_program_of(custom_path) {
            Some(p) => Ok(AvailabilityView::CustomProgram(p)),
            None => Ok(AvailabilityView::NoProgram),
        },
        PlayerKind::Mpv => Ok(AvailabilityView::NamedProgram("mpv"@)),
        PlayerKind::Vlc => Ok(AvailabilityView::NamedProgram("vlc"@)),
        PlayerKind::Unsupported => Err(unsupported_player(player)),
    }
}

/// How to find out whether the player `player`, of kind `kind`, is installed.
pub fn availability_for(kind: PlayerKind, player: &str, custom_path: &Option<String>) -> (r: Result<Availability, String>)
    ensures
        match r {
            Ok(a) => availability_of(kind, player@, opt_string_view(*custom_path)) == Ok::<AvailabilityView, Seq<char>>(availability_view(a)),
            Err(e) => availability_of(kind, player@, opt_string_view(*custom_path)) == Err::<AvailabilityView, Seq<char>>(e@),
        },
{
    match kind {
        PlayerKind::Custom => match custom_program(custom_path) {
            Some(p) => Ok(Availability::CustomProgram(p)),
            None => Ok(Availability::NoProgram),
        },
        PlayerKind::Mpv => Ok(Availability::NamedProgram(String::from_str("mpv"))),
        PlayerKind::Vlc => Ok(Availability::NamedProgram(String::from_str("vlc"))),
        PlayerKind::Unsupported => Err(unsupported_message(player)),
    }
}

/// How to find out whether the player `player` is installed.
pub fn availability(player: &str, custom_path: &Option<String>) -> (r: Result<Availability, String>)
    ensures
        match r {
            Ok(a) => availability_of(kind_of(unicode_lowercase(player@)), player@, opt_string_view(*custom_path)) == Ok::<AvailabilityView, Seq<char>>(availability_view(a)),
            Err(e) => availability_of(kind_of(unicode_lowercase(player@)), player@, opt_string_view(*custom_path)) == Err::<AvailabilityView, Seq<char>>(e@),
        },
{
    availability_for(player_kind(player), player, custom_path)
}

/// A player to start: the program, its arguments, and whether the user
/// picked it (a picked macOS application bundle is opened through `open -a`).
pub struct LaunchPlan {
    pub program: String,
    pub args: Vec<String>,
    pub custom: bool,
}

pub open spec fn plan_view(p: LaunchPlan) -> (Seq<char>, Seq<Seq<char>>, bool) {
    (p.program@, strings_view(p.args@), p.custom)
}

pub open spec fn no_custom_program() -> Seq<char> {
    "No custom player program selected"@
}

/// How a player of kind `kind`, named `player`, plays `stream_url` under the title `title`.
pub open spec fn launch_of(kind: PlayerKind, player: Seq<char>, stream_url: Seq<char>, title: Seq<char>, custom_path: Option<Seq<char>>) -> Result<(Seq<char>, Seq<Seq<char>>, bool), Seq<char>> {
    match kind {
        PlayerKind::Custom => match custom_program_of(custom_path) {
            Some(p) => Ok((p, seq![stream_url], true)),
            None => Err(no_custom_program()),
        },
        PlayerKind::Mpv => Ok(
            ("mpv"@, seq![stream_url, "--title="@ + title, "--force-window=immediate"@], false),
        ),
        PlayerKind::Vlc => Ok(("vlc"@, seq![stream_url, "--meta-title="@ + title], false)),
        PlayerKind::Unsupported => Err(unsupported_player(player)),
    }
}

fn prefixed(prefix: &str, rest: &str) -> (r: String)
    ensures
        r@ == prefix@ + rest@,
{
    let mut s = String::from_str(prefix);
    s.append(rest);
    s
}

/// How a player of kind `kind` plays `stream_url` under the title `title`.
pub fn launch_plan_for(kind: PlayerKind, player: &str, stream_url: &str, title: &str, custom_path: &Option<String>) -> (r: Result<LaunchPlan, String>)
    ensures
        match r {
            Ok(p) => launch_of(kind, player@, stream_url@, title@, opt_string_view(*custom_path)) == Ok::<(Seq<char>, Seq<Seq<char>>, bool), Seq<char>>(plan_view(p)),
            Err(e) => launch_of(kind, player@, stream_url@, title@, opt_string_view(*custom_path)) == Err::<(Seq<char>, Seq<Seq<char>>, bool), Seq<char>>(e@),
        },
{
    match kind {
        PlayerKind::Custom => match custom_program(custom_path) {
            Some(p) => {
                let mut args: Vec<String> = Vec::new();
                args.push(String::from_str(stream_url));
                assert(strings_view(args@) =~= seq![stream_url@]);
                Ok(LaunchPlan { program: p, args, custom: true })
            },
            None => Err(String::from_str("No custom player program selected")),
        },
        PlayerKind::Mpv => {
            let mut args: Vec<String> = Vec::new();
            args.push(String::from_str(stream_url));
            args.push(prefixed("--title=", title));
            args.push(String::from_str("--force-window=immediate"));
            assert(strings_view(args@) =~= seq![stream_url@, "--title="@ + title@, "--force-window=immediate"@]);
            Ok(LaunchPlan { program: String::from_str("mpv"), args, custom: false })
        },
        PlayerKind::Vlc => {
            let mut args: Vec<String> = Vec::new();
            args.push(String::from_str(stream_url));
            args.push(prefixed("--meta-title=", title));
            assert(strings_view(args@) =~= seq![stream_url@, "--meta-title="@ + title@]);
            Ok(LaunchPlan { program: String::from_str("vlc"), args, custom: false })
        },
        PlayerKind::Unsupported => Err(unsupported_message(player)),
    }
}

/// How the player `player` plays `stream_url` under the title `title`.
pub fn launch_plan(player: &str, stream_url: &str, title: &str, custom_path: &Option<String>) -> (r: Result<LaunchPlan, String>)
    ensures
        match r {
            Ok(p) => launch_of(kind_of(unicode_lowercase(player@)), player@, stream_url@, title@, opt_string_view(*custom_path)) == Ok::<(Seq<char>, Seq<Seq<char>>, bool), Seq<char>>(plan_view(p)),
            Err(e) => launch_of(kind_of(unicode_lowercase(player@)), player@, stream_url@, title@, opt_string_view(*custom_path)) == Err::<(Seq<char>, Seq<Seq<char>>, bool), Seq<char>>(e@),
        },
{
    launch_plan_for(player_kind(player), player, stream_url, title, custom_path)
}

/// The file name under which an update downloaded from `url` is saved: the
/// part of the URL after its last `/` (all of it where it has none).
pub open spec fn installer_name(url: Seq<char>) -> Seq<char> {
    url.subrange(last_index_of(url, '/', url.len() as int) + 1, url.len() as int)
}

pub fn installer_file_name(url: &str) -> (r: String)
    ensures
        r@ == installer_name(url@),
{
    let u = chars_of(url);
    let mut j = u.len();
    while j > 0 && u[j - 1] != '/'
        invariant
            j <= u@.len(),
            u@ == url@,
            last_index_of(u@, '/', u@.len() as int) == last_index_of(u@, '/', j as int),
        decreases j,
    {
        j = j - 1;
    }
    string_of(vstd::slice::slice_subrange(u.as_slice(), j, u.len()))
}


// ---------------------------------------------------------------- laws

proof fn lemma_find_past_prefix(s: Seq<char>, i: int, stop: int, q: char)
    requires
        0 <= i <= stop <= s.len(),
        forall|k: int| i <= k < stop ==> s[k] != q,
    ensures
        find_char(s, i, q) == find_char(s, stop, q),
    decreases stop - i,
{
    if i < stop {
        lemma_find_past_prefix(s, i + 1, stop, q);
    }
}

/// An option written as `--name=value` reads back as `(name, value)` when the
/// name holds no `=`; written as `--no-name` it reads as `(name, "no")` when
/// `name` holds no `=`.
pub proof fn law_option_round_trip(name: Seq<char>, value: Seq<char>)
    requires
        forall|k: int| 0 <= k < name.len() ==> name[k] != '=',
    ensures
        option_of("--"@ + name + "="@ + value) == (name, value),
        option_of("--no-"@ + name) == (name, "no"@),
{
    reveal_strlit("--");
    reveal_strlit("=");
    reveal_strlit("--no-");
    reveal_strlit("no-");
    let arg = "--"@ + name + "="@ + value;
    assert(arg[0] == '-' && arg[1] == '-');
    let body = arg.subrange(2, arg.len() as int);
    assert(body =~= name + "="@ + value);
    lemma_find_past_prefix(body, 0, name.len() as int, '=');
    assert(body[name.len() as int] == '=');
    assert(body.subrange(0, name.len() as int) =~= name);
    assert(body.subrange(name.len() as int + 1, body.len() as int) =~= value);
    let arg2 = "--no-"@ + name;
    assert(arg2[0] == '-' && arg2[1] == '-');
    let body2 = arg2.subrange(2, arg2.len() as int);
    assert(body2 =~= "no-"@ + name);
    lemma_find_past_prefix(body2, 0, body2.len() as int, '=');
    assert(body2.subrange(0, 3) =~= "no-"@);
    assert(body2.subrange(3, body2.len() as int) =~= name);
}

/// No argument of the bundled player's command line is lost: each is an
/// option or a file, but for the `--` that ends the options.
pub proof fn law_arguments_accounted(args: Seq<Seq<char>>, n: int)
    requires
        0 <= n <= args.len(),
    ensures
        ({
            let st = read_args(args, n);
            st.options.len() + st.files.len() + (if st.only_files { 1int } else { 0int }) == n
        }),
    decreases n,
{
    if n > 0 {
        law_arguments_accounted(args, n - 1);
    }
}

/// The bundled player starts with `config=yes`, `idle=no`, `force-window=yes`,
/// `osc=yes`, `input-default-bindings=yes`, `input-vo-keyboard=yes` and
/// `terminal=yes`, in that order, followed by the user's options in theirs.
pub proof fn law_startup_defaults(user: Seq<(Seq<char>, Seq<char>)>)
    ensures
        ({
            let all = default_player_options() + user;
            &&& all.len() == 7 + user.len()
            &&& all[0] == ("config"@, "yes"@)
            &&& all[1] == ("idle"@, "no"@)
            &&& all[2] == ("force-window"@, "yes"@)
            &&& all[3] == ("osc"@, "yes"@)
            &&& all[4] == ("input-default-bindings"@, "yes"@)
            &&& all[5] == ("input-vo-keyboard"@, "yes"@)
            &&& all[6] == ("terminal"@, "yes"@)
            &&& forall|i: int| 0 <= i < user.len() ==> #[trigger] all[7 + i] == user[i]
        }),
{
}

/// For mpv and vlc, the program whose availability is looked for is the
/// program that is started: `mpv` for mpv and `vlc` for vlc.
pub proof fn law_checked_program_is_started(kind: PlayerKind, player: Seq<char>, stream_url: Seq<char>, title: Seq<char>, custom_path: Option<Seq<char>>)
    requires
        kind == PlayerKind::Mpv || kind == PlayerKind::Vlc,
    ensures
        availability_of(kind, player, custom_path) matches Ok(AvailabilityView::NamedProgram(p))
            && launch_of(kind, player, stream_url, title, custom_path) matches Ok(plan)
            && plan.0 == p && !plan.2,
        kind == PlayerKind::Mpv ==> (launch_of(kind, player, stream_url, title, custom_path) matches Ok(plan) && plan.0 == "mpv"@),
        kind == PlayerKind::Vlc ==> (launch_of(kind, player, stream_url, title, custom_path) matches Ok(plan) && plan.0 == "vlc"@),
        kind == PlayerKind::Vlc ==> availability_of(kind, player, custom_path) == Ok::<AvailabilityView, Seq<char>>(AvailabilityView::NamedProgram("vlc"@)),
        kind == PlayerKind::Mpv ==> availability_of(kind, player, custom_path) == Ok::<AvailabilityView, Seq<char>>(AvailabilityView::NamedProgram("mpv"@)),
{
}

/// For a custom player, the program looked for is the program started: the
/// picked path, trimmed; where it is empty there is nothing to look for and
/// nothing is started. Any other name is refused by both with the same message.
pub proof fn law_custom_and_unsupported(kind: PlayerKind, player: Seq<char>, stream_url: Seq<char>, title: Seq<char>, custom_path: Option<Seq<char>>)
    ensures
        kind == PlayerKind::Custom ==> match custom_path {
            Some(path) if trim(path).len() > 0 => availability_of(kind, player, custom_path)
                == Ok::<AvailabilityView, Seq<char>>(AvailabilityView::CustomProgram(trim(path)))
                && launch_of(kind, player, stream_url, title, custom_path) == Ok::<(Seq<char>, Seq<Seq<char>>, bool), Seq<char>>((trim(path), seq![stream_url], true)),
            _ => availability_of(kind, player, custom_path) == Ok::<AvailabilityView, Seq<char>>(AvailabilityView::NoProgram)
                && launch_of(kind, player, stream_url, title, custom_path) == Err::<(Seq<char>, Seq<Seq<char>>, bool), Seq<char>>("No custom player program selected"@),
        },
        kind == PlayerKind::Unsupported ==> availability_of(kind, player, custom_path) == Err::<AvailabilityView, Seq<char>>("Unsupported player: "@ + player)
            && launch_of(kind, player, stream_url, title, custom_path) == Err::<(Seq<char>, Seq<Seq<char>>, bool), Seq<char>>("Unsupported player: "@ + player),
{
}

/// Every player is started with the stream as its first argument.
pub proof fn law_stream_first(kind: PlayerKind, player: Seq<char>, stream_url: Seq<char>, title: Seq<char>, custom_path: Option<Seq<char>>)
    ensures
        launch_of(kind, player, stream_url, title, custom_path) matches Ok(p) ==> p.1.len() >= 1
            && p.1[0] == stream_url,
{
}

} // verus!
