//! The readout's settings: colour, theme and icon modes, the config file and
//! the command line.

use crate::number::{decimal, parse_u8, parse_unsigned, push_decimal};
use crate::text::{
    after_last, after_last_slice, before_first, chars_of, eq_str, find_char, lemma_lines_len,
    lemma_lines_unfold, lines, push_chars, push_str, same_text, split_char, split_first_line,
    split_once, split_once_slice, string_of, strings_view, trim, trim_slice,
};
use vstd::prelude::*;

verus! {

/// When labels are coloured.
#[derive(Clone, Copy, Debug, PartialEq, Eq, Structural)]
pub enum ColorMode {
    Auto,
    Always,
    Never,
}

/// The label colour theme.
#[derive(Clone, Copy, Debug, PartialEq, Eq, Structural)]
pub enum Theme {
    Subtle,
    Mono,
}

/// Which symbols, if any, stand before the labels.
#[derive(Clone, Copy, Debug, PartialEq, Eq, Structural)]
pub enum IconMode {
    Unicode,
    Nerd,
    Off,
}


impl ColorMode {
    /// Whether labels are coloured: only on a terminal, and never in `Never`
    /// mode.
    pub fn enabled(self, stdout_is_terminal: bool) -> (b: bool)
        ensures
            b == (stdout_is_terminal && self != ColorMode::Never),
    {
        stdout_is_terminal && self != ColorMode::Never
    }
}

impl Theme {
    /// Whether the theme keeps colour on: the mono theme turns it off.
    pub fn color_enabled(self, color_enabled: bool) -> (b: bool)
        ensures
            b == (color_enabled && self != Theme::Mono),
    {
        color_enabled && self != Theme::Mono
    }
}

/// The theme that a `COLORFGBG` hint asks for: its last `;`-separated value
/// read as a `u8` background index; 0 to 6 and 8 are dark, 7 and 15 light.
pub open spec fn colorfgbg_theme(value: Seq<char>) -> Option<Theme> {
    match parse_unsigned(after_last(value, ';'), 255) {
        Some(b) => if b <= 6 || b == 8 {
            Some(Theme::Subtle)
        } else if b == 7 || b == 15 {
            Some(Theme::Mono)
        } else {
            None
        },
        None => None,
    }
}

/// The theme hinted by `COLORFGBG`, if it names one.
pub fn parse_colorfgbg(value: &str) -> (t: Option<Theme>)
    ensures
        t == colorfgbg_theme(value@),
{
    let chars = chars_of(value);
    let last = after_last_slice(chars.as_slice(), ';');
    match parse_u8(last) {
        Some(b) => {
            if b <= 6 || b == 8 {
                Some(Theme::Subtle)
            } else if b == 7 || b == 15 {
                Some(Theme::Mono)
            } else {
                None
            }
        },
        None => None,
    }
}

/// The detected theme: the `COLORFGBG` hint on a terminal, `Subtle`
/// otherwise or when the hint names none.
pub fn detect_theme(stdout_is_terminal: bool, colorfgbg: Option<&str>) -> (t: Theme)
    ensures
        t == (if !stdout_is_terminal {
            Theme::Subtle
        } else {
            match colorfgbg {
                Some(v) => match colorfgbg_theme(v@) {
                    Some(t) => t,
                    None => Theme::Subtle,
                },
                None => Theme::Subtle,
            }
        }),
{
    if !stdout_is_terminal {
        return Theme::Subtle;
    }
    match colorfgbg {
        Some(v) => match parse_colorfgbg(v) {
            Some(t) => t,
            None => Theme::Subtle,
        },
        None => Theme::Subtle,
    }
}

/// `prefix` followed by the line number.
pub open spec fn numbered(prefix: Seq<char>, n: nat) -> Seq<char> {
    prefix + decimal(n)
}

fn numbered_message(prefix: &str, n: u128) -> (s: String)
    ensures
        s@ == numbered(prefix@, n as nat),
{
    let mut s = String::new();
    push_str(&mut s, prefix);
    push_decimal(&mut s, n);
    s
}

pub open spec fn color_from(value: Seq<char>) -> Option<ColorMode> {
    if value == "auto"@ {
        Some(ColorMode::Auto)
    } else if value == "always"@ {
        Some(ColorMode::Always)
    } else if value == "never"@ {
        Some(ColorMode::Never)
    } else {
        None
    }
}

pub open spec fn icons_from(value: Seq<char>) -> Option<IconMode> {
    if value == "on"@ {
        Some(IconMode::Unicode)
    } else if value == "off"@ {
        Some(IconMode::Off)
    } else if value == "nerd"@ {
        Some(IconMode::Nerd)
    } else {
        None
    }
}

pub open spec fn theme_from(value: Seq<char>) -> Option<Theme> {
    if value == "subtle"@ {
        Some(Theme::Subtle)
    } else if value == "mono"@ {
        Some(Theme::Mono)
    } else {
        None
    }
}

/// The `color` value of config line `line_number`.
pub fn parse_color(value: &str, line_number: usize) -> (r: Result<ColorMode, String>)
    ensures
        match r {
            Ok(c) => color_from(value@) == Some(c),
            Err(e) => color_from(value@) is None && e@ == numbered(
                "invalid color on config line "@,
                line_number as nat,
            ),
        },
{
    let v = chars_of(value);
    if eq_str(v.as_slice(), "auto") {
        Ok(ColorMode::Auto)
    } else if eq_str(v.as_slice(), "always") {
        Ok(ColorMode::Always)
    } else if eq_str(v.as_slice(), "never") {
        Ok(ColorMode::Never)
    } else {
        Err(numbered_message("invalid color on config line ", line_number as u128))
    }
}

/// The `icons` value of config line `line_number`.
pub fn parse_icons(value: &str, line_number: usize) -> (r: Result<IconMode, String>)
    ensures
        match r {
            Ok(c) => icons_from(value@) == Some(c),
            Err(e) => icons_from(value@) is None && e@ == numbered(
                "invalid icons on config line "@,
                line_number as nat,
            ),
        },
{
    let v = chars_of(value);
    if eq_str(v.as_slice(), "on") {
        Ok(IconMode::Unicode)
    } else if eq_str(v.as_slice(), "off") {
        Ok(IconMode::Off)
    } else if eq_str(v.as_slice(), "nerd") {
        Ok(IconMode::Nerd)
    } else {
        Err(numbered_message("invalid icons on config line ", line_number as u128))
    }
}

/// The names a row can have.
pub open spec fn is_row_name(name: Seq<char>) -> bool {
    ||| name == "hostname"@
    ||| name == "user"@
    ||| name == "os"@
    ||| name == "shell"@
    ||| name == "uptime"@
    ||| name == "cpu"@
    ||| name == "memory"@
    ||| name == "disk"@
    ||| name == "kernel"@
    ||| name == "terminal"@
    ||| name == "desktop"@
    ||| name == "temperature"@
    ||| name == "gpu"@
}

pub fn is_row_name_exec(name: &[char]) -> (b: bool)
    ensures
        b == is_row_name(name@),
{
    eq_str(name, "hostname") || eq_str(name, "user") || eq_str(name, "os") || eq_str(name, "shell")
        || eq_str(name, "uptime") || eq_str(name, "cpu") || eq_str(name, "memory") || eq_str(
        name,
        "disk",
    ) || eq_str(name, "kernel") || eq_str(name, "terminal") || eq_str(name, "desktop") || eq_str(
        name,
        "temperature",
    ) || eq_str(name, "gpu")
}

/// The trimmed, non-empty pieces of a comma-separated list, in order.
pub open spec fn list_items(pieces: Seq<Seq<char>>) -> Seq<Seq<char>>
    decreases pieces.len(),
{
    if pieces.len() == 0 {
        Seq::empty()
    } else {
        let rest = list_items(pieces.drop_first());
        if trim(pieces[0]).len() == 0 {
            rest
        } else {
            seq![trim(pieces[0])] + rest
        }
    }
}

/// The rows named by a `rows` value, when it names at least one and only
/// known rows.
pub open spec fn rows_from(value: Seq<char>) -> Option<Seq<Seq<char>>> {
    let items = list_items(split_char(value, ','));
    if items.len() == 0 || exists|i: int| 0 <= i < items.len() && !is_row_name(#[trigger] items[i]) {
        None
    } else {
        Some(items)
    }
}

/// The `rows` value of config line `line_number`.
pub fn parse_rows(value: &str, line_number: usize) -> (r: Result<Vec<String>, String>)
    ensures
        match r {
            Ok(v) => rows_from(value@) == Some(strings_view(v@)),
            Err(e) => rows_from(value@) is None && e@ == numbered(
                "invalid rows on config line "@,
                line_number as nat,
            ),
        },
{
    let chars = chars_of(value);
    let mut cur: &[char] = chars.as_slice();
    let mut items: Vec<String> = Vec::new();
    let mut all_known = true;
    let ghost mut done: Seq<Seq<char>> = Seq::empty();
    loop
        invariant_except_break
            list_items(split_char(value@, ',')) == strings_view(items@) + list_items(
                split_char(cur@, ','),
            ),
            all_known == (forall|i: int|
                0 <= i < items@.len() ==> is_row_name(#[trigger] items@[i]@)),
        ensures
            list_items(split_char(value@, ',')) == strings_view(items@),
            all_known == (forall|i: int|
                0 <= i < items@.len() ==> is_row_name(#[trigger] items@[i]@)),
        decreases cur@.len(),
    {
        let i = find_char(cur, ',');
        let piece = &cur[0..i];
        let item = trim_slice(piece);
        let ghost before = strings_view(items@);
        let ghost old_items = items@;
        let ghost old_known = all_known;
        if item.len() > 0 {
            let known = is_row_name_exec(item);
            if !known {
                all_known = false;
            }
            items.push(string_of(item));
            assert(items@[items@.len() - 1]@ == item@);
            assert(forall|i: int| 0 <= i < old_items.len() ==> items@[i] == old_items[i]);
            assert(all_known == (forall|i: int|
                0 <= i < items@.len() ==> is_row_name(#[trigger] items@[i]@))) by {
                if all_known {
                    assert forall|i: int| 0 <= i < items@.len() implies is_row_name(
                        #[trigger] items@[i]@,
                    ) by {
                        if i < old_items.len() {
                            assert(items@[i] == old_items[i]);
                        }
                    }
                } else if !known {
                    assert(!is_row_name(items@[items@.len() - 1]@));
                } else {
                    let k = choose|k: int|
                        0 <= k < old_items.len() && !is_row_name(#[trigger] old_items[k]@);
                    assert(items@[k] == old_items[k]);
                }
            }
        }
        if i < cur.len() {
            let rest = &cur[i + 1..cur.len()];
            assert(piece@ =~= cur@.take(i as int));
            assert(rest@ =~= cur@.skip(i + 1));
            assert(split_char(cur@, ',') =~= seq![piece@] + split_char(rest@, ','));
            assert((seq![piece@] + split_char(rest@, ',')).drop_first() =~= split_char(
                rest@,
                ',',
            ));
            if item.len() > 0 {
                assert(strings_view(items@) =~= before.push(item@));
                assert(before + list_items(split_char(cur@, ',')) =~= strings_view(items@)
                    + list_items(split_char(rest@, ',')));
            }
            cur = rest;
        } else {
            assert(piece@ =~= cur@);
            assert(split_char(cur@, ',') =~= seq![cur@]);
            assert(seq![cur@].drop_first() =~= Seq::<Seq<char>>::empty());
            assert(list_items(Seq::<Seq<char>>::empty()) =~= Seq::<Seq<char>>::empty());
            if item.len() > 0 {
                assert(strings_view(items@) =~= before.push(item@));
                assert(before + list_items(split_char(cur@, ',')) =~= strings_view(items@));
            } else {
                assert(before + list_items(split_char(cur@, ',')) =~= before);
            }
            break;
        }
    }
    let ghost want = list_items(split_char(value@, ','));
    assert(want =~= strings_view(items@));
    if items.len() == 0 || !all_known {
        proof {
            if items@.len() > 0 {
                let k = choose|k: int| 0 <= k < items@.len() && !is_row_name(#[trigger] items@[k]@);
                assert(want[k] == items@[k]@);
            }
        }
        return Err(numbered_message("invalid rows on config line ", line_number as u128));
    }
    proof {
        assert forall|k: int| 0 <= k < want.len() implies is_row_name(#[trigger] want[k]) by {
            assert(want[k] == items@[k]@);
        }
    }
    Ok(items)
}


/// Defaults read from the config file; each is unset until a line sets it.
pub struct Config {
    pub color: Option<ColorMode>,
    pub icons: Option<IconMode>,
    pub logo: Option<String>,
    pub rows: Option<Vec<String>>,
    pub theme: Option<Theme>,
}

/// A config as plain values.
pub struct ConfigView {
    pub color: Option<ColorMode>,
    pub icons: Option<IconMode>,
    pub logo: Option<Seq<char>>,
    pub rows: Option<Seq<Seq<char>>>,
    pub theme: Option<Theme>,
}

pub open spec fn opt_text(o: Option<String>) -> Option<Seq<char>> {
    match o {
        Some(s) => Some(s@),
        None => None,
    }
}

pub open spec fn opt_texts(o: Option<Vec<String>>) -> Option<Seq<Seq<char>>> {
    match o {
        Some(v) => Some(strings_view(v@)),
        None => None,
    }
}

impl View for Config {
    type V = ConfigView;

    open spec fn view(&self) -> ConfigView {
        ConfigView {
            color: self.color,
            icons: self.icons,
            logo: opt_text(self.logo),
            rows: opt_texts(self.rows),
            theme: self.theme,
        }
    }
}

/// The config with nothing set.
pub open spec fn empty_config() -> ConfigView {
    ConfigView { color: None, icons: None, logo: None, rows: None, theme: None }
}

impl Default for Config {
    fn default() -> (c: Self)
        ensures
            c@ == empty_config(),
    {
        Config { color: None, icons: None, logo: None, rows: None, theme: None }
    }
}

/// What a config line holds: the text before any `#`, trimmed.
pub open spec fn config_text(raw: Seq<char>) -> Seq<char> {
    trim(before_first(raw, '#'))
}

/// The config after line `n`, whose text (comment and whitespace removed)
/// is `line`, or the error that the line causes.
pub open spec fn apply_config_line(cfg: ConfigView, line: Seq<char>, n: nat) -> Result<
    ConfigView,
    Seq<char>,
> {
    if line.len() == 0 {
        Ok(cfg)
    } else {
        match split_once(line, '=') {
            None => Err(numbered("config line "@, n) + " needs key = value"@),
            Some((k, v)) => {
                let key = trim(k);
                let value = trim(v);
                if key == "color"@ {
                    match color_from(value) {
                        Some(c) => Ok(ConfigView { color: Some(c), ..cfg }),
                        None => Err(numbered("invalid color on config line "@, n)),
                    }
                } else if key == "icons"@ {
                    match icons_from(value) {
                        Some(i) => Ok(ConfigView { icons: Some(i), ..cfg }),
                        None => Err(numbered("invalid icons on config line "@, n)),
                    }
                } else if key == "logo"@ {
                    Ok(ConfigView { logo: Some(value), ..cfg })
                } else if key == "rows"@ {
                    match rows_from(value) {
                        Some(r) => Ok(ConfigView { rows: Some(r), ..cfg }),
                        None => Err(numbered("invalid rows on config line "@, n)),
                    }
                } else if key == "theme"@ {
                    match theme_from(value) {
                        Some(t) => Ok(ConfigView { theme: Some(t), ..cfg }),
                        None => Err(numbered("invalid theme on config line "@, n)),
                    }
                } else {
                    Err(numbered("unknown config key `"@ + key + "` on line "@, n))
                }
            },
        }
    }
}

/// The config after the lines `ls`, the first of them numbered `n`: the
/// first failing line's error, or the config that all of them set.
pub open spec fn apply_config_lines(cfg: ConfigView, ls: Seq<Seq<char>>, n: nat) -> Result<
    ConfigView,
    Seq<char>,
>
    decreases ls.len(),
{
    if ls.len() == 0 {
        Ok(cfg)
    } else {
        match apply_config_line(cfg, config_text(ls[0]), n) {
            Ok(next) => apply_config_lines(next, ls.drop_first(), n + 1),
            Err(e) => Err(e),
        }
    }
}

/// The config that a config file's text sets, lines numbered from 1.
pub open spec fn parse_config_spec(content: Seq<char>) -> Result<ConfigView, Seq<char>> {
    apply_config_lines(empty_config(), lines(content), 1)
}

fn apply_line(config: Config, line: &[char], n: usize) -> (r: Result<Config, String>)
    ensures
        match r {
            Ok(c) => apply_config_line(config@, line@, n as nat) == Ok::<ConfigView, Seq<char>>(c@),
            Err(e) => apply_config_line(config@, line@, n as nat) == Err::<ConfigView, Seq<char>>(e@),
        },
{
    let mut config = config;
    if line.len() == 0 {
        return Ok(config);
    }
    let (k, v) = match split_once_slice(line, '=') {
        None => {
            let mut e = numbered_message("config line ", n as u128);
            push_str(&mut e, " needs key = value");
            return Err(e);
        },
        Some(kv) => kv,
    };
    let key = trim_slice(k);
    let value_chars = trim_slice(v);
    let value = string_of(value_chars);
    if eq_str(key, "color") {
        match parse_color(value.as_str(), n) {
            Ok(c) => {
                config.color = Some(c);
                Ok(config)
            },
            Err(e) => Err(e),
        }
    } else if eq_str(key, "icons") {
        match parse_icons(value.as_str(), n) {
            Ok(i) => {
                config.icons = Some(i);
                Ok(config)
            },
            Err(e) => Err(e),
        }
    } else if eq_str(key, "logo") {
        config.logo = Some(value);
        Ok(config)
    } else if eq_str(key, "rows") {
        match parse_rows(value.as_str(), n) {
            Ok(r) => {
                config.rows = Some(r);
                Ok(config)
            },
            Err(e) => Err(e),
        }
    } else if eq_str(key, "theme") {
        if eq_str(value_chars, "subtle") {
            config.theme = Some(Theme::Subtle);
            Ok(config)
        } else if eq_str(value_chars, "mono") {
            config.theme = Some(Theme::Mono);
            Ok(config)
        } else {
            Err(numbered_message("invalid theme on config line ", n as u128))
        }
    } else {
        let mut e = String::new();
        push_str(&mut e, "unknown config key `");
        push_chars(&mut e, key);
        push_str(&mut e, "` on line ");
        push_decimal(&mut e, n as u128);
        assert(e@ =~= numbered("unknown config key `"@ + key@ + "` on line "@, n as nat));
        Err(e)
    }
}

/// The defaults that a config file's text sets; each line is `key = value`,
/// `#` starts a comment, and the first bad line fails with its number.
pub fn parse_config(content: &str) -> (r: Result<Config, String>)
    ensures
        match r {
            Ok(c) => parse_config_spec(content@) == Ok::<ConfigView, Seq<char>>(c@),
            Err(e) => parse_config_spec(content@) == Err::<ConfigView, Seq<char>>(e@),
        },
{
    let chars = chars_of(content);
    let mut cur: &[char] = chars.as_slice();
    let mut config = Config::default();
    let mut n: usize = 1;
    proof {
        lemma_lines_len(content@);
    }
    assert(content@.len() <= usize::MAX) by {
        assert(chars@.len() == chars.len());
    }
    while cur.len() > 0
        invariant
            parse_config_spec(content@) == apply_config_lines(config@, lines(cur@), n as nat),
            n - 1 + lines(cur@).len() == lines(content@).len(),
            lines(content@).len() <= content@.len(),
            content@.len() <= usize::MAX,
            n >= 1,
        decreases cur@.len(),
    {
        proof {
            lemma_lines_unfold(cur@);
        }
        let (raw, rest) = split_first_line(cur);
        let before = &raw[0..find_char(raw, '#')];
        let text = trim_slice(before);
        assert(text@ == config_text(raw@));
        assert(lines(cur@) == seq![raw@] + lines(rest@));
        assert(lines(cur@)[0] == raw@);
        assert(lines(cur@).drop_first() =~= lines(rest@));
        assert(lines(cur@).len() == lines(rest@).len() + 1);
        let ghost old_view = config@;
        match apply_line(config, text, n) {
            Ok(c) => {
                assert(apply_config_lines(old_view, lines(cur@), n as nat) == apply_config_lines(
                    c@,
                    lines(rest@),
                    (n + 1) as nat,
                ));
                config = c;
            },
            Err(e) => {
                return Err(e);
            },
        }
        if rest.len() == 0 {
            assert(lines(rest@) =~= Seq::<Seq<char>>::empty());
            return Ok(config);
        }
        proof {
            lemma_lines_unfold(rest@);
        }
        assert(lines(rest@).len() >= 1);
        cur = rest;
        n = n + 1;
    }
    assert(lines(cur@) =~= Seq::<Seq<char>>::empty());
    Ok(config)
}


/// The settings a run uses: the config's defaults with the command line's
/// flags applied.
pub struct Options {
    pub color: ColorMode,
    pub icons: IconMode,
    pub logo: Option<String>,
    pub rows: Option<Vec<String>>,
    pub theme: Option<Theme>,
    pub no_terminator: bool,
    pub no_term: bool,
    pub verbose: bool,
    pub probe: bool,
    pub json: bool,
}

/// Options as plain values.
pub struct OptionsView {
    pub color: ColorMode,
    pub icons: IconMode,
    pub logo: Option<Seq<char>>,
    pub rows: Option<Seq<Seq<char>>>,
    pub theme: Option<Theme>,
    pub no_terminator: bool,
    pub no_term: bool,
    pub verbose: bool,
    pub probe: bool,
    pub json: bool,
}

impl View for Options {
    type V = OptionsView;

    open spec fn view(&self) -> OptionsView {
        OptionsView {
            color: self.color,
            icons: self.icons,
            logo: opt_text(self.logo),
            rows: opt_texts(self.rows),
            theme: self.theme,
            no_terminator: self.no_terminator,
            no_term: self.no_term,
            verbose: self.verbose,
            probe: self.probe,
            json: self.json,
        }
    }
}

/// The options before any flag: colour `Never` under `NO_COLOR`, otherwise
/// the config's colour or `Auto`; the config's icons or `Off`; the config's
/// logo, rows and theme; every switch off.
pub open spec fn initial_options(config: ConfigView, no_color: bool) -> OptionsView {
    OptionsView {
        color: if no_color {
            ColorMode::Never
        } else {
            match config.color {
                Some(c) => c,
                None => ColorMode::Auto,
            }
        },
        icons: match config.icons {
            Some(i) => i,
            None => IconMode::Off,
        },
        logo: config.logo,
        rows: config.rows,
        theme: config.theme,
        no_terminator: false,
        no_term: false,
        verbose: false,
        probe: false,
        json: false,
    }
}

/// The options and the help and version requests read so far.
pub struct ParsedArgs {
    pub options: OptionsView,
    pub help: bool,
    pub version: bool,
}

pub open spec fn starts_with_dash(s: Seq<char>) -> bool {
    s.len() > 0 && s[0] == '-'
}

/// The flag at position `i`, read on top of `st`: the state after it and
/// the position of the next flag, or the flag's error.
pub open spec fn arg_step(st: ParsedArgs, args: Seq<Seq<char>>, i: int) -> Result<
    (ParsedArgs, int),
    Seq<char>,
> {
    let a = args[i];
    let has_next = i + 1 < args.len();
    let o = st.options;
    if a == "--help"@ || a == "-h"@ {
        Ok((ParsedArgs { help: true, ..st }, i + 1))
    } else if a == "--version"@ || a == "-V"@ {
        Ok((ParsedArgs { version: true, ..st }, i + 1))
    } else if a == "--color-no"@ || a == "--no-color"@ {
        Ok((ParsedArgs { options: OptionsView { color: ColorMode::Never, ..o }, ..st }, i + 1))
    } else if a == "--color"@ {
        if has_next {
            match color_from(args[i + 1]) {
                Some(c) => Ok((ParsedArgs { options: OptionsView { color: c, ..o }, ..st }, i + 2)),
                None => Err("invalid --color value "@ + args[i + 1]),
            }
        } else {
            Err("--color needs auto, always, or never"@)
        }
    } else if a == "--config"@ {
        if has_next {
            Ok((st, i + 2))
        } else {
            Err("--config needs a path"@)
        }
    } else if a == "--theme"@ {
        if has_next {
            match theme_from(args[i + 1]) {
                Some(t) => Ok(
                    (ParsedArgs { options: OptionsView { theme: Some(t), ..o }, ..st }, i + 2),
                ),
                None => Err("invalid --theme value "@ + args[i + 1]),
            }
        } else {
            Err("--theme needs subtle or mono"@)
        }
    } else {
        match option_step(o, args, i) {
            Ok((o2, j)) => Ok((ParsedArgs { options: o2, ..st }, j)),
            Err(e) => Err(e),
        }
    }
}

/// The flags that only change the options: switches, icons and logo; any
/// other argument is an error. `--json` is a switch like the others: this
/// library always has the JSON readout (`render_json`), so the flag is never
/// refused for want of it.
pub open spec fn option_step(o: OptionsView, args: Seq<Seq<char>>, i: int) -> Result<
    (OptionsView, int),
    Seq<char>,
> {
    let a = args[i];
    let has_next = i + 1 < args.len();
    if a == "--no-terminator"@ {
        Ok((OptionsView { no_terminator: true, ..o }, i + 1))
    } else if a == "--no-term"@ {
        Ok((OptionsView { no_term: true, ..o }, i + 1))
    } else if a == "--verbose"@ {
        Ok((OptionsView { verbose: true, ..o }, i + 1))
    } else if a == "--probe"@ || a == "--debug-sysinfo"@ {
        Ok((OptionsView { probe: true, ..o }, i + 1))
    } else if a == "--no-icons"@ {
        Ok((OptionsView { icons: IconMode::Off, ..o }, i + 1))
    } else if a == "--json"@ {
        Ok((OptionsView { json: true, ..o }, i + 1))
    } else if a == "--icons"@ {
        if has_next {
            match icons_from(args[i + 1]) {
                Some(m) => Ok((OptionsView { icons: m, ..o }, i + 2)),
                None => Err("invalid --icons value "@ + args[i + 1]),
            }
        } else {
            Err("--icons needs on, off, or nerd"@)
        }
    } else if a == "--logo"@ {
        if has_next && !starts_with_dash(args[i + 1]) {
            Ok((OptionsView { logo: Some(args[i + 1]), ..o }, i + 2))
        } else {
            Ok((OptionsView { logo: Some("auto"@), ..o }, i + 1))
        }
    } else if starts_with_dash(a) {
        Err("unknown option "@ + a)
    } else {
        Err("unexpected argument "@ + a)
    }
}

/// Reads the arguments from position `i` on, one flag (with its value) at a
/// time; the first bad flag ends the reading with its error.
pub open spec fn apply_args(st: ParsedArgs, args: Seq<Seq<char>>, i: int) -> Result<
    ParsedArgs,
    Seq<char>,
>
    decreases args.len() - i,
{
    if i < 0 || i >= args.len() {
        Ok(st)
    } else {
        match arg_step(st, args, i) {
            Ok((next, j)) => if j > i {
                apply_args(next, args, j)
            } else {
                Ok(next)
            },
            Err(e) => Err(e),
        }
    }
}

/// The flags read one after another on top of the config's defaults, before
/// `NO_COLOR` has its say.
pub open spec fn read_args(args: Seq<Seq<char>>, config: ConfigView, no_color: bool) -> Result<
    ParsedArgs,
    Seq<char>,
> {
    apply_args(
        ParsedArgs { options: initial_options(config, no_color), help: false, version: false },
        args,
        0,
    )
}

/// Under `NO_COLOR` colour is off, whatever the flags asked for.
pub open spec fn honour_no_color(st: ParsedArgs, no_color: bool) -> ParsedArgs {
    if no_color {
        ParsedArgs { options: OptionsView { color: ColorMode::Never, ..st.options }, ..st }
    } else {
        st
    }
}

/// The options, help request and version request that the arguments give,
/// starting from the config's defaults; under `NO_COLOR` colour stays off.
pub open spec fn parse_args_spec(args: Seq<Seq<char>>, config: ConfigView, no_color: bool) -> Result<
    ParsedArgs,
    Seq<char>,
> {
    match read_args(args, config, no_color) {
        Ok(st) => Ok(honour_no_color(st, no_color)),
        Err(e) => Err(e),
    }
}

fn message(prefix: &str, value: &str) -> (s: String)
    ensures
        s@ == prefix@ + value@,
{
    let mut s = String::new();
    push_str(&mut s, prefix);
    push_str(&mut s, value);
    s
}

fn text(value: &str) -> (s: String)
    ensures
        s@ == value@,
{
    let mut s = String::new();
    push_str(&mut s, value);
    assert(s@ =~= value@);
    s
}

/// Reads the flag at position `i` (with its value, if it takes one) and
/// gives the position after it.
fn apply_flag(
    options: &mut Options,
    help: &mut bool,
    version: &mut bool,
    args: &[String],
    i: usize,
) -> (r: Result<usize, String>)
    requires
        i < args@.len(),
    ensures
        match r {
            Ok(j) => i < j <= args@.len() && arg_step(
                ParsedArgs { options: old(options)@, help: *old(help), version: *old(version) },
                strings_view(args@),
                i as int,
            ) == Ok::<(ParsedArgs, int), Seq<char>>(
                (
                    ParsedArgs {
                        options: final(options)@,
                        help: *final(help),
                        version: *final(version),
                    },
                    j as int,
                ),
            ),
            Err(e) => arg_step(
                ParsedArgs { options: old(options)@, help: *old(help), version: *old(version) },
                strings_view(args@),
                i as int,
            ) == Err::<(ParsedArgs, int), Seq<char>>(e@),
        },
{
    let ghost av = strings_view(args@);
    let a = args[i].as_str();
    let has_next = i + 1 < args.len();
    assert(av[i as int] == a@);
    if same_text(a, "--help") || same_text(a, "-h") {
        *help = true;
        Ok(i + 1)
    } else if same_text(a, "--version") || same_text(a, "-V") {
        *version = true;
        Ok(i + 1)
    } else if same_text(a, "--color-no") || same_text(a, "--no-color") {
        options.color = ColorMode::Never;
        Ok(i + 1)
    } else if same_text(a, "--color") {
        if !has_next {
            return Err(text("--color needs auto, always, or never"));
        }
        let v = args[i + 1].as_str();
        assert(av[i + 1] == v@);
        if same_text(v, "auto") {
            options.color = ColorMode::Auto;
        } else if same_text(v, "always") {
            options.color = ColorMode::Always;
        } else if same_text(v, "never") {
            options.color = ColorMode::Never;
        } else {
            return Err(message("invalid --color value ", v));
        }
        Ok(i + 2)
    } else if same_text(a, "--config") {
        if !has_next {
            return Err(text("--config needs a path"));
        }
        Ok(i + 2)
    } else if same_text(a, "--theme") {
        if !has_next {
            return Err(text("--theme needs subtle or mono"));
        }
        let v = args[i + 1].as_str();
        assert(av[i + 1] == v@);
        if same_text(v, "subtle") {
            options.theme = Some(Theme::Subtle);
        } else if same_text(v, "mono") {
            options.theme = Some(Theme::Mono);
        } else {
            return Err(message("invalid --theme value ", v));
        }
        Ok(i + 2)
    } else {
        apply_other_flag(options, args, i)
    }
}

/// The flags that `apply_flag` leaves to this function: switches, icons,
/// logo, and what is no flag.
fn apply_other_flag(options: &mut Options, args: &[String], i: usize) -> (r: Result<usize, String>)
    requires
        i < args@.len(),
    ensures
        match r {
            Ok(j) => i < j <= args@.len() && option_step(old(options)@, strings_view(args@), i as int)
                == Ok::<(OptionsView, int), Seq<char>>((final(options)@, j as int)),
            Err(e) => option_step(old(options)@, strings_view(args@), i as int) == Err::<
                (OptionsView, int),
                Seq<char>,
            >(e@),
        },
{
    let ghost av = strings_view(args@);
    let a = args[i].as_str();
    let has_next = i + 1 < args.len();
    assert(av[i as int] == a@);
    if same_text(a, "--no-terminator") {
        options.no_terminator = true;
        Ok(i + 1)
    } else if same_text(a, "--no-term") {
        options.no_term = true;
        Ok(i + 1)
    } else if same_text(a, "--verbose") {
        options.verbose = true;
        Ok(i + 1)
    } else if same_text(a, "--probe") || same_text(a, "--debug-sysinfo") {
        options.probe = true;
        Ok(i + 1)
    } else if same_text(a, "--no-icons") {
        options.icons = IconMode::Off;
        Ok(i + 1)
    } else if same_text(a, "--json") {
        options.json = true;
        Ok(i + 1)
    } else if same_text(a, "--icons") {
        if !has_next {
            return Err(text("--icons needs on, off, or nerd"));
        }
        let v = args[i + 1].as_str();
        assert(av[i + 1] == v@);
        if same_text(v, "on") {
            options.icons = IconMode::Unicode;
        } else if same_text(v, "off") {
            options.icons = IconMode::Off;
        } else if same_text(v, "nerd") {
            options.icons = IconMode::Nerd;
        } else {
            return Err(message("invalid --icons value ", v));
        }
        Ok(i + 2)
    } else if same_text(a, "--logo") {
        if has_next && !dash_first(args[i + 1].as_str()) {
            assert(av[i + 1] == args@[i + 1]@);
            options.logo = Some(args[i + 1].clone());
            Ok(i + 2)
        } else {
            options.logo = Some(text("auto"));
            Ok(i + 1)
        }
    } else if dash_first(a) {
        Err(message("unknown option ", a))
    } else {
        Err(message("unexpected argument ", a))
    }
}

/// Reads the command line: flags override the config's defaults, `NO_COLOR`
/// keeps colour off whatever the flags say, and an unknown or incomplete flag
/// is an error. This library always has the JSON readout, so `--json` is
/// accepted as a switch; there is no build without JSON that would refuse
/// it with a request to rebuild.
pub fn parse_args(args: &[String], config: Config, no_color: bool) -> (r: Result<
    (Options, bool, bool),
    String,
>)
    ensures
        match r {
            Ok((o, help, version)) => parse_args_spec(strings_view(args@), config@, no_color) == Ok::<
                ParsedArgs,
                Seq<char>,
            >(ParsedArgs { options: o@, help, version }),
            Err(e) => parse_args_spec(strings_view(args@), config@, no_color) == Err::<
                ParsedArgs,
                Seq<char>,
            >(e@),
        },
{
    let ghost av = strings_view(args@);
    let mut options = Options {
        color: if no_color {
            ColorMode::Never
        } else {
            match config.color {
                Some(c) => c,
                None => ColorMode::Auto,
            }
        },
        icons: match config.icons {
            Some(i) => i,
            None => IconMode::Off,
        },
        logo: config.logo,
        rows: config.rows,
        theme: config.theme,
        no_terminator: false,
        no_term: false,
        verbose: false,
        probe: false,
        json: false,
    };
    let mut help = false;
    let mut version = false;
    let mut i: usize = 0;
    while i < args.len()
        invariant
            i <= args@.len(),
            av == strings_view(args@),
            read_args(av, config@, no_color) == apply_args(
                ParsedArgs { options: options@, help, version },
                av,
                i as int,
            ),
        decreases args@.len() - i,
    {
        match apply_flag(&mut options, &mut help, &mut version, args, i) {
            Ok(j) => {
                i = j;
            },
            Err(e) => {
                return Err(e);
            },
        }
    }
    if no_color {
        options.color = ColorMode::Never;
    }
    Ok((options, help, version))
}

fn dash_first(s: &str) -> (b: bool)
    ensures
        b == starts_with_dash(s@),
{
    let c = chars_of(s);
    c.len() > 0 && c[0] == '-'
}

/// The first position of `--config` that a value follows.
pub open spec fn config_flag_at(args: Seq<Seq<char>>, i: int) -> Option<int>
    decreases args.len() - i,
{
    if i < 0 || i + 1 >= args.len() {
        None
    } else if args[i] == "--config"@ {
        Some(i)
    } else {
        config_flag_at(args, i + 1)
    }
}

/// The path that follows the first `--config` flag, if any.
pub fn config_path(args: &[String]) -> (r: Option<String>)
    ensures
        match r {
            Some(p) => match config_flag_at(strings_view(args@), 0) {
                Some(i) => p@ == args@[i + 1]@,
                None => false,
            },
            None => config_flag_at(strings_view(args@), 0) is None,
        },
{
    let ghost av = strings_view(args@);
    let mut i: usize = 0;
    while i < args.len() && i + 1 < args.len()
        invariant
            av == strings_view(args@),
            config_flag_at(av, 0) == config_flag_at(av, i as int),
        decreases args@.len() - i,
    {
        assert(av[i as int] == args@[i as int]@);
        if same_text(args[i].as_str(), "--config") {
            return Some(args[i + 1].clone());
        }
        i += 1;
    }
    None
}


/// `base` joined with the relative path `rel`, as `Path::join` does on Unix:
/// a `/` between them unless `base` is empty or already ends in one.
pub open spec fn joined(base: Seq<char>, rel: Seq<char>) -> Seq<char> {
    if base.len() == 0 || base.last() == '/' {
        base + rel
    } else {
        base + seq!['/'] + rel
    }
}

fn join_path(base: &str, rel: &str) -> (s: String)
    ensures
        s@ == joined(base@, rel@),
{
    let b = chars_of(base);
    let mut s = String::new();
    push_str(&mut s, base);
    if b.len() > 0 && b[b.len() - 1] != '/' {
        crate::text::push_char(&mut s, '/');
    }
    push_str(&mut s, rel);
    s
}

/// Where the config file is looked for: the path given with `--config`;
/// else `minfetch/config` under `XDG_CONFIG_HOME`; else
/// `.config/minfetch/config` under `HOME`; else nowhere.
pub open spec fn config_location_spec(
    explicit: Option<Seq<char>>,
    xdg_config_home: Option<Seq<char>>,
    home: Option<Seq<char>>,
) -> Option<Seq<char>> {
    match explicit {
        Some(p) => Some(p),
        None => match xdg_config_home {
            Some(x) => Some(joined(x, "minfetch/config"@)),
            None => match home {
                Some(h) => Some(joined(h, ".config/minfetch/config"@)),
                None => None,
            },
        },
    }
}

/// The config file's path, from `--config`, `XDG_CONFIG_HOME` or `HOME`.
pub fn config_location(explicit: Option<&str>, xdg_config_home: Option<&str>, home: Option<&str>) -> (r:
    Option<String>)
    ensures
        opt_text(r) == config_location_spec(
            match explicit {
                Some(p) => Some(p@),
                None => None,
            },
            match xdg_config_home {
                Some(x) => Some(x@),
                None => None,
            },
            match home {
                Some(h) => Some(h@),
                None => None,
            },
        ),
{
    match explicit {
        Some(p) => Some(string_of(chars_of(p).as_slice())),
        None => match xdg_config_home {
            Some(x) => Some(join_path(x, "minfetch/config")),
            None => match home {
                Some(h) => Some(join_path(h, ".config/minfetch/config")),
                None => None,
            },
        },
    }
}

/// Why a file could not be read: whether it does not exist, and the
/// system's message.
pub struct ReadError {
    pub not_found: bool,
    pub message: String,
}

/// The config that a read of the config file gives: its text parsed; the
/// empty config when the file was looked for in the default place and does
/// not exist; otherwise `cannot read config PATH: MESSAGE`.
pub fn load_config(explicit: bool, path: &str, read: Result<String, ReadError>) -> (r: Result<
    Config,
    String,
>)
    ensures
        match read {
            Ok(content) => match r {
                Ok(c) => parse_config_spec(content@) == Ok::<ConfigView, Seq<char>>(c@),
                Err(e) => parse_config_spec(content@) == Err::<ConfigView, Seq<char>>(e@),
            },
            Err(failure) => if failure.not_found && !explicit {
                r matches Ok(c) && c@ == empty_config()
            } else {
                r matches Err(e) && e@ == "cannot read config "@ + path@ + ": "@
                    + failure.message@
            },
        },
{
    match read {
        Ok(content) => parse_config(content.as_str()),
        Err(failure) => {
            if failure.not_found && !explicit {
                Ok(Config::default())
            } else {
                let mut e = String::new();
                push_str(&mut e, "cannot read config ");
                push_str(&mut e, path);
                push_str(&mut e, ": ");
                push_str(&mut e, failure.message.as_str());
                assert(e@ =~= "cannot read config "@ + path@ + ": "@ + failure.message@);
                Err(e)
            }
        },
    }
}

} // verus!
