//! Layout of the readout: labels, icons, truncation to the pane and the
//! placement of an optional logo.

use crate::config::IconMode;
use crate::number::{decimal, push_decimal};
use crate::text::{
    chars_of, copy_chars, eq_str, lines, opt_view, push_char, push_chars, push_repeat, push_str,
    repeat_char, same_text, strings_view, terminated, text_lines,
};
use crate::width::{
    all_plain, char_cols, char_columns, char_display_width, cols, display_width, is_plain,
    text_columns,
};
use vstd::prelude::*;

verus! {

/// The ellipsis that ends a truncated value.
pub const ELLIPSIS: char = '\u{2026}';

/// The escape sequence that starts a coloured label.
pub open spec fn ansi_label() -> Seq<char> {
    seq!['\u{1b}', '[', '3', '6', 'm']
}

/// The escape sequence that ends a coloured label.
pub open spec fn ansi_reset() -> Seq<char> {
    seq!['\u{1b}', '[', '0', 'm']
}

pub open spec fn colorize_spec(value: Seq<char>, color: bool) -> Seq<char> {
    if color {
        ansi_label() + value + ansi_reset()
    } else {
        value
    }
}

/// `value`, wrapped in the label colour when `color` is set.
pub fn colorize(value: &str, color: bool) -> (s: String)
    ensures
        s@ == colorize_spec(value@, color),
{
    let mut s = String::new();
    if color {
        push_char(&mut s, '\u{1b}');
        push_char(&mut s, '[');
        push_char(&mut s, '3');
        push_char(&mut s, '6');
        push_char(&mut s, 'm');
        push_str(&mut s, value);
        push_char(&mut s, '\u{1b}');
        push_char(&mut s, '[');
        push_char(&mut s, '0');
        push_char(&mut s, 'm');
        assert(s@ =~= ansi_label() + value@ + ansi_reset());
    } else {
        push_str(&mut s, value);
        assert(s@ =~= value@);
    }
    s
}

/// The width a character takes when a value is truncated (a control
/// character takes none).
pub open spec fn width_or_zero(c: char) -> int {
    match char_columns(c) {
        Some(w) => w as int,
        None => 0,
    }
}

/// The longest prefix of `v` whose characters, taken in order, fit in
/// `budget` columns; it stops at the first character that does not fit.
pub open spec fn fitting_prefix(v: Seq<char>, budget: int) -> Seq<char>
    decreases v.len(),
{
    if v.len() == 0 {
        Seq::empty()
    } else if width_or_zero(v[0]) > budget {
        Seq::empty()
    } else {
        seq![v[0]] + fitting_prefix(v.drop_first(), budget - width_or_zero(v[0]))
    }
}

/// `value` cut to `width` columns: unchanged when it fits, otherwise the
/// characters that fit in `width - 1` columns followed by an ellipsis.
pub open spec fn truncate_spec(value: Seq<char>, width: int) -> Seq<char> {
    if text_columns(value) <= width {
        value
    } else if width <= 0 {
        Seq::empty()
    } else if width == 1 {
        seq![ELLIPSIS]
    } else {
        fitting_prefix(value, width - 1).push(ELLIPSIS)
    }
}

/// `value` truncated to `width` display columns.
pub fn truncate(value: &str, width: usize) -> (s: String)
    ensures
        s@ == truncate_spec(value@, width as int),
        all_plain(value@) ==> all_plain(s@) && cols(s@) <= width,
{
    if display_width(value) <= width {
        let mut s = String::new();
        push_str(&mut s, value);
        assert(s@ =~= value@);
        return s;
    }
    if width == 0 {
        return String::new();
    }
    if width == 1 {
        let mut s = String::new();
        push_char(&mut s, ELLIPSIS);
        assert(s@ =~= seq![ELLIPSIS]);
        assert(s@.drop_last() =~= Seq::<char>::empty());
        assert(cols(Seq::<char>::empty()) == 0);
        assert(s@.last() == ELLIPSIS && char_cols(ELLIPSIS) == 1);
        assert(cols(s@) == 1);
        return s;
    }
    let v = chars_of(value);
    let budget = width - 1;
    let mut result = String::new();
    let mut used: usize = 0;
    let mut i: usize = 0;
    assert(v@.skip(0) =~= v@);
    while i < v.len()
        invariant_except_break
            i <= v@.len(),
            used <= budget,
            fitting_prefix(v@, budget as int) == result@ + fitting_prefix(
                v@.skip(i as int),
                budget - used,
            ),
            v@ == value@,
            all_plain(value@) ==> all_plain(result@) && cols(result@) == used,
        ensures
            fitting_prefix(v@, budget as int) == result@,
            all_plain(value@) ==> all_plain(result@) && cols(result@) <= budget,
        decreases v@.len() - i,
    {
        let c = v[i];
        assert(all_plain(value@) ==> is_plain(value@[i as int]));
        let w: usize = match char_display_width(c) {
            Some(w) => w,
            None => 0,
        };
        assert(v@.skip(i as int)[0] == c);
        if w > budget - used {
            assert(result@ + Seq::<char>::empty() =~= result@);
            break;
        }
        assert(v@.skip(i as int).drop_first() =~= v@.skip(i + 1));
        let ghost before = result@;
        let ghost tail = fitting_prefix(v@.skip(i + 1), budget - used - w);
        push_char(&mut result, c);
        assert(before + (seq![c] + tail) =~= result@ + tail);
        assert(result@.drop_last() =~= before);
        assert(all_plain(value@) ==> all_plain(result@)) by {
            if all_plain(value@) {
                assert forall|j: int| 0 <= j < result@.len() implies is_plain(
                    #[trigger] result@[j],
                ) by {
                    if j < before.len() {
                        assert(result@[j] == before[j]);
                    }
                }
            }
        }
        used = used + w;
        i += 1;
    }
    let ghost cut = result@;
    push_char(&mut result, ELLIPSIS);
    assert(result@.drop_last() =~= cut);
    assert(all_plain(value@) ==> all_plain(result@)) by {
        if all_plain(value@) {
            assert forall|j: int| 0 <= j < result@.len() implies is_plain(#[trigger] result@[j]) by {
                if j < cut.len() {
                    assert(result@[j] == cut[j]);
                }
            }
        }
    }
    result
}


/// The number of spaces that bring `value` to `width` columns.
pub open spec fn pad_room(value: Seq<char>, width: int) -> nat {
    if width > text_columns(value) {
        (width - text_columns(value)) as nat
    } else {
        0
    }
}

pub open spec fn pad_spec(value: Seq<char>, width: int) -> Seq<char> {
    value + repeat_char(' ', pad_room(value, width))
}

/// `value` followed by the spaces that bring it to `width` display columns.
pub fn pad_display(value: &str, width: usize) -> (s: String)
    ensures
        s@ == pad_spec(value@, width as int),
{
    let w = display_width(value);
    let room = if width > w {
        width - w
    } else {
        0
    };
    let mut s = String::new();
    push_str(&mut s, value);
    push_repeat(&mut s, ' ', room);
    assert(s@ =~= pad_spec(value@, width as int));
    s
}

pub open spec fn ascii_upper(c: char) -> char {
    if 'a' <= c && c <= 'z' {
        ((c as u32 - 32) as u8) as char
    } else {
        c
    }
}

/// The label without icons: `os`, `cpu` and `gpu` in capitals, any other
/// label with its first character upper-cased, then a colon; an empty label
/// stays empty.
pub open spec fn plain_label(label: Seq<char>) -> Seq<char> {
    let l = if label == "os"@ {
        "OS"@
    } else if label == "cpu"@ {
        "CPU"@
    } else if label == "gpu"@ {
        "GPU"@
    } else {
        label
    };
    if l.len() == 0 {
        Seq::empty()
    } else {
        seq![ascii_upper(l[0])] + l.drop_first() + seq![':']
    }
}

/// The symbol that stands before a label, from the Nerd Font set or the
/// portable Unicode set.
pub open spec fn icon_symbol(label: Seq<char>, nerd: bool) -> char {
    if nerd {
        if label == "hostname"@ {
            '\u{f0ac}'
        } else if label == "user"@ {
            '\u{f007}'
        } else if label == "os"@ {
            '\u{f17c}'
        } else if label == "kernel"@ {
            '\u{f0c9}'
        } else if label == "uptime"@ {
            '\u{f017}'
        } else if label == "shell"@ || label == "terminal"@ {
            '\u{f120}'
        } else if label == "cpu"@ {
            '\u{f2db}'
        } else if label == "gpu"@ || label == "desktop"@ {
            '\u{f108}'
        } else if label == "memory"@ {
            '\u{f538}'
        } else if label == "disk"@ {
            '\u{f0a0}'
        } else if label == "temperature"@ {
            '\u{f2c9}'
        } else {
            '\u{f128}'
        }
    } else {
        if label == "os"@ {
            '\u{2022}'
        } else if label == "kernel"@ {
            '\u{25c7}'
        } else if label == "uptime"@ {
            '\u{25f7}'
        } else if label == "shell"@ {
            '\u{203a}'
        } else if label == "terminal"@ {
            '\u{25b9}'
        } else if label == "cpu"@ {
            '\u{25c8}'
        } else if label == "gpu"@ {
            '\u{25d0}'
        } else if label == "memory"@ {
            '\u{25a3}'
        } else if label == "disk"@ {
            '\u{25eb}'
        } else if label == "desktop"@ {
            '\u{25a7}'
        } else if label == "temperature"@ {
            '\u{25cc}'
        } else {
            '\u{2022}'
        }
    }
}

/// The text after the icon: the plain label, but for the `os` row in the
/// portable Unicode set, which reads `os:` in lower case (so that row reads
/// `• os:`).
pub open spec fn icon_text(label: Seq<char>, nerd: bool) -> Seq<char> {
    if !nerd && label == "os"@ {
        "os:"@
    } else {
        plain_label(label)
    }
}

pub open spec fn icon_spec(label: Seq<char>, nerd: bool) -> Seq<char> {
    seq![icon_symbol(label, nerd), ' '] + icon_text(label, nerd)
}

/// The text shown for a label in the given icon mode.
pub open spec fn label_text_spec(label: Seq<char>, icons: IconMode) -> Seq<char> {
    match icons {
        IconMode::Unicode => icon_spec(label, false),
        IconMode::Nerd => icon_spec(label, true),
        IconMode::Off => plain_label(label),
    }
}

fn ascii_upper_exec(c: char) -> (u: char)
    ensures
        u == ascii_upper(c),
{
    if 'a' <= c && c <= 'z' {
        ((c as u32 - 32) as u8) as char
    } else {
        c
    }
}

fn plain_label_chars(label: &[char]) -> (s: String)
    ensures
        s@ == plain_label(label@),
{
    let mapped: Vec<char> = if eq_str(label, "os") {
        chars_of("OS")
    } else if eq_str(label, "cpu") {
        chars_of("CPU")
    } else if eq_str(label, "gpu") {
        chars_of("GPU")
    } else {
        copy_chars(label)
    };
    let mut s = String::new();
    if mapped.len() == 0 {
        return s;
    }
    push_char(&mut s, ascii_upper_exec(mapped[0]));
    push_chars(&mut s, &mapped.as_slice()[1..mapped.len()]);
    push_char(&mut s, ':');
    assert(mapped@.subrange(1, mapped@.len() as int) =~= mapped@.drop_first());
    assert(s@ =~= plain_label(label@));
    s
}

fn icon_symbol_exec(label: &[char], nerd: bool) -> (c: char)
    ensures
        c == icon_symbol(label@, nerd),
{
    if nerd {
        if eq_str(label, "hostname") {
            '\u{f0ac}'
        } else if eq_str(label, "user") {
            '\u{f007}'
        } else if eq_str(label, "os") {
            '\u{f17c}'
        } else if eq_str(label, "kernel") {
            '\u{f0c9}'
        } else if eq_str(label, "uptime") {
            '\u{f017}'
        } else if eq_str(label, "shell") || eq_str(label, "terminal") {
            '\u{f120}'
        } else if eq_str(label, "cpu") {
            '\u{f2db}'
        } else if eq_str(label, "gpu") || eq_str(label, "desktop") {
            '\u{f108}'
        } else if eq_str(label, "memory") {
            '\u{f538}'
        } else if eq_str(label, "disk") {
            '\u{f0a0}'
        } else if eq_str(label, "temperature") {
            '\u{f2c9}'
        } else {
            '\u{f128}'
        }
    } else {
        if eq_str(label, "os") {
            '\u{2022}'
        } else if eq_str(label, "kernel") {
            '\u{25c7}'
        } else if eq_str(label, "uptime") {
            '\u{25f7}'
        } else if eq_str(label, "shell") {
            '\u{203a}'
        } else if eq_str(label, "terminal") {
            '\u{25b9}'
        } else if eq_str(label, "cpu") {
            '\u{25c8}'
        } else if eq_str(label, "gpu") {
            '\u{25d0}'
        } else if eq_str(label, "memory") {
            '\u{25a3}'
        } else if eq_str(label, "disk") {
            '\u{25eb}'
        } else if eq_str(label, "desktop") {
            '\u{25a7}'
        } else if eq_str(label, "temperature") {
            '\u{25cc}'
        } else {
            '\u{2022}'
        }
    }
}

/// A label with its icon in front: the symbol, a space, then the label's text
/// (`icon_text`).
pub fn icon(label: &str, nerd: bool) -> (s: String)
    ensures
        s@ == icon_spec(label@, nerd),
{
    let l = chars_of(label);
    let mut s = String::new();
    push_char(&mut s, icon_symbol_exec(l.as_slice(), nerd));
    push_char(&mut s, ' ');
    if !nerd && eq_str(l.as_slice(), "os") {
        push_str(&mut s, "os:");
    } else {
        let plain = plain_label_chars(l.as_slice());
        push_str(&mut s, plain.as_str());
    }
    assert(s@ =~= icon_spec(label@, nerd));
    s
}

/// The text that stands for `label` in the readout.
pub fn label_text(label: &str, icons: IconMode) -> (s: String)
    ensures
        s@ == label_text_spec(label@, icons),
{
    match icons {
        IconMode::Unicode => icon(label, false),
        IconMode::Nerd => icon(label, true),
        IconMode::Off => {
            let l = chars_of(label);
            plain_label_chars(l.as_slice())
        },
    }
}


/// A row as text: its label and its value.
pub open spec fn row_view(r: (String, String)) -> (Seq<char>, Seq<char>) {
    (r.0@, r.1@)
}

pub open spec fn rows_view(rows: Seq<(String, String)>) -> Seq<(Seq<char>, Seq<char>)> {
    rows.map_values(|r: (String, String)| row_view(r))
}

/// The value of the first row with the given label.
pub open spec fn find_value(rows: Seq<(Seq<char>, Seq<char>)>, label: Seq<char>) -> Option<
    Seq<char>,
>
    decreases rows.len(),
{
    if rows.len() == 0 {
        None
    } else if rows[0].0 == label {
        Some(rows[0].1)
    } else {
        find_value(rows.drop_first(), label)
    }
}

/// `user@hostname`, when both rows are present.
pub open spec fn identity_spec(rows: Seq<(Seq<char>, Seq<char>)>) -> Option<Seq<char>> {
    match (find_value(rows, "user"@), find_value(rows, "hostname"@)) {
        (Some(user), Some(host)) => Some(user + seq!['@'] + host),
        _ => None,
    }
}

pub open spec fn is_identity_label(label: Seq<char>) -> bool {
    label == "user"@ || label == "hostname"@
}

/// The rows other than `user` and `hostname`, in order.
pub open spec fn without_identity(rows: Seq<(Seq<char>, Seq<char>)>) -> Seq<
    (Seq<char>, Seq<char>),
>
    decreases rows.len(),
{
    if rows.len() == 0 {
        Seq::empty()
    } else {
        let rest = without_identity(rows.drop_last());
        if is_identity_label(rows.last().0) {
            rest
        } else {
            rest.push(rows.last())
        }
    }
}

/// The rows listed under the header: all of them, or, when the identity
/// header is shown, all but `user` and `hostname`.
pub open spec fn listed_rows(rows: Seq<(Seq<char>, Seq<char>)>) -> Seq<(Seq<char>, Seq<char>)> {
    if identity_spec(rows) is Some {
        without_identity(rows)
    } else {
        rows
    }
}

pub open spec fn width_plus_one(w: nat) -> int {
    if w >= usize::MAX {
        w as int
    } else {
        w as int + 1
    }
}

/// The label column: one more than the widest label, and at least 1.
pub open spec fn info_width_spec(labels: Seq<Seq<char>>) -> int
    decreases labels.len(),
{
    if labels.len() == 0 {
        1
    } else {
        let rest = info_width_spec(labels.drop_last());
        let w = width_plus_one(text_columns(labels.last()));
        if w > rest {
            w
        } else {
            rest
        }
    }
}

/// The widest logo line (0 without a logo).
pub open spec fn logo_width_spec(logo: Seq<Seq<char>>) -> int
    decreases logo.len(),
{
    if logo.len() == 0 {
        0
    } else {
        let rest = logo_width_spec(logo.drop_last());
        let w = text_columns(logo.last()) as int;
        if w > rest {
            w
        } else {
            rest
        }
    }
}

pub open spec fn sat_sub(a: int, b: int) -> int {
    if a > b {
        a - b
    } else {
        0
    }
}

/// A row beside the logo or in a wide pane: the coloured, padded label, a
/// space and the value cut to `room` columns.
pub open spec fn row_line_spec(
    row: (Seq<char>, Seq<char>),
    icons: IconMode,
    info_width: int,
    room: int,
    color: bool,
) -> Seq<char> {
    colorize_spec(pad_spec(label_text_spec(row.0, icons), info_width), color) + seq![' ']
        + truncate_spec(row.1, room)
}

/// The text right of the logo on line `i` of the side-by-side layout; a
/// value gets `room` columns.
pub open spec fn side_right(
    i: int,
    header: Option<Seq<char>>,
    rows: Seq<(Seq<char>, Seq<char>)>,
    icons: IconMode,
    info_width: int,
    room: int,
    color: bool,
) -> Seq<char> {
    match header {
        Some(h) => if i == 0 {
            colorize_spec(h, color)
        } else if i == 1 {
            repeat_char('-', text_columns(h))
        } else if i - 2 < rows.len() {
            row_line_spec(rows[i - 2], icons, info_width, room, color)
        } else {
            Seq::empty()
        },
        None => if i < rows.len() {
            row_line_spec(rows[i], icons, info_width, room, color)
        } else {
            Seq::empty()
        },
    }
}

/// The columns left for a value beside the logo: the pane's width less the
/// logo column, the two spaces after it, the label column and the space
/// after that.
pub open spec fn side_room(width: int, logo_width: int, info_width: int) -> int {
    sat_sub(width, logo_width + info_width + 3)
}

/// Logo and rows side by side: each line is a logo line padded to the logo
/// width, two spaces, and the header or a row.
pub open spec fn side_lines(
    logo: Seq<Seq<char>>,
    header: Option<Seq<char>>,
    rows: Seq<(Seq<char>, Seq<char>)>,
    icons: IconMode,
    info_width: int,
    width: int,
    color: bool,
) -> Seq<Seq<char>> {
    let right_count = rows.len() + if header is Some {
        2int
    } else {
        0
    };
    let count = if right_count > logo.len() {
        right_count
    } else {
        logo.len() as int
    };
    Seq::new(
        count as nat,
        |i: int|
            {
                let left = if i < logo.len() {
                    logo[i]
                } else {
                    Seq::empty()
                };
                pad_spec(left, logo_width_spec(logo)) + seq![' ', ' '] + side_right(
                    i,
                    header,
                    rows,
                    icons,
                    info_width,
                    side_room(width, logo_width_spec(logo), info_width),
                    color,
                )
            },
    )
}

/// The header lines: `user@hostname` and a rule as wide as it.
pub open spec fn header_lines(header: Option<Seq<char>>, color: bool) -> Seq<Seq<char>> {
    match header {
        Some(h) => seq![colorize_spec(h, color), repeat_char('-', text_columns(h))],
        None => Seq::empty(),
    }
}

/// The rows below one another: in a pane of at most 30 columns the label
/// and the value each take a line; otherwise a row takes one line.
pub open spec fn stacked_row_lines(
    rows: Seq<(Seq<char>, Seq<char>)>,
    icons: IconMode,
    info_width: int,
    width: int,
    color: bool,
) -> Seq<Seq<char>> {
    let room = sat_sub(width, info_width + 1);
    if width <= 30 {
        Seq::new(
            2 * rows.len(),
            |k: int|
                if k % 2 == 0 {
                    colorize_spec(truncate_spec(label_text_spec(rows[k / 2].0, icons), width), color)
                } else {
                    truncate_spec(truncate_spec(rows[k / 2].1, room), width)
                },
        )
    } else {
        Seq::new(
            rows.len(),
            |k: int|
                colorize_spec(pad_spec(label_text_spec(rows[k].0, icons), info_width), color)
                    + seq![' '] + truncate_spec(rows[k].1, room),
        )
    }
}

/// The logo, header and rows below one another; the logo only when it and
/// the rows fit in the height.
pub open spec fn stacked_lines(
    logo: Seq<Seq<char>>,
    header: Option<Seq<char>>,
    rows: Seq<(Seq<char>, Seq<char>)>,
    icons: IconMode,
    info_width: int,
    width: int,
    height: int,
    color: bool,
) -> Seq<Seq<char>> {
    let logo_part = if logo.len() > 0 && logo.len() + rows.len() <= height {
        logo
    } else {
        Seq::empty()
    };
    logo_part + header_lines(header, color) + stacked_row_lines(
        rows,
        icons,
        info_width,
        width,
        color,
    )
}

/// Whether the logo and the rows stand side by side: there is a logo, and
/// the pane has room for it, the label column and a value.
pub open spec fn is_side_by_side(logo_lines: Seq<Seq<char>>, info_width: int, width: int) -> bool {
    logo_lines.len() > 0 && width >= logo_width_spec(logo_lines) + info_width + 4
}

/// Every line of the readout, before the cut to the pane's height. The
/// `user@hostname` header is cut to the pane's width, less the logo column
/// and its two spaces when it stands beside the logo.
pub open spec fn layout_lines(
    rows: Seq<(Seq<char>, Seq<char>)>,
    logo: Option<Seq<char>>,
    width: int,
    height: int,
    icons: IconMode,
    color: bool,
) -> Seq<Seq<char>> {
    let listed = listed_rows(rows);
    let labels = listed.map_values(|r: (Seq<char>, Seq<char>)| label_text_spec(r.0, icons));
    let info_width = info_width_spec(labels);
    let logo_lines = match logo {
        Some(l) => lines(l),
        None => Seq::empty(),
    };
    let side = is_side_by_side(logo_lines, info_width, width);
    let header_room = if side {
        sat_sub(width, logo_width_spec(logo_lines) + 2)
    } else {
        width
    };
    let header = match identity_spec(rows) {
        Some(id) => Some(truncate_spec(id, header_room)),
        None => None,
    };
    if side {
        side_lines(logo_lines, header, listed, icons, info_width, width, color)
    } else {
        stacked_lines(logo_lines, header, listed, icons, info_width, width, height, color)
    }
}

/// The readout: the layout's first `height` lines, each ending in a line
/// feed.
pub open spec fn render_spec(
    rows: Seq<(Seq<char>, Seq<char>)>,
    logo: Option<Seq<char>>,
    width: int,
    height: int,
    icons: IconMode,
    color: bool,
) -> Seq<char> {
    let all = layout_lines(rows, logo, width, height, icons, color);
    let shown = if all.len() > height {
        all.take(height)
    } else {
        all
    };
    terminated(shown)
}


/// The position of the first row with the given label.
fn find_row(rows: &[(String, String)], label: &str) -> (r: Option<usize>)
    ensures
        match r {
            Some(i) => i < rows@.len() && find_value(rows_view(rows@), label@) == Some(
                rows@[i as int].1@,
            ),
            None => find_value(rows_view(rows@), label@) is None,
        },
{
    let ghost view = rows_view(rows@);
    let mut i: usize = 0;
    assert(view.skip(0) =~= view);
    while i < rows.len()
        invariant
            i <= rows@.len(),
            view == rows_view(rows@),
            find_value(view, label@) == find_value(view.skip(i as int), label@),
        decreases rows@.len() - i,
    {
        assert(view.skip(i as int)[0] == row_view(rows@[i as int]));
        if same_text(rows[i].0.as_str(), label) {
            return Some(i);
        }
        assert(view.skip(i as int).drop_first() =~= view.skip(i + 1));
        i += 1;
    }
    assert(view.skip(i as int) =~= Seq::<(Seq<char>, Seq<char>)>::empty());
    None
}

/// `user@hostname`, when both rows are present.
fn identity(rows: &[(String, String)]) -> (r: Option<String>)
    ensures
        match r {
            Some(s) => identity_spec(rows_view(rows@)) == Some(s@),
            None => identity_spec(rows_view(rows@)) is None,
        },
{
    match (find_row(rows, "user"), find_row(rows, "hostname")) {
        (Some(u), Some(h)) => {
            let mut s = String::new();
            push_str(&mut s, rows[u].1.as_str());
            push_char(&mut s, '@');
            push_str(&mut s, rows[h].1.as_str());
            Some(s)
        },
        _ => None,
    }
}

fn is_identity_row(label: &str) -> (b: bool)
    ensures
        b == is_identity_label(label@),
{
    same_text(label, "user") || same_text(label, "hostname")
}

/// The rows other than `user` and `hostname`.
fn rows_without_identity(rows: &[(String, String)]) -> (v: Vec<(String, String)>)
    ensures
        rows_view(v@) == without_identity(rows_view(rows@)),
{
    let ghost view = rows_view(rows@);
    let mut v: Vec<(String, String)> = Vec::new();
    let mut i: usize = 0;
    assert(view.take(0) =~= Seq::<(Seq<char>, Seq<char>)>::empty());
    assert(rows_view(v@) =~= Seq::<(Seq<char>, Seq<char>)>::empty());
    while i < rows.len()
        invariant
            i <= rows@.len(),
            view == rows_view(rows@),
            rows_view(v@) == without_identity(view.take(i as int)),
        decreases rows@.len() - i,
    {
        assert(view.take(i + 1).drop_last() =~= view.take(i as int));
        assert(view.take(i + 1).last() == row_view(rows@[i as int]));
        if !is_identity_row(rows[i].0.as_str()) {
            let ghost before = v@;
            v.push((rows[i].0.clone(), rows[i].1.clone()));
            assert(rows_view(v@) =~= rows_view(before).push(row_view(rows@[i as int])));
        }
        i += 1;
    }
    assert(view.take(i as int) =~= view);
    v
}

/// The listed rows: all of them, or all but `user` and `hostname` when the
/// identity header is shown.
fn listed(rows: &[(String, String)], has_identity: bool) -> (v: Vec<(String, String)>)
    requires
        has_identity == identity_spec(rows_view(rows@)) is Some,
    ensures
        rows_view(v@) == listed_rows(rows_view(rows@)),
        v@.len() <= rows@.len(),
{
    if has_identity {
        let v = rows_without_identity(rows);
        proof {
            lemma_without_identity_len(rows_view(rows@));
        }
        v
    } else {
        let mut v: Vec<(String, String)> = Vec::new();
        let mut i: usize = 0;
        while i < rows.len()
            invariant
                i <= rows@.len(),
                v@.len() == i,
                forall|j: int| 0 <= j < i ==> row_view(#[trigger] v@[j]) == row_view(rows@[j]),
            decreases rows@.len() - i,
        {
            v.push((rows[i].0.clone(), rows[i].1.clone()));
            i += 1;
        }
        assert(rows_view(v@) =~= rows_view(rows@));
        v
    }
}

proof fn lemma_without_identity_len(rows: Seq<(Seq<char>, Seq<char>)>)
    ensures
        without_identity(rows).len() <= rows.len(),
    decreases rows.len(),
{
    if rows.len() > 0 {
        lemma_without_identity_len(rows.drop_last());
    }
}

/// A row in the label column: padded label, a space, the value cut to
/// `room` columns.
fn row_line(label: &str, value: &str, info_width: usize, room: usize, color: bool) -> (s: String)
    ensures
        s@ == colorize_spec(pad_spec(label@, info_width as int), color) + seq![' ']
            + truncate_spec(value@, room as int),
{
    let padded = pad_display(label, info_width);
    let mut s = colorize(padded.as_str(), color);
    push_char(&mut s, ' ');
    let cut = truncate(value, room);
    push_str(&mut s, cut.as_str());
    s
}

/// The rule under the header: one `-` per column of the header.
fn rule(header: &str) -> (s: String)
    ensures
        s@ == repeat_char('-', text_columns(header@)),
{
    let mut s = String::new();
    push_repeat(&mut s, '-', display_width(header));
    assert(s@ =~= repeat_char('-', text_columns(header@)));
    s
}


/// The lines of the side-by-side layout.
fn side_by_side(
    logo: &Vec<String>,
    logo_width: usize,
    header: &Option<String>,
    rows: &Vec<(String, String)>,
    labels: &Vec<String>,
    info_width: usize,
    width: usize,
    color: bool,
    Ghost(icons): Ghost<IconMode>,
) -> (v: Vec<String>)
    requires
        logo_width == logo_width_spec(strings_view(logo@)),
        labels@.len() == rows@.len(),
        forall|j: int|
            0 <= j < rows@.len() ==> #[trigger] labels@[j]@ == label_text_spec(rows@[j].0@, icons),
        rows@.len() + 2 <= usize::MAX,
    ensures
        strings_view(v@) == side_lines(
            strings_view(logo@),
            opt_view(*header),
            rows_view(rows@),
            icons,
            info_width as int,
            width as int,
            color,
        ),
{
    let ghost logo_v = strings_view(logo@);
    let ghost hv = opt_view(*header);
    let ghost rv = rows_view(rows@);
    let ghost target = side_lines(logo_v, hv, rv, icons, info_width as int, width as int, color);
    let right_count = if header.is_some() {
        rows.len() + 2
    } else {
        rows.len()
    };
    let count = if right_count > logo.len() {
        right_count
    } else {
        logo.len()
    };
    assert(count == target.len());
    let taken: u128 = (logo_width as u128) + (info_width as u128) + 3;
    let room: usize = if (width as u128) > taken {
        (width as u128 - taken) as usize
    } else {
        0
    };
    assert(room as int == side_room(width as int, logo_width as int, info_width as int));
    let mut v: Vec<String> = Vec::new();
    let mut i: usize = 0;
    while i < count
        invariant
            i <= count,
            count == target.len(),
            target == side_lines(logo_v, hv, rv, icons, info_width as int, width as int, color),
            logo_v == strings_view(logo@),
            hv == opt_view(*header),
            rv == rows_view(rows@),
            logo_width == logo_width_spec(logo_v),
            room as int == side_room(width as int, logo_width as int, info_width as int),
            labels@.len() == rows@.len(),
            forall|j: int|
                0 <= j < rows@.len() ==> #[trigger] labels@[j]@ == label_text_spec(
                    rows@[j].0@,
                    icons,
                ),
            v@.len() == i,
            forall|j: int| 0 <= j < i ==> #[trigger] v@[j]@ == target[j],
        decreases count - i,
    {
        let left: String = if i < logo.len() {
            logo[i].clone()
        } else {
            String::new()
        };
        let right: String = match header {
            Some(h) => {
                if i == 0 {
                    colorize(h.as_str(), color)
                } else if i == 1 {
                    rule(h.as_str())
                } else if i - 2 < rows.len() {
                    row_line(
                        labels[i - 2].as_str(),
                        rows[i - 2].1.as_str(),
                        info_width,
                        room,
                        color,
                    )
                } else {
                    String::new()
                }
            },
            None => {
                if i < rows.len() {
                    row_line(labels[i].as_str(), rows[i].1.as_str(), info_width, room, color)
                } else {
                    String::new()
                }
            },
        };
        assert(right@ == side_right(
            i as int,
            hv,
            rv,
            icons,
            info_width as int,
            room as int,
            color,
        ));
        let mut line = pad_display(left.as_str(), logo_width);
        push_char(&mut line, ' ');
        push_char(&mut line, ' ');
        push_str(&mut line, right.as_str());
        assert(line@ =~= target[i as int]);
        v.push(line);
        i += 1;
    }
    assert(strings_view(v@) =~= target);
    v
}


/// The lines of the stacked layout.
fn stacked(
    logo: &Vec<String>,
    header: &Option<String>,
    rows: &Vec<(String, String)>,
    labels: &Vec<String>,
    info_width: usize,
    width: usize,
    height: usize,
    color: bool,
    Ghost(icons): Ghost<IconMode>,
) -> (v: Vec<String>)
    requires
        labels@.len() == rows@.len(),
        forall|j: int|
            0 <= j < rows@.len() ==> #[trigger] labels@[j]@ == label_text_spec(rows@[j].0@, icons),
    ensures
        strings_view(v@) == stacked_lines(
            strings_view(logo@),
            opt_view(*header),
            rows_view(rows@),
            icons,
            info_width as int,
            width as int,
            height as int,
            color,
        ),
{
    let ghost logo_v = strings_view(logo@);
    let ghost rv = rows_view(rows@);
    let mut v: Vec<String> = Vec::new();
    if logo.len() > 0 && (logo.len() as u128) + (rows.len() as u128) <= height as u128 {
        let mut i: usize = 0;
        while i < logo.len()
            invariant
                i <= logo@.len(),
                v@.len() == i,
                forall|j: int| 0 <= j < i ==> #[trigger] v@[j]@ == logo@[j]@,
            decreases logo@.len() - i,
        {
            v.push(logo[i].clone());
            i += 1;
        }
    }
    let ghost logo_part = if logo_v.len() > 0 && logo_v.len() + rv.len() <= height {
        logo_v
    } else {
        Seq::<Seq<char>>::empty()
    };
    assert(strings_view(v@) =~= logo_part);
    match header {
        Some(h) => {
            v.push(colorize(h.as_str(), color));
            v.push(rule(h.as_str()));
        },
        None => {},
    }
    let ghost base = logo_part + header_lines(opt_view(*header), color);
    assert(strings_view(v@) =~= base);
    let ghost rl = stacked_row_lines(rv, icons, info_width as int, width as int, color);
    let room: usize = if width > info_width && width - info_width > 1 {
        width - info_width - 1
    } else {
        0
    };
    assert(room as int == sat_sub(width as int, info_width + 1));
    let mut k: usize = 0;
    assert(rl.take(0) =~= Seq::<Seq<char>>::empty());
    assert(base + rl.take(0) =~= base);
    while k < rows.len()
        invariant
            k <= rows@.len(),
            rv == rows_view(rows@),
            rl == stacked_row_lines(rv, icons, info_width as int, width as int, color),
            room as int == sat_sub(width as int, info_width + 1),
            labels@.len() == rows@.len(),
            forall|j: int|
                0 <= j < rows@.len() ==> #[trigger] labels@[j]@ == label_text_spec(
                    rows@[j].0@,
                    icons,
                ),
            width <= 30 ==> strings_view(v@) == base + rl.take(2 * k),
            width > 30 ==> strings_view(v@) == base + rl.take(k as int),
        decreases rows@.len() - k,
    {
        let ghost before = strings_view(v@);
        if width <= 30 {
            let label_cut = truncate(labels[k].as_str(), width);
            let value_cut = truncate(rows[k].1.as_str(), room);
            v.push(colorize(label_cut.as_str(), color));
            v.push(truncate(value_cut.as_str(), width));
            assert(rl.take(2 * k + 2) =~= rl.take(2 * k).push(rl[2 * k]).push(rl[2 * k + 1]));
            assert(strings_view(v@) =~= before.push(rl[2 * k]).push(rl[2 * k + 1]));
            assert(base + rl.take(2 * (k + 1)) =~= (base + rl.take(2 * k)).push(rl[2 * k]).push(
                rl[2 * k + 1],
            ));
        } else {
            v.push(row_line(labels[k].as_str(), rows[k].1.as_str(), info_width, room, color));
            assert(rl.take(k + 1) =~= rl.take(k as int).push(rl[k as int]));
            assert(strings_view(v@) =~= before.push(rl[k as int]));
            assert(base + rl.take(k + 1) =~= (base + rl.take(k as int)).push(rl[k as int]));
        }
        k += 1;
    }
    assert(width <= 30 ==> rl.take(2 * k) =~= rl);
    assert(width > 30 ==> rl.take(k as int) =~= rl);
    v
}

/// The readout of `rows` for a pane of `width` columns and `height` lines,
/// with an optional logo, in the given icon mode, with coloured labels when
/// `color` is set.
pub fn render_with_color(
    rows: &[(String, String)],
    logo: Option<&str>,
    width: usize,
    height: usize,
    icons: IconMode,
    color: bool,
) -> (out: String)
    requires
        rows@.len() + 2 <= usize::MAX,
    ensures
        out@ == render_spec(
            rows_view(rows@),
            match logo {
                Some(l) => Some(l@),
                None => None,
            },
            width as int,
            height as int,
            icons,
            color,
        ),
{
    let ghost rows_v = rows_view(rows@);
    let ghost logo_v: Option<Seq<char>> = match logo {
        Some(l) => Some(l@),
        None => None,
    };
    let id = identity(rows);
    let listed_rows_vec = listed(rows, id.is_some());
    let ghost lv = rows_view(listed_rows_vec@);
    assert(lv == listed_rows(rows_v));
    let mut labels: Vec<String> = Vec::new();
    let mut k: usize = 0;
    while k < listed_rows_vec.len()
        invariant
            k <= listed_rows_vec@.len(),
            labels@.len() == k,
            forall|j: int|
                0 <= j < k ==> #[trigger] labels@[j]@ == label_text_spec(
                    listed_rows_vec@[j].0@,
                    icons,
                ),
        decreases listed_rows_vec@.len() - k,
    {
        labels.push(label_text(listed_rows_vec[k].0.as_str(), icons));
        k += 1;
    }
    let ghost label_spec = lv.map_values(|r: (Seq<char>, Seq<char>)| label_text_spec(r.0, icons));
    assert(strings_view(labels@) =~= label_spec);
    let mut info_width: usize = 1;
    k = 0;
    assert(label_spec.take(0) =~= Seq::<Seq<char>>::empty());
    while k < labels.len()
        invariant
            k <= labels@.len(),
            label_spec == strings_view(labels@),
            info_width as int == info_width_spec(label_spec.take(k as int)),
        decreases labels@.len() - k,
    {
        let w = display_width(labels[k].as_str());
        let w1 = if w == usize::MAX {
            w
        } else {
            w + 1
        };
        if w1 > info_width {
            info_width = w1;
        }
        assert(label_spec.take(k + 1).drop_last() =~= label_spec.take(k as int));
        k += 1;
    }
    assert(label_spec.take(k as int) =~= label_spec);
    let logo_lines: Vec<String> = match logo {
        Some(l) => text_lines(l),
        None => Vec::new(),
    };
    let ghost logo_spec = match logo_v {
        Some(l) => lines(l),
        None => Seq::<Seq<char>>::empty(),
    };
    assert(strings_view(logo_lines@) =~= logo_spec);
    let mut logo_width: usize = 0;
    k = 0;
    assert(logo_spec.take(0) =~= Seq::<Seq<char>>::empty());
    while k < logo_lines.len()
        invariant
            k <= logo_lines@.len(),
            logo_spec == strings_view(logo_lines@),
            logo_width as int == logo_width_spec(logo_spec.take(k as int)),
        decreases logo_lines@.len() - k,
    {
        let w = display_width(logo_lines[k].as_str());
        if w > logo_width {
            logo_width = w;
        }
        assert(logo_spec.take(k + 1).drop_last() =~= logo_spec.take(k as int));
        k += 1;
    }
    assert(logo_spec.take(k as int) =~= logo_spec);
    let side = logo_lines.len() > 0 && (width as u128) >= (logo_width as u128) + (
    info_width as u128) + 4;
    let header_room: usize = if side {
        if (width as u128) > (logo_width as u128) + 2 {
            (width as u128 - (logo_width as u128 + 2)) as usize
        } else {
            0
        }
    } else {
        width
    };
    let header: Option<String> = match id {
        Some(v) => Some(truncate(v.as_str(), header_room)),
        None => None,
    };
    let all: Vec<String> = if side {
        side_by_side(
            &logo_lines,
            logo_width,
            &header,
            &listed_rows_vec,
            &labels,
            info_width,
            width,
            color,
            Ghost(icons),
        )
    } else {
        stacked(
            &logo_lines,
            &header,
            &listed_rows_vec,
            &labels,
            info_width,
            width,
            height,
            color,
            Ghost(icons),
        )
    };
    let ghost all_spec = layout_lines(rows_v, logo_v, width as int, height as int, icons, color);
    assert(strings_view(all@) == all_spec);
    let count = if all.len() > height {
        height
    } else {
        all.len()
    };
    let ghost shown = if all_spec.len() > height {
        all_spec.take(height as int)
    } else {
        all_spec
    };
    assert(shown =~= all_spec.take(count as int));
    let mut out = String::new();
    let mut i: usize = 0;
    assert(all_spec.take(0) =~= Seq::<Seq<char>>::empty());
    while i < count
        invariant
            i <= count,
            count <= all@.len(),
            all_spec == strings_view(all@),
            out@ == terminated(all_spec.take(i as int)),
        decreases count - i,
    {
        push_str(&mut out, all[i].as_str());
        push_char(&mut out, '\n');
        assert(all_spec.take(i + 1).drop_last() =~= all_spec.take(i as int));
        i += 1;
    }
    out
}

/// The readout without colour.
pub fn render(
    rows: &[(String, String)],
    logo: Option<&str>,
    width: usize,
    height: usize,
    icons: IconMode,
) -> (out: String)
    requires
        rows@.len() + 2 <= usize::MAX,
    ensures
        out@ == render_spec(
            rows_view(rows@),
            match logo {
                Some(l) => Some(l@),
                None => None,
            },
            width as int,
            height as int,
            icons,
            false,
        ),
{
    render_with_color(rows, logo, width, height, icons, false)
}


/// The program's name and version.
pub fn version_string() -> (s: String)
    ensures
        s@ == "minfetch 0.1.0"@,
{
    let mut s = String::new();
    push_str(&mut s, "minfetch 0.1.0");
    assert(s@ =~= "minfetch 0.1.0"@);
    s
}

/// The built-in logo for macOS.
pub const MACOS_LOGO: &'static str = "      .:'\n   __ :__\n  (______)\n   \\____/";

/// The built-in logo for Linux.
pub const LINUX_LOGO: &'static str = "   .--.\n  |o_o |\n  |:_/ |\n //   \\ \\\n(|     | )\n/'\\_   _/`\\\n\\___)=(___/";

/// The built-in logo for other systems.
pub const DEFAULT_LOGO: &'static str = "\u{256d}\u{2500}\u{256e}\n\u{2502}\u{b7}\u{2502}\n\u{2570}\u{2500}\u{256f}";

/// The built-in logo for the operating system `os`.
pub open spec fn os_logo_spec(os: Seq<char>) -> Seq<char> {
    if os == "macos"@ {
        MACOS_LOGO@
    } else if os == "linux"@ {
        LINUX_LOGO@
    } else {
        DEFAULT_LOGO@
    }
}

/// The built-in logo for the operating system `os`.
pub fn os_logo(os: &str) -> (s: String)
    ensures
        s@ == os_logo_spec(os@),
{
    let mut s = String::new();
    if same_text(os, "macos") {
        push_str(&mut s, MACOS_LOGO);
    } else if same_text(os, "linux") {
        push_str(&mut s, LINUX_LOGO);
    } else {
        push_str(&mut s, DEFAULT_LOGO);
    }
    assert(s@ =~= os_logo_spec(os@));
    s
}

/// The logo to show: none when output is not a terminal, when no logo is
/// asked for, or for `none`; the built-in one for `auto`; otherwise what
/// `read_file` gives for the path (asked for only then).
pub fn load_logo<F: FnOnce(&str) -> Option<String>>(
    path: Option<&str>,
    stdout_is_terminal: bool,
    os: &str,
    read_file: F,
) -> (r: Option<String>)
    requires
        forall|p: &str| call_requires(read_file, (p,)),
    ensures
        !stdout_is_terminal ==> r is None,
        stdout_is_terminal ==> match path {
            None => r is None,
            Some(p) => if p@ == "none"@ {
                r is None
            } else if p@ == "auto"@ {
                r matches Some(l) && l@ == os_logo_spec(os@)
            } else {
                call_ensures(read_file, (p,), r)
            },
        },
{
    if !stdout_is_terminal {
        return None;
    }
    match path {
        None => None,
        Some(p) => {
            if same_text(p, "none") {
                None
            } else if same_text(p, "auto") {
                Some(os_logo(os))
            } else {
                read_file(p)
            }
        },
    }
}

pub open spec fn bool_text(b: bool) -> Seq<char> {
    if b {
        "true"@
    } else {
        "false"@
    }
}

/// The diagnostic readout: platform, architecture, terminal, then every row
/// as `label: value` and every fetch failure.
pub open spec fn probe_spec(
    rows: Seq<(Seq<char>, Seq<char>)>,
    errors: Seq<Seq<char>>,
    width: nat,
    height: nat,
    stdout_is_terminal: bool,
    platform: Seq<char>,
    arch: Seq<char>,
) -> Seq<char> {
    "minfetch probe\nplatform: "@ + platform + "\narchitecture: "@ + arch + "\nstdout_tty: "@
        + bool_text(stdout_is_terminal) + "\nterminal_size: "@ + decimal(width) + "x"@ + decimal(
        height,
    ) + "\nrows:\n"@ + probe_rows(rows) + if errors.len() > 0 {
        "errors:\n"@ + probe_errors(errors)
    } else {
        Seq::empty()
    }
}

pub open spec fn probe_rows(rows: Seq<(Seq<char>, Seq<char>)>) -> Seq<char>
    decreases rows.len(),
{
    if rows.len() == 0 {
        Seq::empty()
    } else {
        probe_rows(rows.drop_last()) + rows.last().0 + ": "@ + rows.last().1 + "\n"@
    }
}

pub open spec fn probe_errors(errors: Seq<Seq<char>>) -> Seq<char>
    decreases errors.len(),
{
    if errors.len() == 0 {
        Seq::empty()
    } else {
        probe_errors(errors.drop_last()) + "  "@ + errors.last() + "\n"@
    }
}

/// What `--probe` prints.
pub fn render_probe(
    rows: &[(String, String)],
    errors: &[String],
    width: usize,
    height: usize,
    stdout_is_terminal: bool,
    platform: &str,
    arch: &str,
) -> (out: String)
    ensures
        out@ == probe_spec(
            rows_view(rows@),
            strings_view(errors@),
            width as nat,
            height as nat,
            stdout_is_terminal,
            platform@,
            arch@,
        ),
{
    let mut out = String::new();
    push_str(&mut out, "minfetch probe\nplatform: ");
    push_str(&mut out, platform);
    push_str(&mut out, "\narchitecture: ");
    push_str(&mut out, arch);
    push_str(&mut out, "\nstdout_tty: ");
    if stdout_is_terminal {
        push_str(&mut out, "true");
    } else {
        push_str(&mut out, "false");
    }
    push_str(&mut out, "\nterminal_size: ");
    push_decimal(&mut out, width as u128);
    push_str(&mut out, "x");
    push_decimal(&mut out, height as u128);
    push_str(&mut out, "\nrows:\n");
    let ghost head = out@;
    let ghost rv = rows_view(rows@);
    let mut i: usize = 0;
    assert(rv.take(0) =~= Seq::<(Seq<char>, Seq<char>)>::empty());
    assert(out@ =~= head + probe_rows(rv.take(0)));
    while i < rows.len()
        invariant
            i <= rows@.len(),
            rv == rows_view(rows@),
            out@ == head + probe_rows(rv.take(i as int)),
        decreases rows@.len() - i,
    {
        push_str(&mut out, rows[i].0.as_str());
        push_str(&mut out, ": ");
        push_str(&mut out, rows[i].1.as_str());
        push_str(&mut out, "\n");
        assert(rv.take(i + 1).drop_last() =~= rv.take(i as int));
        assert(rv.take(i + 1).last() == row_view(rows@[i as int]));
        assert(out@ =~= head + probe_rows(rv.take(i + 1)));
        i += 1;
    }
    assert(rv.take(i as int) =~= rv);
    let ghost body = out@;
    if errors.len() > 0 {
        push_str(&mut out, "errors:\n");
        let ghost ev = strings_view(errors@);
        let ghost eh = out@;
        let mut k: usize = 0;
        assert(ev.take(0) =~= Seq::<Seq<char>>::empty());
        assert(out@ =~= eh + probe_errors(ev.take(0)));
        while k < errors.len()
            invariant
                k <= errors@.len(),
                ev == strings_view(errors@),
                out@ == eh + probe_errors(ev.take(k as int)),
            decreases errors@.len() - k,
        {
            push_str(&mut out, "  ");
            push_str(&mut out, errors[k].as_str());
            push_str(&mut out, "\n");
            assert(ev.take(k + 1).drop_last() =~= ev.take(k as int));
            assert(out@ =~= eh + probe_errors(ev.take(k + 1)));
            k += 1;
        }
        assert(ev.take(k as int) =~= ev);
    }
    assert(out@ =~= probe_spec(
        rv,
        strings_view(errors@),
        width as nat,
        height as nat,
        stdout_is_terminal,
        platform@,
        arch@,
    ));
    out
}

/// A control character (general category Cc): U+0000 to U+001F and U+007F
/// to U+009F.
pub open spec fn is_control(c: char) -> bool {
    c <= '\u{1f}' || ('\u{7f}' <= c && c <= '\u{9f}')
}

pub open spec fn hex_digit(d: nat) -> char {
    if d < 10 {
        crate::number::digit_char(d)
    } else if d == 10 {
        'a'
    } else if d == 11 {
        'b'
    } else if d == 12 {
        'c'
    } else if d == 13 {
        'd'
    } else if d == 14 {
        'e'
    } else {
        'f'
    }
}

/// How one character is written inside a JSON string.
pub open spec fn escape_char(c: char) -> Seq<char> {
    if c == '"' {
        seq!['\\', '"']
    } else if c == '\\' {
        seq!['\\', '\\']
    } else if c == '\n' {
        seq!['\\', 'n']
    } else if c == '\r' {
        seq!['\\', 'r']
    } else if c == '\t' {
        seq!['\\', 't']
    } else if is_control(c) {
        let n = c as u32;
        seq![
            '\\',
            'u',
            hex_digit((n / 4096 % 16) as nat),
            hex_digit((n / 256 % 16) as nat),
            hex_digit((n / 16 % 16) as nat),
            hex_digit((n % 16) as nat),
        ]
    } else {
        seq![c]
    }
}

/// A text written as the inside of a JSON string.
pub open spec fn json_escape_spec(s: Seq<char>) -> Seq<char>
    decreases s.len(),
{
    if s.len() == 0 {
        Seq::empty()
    } else {
        json_escape_spec(s.drop_last()) + escape_char(s.last())
    }
}

fn hex_digit_exec(d: u32) -> (c: char)
    requires
        d < 16,
    ensures
        c == hex_digit(d as nat),
{
    if d < 10 {
        crate::number::digit_char_exec(d as u128)
    } else if d == 10 {
        'a'
    } else if d == 11 {
        'b'
    } else if d == 12 {
        'c'
    } else if d == 13 {
        'd'
    } else if d == 14 {
        'e'
    } else {
        'f'
    }
}

/// `value` with quotes, backslashes and control characters escaped for a
/// JSON string.
pub fn json_escape(value: &str) -> (s: String)
    ensures
        s@ == json_escape_spec(value@),
{
    let chars = chars_of(value);
    let mut s = String::new();
    let mut i: usize = 0;
    assert(chars@.take(0) =~= Seq::<char>::empty());
    while i < chars.len()
        invariant
            i <= chars@.len(),
            chars@ == value@,
            s@ == json_escape_spec(chars@.take(i as int)),
        decreases chars@.len() - i,
    {
        let c = chars[i];
        let ghost before = s@;
        if c == '"' {
            push_char(&mut s, '\\');
            push_char(&mut s, '"');
        } else if c == '\\' {
            push_char(&mut s, '\\');
            push_char(&mut s, '\\');
        } else if c == '\n' {
            push_char(&mut s, '\\');
            push_char(&mut s, 'n');
        } else if c == '\r' {
            push_char(&mut s, '\\');
            push_char(&mut s, 'r');
        } else if c == '\t' {
            push_char(&mut s, '\\');
            push_char(&mut s, 't');
        } else if c <= '\u{1f}' || ('\u{7f}' <= c && c <= '\u{9f}') {
            let n = c as u32;
            let d3 = hex_digit_exec(n / 4096 % 16);
            let d2 = hex_digit_exec(n / 256 % 16);
            let d1 = hex_digit_exec(n / 16 % 16);
            let d0 = hex_digit_exec(n % 16);
            push_char(&mut s, '\\');
            push_char(&mut s, 'u');
            push_char(&mut s, d3);
            push_char(&mut s, d2);
            push_char(&mut s, d1);
            push_char(&mut s, d0);
            assert(escape_char(c) == seq!['\\', 'u', d3, d2, d1, d0]);
        } else {
            push_char(&mut s, c);
        }
        assert(s@ =~= before + escape_char(c));
        assert(chars@.take(i + 1).drop_last() =~= chars@.take(i as int));
        i += 1;
    }
    assert(chars@.take(i as int) =~= chars@);
    s
}

/// One row as a JSON object.
pub open spec fn json_row(row: (Seq<char>, Seq<char>)) -> Seq<char> {
    "{\"label\":\""@ + json_escape_spec(row.0) + "\",\"value\":\""@ + json_escape_spec(row.1)
        + "\"}"@
}

/// The row objects, separated by commas.
pub open spec fn json_rows(rows: Seq<(Seq<char>, Seq<char>)>) -> Seq<char>
    decreases rows.len(),
{
    if rows.len() == 0 {
        Seq::empty()
    } else if rows.len() == 1 {
        json_row(rows[0])
    } else {
        json_rows(rows.drop_last()) + ","@ + json_row(rows.last())
    }
}

/// The rows as a JSON document, `{"rows":[...]}`, and a line feed.
pub fn render_json(rows: &[(String, String)]) -> (out: String)
    ensures
        out@ == "{\"rows\":["@ + json_rows(rows_view(rows@)) + "]}\n"@,
{
    let ghost rv = rows_view(rows@);
    let mut out = String::new();
    push_str(&mut out, "{\"rows\":[");
    let ghost head = out@;
    let mut i: usize = 0;
    assert(rv.take(0) =~= Seq::<(Seq<char>, Seq<char>)>::empty());
    assert(out@ =~= head + json_rows(rv.take(0)));
    while i < rows.len()
        invariant
            i <= rows@.len(),
            rv == rows_view(rows@),
            out@ == head + json_rows(rv.take(i as int)),
        decreases rows@.len() - i,
    {
        if i > 0 {
            push_str(&mut out, ",");
        }
        push_str(&mut out, "{\"label\":\"");
        let label = json_escape(rows[i].0.as_str());
        push_str(&mut out, label.as_str());
        push_str(&mut out, "\",\"value\":\"");
        let value = json_escape(rows[i].1.as_str());
        push_str(&mut out, value.as_str());
        push_str(&mut out, "\"}");
        assert(rv.take(i + 1).drop_last() =~= rv.take(i as int));
        assert(rv.take(i + 1).last() == row_view(rows@[i as int]));
        assert(i == 0 ==> rv.take(1)[0] == row_view(rows@[0]));
        assert(out@ =~= head + json_rows(rv.take(i + 1)));
        i += 1;
    }
    assert(rv.take(i as int) =~= rv);
    push_str(&mut out, "]}\n");
    out
}


/// The text to print: `output` as it is, or without its final line feed
/// when `no_terminator` is set.
pub fn finish_output(output: String, no_terminator: bool) -> (s: String)
    ensures
        s@ == (if no_terminator && output@.len() > 0 && output@.last() == '\n' {
            output@.drop_last()
        } else {
            output@
        }),
{
    if no_terminator {
        let chars = chars_of(output.as_str());
        if chars.len() > 0 && chars[chars.len() - 1] == '\n' {
            let kept = crate::text::string_of(&chars.as_slice()[0..chars.len() - 1]);
            assert(chars@.subrange(0, chars.len() - 1) =~= output@.drop_last());
            return kept;
        }
    }
    output
}

} // verus!
