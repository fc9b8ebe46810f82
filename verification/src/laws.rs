//! What holds of the readout as a whole: it fits the pane's height, it is
//! plain text when colour is off and colour adds nothing but codes, the rows
//! it shows are the selected ones, the config's defaults apply and each
//! command-line flag overrides its own field and each switch sets only its
//! own, `NO_COLOR` keeps colour off, flag aliases read as the flags they
//! stand for, JSON escaping holds no raw control character and reads back
//! as the text it came from, and the JSON readout holds one object per row,
//! in order, separated by commas.

use crate::config::{
    apply_args, arg_step, color_from, icons_from, parse_args_spec, read_args, starts_with_dash,
    theme_from, ColorMode, ConfigView, IconMode, OptionsView, ParsedArgs,
};
use crate::render::{
    ansi_label, ansi_reset, ascii_upper, colorize_spec, find_value, fitting_prefix, header_lines,
    icon_symbol, identity_spec, is_identity_label, label_text_spec, layout_lines, listed_rows,
    pad_spec, plain_label, render_spec, row_line_spec, side_lines, side_right, stacked_lines,
    stacked_row_lines, truncate_spec, without_identity, ELLIPSIS,
};
use crate::render::{escape_char, json_escape_spec, json_rows};
use crate::rows::{is_kept, kept_rows};
use crate::text::{lines, repeat_char, terminated};
use vstd::prelude::*;

verus! {

/// No character of `s` is `c`.
pub open spec fn free_of(s: Seq<char>, c: char) -> bool {
    forall|i: int| 0 <= i < s.len() ==> s[i] != c
}

/// No label and no value of the rows holds `c`.
pub open spec fn rows_free_of(rows: Seq<(Seq<char>, Seq<char>)>, c: char) -> bool {
    forall|i: int| 0 <= i < rows.len() ==> free_of(#[trigger] rows[i].0, c) && free_of(rows[i].1, c)
}

/// No line of `ls` holds `c`.
pub open spec fn lines_free_of(ls: Seq<Seq<char>>, c: char) -> bool {
    forall|i: int| 0 <= i < ls.len() ==> free_of(#[trigger] ls[i], c)
}

/// How many times `c` occurs in `s`.
pub open spec fn count_char(s: Seq<char>, c: char) -> nat
    decreases s.len(),
{
    if s.len() == 0 {
        0
    } else {
        count_char(s.drop_last(), c) + if s.last() == c {
            1nat
        } else {
            0nat
        }
    }
}

/// A character that the layout never writes itself: a control character,
/// and not the escape that starts a colour code when colour is on.
pub open spec fn foreign(c: char, color: bool) -> bool {
    c < ' ' && (color ==> c != '\u{1b}')
}

proof fn lemma_add_free(a: Seq<char>, b: Seq<char>, c: char)
    requires
        free_of(a, c),
        free_of(b, c),
    ensures
        free_of(a + b, c),
{
    assert forall|i: int| 0 <= i < (a + b).len() implies (a + b)[i] != c by {
        if i < a.len() {
            assert((a + b)[i] == a[i]);
        } else {
            assert((a + b)[i] == b[i - a.len()]);
        }
    }
}

proof fn lemma_count_add(a: Seq<char>, b: Seq<char>, c: char)
    ensures
        count_char(a + b, c) == count_char(a, c) + count_char(b, c),
    decreases b.len(),
{
    if b.len() == 0 {
        assert(a + b =~= a);
    } else {
        lemma_count_add(a, b.drop_last(), c);
        assert((a + b).drop_last() =~= a + b.drop_last());
        assert((a + b).last() == b.last());
    }
}

proof fn lemma_count_free(s: Seq<char>, c: char)
    requires
        free_of(s, c),
    ensures
        count_char(s, c) == 0,
    decreases s.len(),
{
    if s.len() > 0 {
        lemma_count_free(s.drop_last(), c);
    }
}

proof fn lemma_fitting_prefix(v: Seq<char>, budget: int)
    ensures
        fitting_prefix(v, budget).len() <= v.len(),
        fitting_prefix(v, budget) =~= v.take(fitting_prefix(v, budget).len() as int),
    decreases v.len(),
{
    if v.len() > 0 {
        lemma_fitting_prefix(v.drop_first(), budget - crate::render::width_or_zero(v[0]));
    }
}

proof fn lemma_truncate_free(v: Seq<char>, width: int, c: char)
    requires
        free_of(v, c),
        c != ELLIPSIS,
    ensures
        free_of(truncate_spec(v, width), c),
{
    lemma_fitting_prefix(v, width - 1);
}

proof fn lemma_repeat_free(x: char, n: nat, c: char)
    requires
        x != c,
    ensures
        free_of(repeat_char(x, n), c),
{
}

proof fn lemma_pad_free(v: Seq<char>, width: int, c: char)
    requires
        free_of(v, c),
        c != ' ',
    ensures
        free_of(pad_spec(v, width), c),
{
    lemma_add_free(v, repeat_char(' ', crate::render::pad_room(v, width)), c);
}

proof fn lemma_colorize_free(v: Seq<char>, color: bool, c: char)
    requires
        free_of(v, c),
        foreign(c, color),
    ensures
        free_of(colorize_spec(v, color), c),
{
    if color {
        lemma_add_free(ansi_label(), v, c);
        lemma_add_free(ansi_label() + v, ansi_reset(), c);
    }
}

proof fn lemma_plain_label_free(label: Seq<char>, c: char)
    requires
        free_of(label, c),
        c < ' ',
    ensures
        free_of(plain_label(label), c),
{
    reveal_strlit("os");
    reveal_strlit("cpu");
    reveal_strlit("gpu");
    reveal_strlit("OS");
    reveal_strlit("CPU");
    reveal_strlit("GPU");
    let l = if label == "os"@ {
        "OS"@
    } else if label == "cpu"@ {
        "CPU"@
    } else if label == "gpu"@ {
        "GPU"@
    } else {
        label
    };
    assert(free_of(l, c));
    if l.len() > 0 {
        let u = ascii_upper(l[0]);
        if 'a' <= l[0] && l[0] <= 'z' {
            let n = l[0] as u32;
            assert(97 <= n <= 122);
            assert(((n - 32) as u8) as char >= ' ');
        }
        assert(u != c);
        lemma_add_free(seq![u], l.drop_first(), c);
        lemma_add_free(seq![u] + l.drop_first(), seq![':'], c);
    }
}

proof fn lemma_label_free(label: Seq<char>, icons: IconMode, c: char)
    requires
        free_of(label, c),
        c < ' ',
    ensures
        free_of(label_text_spec(label, icons), c),
{
    lemma_plain_label_free(label, c);
    match icons {
        IconMode::Unicode => {
            reveal_strlit("os:");
            let text = crate::render::icon_text(label, false);
            assert(free_of(text, c));
            assert(icon_symbol(label, false) >= ' ');
            lemma_add_free(seq![icon_symbol(label, false), ' '], text, c);
        },
        IconMode::Nerd => {
            assert(icon_symbol(label, true) >= ' ');
            lemma_add_free(seq![icon_symbol(label, true), ' '], plain_label(label), c);
        },
        IconMode::Off => {},
    }
}


proof fn lemma_first_index_bound(s: Seq<char>, c: char)
    ensures
        0 <= crate::text::first_index(s, c) <= s.len(),
        forall|j: int| 0 <= j < crate::text::first_index(s, c) ==> s[j] != c,
    decreases s.len(),
{
    if s.len() > 0 && s[0] != c {
        lemma_first_index_bound(s.drop_first(), c);
        let t = s.drop_first();
        assert forall|j: int| 0 <= j < crate::text::first_index(s, c) implies s[j] != c by {
            if j > 0 {
                assert(s[j] == t[j - 1]);
            }
        }
    }
}

/// The lines of a text never hold a line feed, and hold `c` only if the
/// text does.
proof fn lemma_lines_free(s: Seq<char>, c: char)
    ensures
        lines_free_of(lines(s), '\n'),
        free_of(s, c) ==> lines_free_of(lines(s), c),
    decreases s.len(),
{
    if s.len() > 0 {
        crate::text::lemma_lines_unfold(s);
        lemma_first_index_bound(s, '\n');
        let i = crate::text::first_index(s, '\n');
        let rest = crate::text::after_first_line(s);
        lemma_lines_free(rest, c);
        let first = crate::text::first_line(s);
        if i < s.len() {
            assert(free_of(s.take(i), '\n'));
            assert(free_of(s, c) ==> free_of(s.take(i), c));
            assert(free_of(first, '\n'));
            assert(free_of(s, c) ==> free_of(first, c));
            assert(free_of(s, c) ==> free_of(rest, c)) by {
                if free_of(s, c) {
                    assert forall|j: int| 0 <= j < rest.len() implies rest[j] != c by {
                        assert(rest[j] == s[j + i + 1]);
                    }
                }
            }
        } else {
            assert(first == s);
            assert(free_of(first, '\n'));
        }
        let ls = lines(s);
        assert(ls == seq![first] + lines(rest));
        assert forall|k: int| 0 <= k < ls.len() implies free_of(#[trigger] ls[k], '\n') && (free_of(
            s,
            c,
        ) ==> free_of(ls[k], c)) by {
            if k > 0 {
                assert(ls[k] == lines(rest)[k - 1]);
            }
        }
    }
}

proof fn lemma_lines_add(a: Seq<Seq<char>>, b: Seq<Seq<char>>, c: char)
    requires
        lines_free_of(a, c),
        lines_free_of(b, c),
    ensures
        lines_free_of(a + b, c),
{
    assert forall|i: int| 0 <= i < (a + b).len() implies free_of(#[trigger] (a + b)[i], c) by {
        if i < a.len() {
            assert((a + b)[i] == a[i]);
        } else {
            assert((a + b)[i] == b[i - a.len()]);
        }
    }
}

proof fn lemma_find_value_free(rows: Seq<(Seq<char>, Seq<char>)>, label: Seq<char>, c: char)
    requires
        rows_free_of(rows, c),
    ensures
        find_value(rows, label) matches Some(v) ==> free_of(v, c),
    decreases rows.len(),
{
    if rows.len() > 0 {
        let t = rows.drop_first();
        assert forall|i: int| 0 <= i < t.len() implies free_of(#[trigger] t[i].0, c) && free_of(
            t[i].1,
            c,
        ) by {
            assert(t[i] == rows[i + 1]);
            assert(free_of(rows[i + 1].0, c));
        }
        lemma_find_value_free(t, label, c);
        assert(free_of(rows[0].0, c));
    }
}

proof fn lemma_identity_free(rows: Seq<(Seq<char>, Seq<char>)>, c: char)
    requires
        rows_free_of(rows, c),
        c < ' ',
    ensures
        identity_spec(rows) matches Some(v) ==> free_of(v, c),
{
    lemma_find_value_free(rows, "user"@, c);
    lemma_find_value_free(rows, "hostname"@, c);
    if let (Some(u), Some(h)) = (find_value(rows, "user"@), find_value(rows, "hostname"@)) {
        lemma_add_free(u, seq!['@'], c);
        lemma_add_free(u + seq!['@'], h, c);
    }
}

proof fn lemma_without_identity_free(rows: Seq<(Seq<char>, Seq<char>)>, c: char)
    requires
        rows_free_of(rows, c),
    ensures
        rows_free_of(without_identity(rows), c),
    decreases rows.len(),
{
    if rows.len() > 0 {
        let t = rows.drop_last();
        assert forall|i: int| 0 <= i < t.len() implies free_of(#[trigger] t[i].0, c) && free_of(
            t[i].1,
            c,
        ) by {
            assert(t[i] == rows[i]);
            assert(free_of(rows[i].0, c));
        }
        lemma_without_identity_free(t, c);
        let w = without_identity(rows);
        let r = without_identity(t);
        if !is_identity_label(rows.last().0) {
            assert forall|i: int| 0 <= i < w.len() implies free_of(#[trigger] w[i].0, c) && free_of(
                w[i].1,
                c,
            ) by {
                if i < r.len() {
                    assert(w[i] == r[i]);
                } else {
                    assert(w[i] == rows[rows.len() - 1]);
                }
            }
        }
    }
}

proof fn lemma_listed_free(rows: Seq<(Seq<char>, Seq<char>)>, c: char)
    requires
        rows_free_of(rows, c),
    ensures
        rows_free_of(listed_rows(rows), c),
{
    lemma_without_identity_free(rows, c);
}

proof fn lemma_row_line_free(
    row: (Seq<char>, Seq<char>),
    icons: IconMode,
    info_width: int,
    room: int,
    color: bool,
    c: char,
)
    requires
        free_of(row.0, c),
        free_of(row.1, c),
        foreign(c, color),
    ensures
        free_of(row_line_spec(row, icons, info_width, room, color), c),
{
    lemma_label_free(row.0, icons, c);
    let label = label_text_spec(row.0, icons);
    lemma_pad_free(label, info_width, c);
    lemma_colorize_free(pad_spec(label, info_width), color, c);
    lemma_truncate_free(row.1, room, c);
    let left = colorize_spec(pad_spec(label, info_width), color);
    lemma_add_free(left, seq![' '], c);
    lemma_add_free(left + seq![' '], truncate_spec(row.1, room), c);
}

proof fn lemma_side_lines_free(
    logo: Seq<Seq<char>>,
    header: Option<Seq<char>>,
    rows: Seq<(Seq<char>, Seq<char>)>,
    icons: IconMode,
    info_width: int,
    width: int,
    color: bool,
    c: char,
)
    requires
        lines_free_of(logo, c),
        header matches Some(h) ==> free_of(h, c),
        rows_free_of(rows, c),
        foreign(c, color),
    ensures
        lines_free_of(side_lines(logo, header, rows, icons, info_width, width, color), c),
{
    let ls = side_lines(logo, header, rows, icons, info_width, width, color);
    assert forall|i: int| 0 <= i < ls.len() implies free_of(#[trigger] ls[i], c) by {
        let left = if i < logo.len() {
            logo[i]
        } else {
            Seq::empty()
        };
        let room = crate::render::side_room(width, crate::render::logo_width_spec(logo), info_width);
        let right = side_right(i, header, rows, icons, info_width, room, color);
        match header {
            Some(h) => {
                if i == 0 {
                    lemma_colorize_free(h, color, c);
                } else if i == 1 {
                    lemma_repeat_free('-', crate::width::text_columns(h), c);
                } else if i - 2 < rows.len() {
                    lemma_row_line_free(rows[i - 2], icons, info_width, room, color, c);
                }
            },
            None => {
                if i < rows.len() {
                    lemma_row_line_free(rows[i], icons, info_width, room, color, c);
                }
            },
        }
        assert(free_of(right, c));
        lemma_pad_free(left, crate::render::logo_width_spec(logo), c);
        let padded = pad_spec(left, crate::render::logo_width_spec(logo));
        lemma_add_free(padded, seq![' ', ' '], c);
        lemma_add_free(padded + seq![' ', ' '], right, c);
    }
}

proof fn lemma_stacked_lines_free(
    logo: Seq<Seq<char>>,
    header: Option<Seq<char>>,
    rows: Seq<(Seq<char>, Seq<char>)>,
    icons: IconMode,
    info_width: int,
    width: int,
    height: int,
    color: bool,
    c: char,
)
    requires
        lines_free_of(logo, c),
        header matches Some(h) ==> free_of(h, c),
        rows_free_of(rows, c),
        foreign(c, color),
    ensures
        lines_free_of(
            stacked_lines(logo, header, rows, icons, info_width, width, height, color),
            c,
        ),
{
    let hl = header_lines(header, color);
    if let Some(h) = header {
        lemma_colorize_free(h, color, c);
        lemma_repeat_free('-', crate::width::text_columns(h), c);
    }
    assert(lines_free_of(hl, c));
    let rl = stacked_row_lines(rows, icons, info_width, width, color);
    let room = crate::render::sat_sub(width, info_width + 1);
    assert forall|k: int| 0 <= k < rl.len() implies free_of(#[trigger] rl[k], c) by {
        if width <= 30 {
            assert(free_of(rows[k / 2].0, c));
            let r = rows[k / 2];
            if k % 2 == 0 {
                lemma_label_free(r.0, icons, c);
                lemma_truncate_free(label_text_spec(r.0, icons), width, c);
                lemma_colorize_free(truncate_spec(label_text_spec(r.0, icons), width), color, c);
            } else {
                lemma_truncate_free(r.1, room, c);
                lemma_truncate_free(truncate_spec(r.1, room), width, c);
            }
        } else {
            assert(free_of(rows[k].0, c));
            lemma_row_line_free(rows[k], icons, info_width, room, color, c);
        }
    }
    let logo_part = if logo.len() > 0 && logo.len() + rows.len() <= height {
        logo
    } else {
        Seq::empty()
    };
    assert(lines_free_of(logo_part, c));
    lemma_lines_add(logo_part, hl, c);
    lemma_lines_add(logo_part + hl, rl, c);
}

/// Every line of the layout is free of a control character that the rows
/// and the logo do not hold (and, whatever the logo, free of line feeds).
proof fn lemma_layout_free(
    rows: Seq<(Seq<char>, Seq<char>)>,
    logo: Option<Seq<char>>,
    width: int,
    height: int,
    icons: IconMode,
    color: bool,
    c: char,
)
    requires
        rows_free_of(rows, c),
        logo matches Some(l) ==> (free_of(l, c) || c == '\n'),
        foreign(c, color),
    ensures
        lines_free_of(layout_lines(rows, logo, width, height, icons, color), c),
{
    lemma_identity_free(rows, c);
    lemma_listed_free(rows, c);
    let logo_lines = match logo {
        Some(l) => lines(l),
        None => Seq::empty(),
    };
    if let Some(l) = logo {
        lemma_lines_free(l, c);
    }
    assert(lines_free_of(logo_lines, c));
    let listed = listed_rows(rows);
    let labels = listed.map_values(|r: (Seq<char>, Seq<char>)| label_text_spec(r.0, icons));
    let info_width = crate::render::info_width_spec(labels);
    let header_room = if crate::render::is_side_by_side(logo_lines, info_width, width) {
        crate::render::sat_sub(width, crate::render::logo_width_spec(logo_lines) + 2)
    } else {
        width
    };
    let header = match identity_spec(rows) {
        Some(id) => Some(truncate_spec(id, header_room)),
        None => None,
    };
    if let Some(id) = identity_spec(rows) {
        lemma_truncate_free(id, header_room, c);
    }
    lemma_side_lines_free(logo_lines, header, listed, icons, info_width, width, color, c);
    lemma_stacked_lines_free(logo_lines, header, listed, icons, info_width, width, height, color, c);
}

proof fn lemma_terminated(ls: Seq<Seq<char>>, c: char)
    requires
        lines_free_of(ls, c),
    ensures
        c != '\n' ==> free_of(terminated(ls), c),
        c == '\n' ==> count_char(terminated(ls), c) == ls.len(),
    decreases ls.len(),
{
    if ls.len() > 0 {
        let init = ls.drop_last();
        assert forall|i: int| 0 <= i < init.len() implies free_of(#[trigger] init[i], c) by {
            assert(init[i] == ls[i]);
        }
        lemma_terminated(init, c);
        let last = ls.last();
        assert(free_of(last, c));
        let tail = last.push(c);
        if c != '\n' {
            lemma_add_free(last, seq!['\n'], c);
            assert(last.push('\n') =~= last + seq!['\n']);
            lemma_add_free(terminated(init), last.push('\n'), c);
        } else {
            lemma_count_free(last, c);
            assert(tail.drop_last() =~= last);
            assert(count_char(tail, c) == 1);
            lemma_count_add(terminated(init), tail, c);
        }
    }
}

/// The readout never has more lines than the pane is high: it holds at most
/// `height` line feeds, whatever the logo, as long as no label or value
/// holds a line feed of its own.
pub proof fn law_readout_fits_height(
    rows: Seq<(Seq<char>, Seq<char>)>,
    logo: Option<Seq<char>>,
    width: usize,
    height: usize,
    icons: IconMode,
    color: bool,
)
    requires
        rows_free_of(rows, '\n'),
    ensures
        count_char(render_spec(rows, logo, width as int, height as int, icons, color), '\n') <= height,
{
    let all = layout_lines(rows, logo, width as int, height as int, icons, color);
    lemma_layout_free(rows, logo, width as int, height as int, icons, color, '\n');
    let shown = if all.len() > height {
        all.take(height as int)
    } else {
        all
    };
    assert forall|i: int| 0 <= i < shown.len() implies free_of(#[trigger] shown[i], '\n') by {
        assert(shown[i] == all[i]);
    }
    lemma_terminated(shown, '\n');
}

/// With colour off, the readout holds no escape character unless a label, a
/// value or the logo brought one: no ANSI code is ever written.
pub proof fn law_plain_readout_has_no_escape(
    rows: Seq<(Seq<char>, Seq<char>)>,
    logo: Option<Seq<char>>,
    width: usize,
    height: usize,
    icons: IconMode,
)
    requires
        rows_free_of(rows, '\u{1b}'),
        logo matches Some(l) ==> free_of(l, '\u{1b}'),
    ensures
        free_of(render_spec(rows, logo, width as int, height as int, icons, false), '\u{1b}'),
{
    let c = '\u{1b}';
    let all = layout_lines(rows, logo, width as int, height as int, icons, false);
    lemma_layout_free(rows, logo, width as int, height as int, icons, false, c);
    let shown = if all.len() > height {
        all.take(height as int)
    } else {
        all
    };
    assert forall|i: int| 0 <= i < shown.len() implies free_of(#[trigger] shown[i], c) by {
        assert(shown[i] == all[i]);
    }
    lemma_terminated(shown, c);
}


/// Every row that is shown was selected, and with `no_term` set no uptime
/// row is shown; each row shown is one of the rows given, and there are no
/// more of them.
pub proof fn law_kept_rows_are_selected(
    rows: Seq<(Seq<char>, Seq<char>)>,
    no_term: bool,
    selected: Seq<Seq<char>>,
)
    ensures
        forall|k: int|
            0 <= k < kept_rows(rows, no_term, selected).len() ==> {
                let r = #[trigger] kept_rows(rows, no_term, selected)[k];
                &&& selected.contains(r.0)
                &&& !(no_term && r.0 == "uptime"@)
                &&& rows.contains(r)
            },
        kept_rows(rows, no_term, selected).len() <= rows.len(),
    decreases rows.len(),
{
    if rows.len() > 0 {
        let init = rows.drop_last();
        law_kept_rows_are_selected(init, no_term, selected);
        let before = kept_rows(init, no_term, selected);
        let after = kept_rows(rows, no_term, selected);
        assert forall|k: int| 0 <= k < after.len() implies {
            let r = #[trigger] after[k];
            &&& selected.contains(r.0)
            &&& !(no_term && r.0 == "uptime"@)
            &&& rows.contains(r)
        } by {
            if k < before.len() {
                assert(after[k] == before[k]);
                let r = before[k];
                assert(init.contains(r));
                let j = choose|j: int| 0 <= j < init.len() && init[j] == r;
                assert(rows[j] == r);
            } else {
                assert(after[k] == rows.last());
                assert(is_kept(rows.last().0, no_term, selected));
                assert(rows[rows.len() - 1] == rows.last());
            }
        }
    }
}


/// Reading a flag is the same whether or not more arguments that start with
/// a dash follow, when the flag read well without them.
proof fn lemma_arg_step_extended(st: ParsedArgs, args: Seq<Seq<char>>, ext: Seq<Seq<char>>, i: int)
    requires
        0 <= i < args.len(),
        ext.len() > 0,
        starts_with_dash(ext[0]),
        arg_step(st, args, i) is Ok,
    ensures
        arg_step(st, args + ext, i) == arg_step(st, args, i),
{
    let a2 = args + ext;
    assert(a2[i] == args[i]);
    if i + 1 < args.len() {
        assert(a2[i + 1] == args[i + 1]);
    } else {
        assert(a2[i + 1] == ext[0]);
    }
}

/// Parsing arguments that read well, and then more that start with a flag,
/// is parsing the first ones and going on from there.
proof fn lemma_apply_args_extended(
    st: ParsedArgs,
    args: Seq<Seq<char>>,
    ext: Seq<Seq<char>>,
    i: int,
)
    requires
        0 <= i <= args.len(),
        ext.len() > 0,
        starts_with_dash(ext[0]),
        apply_args(st, args, i) is Ok,
    ensures
        apply_args(st, args + ext, i) == apply_args(
            apply_args(st, args, i)->Ok_0,
            args + ext,
            args.len() as int,
        ),
    decreases args.len() - i,
{
    let a2 = args + ext;
    if i < args.len() {
        assert(arg_step(st, args, i) is Ok);
        lemma_arg_step_extended(st, args, ext, i);
        let (next, j) = arg_step(st, args, i)->Ok_0;
        assert(i < j <= args.len());
        lemma_apply_args_extended(next, args, ext, j);
    }
}

proof fn lemma_reveal_flags()
    ensures
        "--help"@ == seq!['-', '-', 'h', 'e', 'l', 'p'],
        "--version"@ == seq!['-', '-', 'v', 'e', 'r', 's', 'i', 'o', 'n'],
        "--color-no"@ == seq!['-', '-', 'c', 'o', 'l', 'o', 'r', '-', 'n', 'o'],
        "--no-color"@ == seq!['-', '-', 'n', 'o', '-', 'c', 'o', 'l', 'o', 'r'],
        "--color"@ == seq!['-', '-', 'c', 'o', 'l', 'o', 'r'],
        "--config"@ == seq!['-', '-', 'c', 'o', 'n', 'f', 'i', 'g'],
        "--theme"@ == seq!['-', '-', 't', 'h', 'e', 'm', 'e'],
        "-h"@ == seq!['-', 'h'],
        "-V"@ == seq!['-', 'V'],
        "--no-terminator"@.len() == 15,
        "--no-term"@ == seq!['-', '-', 'n', 'o', '-', 't', 'e', 'r', 'm'],
        "--verbose"@ == seq!['-', '-', 'v', 'e', 'r', 'b', 'o', 's', 'e'],
        "--probe"@ == seq!['-', '-', 'p', 'r', 'o', 'b', 'e'],
        "--debug-sysinfo"@.len() == 15,
        "--no-icons"@ == seq!['-', '-', 'n', 'o', '-', 'i', 'c', 'o', 'n', 's'],
        "--json"@ == seq!['-', '-', 'j', 's', 'o', 'n'],
        "--icons"@ == seq!['-', '-', 'i', 'c', 'o', 'n', 's'],
        "off"@ == seq!['o', 'f', 'f'],
        "on"@ == seq!['o', 'n'],
        "never"@ == seq!['n', 'e', 'v', 'e', 'r'],
        "auto"@ == seq!['a', 'u', 't', 'o'],
        "always"@ == seq!['a', 'l', 'w', 'a', 'y', 's'],
{
    reveal_strlit("--help");
    reveal_strlit("--version");
    reveal_strlit("--color-no");
    reveal_strlit("--no-color");
    reveal_strlit("--color");
    reveal_strlit("--config");
    reveal_strlit("--theme");
    reveal_strlit("-h");
    reveal_strlit("-V");
    reveal_strlit("--no-terminator");
    reveal_strlit("--no-term");
    reveal_strlit("--verbose");
    reveal_strlit("--probe");
    reveal_strlit("--debug-sysinfo");
    reveal_strlit("--no-icons");
    reveal_strlit("--json");
    reveal_strlit("--icons");
    reveal_strlit("off");
    reveal_strlit("on");
    reveal_strlit("never");
    reveal_strlit("auto");
    reveal_strlit("always");
}

/// The state after arguments that read well, before `NO_COLOR` has its say.
spec fn parsed(args: Seq<Seq<char>>, config: ConfigView, no_color: bool) -> ParsedArgs {
    read_args(args, config, no_color)->Ok_0
}

/// One more flag (with its value) after arguments that read well: the
/// arguments read as that flag read on top of them.
proof fn lemma_one_more_flag(
    args: Seq<Seq<char>>,
    ext: Seq<Seq<char>>,
    config: ConfigView,
    no_color: bool,
    after: ParsedArgs,
)
    requires
        read_args(args, config, no_color) is Ok,
        ext.len() > 0,
        starts_with_dash(ext[0]),
        arg_step(parsed(args, config, no_color), args + ext, args.len() as int) == Ok::<
            (ParsedArgs, int),
            Seq<char>,
        >((after, args.len() as int + ext.len() as int)),
    ensures
        read_args(args + ext, config, no_color) == Ok::<ParsedArgs, Seq<char>>(after),
{
    let st0 = ParsedArgs {
        options: crate::config::initial_options(config, no_color),
        help: false,
        version: false,
    };
    lemma_apply_args_extended(st0, args, ext, 0);
    assert(apply_args(after, args + ext, args.len() as int + ext.len() as int) == Ok::<ParsedArgs, Seq<char>>(
        after,
    ));
}

/// Without arguments the config's defaults apply: its colour (`Auto` when
/// unset, `Never` under `NO_COLOR`), its icons (`Off` when unset), and its
/// logo, rows and theme as they are; every switch is off.
pub proof fn law_config_defaults_apply(config: ConfigView, no_color: bool)
    ensures
        parse_args_spec(seq![], config, no_color) matches Ok(r) && {
            let o = r.options;
            &&& o.color == (if no_color {
                ColorMode::Never
            } else {
                match config.color {
                    Some(c) => c,
                    None => ColorMode::Auto,
                }
            })
            &&& o.icons == match config.icons {
                Some(i) => i,
                None => IconMode::Off,
            }
            &&& o.logo == config.logo
            &&& o.rows == config.rows
            &&& o.theme == config.theme
            &&& !o.no_terminator && !o.no_term && !o.verbose && !o.probe && !o.json
            &&& !r.help && !r.version
        },
{
}

/// Command-line flags override the config: a `--theme` flag after arguments
/// that read well sets the theme, whatever the config said, and changes
/// nothing else.
pub proof fn law_theme_flag_overrides(
    args: Seq<Seq<char>>,
    config: ConfigView,
    no_color: bool,
    value: Seq<char>,
)
    requires
        parse_args_spec(args, config, no_color) is Ok,
        theme_from(value) is Some,
    ensures
        ({
            let before = parse_args_spec(args, config, no_color)->Ok_0;
            parse_args_spec(args + seq!["--theme"@, value], config, no_color) == Ok::<
                ParsedArgs,
                Seq<char>,
            >(ParsedArgs { options: OptionsView { theme: theme_from(value), ..before.options }, ..before })
        }),
{
    lemma_reveal_flags();
    let before = parsed(args, config, no_color);
    let n = args.len() as int;
    let a2 = args + seq!["--theme"@, value];
    assert(a2[n] == "--theme"@ && a2[n + 1] == value);
    let after = ParsedArgs {
        options: OptionsView { theme: theme_from(value), ..before.options },
        ..before
    };
    assert(arg_step(before, a2, n) == Ok::<(ParsedArgs, int), Seq<char>>((after, n + 2)));
    lemma_one_more_flag(args, seq!["--theme"@, value], config, no_color, after);
}

/// Command-line flags override the config: a `--color` flag after arguments
/// that read well sets the colour mode (to `Never` all the same under
/// `NO_COLOR`) and changes nothing else.
pub proof fn law_color_flag_overrides(
    args: Seq<Seq<char>>,
    config: ConfigView,
    no_color: bool,
    value: Seq<char>,
)
    requires
        parse_args_spec(args, config, no_color) is Ok,
        color_from(value) is Some,
    ensures
        ({
            let before = parse_args_spec(args, config, no_color)->Ok_0;
            let color = if no_color {
                ColorMode::Never
            } else {
                color_from(value)->Some_0
            };
            parse_args_spec(args + seq!["--color"@, value], config, no_color) == Ok::<
                ParsedArgs,
                Seq<char>,
            >(ParsedArgs { options: OptionsView { color, ..before.options }, ..before })
        }),
{
    lemma_reveal_flags();
    let before = parsed(args, config, no_color);
    let n = args.len() as int;
    let a2 = args + seq!["--color"@, value];
    assert(a2[n] == "--color"@ && a2[n + 1] == value);
    let after = ParsedArgs {
        options: OptionsView { color: color_from(value)->Some_0, ..before.options },
        ..before
    };
    assert(arg_step(before, a2, n) == Ok::<(ParsedArgs, int), Seq<char>>((after, n + 2)));
    lemma_one_more_flag(args, seq!["--color"@, value], config, no_color, after);
}

/// Command-line flags override the config: an `--icons` flag after
/// arguments that read well sets the icon mode and changes nothing else.
pub proof fn law_icons_flag_overrides(
    args: Seq<Seq<char>>,
    config: ConfigView,
    no_color: bool,
    value: Seq<char>,
)
    requires
        parse_args_spec(args, config, no_color) is Ok,
        icons_from(value) is Some,
    ensures
        ({
            let before = parse_args_spec(args, config, no_color)->Ok_0;
            parse_args_spec(args + seq!["--icons"@, value], config, no_color) == Ok::<
                ParsedArgs,
                Seq<char>,
            >(
                ParsedArgs {
                    options: OptionsView { icons: icons_from(value)->Some_0, ..before.options },
                    ..before
                },
            )
        }),
{
    lemma_reveal_flags();
    let before = parsed(args, config, no_color);
    let o = before.options;
    let n = args.len() as int;
    let a2 = args + seq!["--icons"@, value];
    assert(a2[n] == "--icons"@ && a2[n + 1] == value);
    let after = ParsedArgs {
        options: OptionsView { icons: icons_from(value)->Some_0, ..o },
        ..before
    };
    assert(crate::config::option_step(o, a2, n) == Ok::<(OptionsView, int), Seq<char>>(
        (after.options, n + 2),
    ));
    assert(arg_step(before, a2, n) == Ok::<(ParsedArgs, int), Seq<char>>((after, n + 2)));
    lemma_one_more_flag(args, seq!["--icons"@, value], config, no_color, after);
}

/// Command-line flags override the config: a `--logo` flag followed by a
/// value that does not start with a dash, after arguments that read well,
/// sets the logo to that value and changes nothing else; a `--logo` flag at
/// the end sets it to `auto`.
pub proof fn law_logo_flag_overrides(
    args: Seq<Seq<char>>,
    config: ConfigView,
    no_color: bool,
    value: Seq<char>,
)
    requires
        parse_args_spec(args, config, no_color) is Ok,
        !starts_with_dash(value),
    ensures
        ({
            let before = parse_args_spec(args, config, no_color)->Ok_0;
            parse_args_spec(args + seq!["--logo"@, value], config, no_color) == Ok::<
                ParsedArgs,
                Seq<char>,
            >(ParsedArgs { options: OptionsView { logo: Some(value), ..before.options }, ..before })
        }),
        ({
            let before = parse_args_spec(args, config, no_color)->Ok_0;
            parse_args_spec(args + seq!["--logo"@], config, no_color) == Ok::<ParsedArgs, Seq<char>>(
                ParsedArgs {
                    options: OptionsView { logo: Some("auto"@), ..before.options },
                    ..before
                },
            )
        }),
{
    lemma_reveal_flags();
    reveal_strlit("--logo");
    let before = parsed(args, config, no_color);
    let o = before.options;
    let n = args.len() as int;
    let lg = "--logo"@;
    assert(lg != "--no-icons"@ && lg != "--icons"@ && lg != "--json"@);
    let a2 = args + seq!["--logo"@, value];
    assert(a2[n] == "--logo"@ && a2[n + 1] == value);
    let after = ParsedArgs { options: OptionsView { logo: Some(value), ..o }, ..before };
    assert(crate::config::option_step(o, a2, n) == Ok::<(OptionsView, int), Seq<char>>(
        (after.options, n + 2),
    ));
    assert(arg_step(before, a2, n) == Ok::<(ParsedArgs, int), Seq<char>>((after, n + 2)));
    lemma_one_more_flag(args, seq!["--logo"@, value], config, no_color, after);

    let a3 = args + seq!["--logo"@];
    assert(a3[n] == "--logo"@ && a3.len() == n + 1);
    let auto = ParsedArgs { options: OptionsView { logo: Some("auto"@), ..o }, ..before };
    assert(crate::config::option_step(o, a3, n) == Ok::<(OptionsView, int), Seq<char>>(
        (auto.options, n + 1),
    ));
    assert(arg_step(before, a3, n) == Ok::<(ParsedArgs, int), Seq<char>>((auto, n + 1)));
    lemma_one_more_flag(args, seq!["--logo"@], config, no_color, auto);
}

/// Under `NO_COLOR` colour stays off: whatever the arguments, when they read
/// well the colour mode is `Never`.
pub proof fn law_no_color_keeps_colour_off(args: Seq<Seq<char>>, config: ConfigView)
    ensures
        parse_args_spec(args, config, true) matches Ok(r) ==> r.options.color == ColorMode::Never,
{
}

/// `--no-icons` is an alias for `--icons off`, and `--color-no` and
/// `--no-color` are aliases for `--color never`: after arguments that read
/// well, each reads as the flag it stands for.
pub proof fn law_flag_aliases(args: Seq<Seq<char>>, config: ConfigView, no_color: bool)
    requires
        parse_args_spec(args, config, no_color) is Ok,
    ensures
        parse_args_spec(args + seq!["--no-icons"@], config, no_color) == parse_args_spec(
            args + seq!["--icons"@, "off"@],
            config,
            no_color,
        ),
        parse_args_spec(args + seq!["--color-no"@], config, no_color) == parse_args_spec(
            args + seq!["--color"@, "never"@],
            config,
            no_color,
        ),
        parse_args_spec(args + seq!["--no-color"@], config, no_color) == parse_args_spec(
            args + seq!["--color"@, "never"@],
            config,
            no_color,
        ),
{
    lemma_reveal_flags();
    let before = parsed(args, config, no_color);
    let o = before.options;
    let n = args.len() as int;

    let icons_off = ParsedArgs { options: OptionsView { icons: IconMode::Off, ..o }, ..before };
    let a1 = args + seq!["--no-icons"@];
    assert(a1[n] == "--no-icons"@);
    assert(crate::config::option_step(o, a1, n) == Ok::<(OptionsView, int), Seq<char>>(
        (icons_off.options, n + 1),
    ));
    assert(arg_step(before, a1, n) == Ok::<(ParsedArgs, int), Seq<char>>((icons_off, n + 1)));
    lemma_one_more_flag(args, seq!["--no-icons"@], config, no_color, icons_off);
    let b1 = args + seq!["--icons"@, "off"@];
    assert(b1[n] == "--icons"@ && b1[n + 1] == "off"@);
    assert(icons_from("off"@) == Some(IconMode::Off));
    assert(crate::config::option_step(o, b1, n) == Ok::<(OptionsView, int), Seq<char>>(
        (icons_off.options, n + 2),
    ));
    assert(arg_step(before, b1, n) == Ok::<(ParsedArgs, int), Seq<char>>((icons_off, n + 2)));
    lemma_one_more_flag(args, seq!["--icons"@, "off"@], config, no_color, icons_off);

    let never = ParsedArgs { options: OptionsView { color: ColorMode::Never, ..o }, ..before };
    let c0 = args + seq!["--color"@, "never"@];
    assert(c0[n] == "--color"@ && c0[n + 1] == "never"@);
    assert(color_from("never"@) == Some(ColorMode::Never));
    assert(arg_step(before, c0, n) == Ok::<(ParsedArgs, int), Seq<char>>((never, n + 2)));
    lemma_one_more_flag(args, seq!["--color"@, "never"@], config, no_color, never);
    let c1 = args + seq!["--color-no"@];
    assert(c1[n] == "--color-no"@);
    assert(arg_step(before, c1, n) == Ok::<(ParsedArgs, int), Seq<char>>((never, n + 1)));
    lemma_one_more_flag(args, seq!["--color-no"@], config, no_color, never);
    let c2 = args + seq!["--no-color"@];
    assert(c2[n] == "--no-color"@);
    assert(arg_step(before, c2, n) == Ok::<(ParsedArgs, int), Seq<char>>((never, n + 1)));
    lemma_one_more_flag(args, seq!["--no-color"@], config, no_color, never);
}

/// Each switch sets its own field and nothing else: after arguments that
/// read well, `--no-terminator` sets `no_terminator` (and leaves `no_term`
/// as it was), `--no-term` sets `no_term`, `--verbose` sets `verbose`,
/// `--probe` and `--debug-sysinfo` set `probe`, and `--json` sets `json`;
/// every other option, and the help and version requests, stay as they were.
pub proof fn law_switches_set_own_field(args: Seq<Seq<char>>, config: ConfigView, no_color: bool)
    requires
        parse_args_spec(args, config, no_color) is Ok,
    ensures
        ({
            let before = parse_args_spec(args, config, no_color)->Ok_0;
            parse_args_spec(args + seq!["--no-terminator"@], config, no_color) == Ok::<ParsedArgs, Seq<char>>(
                ParsedArgs { options: OptionsView { no_terminator: true, ..before.options }, ..before },
            )
        }),
        ({
            let before = parse_args_spec(args, config, no_color)->Ok_0;
            parse_args_spec(args + seq!["--no-term"@], config, no_color) == Ok::<ParsedArgs, Seq<char>>(
                ParsedArgs { options: OptionsView { no_term: true, ..before.options }, ..before },
            )
        }),
        ({
            let before = parse_args_spec(args, config, no_color)->Ok_0;
            parse_args_spec(args + seq!["--verbose"@], config, no_color) == Ok::<ParsedArgs, Seq<char>>(
                ParsedArgs { options: OptionsView { verbose: true, ..before.options }, ..before },
            )
        }),
        ({
            let before = parse_args_spec(args, config, no_color)->Ok_0;
            parse_args_spec(args + seq!["--probe"@], config, no_color) == Ok::<ParsedArgs, Seq<char>>(
                ParsedArgs { options: OptionsView { probe: true, ..before.options }, ..before },
            )
        }),
        ({
            let before = parse_args_spec(args, config, no_color)->Ok_0;
            parse_args_spec(args + seq!["--debug-sysinfo"@], config, no_color) == Ok::<ParsedArgs, Seq<char>>(
                ParsedArgs { options: OptionsView { probe: true, ..before.options }, ..before },
            )
        }),
        ({
            let before = parse_args_spec(args, config, no_color)->Ok_0;
            parse_args_spec(args + seq!["--json"@], config, no_color) == Ok::<ParsedArgs, Seq<char>>(
                ParsedArgs { options: OptionsView { json: true, ..before.options }, ..before },
            )
        }),
{
    lemma_reveal_flags();
    reveal_strlit("--no-terminator");
    reveal_strlit("--debug-sysinfo");
    let before = parsed(args, config, no_color);
    let o = before.options;
    let n = args.len() as int;
    let a0 = args + seq!["--no-terminator"@];
    assert(a0[n] == "--no-terminator"@);
    let s0 = ParsedArgs { options: OptionsView { no_terminator: true, ..o }, ..before };
    assert(crate::config::option_step(o, a0, n) == Ok::<(OptionsView, int), Seq<char>>(
        (s0.options, n + 1),
    ));
    assert(arg_step(before, a0, n) == Ok::<(ParsedArgs, int), Seq<char>>((s0, n + 1)));
    lemma_one_more_flag(args, seq!["--no-terminator"@], config, no_color, s0);
    let a1 = args + seq!["--no-term"@];
    assert(a1[n] == "--no-term"@);
    let s1 = ParsedArgs { options: OptionsView { no_term: true, ..o }, ..before };
    assert(crate::config::option_step(o, a1, n) == Ok::<(OptionsView, int), Seq<char>>(
        (s1.options, n + 1),
    ));
    assert(arg_step(before, a1, n) == Ok::<(ParsedArgs, int), Seq<char>>((s1, n + 1)));
    lemma_one_more_flag(args, seq!["--no-term"@], config, no_color, s1);
    let a2 = args + seq!["--verbose"@];
    assert(a2[n] == "--verbose"@);
    let s2 = ParsedArgs { options: OptionsView { verbose: true, ..o }, ..before };
    assert(crate::config::option_step(o, a2, n) == Ok::<(OptionsView, int), Seq<char>>(
        (s2.options, n + 1),
    ));
    assert(arg_step(before, a2, n) == Ok::<(ParsedArgs, int), Seq<char>>((s2, n + 1)));
    lemma_one_more_flag(args, seq!["--verbose"@], config, no_color, s2);
    let a3 = args + seq!["--probe"@];
    assert(a3[n] == "--probe"@);
    let s3 = ParsedArgs { options: OptionsView { probe: true, ..o }, ..before };
    assert(crate::config::option_step(o, a3, n) == Ok::<(OptionsView, int), Seq<char>>(
        (s3.options, n + 1),
    ));
    assert(arg_step(before, a3, n) == Ok::<(ParsedArgs, int), Seq<char>>((s3, n + 1)));
    lemma_one_more_flag(args, seq!["--probe"@], config, no_color, s3);
    assert("--debug-sysinfo"@ != "--no-terminator"@) by {
        assert("--debug-sysinfo"@[2] != "--no-terminator"@[2]);
    }
    let a4 = args + seq!["--debug-sysinfo"@];
    assert(a4[n] == "--debug-sysinfo"@);
    let s4 = ParsedArgs { options: OptionsView { probe: true, ..o }, ..before };
    assert(crate::config::option_step(o, a4, n) == Ok::<(OptionsView, int), Seq<char>>(
        (s4.options, n + 1),
    ));
    assert(arg_step(before, a4, n) == Ok::<(ParsedArgs, int), Seq<char>>((s4, n + 1)));
    lemma_one_more_flag(args, seq!["--debug-sysinfo"@], config, no_color, s4);
    let a5 = args + seq!["--json"@];
    assert(a5[n] == "--json"@);
    let s5 = ParsedArgs { options: OptionsView { json: true, ..o }, ..before };
    assert(crate::config::option_step(o, a5, n) == Ok::<(OptionsView, int), Seq<char>>(
        (s5.options, n + 1),
    ));
    assert(arg_step(before, a5, n) == Ok::<(ParsedArgs, int), Seq<char>>((s5, n + 1)));
    lemma_one_more_flag(args, seq!["--json"@], config, no_color, s5);
}

/// `--help` and `-h` ask for the help text, `--version` and `-V` for the
/// version: after arguments that read well, each sets its request and
/// leaves the options and the other request as they were.
pub proof fn law_help_and_version_flags(args: Seq<Seq<char>>, config: ConfigView, no_color: bool)
    requires
        parse_args_spec(args, config, no_color) is Ok,
    ensures
        ({
            let before = parse_args_spec(args, config, no_color)->Ok_0;
            parse_args_spec(args + seq!["--help"@], config, no_color) == Ok::<ParsedArgs, Seq<char>>(
                ParsedArgs { help: true, ..before },
            )
        }),
        ({
            let before = parse_args_spec(args, config, no_color)->Ok_0;
            parse_args_spec(args + seq!["-h"@], config, no_color) == Ok::<ParsedArgs, Seq<char>>(
                ParsedArgs { help: true, ..before },
            )
        }),
        ({
            let before = parse_args_spec(args, config, no_color)->Ok_0;
            parse_args_spec(args + seq!["--version"@], config, no_color) == Ok::<ParsedArgs, Seq<char>>(
                ParsedArgs { version: true, ..before },
            )
        }),
        ({
            let before = parse_args_spec(args, config, no_color)->Ok_0;
            parse_args_spec(args + seq!["-V"@], config, no_color) == Ok::<ParsedArgs, Seq<char>>(
                ParsedArgs { version: true, ..before },
            )
        }),
{
    lemma_reveal_flags();
    let before = parsed(args, config, no_color);
    let n = args.len() as int;
    let a0 = args + seq!["--help"@];
    assert(a0[n] == "--help"@);
    let s0 = ParsedArgs { help: true, ..before };
    assert(arg_step(before, a0, n) == Ok::<(ParsedArgs, int), Seq<char>>((s0, n + 1)));
    lemma_one_more_flag(args, seq!["--help"@], config, no_color, s0);
    let a1 = args + seq!["-h"@];
    assert(a1[n] == "-h"@);
    let s1 = ParsedArgs { help: true, ..before };
    assert(arg_step(before, a1, n) == Ok::<(ParsedArgs, int), Seq<char>>((s1, n + 1)));
    lemma_one_more_flag(args, seq!["-h"@], config, no_color, s1);
    let a2 = args + seq!["--version"@];
    assert(a2[n] == "--version"@);
    let s2 = ParsedArgs { version: true, ..before };
    assert(arg_step(before, a2, n) == Ok::<(ParsedArgs, int), Seq<char>>((s2, n + 1)));
    lemma_one_more_flag(args, seq!["--version"@], config, no_color, s2);
    let a3 = args + seq!["-V"@];
    assert(a3[n] == "-V"@);
    let s3 = ParsedArgs { version: true, ..before };
    assert(arg_step(before, a3, n) == Ok::<(ParsedArgs, int), Seq<char>>((s3, n + 1)));
    lemma_one_more_flag(args, seq!["-V"@], config, no_color, s3);
}

/// Text escaped for a JSON string holds no raw control character (none
/// below U+0020), whatever it was made from.
pub proof fn law_json_escape_has_no_raw_control(s: Seq<char>)
    ensures
        forall|i: int| 0 <= i < json_escape_spec(s).len() ==> json_escape_spec(s)[i] >= ' ',
    decreases s.len(),
{
    if s.len() > 0 {
        law_json_escape_has_no_raw_control(s.drop_last());
        let head = json_escape_spec(s.drop_last());
        let tail = escape_char(s.last());
        let c = s.last();
        if c != '"' && c != '\\' && c != '\n' && c != '\r' && c != '\t' && crate::render::is_control(c) {
            let n = c as u32;
            assert(n / 4096 % 16 < 16 && n / 256 % 16 < 16 && n / 16 % 16 < 16 && n % 16 < 16);
            assert forall|d: nat| d < 16 implies crate::render::hex_digit(d) >= ' ' by {
                if d < 10 {
                    assert(crate::number::digit_char(d) >= ' ');
                }
            }
        }
        assert forall|i: int| 0 <= i < tail.len() implies tail[i] >= ' ' by {}
        assert forall|i: int| 0 <= i < (head + tail).len() implies (head + tail)[i] >= ' ' by {
            if i < head.len() {
                assert((head + tail)[i] == head[i]);
            } else {
                assert((head + tail)[i] == tail[i - head.len()]);
            }
        }
    }
}


/// The value of a hexadecimal digit (either case).
pub open spec fn hex_value(c: char) -> Option<nat> {
    if '0' <= c && c <= '9' {
        Some((c as nat - '0' as nat) as nat)
    } else if 'a' <= c && c <= 'f' {
        Some((c as nat - 'a' as nat + 10) as nat)
    } else if 'A' <= c && c <= 'F' {
        Some((c as nat - 'A' as nat + 10) as nat)
    } else {
        None
    }
}

/// The character that a `\u` escape with these four digits stands for
/// (escapes of surrogate halves are not read).
pub open spec fn unicode_escape_char(d: Seq<char>) -> Option<char> {
    match (hex_value(d[0]), hex_value(d[1]), hex_value(d[2]), hex_value(d[3])) {
        (Some(a), Some(b), Some(c), Some(e)) => {
            let n = a * 4096 + b * 256 + c * 16 + e;
            if 0xD800 <= n <= 0xDFFF {
                None
            } else {
                Some(n as char)
            }
        },
        _ => None,
    }
}

/// The text that the inside of a JSON string literal stands for, read as
/// JSON reads it: `\"`, `\\`, `\/`, `\b`, `\f`, `\n`, `\r`, `\t` and `\u`
/// with four hexadecimal digits are escapes; a bare `"`, a bare backslash
/// or a raw character below U+0020 makes it no string.
pub open spec fn json_unescape(s: Seq<char>) -> Option<Seq<char>>
    decreases s.len(),
{
    if s.len() == 0 {
        Some(Seq::empty())
    } else if s[0] == '\\' {
        if s.len() < 2 {
            None
        } else {
            let e = s[1];
            let simple = if e == '"' {
                Some('"')
            } else if e == '\\' {
                Some('\\')
            } else if e == '/' {
                Some('/')
            } else if e == 'b' {
                Some('\u{8}')
            } else if e == 'f' {
                Some('\u{c}')
            } else if e == 'n' {
                Some('\n')
            } else if e == 'r' {
                Some('\r')
            } else if e == 't' {
                Some('\t')
            } else {
                None
            };
            match simple {
                Some(c) => match json_unescape(s.skip(2)) {
                    Some(rest) => Some(seq![c] + rest),
                    None => None,
                },
                None => if e == 'u' && s.len() >= 6 {
                    match unicode_escape_char(s.subrange(2, 6)) {
                        Some(c) => match json_unescape(s.skip(6)) {
                            Some(rest) => Some(seq![c] + rest),
                            None => None,
                        },
                        None => None,
                    }
                } else {
                    None
                },
            }
        }
    } else if s[0] == '"' || ' ' > s[0] {
        None
    } else {
        match json_unescape(s.skip(1)) {
            Some(rest) => Some(seq![s[0]] + rest),
            None => None,
        }
    }
}

proof fn lemma_json_escape_front(s: Seq<char>)
    requires
        s.len() > 0,
    ensures
        json_escape_spec(s) == escape_char(s[0]) + json_escape_spec(s.drop_first()),
    decreases s.len(),
{
    if s.len() == 1 {
        assert(s.drop_last() =~= Seq::<char>::empty());
        assert(s.drop_first() =~= Seq::<char>::empty());
        assert(json_escape_spec(s.drop_last()) =~= Seq::<char>::empty());
        assert(json_escape_spec(s.drop_first()) =~= Seq::<char>::empty());
        assert(s.last() == s[0]);
        assert(json_escape_spec(s) =~= escape_char(s[0]));
    } else {
        let init = s.drop_last();
        lemma_json_escape_front(init);
        assert(init.drop_first() =~= s.drop_first().drop_last());
        assert(s.drop_first().last() == s.last());
        assert(init[0] == s[0]);
        assert(json_escape_spec(s) =~= escape_char(s[0]) + json_escape_spec(s.drop_first()));
    }
}

proof fn lemma_hex_digit_value(d: nat)
    requires
        d < 16,
    ensures
        hex_value(crate::render::hex_digit(d)) == Some(d),
{
    if d < 10 {
        assert(crate::number::digit_char(d) as nat == '0' as nat + d);
    }
}

/// Reading back one escaped character, and then the rest.
proof fn lemma_unescape_one(c: char, t: Seq<char>)
    ensures
        json_unescape(escape_char(c) + t) == match json_unescape(t) {
            Some(rest) => Some(seq![c] + rest),
            None => None::<Seq<char>>,
        },
{
    let e = escape_char(c);
    let s = e + t;
    if c == '"' || c == '\\' || c == '\n' || c == '\r' || c == '\t' {
        assert(s[0] == '\\' && s[1] == e[1]);
        assert(s.skip(2) =~= t);
    } else if crate::render::is_control(c) {
        let n = c as u32;
        assert(n <= 0x9f);
        let d3 = (n / 4096 % 16) as nat;
        let d2 = (n / 256 % 16) as nat;
        let d1 = (n / 16 % 16) as nat;
        let d0 = (n % 16) as nat;
        lemma_hex_digit_value(d3);
        lemma_hex_digit_value(d2);
        lemma_hex_digit_value(d1);
        lemma_hex_digit_value(d0);
        assert(d3 * 4096 + d2 * 256 + d1 * 16 + d0 == n) by (nonlinear_arith)
            requires
                n <= 0x9f,
                d3 == n / 4096 % 16,
                d2 == n / 256 % 16,
                d1 == n / 16 % 16,
                d0 == n % 16,
        ;
        assert(s[0] == '\\' && s[1] == 'u');
        assert(s.subrange(2, 6) =~= seq![
            crate::render::hex_digit(d3),
            crate::render::hex_digit(d2),
            crate::render::hex_digit(d1),
            crate::render::hex_digit(d0),
        ]);
        assert(unicode_escape_char(s.subrange(2, 6)) == Some(c));
        assert(s.skip(6) =~= t);
    } else {
        assert(s[0] == c);
        assert(s.skip(1) =~= t);
    }
}

/// JSON escaping round-trips: the escaped text, read as the inside of a
/// JSON string literal, gives back the text it was made from.
pub proof fn law_json_escape_round_trips(s: Seq<char>)
    ensures
        json_unescape(json_escape_spec(s)) == Some(s),
    decreases s.len(),
{
    if s.len() == 0 {
        assert(json_escape_spec(s) =~= Seq::<char>::empty());
    } else {
        lemma_json_escape_front(s);
        law_json_escape_round_trips(s.drop_first());
        lemma_unescape_one(s[0], json_escape_spec(s.drop_first()));
        assert(seq![s[0]] + s.drop_first() =~= s);
    }
}

/// One row is one JSON object: its label and its value, each escaped, under
/// the keys `label` and `value`.
pub proof fn law_json_row_object(row: (Seq<char>, Seq<char>))
    ensures
        json_rows(seq![row]) == "{\"label\":\""@ + json_escape_spec(row.0) + "\",\"value\":\""@
            + json_escape_spec(row.1) + "\"}"@,
{
}

/// The JSON readout holds one object per row, in order, separated by
/// commas: the objects of two runs of rows, one run after the other, are the
/// objects of the first run, a comma, and the objects of the second.
pub proof fn law_json_rows_join(a: Seq<(Seq<char>, Seq<char>)>, b: Seq<(Seq<char>, Seq<char>)>)
    requires
        a.len() > 0,
        b.len() > 0,
    ensures
        json_rows(a + b) == json_rows(a) + ","@ + json_rows(b),
    decreases b.len(),
{
    let ab = a + b;
    assert(ab.last() == b.last());
    if b.len() == 1 {
        assert(ab.drop_last() =~= a);
    } else {
        assert(ab.drop_last() =~= a + b.drop_last());
        law_json_rows_join(a, b.drop_last());
        assert(json_rows(ab) =~= json_rows(a) + ","@ + json_rows(b));
    }
}


/// `s` with the label colour codes (`ESC [36m` and `ESC [0m`) taken out.
pub open spec fn without_codes(s: Seq<char>) -> Seq<char>
    decreases s.len(),
{
    if s.len() == 0 {
        Seq::empty()
    } else if s.len() >= 5 && s.take(5) == ansi_label() {
        without_codes(s.skip(5))
    } else if s.len() >= 4 && s.take(4) == ansi_reset() {
        without_codes(s.skip(4))
    } else {
        seq![s[0]] + without_codes(s.skip(1))
    }
}

/// Taking the codes out of `t` followed by anything gives `f` followed by
/// that thing with its codes taken out.
pub open spec fn strips_to(t: Seq<char>, f: Seq<char>) -> bool {
    forall|rest: Seq<char>| #[trigger] without_codes(t + rest) == f + without_codes(rest)
}

proof fn lemma_plain_strips(x: Seq<char>)
    requires
        free_of(x, '\u{1b}'),
    ensures
        strips_to(x, x),
    decreases x.len(),
{
    assert forall|rest: Seq<char>| #[trigger] without_codes(x + rest) == x + without_codes(rest) by {
        if x.len() == 0 {
            assert(x + rest =~= rest);
            assert(x + without_codes(rest) =~= without_codes(rest));
        } else {
            let t = x.skip(1);
            assert(free_of(t, '\u{1b}')) by {
                assert forall|i: int| 0 <= i < t.len() implies t[i] != '\u{1b}' by {
                    assert(t[i] == x[i + 1]);
                }
            }
            lemma_plain_strips(t);
            let s = x + rest;
            assert(s[0] == x[0] && x[0] != '\u{1b}');
            assert(s.len() >= 5 ==> s.take(5)[0] != ansi_label()[0]);
            assert(s.len() >= 4 ==> s.take(4)[0] != ansi_reset()[0]);
            assert(s.skip(1) =~= t + rest);
            assert(without_codes(t + rest) == t + without_codes(rest));
            assert(seq![x[0]] + (t + without_codes(rest)) =~= x + without_codes(rest));
        }
    }
}

proof fn lemma_codes_strip()
    ensures
        strips_to(ansi_label(), Seq::empty()),
        strips_to(ansi_reset(), Seq::empty()),
{
    assert forall|rest: Seq<char>| #[trigger] without_codes(ansi_label() + rest) == Seq::<
        char,
    >::empty() + without_codes(rest) by {
        let s = ansi_label() + rest;
        assert(s.take(5) =~= ansi_label());
        assert(s.skip(5) =~= rest);
        assert(Seq::<char>::empty() + without_codes(rest) =~= without_codes(rest));
    }
    assert forall|rest: Seq<char>| #[trigger] without_codes(ansi_reset() + rest) == Seq::<
        char,
    >::empty() + without_codes(rest) by {
        let s = ansi_reset() + rest;
        assert(s.take(4) =~= ansi_reset());
        assert(!(s.len() >= 5 && s.take(5) == ansi_label())) by {
            if s.len() >= 5 {
                assert(s.take(5)[3] != ansi_label()[3]);
            }
        }
        assert(s.skip(4) =~= rest);
        assert(Seq::<char>::empty() + without_codes(rest) =~= without_codes(rest));
    }
}

proof fn lemma_strips_add(t1: Seq<char>, f1: Seq<char>, t2: Seq<char>, f2: Seq<char>)
    requires
        strips_to(t1, f1),
        strips_to(t2, f2),
    ensures
        strips_to(t1 + t2, f1 + f2),
{
    assert forall|rest: Seq<char>| #[trigger] without_codes((t1 + t2) + rest) == (f1 + f2)
        + without_codes(rest) by {
        assert((t1 + t2) + rest =~= t1 + (t2 + rest));
        assert(without_codes(t1 + (t2 + rest)) == f1 + without_codes(t2 + rest));
        assert(without_codes(t2 + rest) == f2 + without_codes(rest));
        assert(f1 + (f2 + without_codes(rest)) =~= (f1 + f2) + without_codes(rest));
    }
}

/// A coloured text strips to the text.
proof fn lemma_colorize_strips(m: Seq<char>)
    requires
        free_of(m, '\u{1b}'),
    ensures
        strips_to(colorize_spec(m, true), colorize_spec(m, false)),
{
    lemma_codes_strip();
    lemma_plain_strips(m);
    lemma_strips_add(ansi_label(), Seq::empty(), m, m);
    lemma_strips_add(ansi_label() + m, Seq::<char>::empty() + m, ansi_reset(), Seq::empty());
    assert(Seq::<char>::empty() + m + Seq::<char>::empty() =~= m);
}

proof fn lemma_row_line_strips(
    row: (Seq<char>, Seq<char>),
    icons: IconMode,
    info_width: int,
    room: int,
)
    requires
        free_of(row.0, '\u{1b}'),
        free_of(row.1, '\u{1b}'),
    ensures
        strips_to(
            row_line_spec(row, icons, info_width, room, true),
            row_line_spec(row, icons, info_width, room, false),
        ),
{
    let c = '\u{1b}';
    lemma_label_free(row.0, icons, c);
    let padded = pad_spec(label_text_spec(row.0, icons), info_width);
    lemma_pad_free(label_text_spec(row.0, icons), info_width, c);
    lemma_colorize_strips(padded);
    lemma_truncate_free(row.1, room, c);
    let tail = seq![' '] + truncate_spec(row.1, room);
    lemma_add_free(seq![' '], truncate_spec(row.1, room), c);
    lemma_plain_strips(tail);
    lemma_strips_add(colorize_spec(padded, true), padded, tail, tail);
    assert(row_line_spec(row, icons, info_width, room, true) =~= colorize_spec(padded, true)
        + tail);
    assert(row_line_spec(row, icons, info_width, room, false) =~= padded + tail);
}

/// Line by line, the coloured layout strips to the plain one.
#[verifier::rlimit(40)]
proof fn lemma_layout_strips(
    rows: Seq<(Seq<char>, Seq<char>)>,
    logo: Option<Seq<char>>,
    width: int,
    height: int,
    icons: IconMode,
)
    requires
        rows_free_of(rows, '\u{1b}'),
        logo matches Some(l) ==> free_of(l, '\u{1b}'),
    ensures
        layout_lines(rows, logo, width, height, icons, true).len() == layout_lines(
            rows,
            logo,
            width,
            height,
            icons,
            false,
        ).len(),
        forall|k: int|
            0 <= k < layout_lines(rows, logo, width, height, icons, true).len() ==> strips_to(
                #[trigger] layout_lines(rows, logo, width, height, icons, true)[k],
                layout_lines(rows, logo, width, height, icons, false)[k],
            ),
{
    let c = '\u{1b}';
    lemma_identity_free(rows, c);
    lemma_listed_free(rows, c);
    let listed = listed_rows(rows);
    let labels = listed.map_values(|r: (Seq<char>, Seq<char>)| label_text_spec(r.0, icons));
    let info_width = crate::render::info_width_spec(labels);
    let logo_lines = match logo {
        Some(l) => lines(l),
        None => Seq::empty(),
    };
    if let Some(l) = logo {
        lemma_lines_free(l, c);
    }
    assert(lines_free_of(logo_lines, c));
    let side = crate::render::is_side_by_side(logo_lines, info_width, width);
    let header_room = if side {
        crate::render::sat_sub(width, crate::render::logo_width_spec(logo_lines) + 2)
    } else {
        width
    };
    let header = match identity_spec(rows) {
        Some(id) => Some(truncate_spec(id, header_room)),
        None => None,
    };
    if let Some(id) = identity_spec(rows) {
        lemma_truncate_free(id, header_room, c);
    }
    let lt = layout_lines(rows, logo, width, height, icons, true);
    let lf = layout_lines(rows, logo, width, height, icons, false);
    if side {
        let lw = crate::render::logo_width_spec(logo_lines);
        let room = crate::render::side_room(width, lw, info_width);
        assert(lt == side_lines(logo_lines, header, listed, icons, info_width, width, true));
        assert(lf == side_lines(logo_lines, header, listed, icons, info_width, width, false));
        assert forall|i: int| 0 <= i < lt.len() implies strips_to(#[trigger] lt[i], lf[i]) by {
            let left = if i < logo_lines.len() {
                logo_lines[i]
            } else {
                Seq::empty()
            };
            let rt = side_right(i, header, listed, icons, info_width, room, true);
            let rf = side_right(i, header, listed, icons, info_width, room, false);
            match header {
                Some(h) => {
                    if i == 0 {
                        lemma_colorize_strips(h);
                    } else if i == 1 {
                        lemma_repeat_free('-', crate::width::text_columns(h), c);
                        lemma_plain_strips(rt);
                    } else if i - 2 < listed.len() {
                        assert(free_of(listed[i - 2].0, c));
                        lemma_row_line_strips(listed[i - 2], icons, info_width, room);
                    } else {
                        lemma_plain_strips(rt);
                    }
                },
                None => {
                    if i < listed.len() {
                        assert(free_of(listed[i].0, c));
                        lemma_row_line_strips(listed[i], icons, info_width, room);
                    } else {
                        lemma_plain_strips(rt);
                    }
                },
            }
            assert(strips_to(rt, rf));
            lemma_pad_free(left, lw, c);
            let lead = pad_spec(left, lw) + seq![' ', ' '];
            lemma_add_free(pad_spec(left, lw), seq![' ', ' '], c);
            lemma_plain_strips(lead);
            lemma_strips_add(lead, lead, rt, rf);
        }
    } else {
        let hl_t = header_lines(header, true);
        let hl_f = header_lines(header, false);
        let rl_t = stacked_row_lines(listed, icons, info_width, width, true);
        let rl_f = stacked_row_lines(listed, icons, info_width, width, false);
        let logo_part = if logo_lines.len() > 0 && logo_lines.len() + listed.len() <= height {
            logo_lines
        } else {
            Seq::empty()
        };
        assert(lt == logo_part + hl_t + rl_t);
        assert(lf == logo_part + hl_f + rl_f);
        let room = crate::render::sat_sub(width, info_width + 1);
        assert forall|k: int| 0 <= k < lt.len() implies strips_to(#[trigger] lt[k], lf[k]) by {
            if k < logo_part.len() {
                assert(lt[k] == logo_part[k] && lf[k] == logo_part[k]);
                assert(free_of(logo_lines[k], c));
                lemma_plain_strips(logo_part[k]);
            } else if k < logo_part.len() + hl_t.len() {
                let j = k - logo_part.len();
                assert(lt[k] == hl_t[j] && lf[k] == hl_f[j]);
                let h = header->Some_0;
                if j == 0 {
                    lemma_colorize_strips(h);
                } else {
                    lemma_repeat_free('-', crate::width::text_columns(h), c);
                    lemma_plain_strips(hl_t[j]);
                }
            } else {
                let j = k - logo_part.len() - hl_t.len();
                assert(lt[k] == rl_t[j] && lf[k] == rl_f[j]);
                if width <= 30 {
                    let r = listed[j / 2];
                    assert(free_of(listed[j / 2].0, c));
                    if j % 2 == 0 {
                        lemma_label_free(r.0, icons, c);
                        lemma_truncate_free(label_text_spec(r.0, icons), width, c);
                        lemma_colorize_strips(truncate_spec(label_text_spec(r.0, icons), width));
                    } else {
                        lemma_truncate_free(r.1, room, c);
                        lemma_truncate_free(truncate_spec(r.1, room), width, c);
                        lemma_plain_strips(rl_t[j]);
                    }
                } else {
                    assert(free_of(listed[j].0, c));
                    lemma_row_line_strips(listed[j], icons, info_width, room);
                }
            }
        }
    }
}

proof fn lemma_terminated_strips(lt: Seq<Seq<char>>, lf: Seq<Seq<char>>)
    requires
        lt.len() == lf.len(),
        forall|k: int| 0 <= k < lt.len() ==> strips_to(#[trigger] lt[k], lf[k]),
    ensures
        strips_to(terminated(lt), terminated(lf)),
    decreases lt.len(),
{
    if lt.len() == 0 {
        lemma_plain_strips(Seq::empty());
        assert(terminated(lt) =~= Seq::<char>::empty());
        assert(terminated(lf) =~= Seq::<char>::empty());
    } else {
        let it = lt.drop_last();
        let f = lf.drop_last();
        assert forall|k: int| 0 <= k < it.len() implies strips_to(#[trigger] it[k], f[k]) by {
            assert(it[k] == lt[k] && f[k] == lf[k]);
        }
        lemma_terminated_strips(it, f);
        assert(strips_to(lt[lt.len() - 1], lf[lf.len() - 1]));
        let nl = seq!['\n'];
        assert(free_of(nl, '\u{1b}'));
        lemma_plain_strips(nl);
        lemma_strips_add(lt.last(), lf.last(), nl, nl);
        assert(lt.last().push('\n') =~= lt.last() + nl);
        assert(lf.last().push('\n') =~= lf.last() + nl);
        lemma_strips_add(terminated(it), terminated(f), lt.last() + nl, lf.last() + nl);
    }
}

/// Colour changes nothing but the codes: the coloured readout with its
/// colour codes taken out is the plain readout, when no label, value or
/// logo brings an escape character of its own.
pub proof fn law_colour_only_adds_codes(
    rows: Seq<(Seq<char>, Seq<char>)>,
    logo: Option<Seq<char>>,
    width: usize,
    height: usize,
    icons: IconMode,
)
    requires
        rows_free_of(rows, '\u{1b}'),
        logo matches Some(l) ==> free_of(l, '\u{1b}'),
    ensures
        without_codes(render_spec(rows, logo, width as int, height as int, icons, true))
            == render_spec(rows, logo, width as int, height as int, icons, false),
{
    let lt = layout_lines(rows, logo, width as int, height as int, icons, true);
    let lf = layout_lines(rows, logo, width as int, height as int, icons, false);
    lemma_layout_strips(rows, logo, width as int, height as int, icons);
    let st = if lt.len() > height {
        lt.take(height as int)
    } else {
        lt
    };
    let sf = if lf.len() > height {
        lf.take(height as int)
    } else {
        lf
    };
    assert forall|k: int| 0 <= k < st.len() implies strips_to(#[trigger] st[k], sf[k]) by {
        assert(st[k] == lt[k] && sf[k] == lf[k]);
    }
    lemma_terminated_strips(st, sf);
    let out = terminated(st);
    assert(without_codes(out + Seq::empty()) == terminated(sf) + without_codes(Seq::empty()));
    assert(out + Seq::<char>::empty() =~= out);
    assert(terminated(sf) + without_codes(Seq::<char>::empty()) =~= terminated(sf));
}

} // verus!
