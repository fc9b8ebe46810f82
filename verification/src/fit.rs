//! The readout fits the pane's width: every line of it takes at most as many
//! columns as the pane has, when the texts it is made of are plain.

use crate::config::IconMode;
use crate::render::{
    ascii_upper, find_value, fitting_prefix, header_lines, icon_symbol, icon_text,
    identity_spec, info_width_spec, is_identity_label, is_side_by_side, label_text_spec,
    layout_lines, listed_rows, logo_width_spec, pad_room, pad_spec, plain_label, render_spec,
    row_line_spec, sat_sub, side_lines, side_right, side_room, stacked_lines, stacked_row_lines,
    truncate_spec, width_or_zero, width_plus_one, without_identity, ELLIPSIS,
};
use crate::text::{
    after_first_line, first_line, lemma_first_index, lemma_lines_unfold, lines,
    repeat_char, terminated,
};
use crate::width::{
    all_plain, char_cols, cols, is_plain, is_printable_ascii, lemma_cols_add, text_columns,
};
use vstd::prelude::*;

verus! {

/// `s` is plain and at most `w` columns wide.
pub open spec fn fits(s: Seq<char>, w: int) -> bool {
    all_plain(s) && cols(s) <= w
}

/// The rows that the width law is about: plain labels of at most 26 columns
/// and plain values.
pub open spec fn plain_rows(rows: Seq<(Seq<char>, Seq<char>)>) -> bool {
    forall|i: int|
        0 <= i < rows.len() ==> all_plain(#[trigger] rows[i].0) && cols(rows[i].0) <= 26
            && all_plain(rows[i].1)
}

proof fn lemma_plain_add(a: Seq<char>, b: Seq<char>)
    requires
        all_plain(a),
        all_plain(b),
    ensures
        all_plain(a + b),
        cols(a + b) == cols(a) + cols(b),
{
    lemma_cols_add(a, b);
    assert forall|i: int| 0 <= i < (a + b).len() implies is_plain(#[trigger] (a + b)[i]) by {
        if i < a.len() {
            assert((a + b)[i] == a[i]);
        } else {
            assert((a + b)[i] == b[i - a.len()]);
        }
    }
}

proof fn lemma_cols_one(c: char)
    ensures
        cols(seq![c]) == char_cols(c),
{
    assert(seq![c].drop_last() =~= Seq::<char>::empty());
    assert(cols(Seq::<char>::empty()) == 0);
    assert(seq![c].last() == c);
}

/// A text of printable ASCII takes one column per character.
proof fn lemma_cols_ascii(s: Seq<char>)
    requires
        forall|i: int| 0 <= i < s.len() ==> is_printable_ascii(#[trigger] s[i]),
    ensures
        all_plain(s),
        cols(s) == s.len(),
    decreases s.len(),
{
    if s.len() > 0 {
        let init = s.drop_last();
        assert forall|i: int| 0 <= i < init.len() implies is_printable_ascii(#[trigger] init[i]) by {
            assert(init[i] == s[i]);
        }
        lemma_cols_ascii(init);
        assert(is_printable_ascii(s[s.len() - 1]));
        assert forall|i: int| 0 <= i < s.len() implies is_plain(#[trigger] s[i]) by {
            assert(is_printable_ascii(s[i]));
        }
    }
}

proof fn lemma_drop_first_plain(v: Seq<char>)
    requires
        all_plain(v),
        v.len() > 0,
    ensures
        all_plain(v.drop_first()),
        cols(v) == char_cols(v[0]) + cols(v.drop_first()),
{
    let t = v.drop_first();
    assert forall|i: int| 0 <= i < t.len() implies is_plain(#[trigger] t[i]) by {
        assert(t[i] == v[i + 1]);
    }
    lemma_cols_add(seq![v[0]], t);
    lemma_cols_one(v[0]);
    assert(seq![v[0]] + t =~= v);
}

proof fn lemma_fitting_prefix_plain(v: Seq<char>, budget: int)
    requires
        all_plain(v),
        budget >= 0,
    ensures
        cols(fitting_prefix(v, budget)) <= budget,
        fitting_prefix(v, budget).len() <= v.len(),
        fitting_prefix(v, budget) =~= v.take(fitting_prefix(v, budget).len() as int),
    decreases v.len(),
{
    if v.len() > 0 {
        assert(is_plain(v[0]));
        assert(width_or_zero(v[0]) == char_cols(v[0]));
        if char_cols(v[0]) <= budget {
            let t = v.drop_first();
            lemma_drop_first_plain(v);
            lemma_fitting_prefix_plain(t, budget - char_cols(v[0]));
            let rest = fitting_prefix(t, budget - char_cols(v[0]));
            assert(fitting_prefix(v, budget) == seq![v[0]] + rest);
            lemma_cols_add(seq![v[0]], rest);
            lemma_cols_one(v[0]);
            assert(seq![v[0]] + t.take(rest.len() as int) =~= v.take(rest.len() as int + 1));
        } else {
            assert(fitting_prefix(v, budget) =~= Seq::<char>::empty());
        }
    } else {
        assert(fitting_prefix(v, budget) =~= Seq::<char>::empty());
    }
}

proof fn lemma_take_plain(v: Seq<char>, n: int)
    requires
        all_plain(v),
        0 <= n <= v.len(),
    ensures
        all_plain(v.take(n)),
{
    assert forall|i: int| 0 <= i < v.take(n).len() implies is_plain(#[trigger] v.take(n)[i]) by {
        assert(v.take(n)[i] == v[i]);
    }
}

/// A plain value cut to `width` columns fits them.
proof fn lemma_truncate_fits(v: Seq<char>, width: int)
    requires
        all_plain(v),
        width >= 0,
    ensures
        fits(truncate_spec(v, width), width),
{
    assert(text_columns(v) == cols(v));
    lemma_cols_one(ELLIPSIS);
    if cols(v) > width && width >= 2 {
        lemma_fitting_prefix_plain(v, width - 1);
        let p = fitting_prefix(v, width - 1);
        lemma_take_plain(v, p.len() as int);
        lemma_plain_add(p, seq![ELLIPSIS]);
        assert(p.push(ELLIPSIS) =~= p + seq![ELLIPSIS]);
    } else if cols(v) > width && width == 1 {
        assert(all_plain(seq![ELLIPSIS]));
    } else if cols(v) > width {
        assert(truncate_spec(v, width) =~= Seq::<char>::empty());
    }
}

proof fn lemma_repeat_fits(c: char, n: nat)
    requires
        is_printable_ascii(c),
    ensures
        all_plain(repeat_char(c, n)),
        cols(repeat_char(c, n)) == n,
    decreases n,
{
    if n > 0 {
        lemma_repeat_fits(c, (n - 1) as nat);
        assert(repeat_char(c, n).drop_last() =~= repeat_char(c, (n - 1) as nat));
    }
}

/// A plain text padded to `width` columns takes the larger of its columns
/// and `width`.
proof fn lemma_pad_fits(v: Seq<char>, width: int)
    requires
        all_plain(v),
    ensures
        all_plain(pad_spec(v, width)),
        cols(pad_spec(v, width)) == if cols(v) > width {
            cols(v) as int
        } else {
            width
        },
{
    assert(text_columns(v) == cols(v));
    lemma_repeat_fits(' ', pad_room(v, width));
    lemma_plain_add(v, repeat_char(' ', pad_room(v, width)));
}

/// The label of a plain label is plain and at most three columns wider
/// (an icon, a space and a colon).
proof fn lemma_label_fits(label: Seq<char>, icons: IconMode)
    requires
        all_plain(label),
    ensures
        fits(label_text_spec(label, icons), cols(label) as int + 3),
{
    reveal_strlit("os");
    reveal_strlit("cpu");
    reveal_strlit("gpu");
    reveal_strlit("OS");
    reveal_strlit("CPU");
    reveal_strlit("GPU");
    reveal_strlit("os:");
    let l = if label == "os"@ {
        "OS"@
    } else if label == "cpu"@ {
        "CPU"@
    } else if label == "gpu"@ {
        "GPU"@
    } else {
        label
    };
    if label == "os"@ || label == "cpu"@ || label == "gpu"@ {
        lemma_cols_ascii(label);
        lemma_cols_ascii(l);
    }
    assert(all_plain(l) && cols(l) == cols(label));
    if l.len() > 0 {
        let u = ascii_upper(l[0]);
        if 'a' <= l[0] && l[0] <= 'z' {
            let n = l[0] as u32;
            assert(97 <= n <= 122);
            assert(((n - 32) as u8) as char >= ' ');
            assert(((n - 32) as u8) as char <= '~');
            assert(is_printable_ascii(u) && is_printable_ascii(l[0]));
        }
        assert(is_plain(u) && char_cols(u) == char_cols(l[0]));
        lemma_drop_first_plain(l);
        let t = l.drop_first();
        lemma_cols_one(u);
        lemma_cols_one(':');
        lemma_plain_add(seq![u], t);
        lemma_plain_add(seq![u] + t, seq![':']);
    }
    let plain = plain_label(label);
    assert(fits(plain, cols(label) as int + 1));
    lemma_cols_ascii("os:"@);
    if label == "os"@ {
        lemma_cols_ascii(label);
    }
    match icons {
        IconMode::Unicode => {
            let text = icon_text(label, false);
            assert(fits(text, cols(label) as int + 1));
            lemma_cols_one(icon_symbol(label, false));
            lemma_cols_one(' ');
            lemma_plain_add(seq![icon_symbol(label, false)], seq![' ']);
            assert(seq![icon_symbol(label, false), ' '] =~= seq![icon_symbol(label, false)] + seq![' ']);
            lemma_plain_add(seq![icon_symbol(label, false), ' '], text);
        },
        IconMode::Nerd => {
            let text = icon_text(label, true);
            assert(text == plain);
            lemma_cols_one(icon_symbol(label, true));
            lemma_cols_one(' ');
            lemma_plain_add(seq![icon_symbol(label, true)], seq![' ']);
            assert(seq![icon_symbol(label, true), ' '] =~= seq![icon_symbol(label, true)] + seq![' ']);
            lemma_plain_add(seq![icon_symbol(label, true), ' '], text);
        },
        IconMode::Off => {},
    }
}

/// The label column is wider than every label, by one at least, and at
/// most one wider than `bound`.
proof fn lemma_info_width(labels: Seq<Seq<char>>, bound: int)
    requires
        0 <= bound < usize::MAX,
        forall|k: int| 0 <= k < labels.len() ==> fits(#[trigger] labels[k], bound),
    ensures
        1 <= info_width_spec(labels) <= bound + 1,
        forall|k: int|
            0 <= k < labels.len() ==> #[trigger] cols(labels[k]) + 1 <= info_width_spec(labels),
    decreases labels.len(),
{
    if labels.len() > 0 {
        let init = labels.drop_last();
        assert forall|k: int| 0 <= k < init.len() implies fits(#[trigger] init[k], bound) by {
            assert(init[k] == labels[k]);
        }
        lemma_info_width(init, bound);
        let last = labels.last();
        assert(fits(labels[labels.len() - 1], bound));
        assert(text_columns(last) == cols(last));
        assert(width_plus_one(text_columns(last)) == cols(last) + 1);
        assert forall|k: int| 0 <= k < labels.len() implies #[trigger] cols(labels[k]) + 1
            <= info_width_spec(labels) by {
            if k < init.len() {
                assert(init[k] == labels[k]);
            }
        }
    }
}

/// The logo column is as wide as the widest logo line, and no wider than
/// the pane when every line fits it.
proof fn lemma_logo_width(logo: Seq<Seq<char>>, width: int)
    requires
        forall|k: int| 0 <= k < logo.len() ==> fits(#[trigger] logo[k], width),
        width >= 0,
    ensures
        0 <= logo_width_spec(logo) <= width,
        forall|k: int| 0 <= k < logo.len() ==> #[trigger] cols(logo[k]) <= logo_width_spec(logo),
    decreases logo.len(),
{
    if logo.len() > 0 {
        let init = logo.drop_last();
        assert forall|k: int| 0 <= k < init.len() implies fits(#[trigger] init[k], width) by {
            assert(init[k] == logo[k]);
        }
        lemma_logo_width(init, width);
        assert(fits(logo[logo.len() - 1], width));
        assert(text_columns(logo.last()) == cols(logo.last()));
        assert forall|k: int| 0 <= k < logo.len() implies #[trigger] cols(logo[k])
            <= logo_width_spec(logo) by {
            if k < init.len() {
                assert(init[k] == logo[k]);
            }
        }
    }
}

proof fn lemma_find_value_plain(rows: Seq<(Seq<char>, Seq<char>)>, label: Seq<char>)
    requires
        plain_rows(rows),
    ensures
        find_value(rows, label) matches Some(v) ==> all_plain(v),
    decreases rows.len(),
{
    if rows.len() > 0 {
        let t = rows.drop_first();
        assert forall|i: int| 0 <= i < t.len() implies all_plain(#[trigger] t[i].0) && cols(t[i].0)
            <= 26 && all_plain(t[i].1) by {
            assert(t[i] == rows[i + 1]);
            assert(all_plain(rows[i + 1].0));
        }
        lemma_find_value_plain(t, label);
        assert(all_plain(rows[0].0));
    }
}

proof fn lemma_identity_plain(rows: Seq<(Seq<char>, Seq<char>)>)
    requires
        plain_rows(rows),
    ensures
        identity_spec(rows) matches Some(v) ==> all_plain(v),
{
    lemma_find_value_plain(rows, "user"@);
    lemma_find_value_plain(rows, "hostname"@);
    if let (Some(u), Some(h)) = (find_value(rows, "user"@), find_value(rows, "hostname"@)) {
        lemma_plain_add(u, seq!['@']);
        lemma_plain_add(u + seq!['@'], h);
    }
}

proof fn lemma_without_identity_plain(rows: Seq<(Seq<char>, Seq<char>)>)
    requires
        plain_rows(rows),
    ensures
        plain_rows(without_identity(rows)),
    decreases rows.len(),
{
    if rows.len() > 0 {
        let t = rows.drop_last();
        assert forall|i: int| 0 <= i < t.len() implies all_plain(#[trigger] t[i].0) && cols(t[i].0)
            <= 26 && all_plain(t[i].1) by {
            assert(t[i] == rows[i]);
            assert(all_plain(rows[i].0));
        }
        lemma_without_identity_plain(t);
        let w = without_identity(rows);
        let r = without_identity(t);
        if !is_identity_label(rows.last().0) {
            assert forall|i: int| 0 <= i < w.len() implies all_plain(#[trigger] w[i].0)
                && cols(w[i].0) <= 26 && all_plain(w[i].1) by {
                if i < r.len() {
                    assert(w[i] == r[i]);
                } else {
                    assert(w[i] == rows[rows.len() - 1]);
                    assert(all_plain(rows[rows.len() - 1].0));
                }
            }
        }
    }
}

/// A row beside the logo or in a wide pane: the padded label, a space and
/// the value cut to `room` columns.
proof fn lemma_row_line_fits(
    row: (Seq<char>, Seq<char>),
    icons: IconMode,
    info_width: int,
    room: int,
)
    requires
        all_plain(row.0),
        all_plain(row.1),
        cols(label_text_spec(row.0, icons)) + 1 <= info_width,
        room >= 0,
    ensures
        fits(row_line_spec(row, icons, info_width, room, false), info_width + 1 + room),
{
    lemma_label_fits(row.0, icons);
    let label = label_text_spec(row.0, icons);
    lemma_pad_fits(label, info_width);
    lemma_truncate_fits(row.1, room);
    lemma_cols_ascii(seq![' ']);
    lemma_plain_add(pad_spec(label, info_width), seq![' ']);
    lemma_plain_add(pad_spec(label, info_width) + seq![' '], truncate_spec(row.1, room));
}

proof fn lemma_side_fits(
    logo: Seq<Seq<char>>,
    header: Option<Seq<char>>,
    rows: Seq<(Seq<char>, Seq<char>)>,
    icons: IconMode,
    info_width: int,
    width: int,
)
    requires
        forall|k: int| 0 <= k < logo.len() ==> fits(#[trigger] logo[k], width),
        width >= 0,
        info_width >= 1,
        width >= logo_width_spec(logo) + info_width + 4,
        header matches Some(h) ==> fits(h, sat_sub(width, logo_width_spec(logo) + 2)),
        plain_rows(rows),
        forall|k: int|
            0 <= k < rows.len() ==> #[trigger] cols(label_text_spec(rows[k].0, icons)) + 1
                <= info_width,
    ensures
        forall|k: int|
            0 <= k < side_lines(logo, header, rows, icons, info_width, width, false).len() ==> fits(
                #[trigger] side_lines(logo, header, rows, icons, info_width, width, false)[k],
                width,
            ),
{
    lemma_logo_width(logo, width);
    let lw = logo_width_spec(logo);
    let room = side_room(width, lw, info_width);
    assert(room == width - lw - info_width - 3);
    let ls = side_lines(logo, header, rows, icons, info_width, width, false);
    assert forall|i: int| 0 <= i < ls.len() implies fits(#[trigger] ls[i], width) by {
        let left = if i < logo.len() {
            logo[i]
        } else {
            Seq::empty()
        };
        if i < logo.len() {
            assert(fits(logo[i], width));
        }
        assert(all_plain(left) && cols(left) <= lw);
        let right = side_right(i, header, rows, icons, info_width, room, false);
        match header {
            Some(h) => {
                assert(fits(h, width - lw - 2));
                if i == 0 {
                    assert(right == h);
                } else if i == 1 {
                    assert(text_columns(h) == cols(h));
                    lemma_repeat_fits('-', text_columns(h));
                    assert(right == repeat_char('-', text_columns(h)));
                } else if i - 2 < rows.len() {
                    assert(all_plain(rows[i - 2].0));
                    assert(cols(label_text_spec(rows[i - 2].0, icons)) + 1 <= info_width);
                    lemma_row_line_fits(rows[i - 2], icons, info_width, room);
                    assert(right == row_line_spec(rows[i - 2], icons, info_width, room, false));
                } else {
                    assert(right =~= Seq::<char>::empty());
                }
            },
            None => {
                if i < rows.len() {
                    assert(all_plain(rows[i].0));
                    assert(cols(label_text_spec(rows[i].0, icons)) + 1 <= info_width);
                    lemma_row_line_fits(rows[i], icons, info_width, room);
                    assert(right == row_line_spec(rows[i], icons, info_width, room, false));
                } else {
                    assert(right =~= Seq::<char>::empty());
                }
            },
        }
        assert(fits(right, width - lw - 2));
        lemma_pad_fits(left, lw);
        let padded = pad_spec(left, lw);
        lemma_cols_ascii(seq![' ', ' ']);
        lemma_plain_add(padded, seq![' ', ' ']);
        lemma_plain_add(padded + seq![' ', ' '], right);
        assert(ls[i] == padded + seq![' ', ' '] + right);
    }
}

proof fn lemma_stacked_fits(
    logo: Seq<Seq<char>>,
    header: Option<Seq<char>>,
    rows: Seq<(Seq<char>, Seq<char>)>,
    icons: IconMode,
    info_width: int,
    width: int,
    height: int,
)
    requires
        forall|k: int| 0 <= k < logo.len() ==> fits(#[trigger] logo[k], width),
        width >= 0,
        header matches Some(h) ==> fits(h, width),
        plain_rows(rows),
        forall|k: int|
            0 <= k < rows.len() ==> #[trigger] cols(label_text_spec(rows[k].0, icons)) + 1
                <= info_width,
        width > 30 ==> info_width + 1 <= width,
    ensures
        forall|k: int|
            0 <= k < stacked_lines(logo, header, rows, icons, info_width, width, height, false).len()
                ==> fits(
                #[trigger] stacked_lines(logo, header, rows, icons, info_width, width, height, false)[k],
                width,
            ),
{
    let hl = header_lines(header, false);
    if let Some(h) = header {
        assert(text_columns(h) == cols(h));
        lemma_repeat_fits('-', text_columns(h));
        assert(hl[0] == h && hl[1] == repeat_char('-', text_columns(h)));
    }
    let rl = stacked_row_lines(rows, icons, info_width, width, false);
    let room = sat_sub(width, info_width + 1);
    assert forall|k: int| 0 <= k < rl.len() implies fits(#[trigger] rl[k], width) by {
        if width <= 30 {
            let r = rows[k / 2];
            assert(all_plain(rows[k / 2].0));
            if k % 2 == 0 {
                lemma_label_fits(r.0, icons);
                lemma_truncate_fits(label_text_spec(r.0, icons), width);
            } else {
                lemma_truncate_fits(r.1, room);
                lemma_truncate_fits(truncate_spec(r.1, room), width);
            }
        } else {
            assert(all_plain(rows[k].0));
            assert(cols(label_text_spec(rows[k].0, icons)) + 1 <= info_width);
            lemma_row_line_fits(rows[k], icons, info_width, room);
            assert(room == width - info_width - 1);
        }
    }
    let logo_part = if logo.len() > 0 && logo.len() + rows.len() <= height {
        logo
    } else {
        Seq::empty()
    };
    let all = stacked_lines(logo, header, rows, icons, info_width, width, height, false);
    assert(all == logo_part + hl + rl);
    assert forall|k: int| 0 <= k < all.len() implies fits(#[trigger] all[k], width) by {
        if k < logo_part.len() {
            assert(all[k] == logo_part[k]);
            assert(fits(logo[k], width));
        } else if k < logo_part.len() + hl.len() {
            assert(all[k] == hl[k - logo_part.len()]);
        } else {
            assert(all[k] == rl[k - logo_part.len() - hl.len()]);
        }
    }
}

/// Every line of the layout fits the pane.
proof fn lemma_layout_fits(
    rows: Seq<(Seq<char>, Seq<char>)>,
    logo: Option<Seq<char>>,
    width: int,
    height: int,
    icons: IconMode,
)
    requires
        plain_rows(rows),
        logo matches Some(l) ==> forall|k: int|
            0 <= k < lines(l).len() ==> fits(#[trigger] lines(l)[k], width),
        width >= 0,
    ensures
        forall|k: int|
            0 <= k < layout_lines(rows, logo, width, height, icons, false).len() ==> fits(
                #[trigger] layout_lines(rows, logo, width, height, icons, false)[k],
                width,
            ),
{
    lemma_identity_plain(rows);
    lemma_without_identity_plain(rows);
    let listed = listed_rows(rows);
    assert(plain_rows(listed));
    let labels = listed.map_values(|r: (Seq<char>, Seq<char>)| label_text_spec(r.0, icons));
    assert forall|k: int| 0 <= k < labels.len() implies fits(#[trigger] labels[k], 29) by {
        assert(labels[k] == label_text_spec(listed[k].0, icons));
        assert(all_plain(listed[k].0));
        lemma_label_fits(listed[k].0, icons);
    }
    lemma_info_width(labels, 29);
    let info_width = info_width_spec(labels);
    assert forall|k: int| 0 <= k < listed.len() implies #[trigger] cols(
        label_text_spec(listed[k].0, icons),
    ) + 1 <= info_width by {
        assert(labels[k] == label_text_spec(listed[k].0, icons));
    }
    let logo_lines = match logo {
        Some(l) => lines(l),
        None => Seq::empty(),
    };
    assert forall|k: int| 0 <= k < logo_lines.len() implies fits(#[trigger] logo_lines[k], width) by {
        if let Some(l) = logo {
            assert(fits(lines(l)[k], width));
        }
    }
    lemma_logo_width(logo_lines, width);
    let side = is_side_by_side(logo_lines, info_width, width);
    let header_room = if side {
        sat_sub(width, logo_width_spec(logo_lines) + 2)
    } else {
        width
    };
    let header = match identity_spec(rows) {
        Some(id) => Some(truncate_spec(id, header_room)),
        None => None,
    };
    if let Some(id) = identity_spec(rows) {
        lemma_truncate_fits(id, header_room);
    }
    if side {
        lemma_side_fits(logo_lines, header, listed, icons, info_width, width);
    } else {
        lemma_stacked_fits(logo_lines, header, listed, icons, info_width, width, height);
    }
}

/// Ended lines (each without line feeds or carriage returns) read back as
/// the same lines.
proof fn lemma_lines_of_terminated(ls: Seq<Seq<char>>)
    requires
        forall|k: int| 0 <= k < ls.len() ==> #[trigger] all_plain(ls[k]),
    ensures
        lines(terminated(ls)) == ls,
    decreases ls.len(),
{
    if ls.len() > 0 {
        let first = ls[0];
        let rest = ls.drop_first();
        assert forall|k: int| 0 <= k < rest.len() implies #[trigger] all_plain(rest[k]) by {
            assert(rest[k] == ls[k + 1]);
        }
        lemma_lines_of_terminated(rest);
        lemma_terminated_front(ls);
        let t = terminated(ls);
        let head = first.push('\n');
        assert(t == head + terminated(rest));
        assert(all_plain(ls[0]));
        assert forall|j: int| 0 <= j < first.len() implies t[j] != '\n' by {
            assert(t[j] == first[j]);
            assert(is_plain(first[j]));
        }
        assert(t[first.len() as int] == '\n');
        lemma_first_index(t, '\n', first.len() as int);
        lemma_lines_unfold(t);
        assert(t.take(first.len() as int) =~= first);
        if first.len() > 0 {
            assert(is_plain(first.last()));
        }
        assert(first_line(t) == first);
        assert(after_first_line(t) =~= terminated(rest));
        assert(lines(t) =~= seq![first] + rest);
    }
}

/// Ending the first line and then the rest is ending them all.
proof fn lemma_terminated_front(ls: Seq<Seq<char>>)
    requires
        ls.len() > 0,
    ensures
        terminated(ls) == ls[0].push('\n') + terminated(ls.drop_first()),
    decreases ls.len(),
{
    if ls.len() == 1 {
        assert(ls.drop_last() =~= Seq::<Seq<char>>::empty());
        assert(ls.drop_first() =~= Seq::<Seq<char>>::empty());
        assert(terminated(ls.drop_last()) =~= Seq::<char>::empty());
        assert(terminated(ls.drop_first()) =~= Seq::<char>::empty());
        assert(ls.last() == ls[0]);
        assert(terminated(ls) =~= ls[0].push('\n'));
    } else {
        let init = ls.drop_last();
        lemma_terminated_front(init);
        assert(init.drop_first() =~= ls.drop_first().drop_last());
        assert(ls.drop_first().last() == ls.last());
        assert(terminated(ls) =~= ls[0].push('\n') + terminated(ls.drop_first()));
    }
}

/// A row never exceeds the pane's width: with colour off, every line of the
/// readout takes at most `width` columns, when every label and value is
/// plain (no control character and no joining character, so that widths
/// add up) and no label is wider than 26 columns, and every line of the logo
/// is plain and fits the width.
pub proof fn law_readout_fits_width(
    rows: Seq<(Seq<char>, Seq<char>)>,
    logo: Option<Seq<char>>,
    width: usize,
    height: usize,
    icons: IconMode,
)
    requires
        plain_rows(rows),
        logo matches Some(l) ==> forall|k: int|
            0 <= k < lines(l).len() ==> fits(#[trigger] lines(l)[k], width as int),
    ensures
        forall|k: int|
            0 <= k < lines(render_spec(rows, logo, width as int, height as int, icons, false)).len()
                ==> {
                let l = #[trigger] lines(
                    render_spec(rows, logo, width as int, height as int, icons, false),
                )[k];
                all_plain(l) && text_columns(l) <= width
            },
{
    let all = layout_lines(rows, logo, width as int, height as int, icons, false);
    lemma_layout_fits(rows, logo, width as int, height as int, icons);
    let shown = if all.len() > height {
        all.take(height as int)
    } else {
        all
    };
    assert forall|k: int| 0 <= k < shown.len() implies #[trigger] all_plain(shown[k]) && cols(
        shown[k],
    ) <= width by {
        assert(shown[k] == all[k]);
        assert(fits(all[k], width as int));
    }
    lemma_lines_of_terminated(shown);
    let out = render_spec(rows, logo, width as int, height as int, icons, false);
    assert(lines(out) == shown);
    assert forall|k: int| 0 <= k < lines(out).len() implies {
        let l = #[trigger] lines(out)[k];
        all_plain(l) && text_columns(l) <= width
    } by {
        assert(lines(out)[k] == shown[k]);
        assert(all_plain(shown[k]) && cols(shown[k]) <= width);
    }
}

} // verus!
