//! The rows of the readout: which are fetched, in what order, and which are
//! kept.

use crate::fetch::{fetch_view, fetched_row, missing, FetchResult};
use crate::render::{row_view, rows_view};
use crate::number::{parse_unsigned, parse_usize};
use crate::text::{chars_of, push_str, same_text, strings_view};
use vstd::prelude::*;

verus! {

/// The results of every fetch, one per row.
pub struct Fetched {
    pub hostname: FetchResult,
    pub user: FetchResult,
    pub os: String,
    pub kernel: FetchResult,
    pub uptime: FetchResult,
    pub shell: FetchResult,
    pub terminal: FetchResult,
    pub cpu: FetchResult,
    pub gpu: FetchResult,
    pub memory: FetchResult,
    pub disk: FetchResult,
    pub desktop: FetchResult,
    pub temperature: FetchResult,
}

/// The rows in the order they are fetched.
pub open spec fn row_order() -> Seq<Seq<char>> {
    seq![
        "hostname"@,
        "user"@,
        "os"@,
        "kernel"@,
        "uptime"@,
        "shell"@,
        "terminal"@,
        "cpu"@,
        "gpu"@,
        "memory"@,
        "disk"@,
        "desktop"@,
        "temperature"@,
    ]
}

/// The rows shown when the config names none.
pub open spec fn default_rows() -> Seq<Seq<char>> {
    seq![
        "hostname"@,
        "user"@,
        "os"@,
        "kernel"@,
        "uptime"@,
        "shell"@,
        "terminal"@,
        "cpu"@,
        "gpu"@,
        "memory"@,
        "disk"@,
    ]
}

/// The fetch results in row order; the OS name is always there.
pub open spec fn fetched_results(f: Fetched) -> Seq<Result<Seq<char>, Seq<char>>> {
    seq![
        fetch_view(f.hostname),
        fetch_view(f.user),
        Ok(f.os@),
        fetch_view(f.kernel),
        fetch_view(f.uptime),
        fetch_view(f.shell),
        fetch_view(f.terminal),
        fetch_view(f.cpu),
        fetch_view(f.gpu),
        fetch_view(f.memory),
        fetch_view(f.disk),
        fetch_view(f.desktop),
        fetch_view(f.temperature),
    ]
}

/// A row's value: what was fetched, or the missing mark.
pub open spec fn row_value(r: Result<Seq<char>, Seq<char>>) -> Seq<char> {
    match r {
        Ok(v) => v,
        Err(_) => missing(),
    }
}

/// Every row, fetched or missing, in row order.
pub open spec fn all_rows(f: Fetched) -> Seq<(Seq<char>, Seq<char>)> {
    Seq::new(13, |i: int| (row_order()[i], row_value(fetched_results(f)[i])))
}

/// `label: error` for each failed fetch among the first `n` rows, in order.
pub open spec fn fetch_errors(results: Seq<Result<Seq<char>, Seq<char>>>, n: int) -> Seq<Seq<char>>
    decreases n,
{
    if n <= 0 {
        Seq::empty()
    } else {
        let rest = fetch_errors(results, n - 1);
        match results[n - 1] {
            Ok(_) => rest,
            Err(e) => rest.push(row_order()[n - 1] + ": "@ + e),
        }
    }
}

/// Whether a row is shown: it is selected, and it is not the uptime row
/// when that is turned off.
pub open spec fn is_kept(label: Seq<char>, no_term: bool, selected: Seq<Seq<char>>) -> bool {
    !(no_term && label == "uptime"@) && selected.contains(label)
}

/// The rows that are shown, in order.
pub open spec fn kept_rows(
    rows: Seq<(Seq<char>, Seq<char>)>,
    no_term: bool,
    selected: Seq<Seq<char>>,
) -> Seq<(Seq<char>, Seq<char>)>
    decreases rows.len(),
{
    if rows.len() == 0 {
        Seq::empty()
    } else {
        let rest = kept_rows(rows.drop_last(), no_term, selected);
        if is_kept(rows.last().0, no_term, selected) {
            rest.push(rows.last())
        } else {
            rest
        }
    }
}

/// The selection in force: the configured rows, or the default ones.
pub open spec fn selection(selected: Option<Seq<Seq<char>>>) -> Seq<Seq<char>> {
    match selected {
        Some(s) => s,
        None => default_rows(),
    }
}

fn label_list() -> (v: Vec<String>)
    ensures
        strings_view(v@) == row_order(),
{
    let mut v: Vec<String> = Vec::new();
    v.push(text("hostname"));
    v.push(text("user"));
    v.push(text("os"));
    v.push(text("kernel"));
    v.push(text("uptime"));
    v.push(text("shell"));
    v.push(text("terminal"));
    v.push(text("cpu"));
    v.push(text("gpu"));
    v.push(text("memory"));
    v.push(text("disk"));
    v.push(text("desktop"));
    v.push(text("temperature"));
    assert(strings_view(v@) =~= row_order());
    v
}

fn default_list() -> (v: Vec<String>)
    ensures
        strings_view(v@) == default_rows(),
{
    let mut v: Vec<String> = Vec::new();
    v.push(text("hostname"));
    v.push(text("user"));
    v.push(text("os"));
    v.push(text("kernel"));
    v.push(text("uptime"));
    v.push(text("shell"));
    v.push(text("terminal"));
    v.push(text("cpu"));
    v.push(text("gpu"));
    v.push(text("memory"));
    v.push(text("disk"));
    assert(strings_view(v@) =~= default_rows());
    v
}

fn text(value: &str) -> (s: String)
    ensures
        s@ == value@,
{
    let mut s = String::new();
    push_str(&mut s, value);
    assert(s@ =~= value@);
    s
}

fn contains_text(list: &Vec<String>, label: &str) -> (b: bool)
    ensures
        b == strings_view(list@).contains(label@),
{
    let mut i: usize = 0;
    while i < list.len()
        invariant
            i <= list@.len(),
            forall|j: int| 0 <= j < i ==> list@[j]@ != label@,
        decreases list@.len() - i,
    {
        if same_text(list[i].as_str(), label) {
            assert(strings_view(list@)[i as int] == label@);
            return true;
        }
        i += 1;
    }
    proof {
        if strings_view(list@).contains(label@) {
            let k = choose|k: int| 0 <= k < list@.len() && strings_view(list@)[k] == label@;
            assert(list@[k]@ == label@);
        }
    }
    false
}

/// The rows of the readout and the failures behind the missing ones: every
/// row is fetched, the uptime row is dropped when `no_term` is set, and only
/// the selected rows (the default ones when none are selected) are kept, in
/// row order.
pub fn rows(no_term: bool, selected: Option<&[String]>, fetched: Fetched) -> (r: (
    Vec<(String, String)>,
    Vec<String>,
))
    ensures
        rows_view(r.0@) == kept_rows(
            all_rows(fetched),
            no_term,
            selection(
                match selected {
                    Some(s) => Some(strings_view(s@)),
                    None => None,
                },
            ),
        ),
        strings_view(r.1@) == fetch_errors(fetched_results(fetched), 13),
{
    let ghost results = fetched_results(fetched);
    let labels = label_list();
    let os_result: FetchResult = Ok(fetched.os);
    let mut remaining: Vec<FetchResult> = vec![
        fetched.temperature,
        fetched.desktop,
        fetched.disk,
        fetched.memory,
        fetched.gpu,
        fetched.cpu,
        fetched.terminal,
        fetched.shell,
        fetched.uptime,
        fetched.kernel,
        os_result,
        fetched.user,
        fetched.hostname,
    ];
    assert(forall|j: int|
        0 <= j < 13 ==> fetch_view(#[trigger] remaining@[j]) == results[13 - 1 - j]);
    let chosen: Vec<String> = match selected {
        Some(s) => {
            let mut v: Vec<String> = Vec::new();
            let mut k: usize = 0;
            while k < s.len()
                invariant
                    k <= s@.len(),
                    v@.len() == k,
                    forall|j: int| 0 <= j < k ==> #[trigger] v@[j]@ == s@[j]@,
                decreases s@.len() - k,
            {
                v.push(s[k].clone());
                k += 1;
            }
            assert(strings_view(v@) =~= strings_view(s@));
            v
        },
        None => default_list(),
    };
    let ghost sel = strings_view(chosen@);
    let ghost all = all_rows(fetched);
    assert(labels@.len() == strings_view(labels@).len());
    let mut errors: Vec<String> = Vec::new();
    let mut shown: Vec<(String, String)> = Vec::new();
    let mut i: usize = 0;
    assert(all.take(0) =~= Seq::<(Seq<char>, Seq<char>)>::empty());
    assert(strings_view(errors@) =~= Seq::<Seq<char>>::empty());
    assert(rows_view(shown@) =~= Seq::<(Seq<char>, Seq<char>)>::empty());
    while i < 13
        invariant
            i <= 13,
            remaining@.len() == 13 - i,
            forall|j: int|
                0 <= j < 13 - i ==> fetch_view(#[trigger] remaining@[j]) == results[13 - 1 - j],
            strings_view(labels@) == row_order(),
            labels@.len() == 13,
            results == fetched_results(fetched),
            all == all_rows(fetched),
            sel == strings_view(chosen@),
            strings_view(errors@) == fetch_errors(results, i as int),
            rows_view(shown@) == kept_rows(all.take(i as int), no_term, sel),
        decreases 13 - i,
    {
        let ghost before_rem = remaining@;
        let r = remaining.pop().unwrap();
        assert(r == before_rem[12 - i as int]);
        assert(fetch_view(r) == results[i as int]);
        assert(remaining@ =~= before_rem.drop_last());
        let label = labels[i].as_str();
        assert(label@ == row_order()[i as int]);
        let ghost errors_before = strings_view(errors@);
        let ghost shown_before = rows_view(shown@);
        let row = fetched_row(label, r, &mut errors);
        proof {
            match results[i as int] {
                Ok(_) => {
                    assert(strings_view(errors@) =~= errors_before);
                },
                Err(e) => {
                    assert(strings_view(errors@) =~= errors_before.push(row_order()[i as int] + ": "@ + e));
                },
            }
        }
        assert(row_view(row) == all[i as int]);
        assert(all.take(i + 1).drop_last() =~= all.take(i as int));
        assert(all.take(i + 1).last() == all[i as int]);
        let keep = !(no_term && same_text(label, "uptime")) && contains_text(&chosen, label);
        if keep {
            shown.push(row);
            assert(rows_view(shown@) =~= shown_before.push(row_view(row)));
        }
        i += 1;
    }
    assert(all.take(13) =~= all);
    (shown, errors)
}


/// The readout's snapshot: the terminal size and the rows with the failures
/// behind them. Rows are fetched once; when the terminal was resized while
/// they were fetched, the size is read again and the rows fetched again, so
/// that the layout fits the pane as it is now. `refetch` does that second
/// reading.
pub fn fetch_snapshot<F: FnOnce() -> ((usize, usize), (Vec<(String, String)>, Vec<String>))>(
    initial_size: (usize, usize),
    fetched: (Vec<(String, String)>, Vec<String>),
    resized: bool,
    refetch: F,
) -> (snapshot: ((usize, usize), Vec<(String, String)>, Vec<String>))
    requires
        resized ==> call_requires(refetch, ()),
    ensures
        !resized ==> snapshot == (initial_size, fetched.0, fetched.1),
        resized ==> exists|again: ((usize, usize), (Vec<(String, String)>, Vec<String>))|
            #[trigger] call_ensures(refetch, (), again) && snapshot == (again.0, again.1.0, again.1.1),
{
    if resized {
        let again = refetch();
        let (size, (rows, errors)) = again;
        (size, rows, errors)
    } else {
        let (rows, errors) = fetched;
        (initial_size, rows, errors)
    }
}


/// A size read from the environment: the value as `str::parse::<usize>`
/// reads it, or `default` when it is unset or does not read.
pub open spec fn size_from(value: Option<Seq<char>>, default: nat) -> nat {
    match value {
        Some(v) => match parse_unsigned(v, usize::MAX as nat) {
            Some(n) => n,
            None => default,
        },
        None => default,
    }
}

fn read_size(value: Option<&str>, default: usize) -> (n: usize)
    ensures
        n as nat == size_from(
            match value {
                Some(v) => Some(v@),
                None => None,
            },
            default as nat,
        ),
{
    match value {
        Some(v) => {
            let c = chars_of(v);
            match parse_usize(c.as_slice()) {
                Some(n) => n,
                None => default,
            }
        },
        None => default,
    }
}

/// The pane's size in columns and rows: what the terminal reports when it
/// reports both as nonzero, otherwise `COLUMNS` and `LINES` (80 by 24 when
/// they are unset or do not read as numbers).
pub fn terminal_size(tty_size: Option<(u16, u16)>, columns: Option<&str>, lines: Option<&str>) -> (size: (
    usize,
    usize,
))
    ensures
        (match tty_size {
            Some((c, r)) => c > 0 && r > 0,
            None => false,
        }) ==> size == (tty_size->Some_0.0 as usize, tty_size->Some_0.1 as usize),
        !(match tty_size {
            Some((c, r)) => c > 0 && r > 0,
            None => false,
        }) ==> size.0 as nat == size_from(
            match columns {
                Some(v) => Some(v@),
                None => None,
            },
            80,
        ) && size.1 as nat == size_from(
            match lines {
                Some(v) => Some(v@),
                None => None,
            },
            24,
        ),
{
    if let Some((c, r)) = tty_size {
        if c > 0 && r > 0 {
            return (c as usize, r as usize);
        }
    }
    (read_size(columns, 80), read_size(lines, 24))
}

} // verus!
