//! What the readings taken from the machine's text say: the CPU model is the
//! value of the first `model name` entry, the page size is the one that
//! `vm_stat` reports, and the uptime text reads back as the uptime to the
//! minute.

use crate::fetch::{
    cpu_model_line, cpuinfo_spec, processor_lines, sat_mul, sat_sub_nat, uptime_text,
    vm_available_pages, vm_page_size,
};
use crate::number::{decimal, lemma_decimal_reads_back};
use crate::text::{
    find_map, first_token, is_space, lemma_first_space, lines, split_once, strip_prefix, trim,
    trim_start,
};
use vstd::arithmetic::div_mod::lemma_fundamental_div_mod_converse;
use vstd::prelude::*;

verus! {

/// `find_map` gives what `f` gives for the first line on which it gives
/// anything.
proof fn lemma_find_map_first<T>(ls: Seq<Seq<char>>, f: spec_fn(Seq<char>) -> Option<T>, k: int)
    requires
        0 <= k < ls.len(),
        f(ls[k]) is Some,
        forall|j: int| 0 <= j < k ==> f(#[trigger] ls[j]) is None,
    ensures
        find_map(ls, f) == f(ls[k]),
    decreases k,
{
    if k > 0 {
        assert(f(ls[0]) is None);
        let rest = ls.drop_first();
        assert forall|j: int| 0 <= j < k - 1 implies f(#[trigger] rest[j]) is None by {
            assert(rest[j] == ls[j + 1]);
        }
        assert(rest[k - 1] == ls[k]);
        lemma_find_map_first(rest, f, k - 1);
    }
}

/// `find_map` gives nothing when `f` gives nothing for any line.
proof fn lemma_find_map_none<T>(ls: Seq<Seq<char>>, f: spec_fn(Seq<char>) -> Option<T>)
    requires
        forall|j: int| 0 <= j < ls.len() ==> f(#[trigger] ls[j]) is None,
    ensures
        find_map(ls, f) is None,
    decreases ls.len(),
{
    if ls.len() > 0 {
        assert(f(ls[0]) is None);
        let rest = ls.drop_first();
        assert forall|j: int| 0 <= j < rest.len() implies f(#[trigger] rest[j]) is None by {
            assert(rest[j] == ls[j + 1]);
        }
        lemma_find_map_none(rest, f);
    }
}

/// The CPU model is the trimmed value of the first line whose key (the text
/// before its first colon), trimmed, is exactly `model name` and whose
/// trimmed value is not empty; lines with any other key, `model` among
/// them, never supply it. The core count that follows counts the
/// `processor` lines.
pub proof fn law_cpu_model_is_first_model_name(
    info: Seq<char>,
    k: int,
    key: Seq<char>,
    value: Seq<char>,
)
    requires
        0 <= k < lines(info).len(),
        split_once(lines(info)[k], ':') == Some((key, value)),
        trim(key) == "model name"@,
        trim(value).len() > 0,
        forall|j: int|
            0 <= j < k ==> !(#[trigger] split_once(lines(info)[j], ':') matches Some((kk, vv))
                && trim(kk) == "model name"@ && trim(vv).len() > 0),
    ensures
        cpuinfo_spec(info) == Some(
            trim(value) + " ("@ + decimal(processor_lines(lines(info))) + " cores)"@,
        ),
{
    let ls = lines(info);
    let f = |line: Seq<char>| cpu_model_line(line);
    assert forall|j: int| 0 <= j < k implies f(#[trigger] ls[j]) is None by {
        assert(!(split_once(ls[j], ':') matches Some((kk, vv)) && trim(kk) == "model name"@
            && trim(vv).len() > 0));
    }
    assert(f(ls[k]) == Some(trim(value)));
    lemma_find_map_first(ls, f, k);
}

/// Without a line whose trimmed key is exactly `model name` and whose
/// trimmed value is not empty, there is no CPU model to report.
pub proof fn law_cpu_model_absent(info: Seq<char>)
    requires
        forall|j: int|
            0 <= j < lines(info).len() ==> !(#[trigger] split_once(lines(info)[j], ':') matches Some(
                (kk, vv),
            ) && trim(kk) == "model name"@ && trim(vv).len() > 0),
    ensures
        cpuinfo_spec(info) is None,
{
    let ls = lines(info);
    let f = |line: Seq<char>| cpu_model_line(line);
    assert forall|j: int| 0 <= j < ls.len() implies f(#[trigger] ls[j]) is None by {
        assert(!(split_once(ls[j], ':') matches Some((kk, vv)) && trim(kk) == "model name"@
            && trim(vv).len() > 0));
    }
    lemma_find_map_none(ls, f);
}

/// The page size is the one that `vm_stat` reports: when the first line
/// that starts with `Page size of ` reads `Page size of P bytes`, the page
/// size is `P`, and the used memory is the total less the free, inactive
/// and speculative pages times `P` (nothing when those reach the total).
pub proof fn law_vm_page_size_is_reported(info: Seq<char>, k: int, p: nat, total: nat)
    requires
        0 <= k < lines(info).len(),
        p <= u64::MAX,
        total <= u64::MAX,
        lines(info)[k] == "Page size of "@ + decimal(p) + " bytes"@,
        forall|j: int|
            0 <= j < k ==> #[trigger] strip_prefix(lines(info)[j], "Page size of "@) is None,
    ensures
        vm_page_size(info) == p,
        sat_sub_nat(total, sat_mul(vm_available_pages(info), vm_page_size(info))) == (if total
            <= vm_available_pages(info) * p {
            0
        } else {
            (total - vm_available_pages(info) * p) as nat
        }),
{
    let ls = lines(info);
    let prefix = "Page size of "@;
    let d = decimal(p);
    let b = " bytes"@;
    let rest = d + b;
    let f = |line: Seq<char>| strip_prefix(line, "Page size of "@);
    assert(ls[k] =~= prefix + rest);
    assert((prefix + rest).take(prefix.len() as int) =~= prefix);
    assert((prefix + rest).skip(prefix.len() as int) =~= rest);
    assert(f(ls[k]) == Some(rest));
    assert forall|j: int| 0 <= j < k implies f(#[trigger] ls[j]) is None by {
        assert(strip_prefix(ls[j], prefix) is None);
    }
    lemma_find_map_first(ls, f, k);
    lemma_decimal_reads_back(p, u64::MAX as nat);
    reveal_strlit(" bytes");
    assert(b[0] == ' ');
    assert(!is_space(rest[0])) by {
        assert(rest[0] == d[0]);
        assert(crate::number::is_digit(d[0]));
    }
    assert(trim_start(rest) == rest);
    assert forall|j: int| 0 <= j < d.len() implies !is_space(#[trigger] rest[j]) by {
        assert(rest[j] == d[j]);
        assert(crate::number::is_digit(d[j]));
    }
    assert(rest[d.len() as int] == b[0]);
    lemma_first_space(rest, d.len() as int);
    assert(rest.take(d.len() as int) =~= d);
    assert(first_token(rest) == Some(d));
}

/// Without a line that starts with `Page size of `, pages are taken to be
/// 4096 bytes.
pub proof fn law_vm_page_size_default(info: Seq<char>)
    requires
        forall|j: int|
            0 <= j < lines(info).len() ==> #[trigger] strip_prefix(lines(info)[j], "Page size of "@)
                is None,
    ensures
        vm_page_size(info) == 4096,
{
    let ls = lines(info);
    let f = |line: Seq<char>| strip_prefix(line, "Page size of "@);
    assert forall|j: int| 0 <= j < ls.len() implies f(#[trigger] ls[j]) is None by {
        assert(strip_prefix(ls[j], "Page size of "@) is None);
    }
    lemma_find_map_none(ls, f);
}

/// The uptime text reads back as the uptime rounded down to the minute:
/// whenever `days * 86400 + hours * 3600 + minutes * 60 <= seconds` and
/// `seconds` is less than a minute past that, with `hours < 24` and
/// `minutes < 60`, the text is `Mm` (no days, no hours), `Hh Mm` (no days)
/// or `Dd Hh Mm`.
pub proof fn law_uptime_reads_back(seconds: nat, days: nat, hours: nat, minutes: nat)
    requires
        hours < 24,
        minutes < 60,
        days * 86400 + hours * 3600 + minutes * 60 <= seconds,
        seconds < days * 86400 + hours * 3600 + minutes * 60 + 60,
    ensures
        uptime_text(seconds) == (if days == 0 && hours == 0 {
            decimal(minutes) + "m"@
        } else if days == 0 {
            decimal(hours) + "h "@ + decimal(minutes) + "m"@
        } else {
            decimal(days) + "d "@ + decimal(hours) + "h "@ + decimal(minutes) + "m"@
        }),
{
    let s = seconds as int;
    let d = days as int;
    let h = hours as int;
    let m = minutes as int;
    let r = s - (d * 86400 + h * 3600 + m * 60);
    let in_minutes = d * 1440 + h * 60 + m;
    lemma_fundamental_div_mod_converse(s, 60, in_minutes, r);
    lemma_fundamental_div_mod_converse(in_minutes, 60, d * 24 + h, m);
    lemma_fundamental_div_mod_converse(s, 3600, d * 24 + h, m * 60 + r);
    lemma_fundamental_div_mod_converse(d * 24 + h, 24, d, h);
    lemma_fundamental_div_mod_converse(s, 86400, d, h * 3600 + m * 60 + r);
}

} // verus!
