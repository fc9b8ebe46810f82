//! What the machine reports, read from the text that `/proc`, `sysctl`,
//! `vm_stat`, `ioreg`, `system_profiler`, `df` and the DRM devices give.

use crate::number::{
    decimal, gib_text, parse_i64, parse_i64_spec, parse_u64, parse_unsigned, push_decimal,
    push_gib, push_signed, signed_decimal,
};
use crate::text::{
    after_first_line, ascii_lowercase, ascii_lowercase_chars, chars_of, contains_sub,
    digit_prefix, digit_run, find_map, find_prefixed_line, find_sub, first_line, first_token,
    first_token_slice, lemma_find_map_lines, lines, push_chars, push_str, same_text,
    split_first_line, split_once, split_once_slice, split_once_str, split_once_str_slice,
    split_tokens, starts_with, string_of, strip_prefix, strip_prefix_slice, tokens, trim,
    trim_end_char, trim_end_char_slice, trim_slice, trim_start_char, trim_start_char_slice,
};
use vstd::prelude::*;

verus! {

/// The number after `key` on a `/proc/meminfo` line: the line starts with
/// `key`, then colons, then the number as the first word.
pub open spec fn meminfo_value(line: Seq<char>, key: Seq<char>) -> Option<nat> {
    match strip_prefix(line, key) {
        Some(rest) => match first_token(trim_start_char(rest, ':')) {
            Some(word) => parse_unsigned(word, u64::MAX as nat),
            None => None,
        },
        None => None,
    }
}

/// The value of `key` in `/proc/meminfo` text: that of the first line that
/// has one.
pub open spec fn mem_kib_spec(info: Seq<char>, key: Seq<char>) -> Option<nat> {
    find_map(lines(info), |line: Seq<char>| meminfo_value(line, key))
}

fn meminfo_line(line: &[char], key: &[char]) -> (r: Option<u64>)
    ensures
        match r {
            Some(v) => meminfo_value(line@, key@) == Some(v as nat),
            None => meminfo_value(line@, key@) is None,
        },
{
    let rest = strip_prefix_slice(line, key)?;
    let word = first_token_slice(trim_start_char_slice(rest, ':'))?;
    parse_u64(word)
}

/// The value of `key` (in KiB) in `/proc/meminfo` text.
pub fn mem_kib(info: &str, key: &str) -> (r: Option<u64>)
    ensures
        match r {
            Some(v) => mem_kib_spec(info@, key@) == Some(v as nat),
            None => mem_kib_spec(info@, key@) is None,
        },
{
    let chars = chars_of(info);
    let k = chars_of(key);
    let ghost f = |line: Seq<char>| meminfo_value(line, key@);
    let mut cur: &[char] = chars.as_slice();
    while cur.len() > 0
        invariant
            mem_kib_spec(info@, key@) == find_map(lines(cur@), f),
            f == (|line: Seq<char>| meminfo_value(line, key@)),
            k@ == key@,
        decreases cur@.len(),
    {
        proof {
            lemma_find_map_lines(cur@, f);
        }
        let (line, rest) = split_first_line(cur);
        let found = meminfo_line(line, k.as_slice());
        if found.is_some() {
            return found;
        }
        cur = rest;
    }
    None
}


/// The page count after `key` on a `vm_stat` line: the text after the
/// colon, trimmed and without its trailing dots.
pub open spec fn vm_pages_line(line: Seq<char>, key: Seq<char>) -> Option<nat> {
    match strip_prefix(line, key) {
        Some(rest) => match split_once(rest, ':') {
            Some((_, value)) => parse_unsigned(trim_end_char(trim(value), '.'), u64::MAX as nat),
            None => None,
        },
        None => None,
    }
}

/// The page count of `key` in `vm_stat` text (0 when no line gives one).
pub open spec fn vm_pages(info: Seq<char>, key: Seq<char>) -> nat {
    match find_map(lines(info), |line: Seq<char>| vm_pages_line(line, key)) {
        Some(v) => v,
        None => 0,
    }
}

/// The page size that `vm_stat` reports: the first word after `Page size
/// of ` on the first line that starts so, or 4096.
pub open spec fn vm_page_size(info: Seq<char>) -> nat {
    match find_map(lines(info), |line: Seq<char>| strip_prefix(line, "Page size of "@)) {
        Some(rest) => match first_token(rest) {
            Some(word) => match parse_unsigned(word, u64::MAX as nat) {
                Some(v) => v,
                None => 4096,
            },
            None => 4096,
        },
        None => 4096,
    }
}

/// The pages that `vm_stat` counts as available: free, inactive and
/// speculative.
pub open spec fn vm_available_pages(info: Seq<char>) -> nat {
    vm_pages(info, "Pages free"@) + vm_pages(info, "Pages inactive"@) + vm_pages(
        info,
        "Pages speculative"@,
    )
}

pub open spec fn sat_mul(a: nat, b: nat) -> nat {
    if a * b > u64::MAX {
        u64::MAX as nat
    } else {
        a * b
    }
}

pub open spec fn sat_sub_nat(a: nat, b: nat) -> nat {
    if a > b {
        (a - b) as nat
    } else {
        0
    }
}

fn vm_pages_line_exec(line: &[char], key: &[char]) -> (r: Option<u64>)
    ensures
        match r {
            Some(v) => vm_pages_line(line@, key@) == Some(v as nat),
            None => vm_pages_line(line@, key@) is None,
        },
{
    let rest = strip_prefix_slice(line, key)?;
    let (_, value) = split_once_slice(rest, ':')?;
    parse_u64(trim_end_char_slice(trim_slice(value), '.'))
}

/// The page count of `key` in `vm_stat` text.
pub fn vm_stat_pages(info: &str, key: &str) -> (n: u64)
    ensures
        n as nat == vm_pages(info@, key@),
{
    let chars = chars_of(info);
    let k = chars_of(key);
    let ghost f = |line: Seq<char>| vm_pages_line(line, key@);
    let mut cur: &[char] = chars.as_slice();
    while cur.len() > 0
        invariant
            find_map(lines(info@), f) == find_map(lines(cur@), f),
            f == (|line: Seq<char>| vm_pages_line(line, key@)),
            k@ == key@,
        decreases cur@.len(),
    {
        proof {
            lemma_find_map_lines(cur@, f);
        }
        let (line, rest) = split_first_line(cur);
        if let Some(v) = vm_pages_line_exec(line, k.as_slice()) {
            return v;
        }
        cur = rest;
    }
    0
}

/// Used memory, in bytes, from `vm_stat` text and the total memory: the
/// total less the available pages times the page size, both saturating.
pub fn parse_vm_stat(info: &str, total_bytes: u64) -> (r: Option<u64>)
    requires
        vm_available_pages(info@) <= u64::MAX,
    ensures
        r == Some(
            sat_sub_nat(
                total_bytes as nat,
                sat_mul(vm_available_pages(info@), vm_page_size(info@)),
            ) as u64,
        ),
{
    let chars = chars_of(info);
    let prefix = chars_of("Page size of ");
    let page_size: u64 = match find_prefixed_line(chars.as_slice(), prefix.as_slice()) {
        Some(rest) => match first_token_slice(rest) {
            Some(word) => match parse_u64(word) {
                Some(v) => v,
                None => 4096,
            },
            None => 4096,
        },
        None => 4096,
    };
    let free = vm_stat_pages(info, "Pages free");
    let inactive = vm_stat_pages(info, "Pages inactive");
    let speculative = vm_stat_pages(info, "Pages speculative");
    let available = free + inactive + speculative;
    let bytes = match available.checked_mul(page_size) {
        Some(b) => b,
        None => u64::MAX,
    };
    Some(if total_bytes > bytes {
        total_bytes - bytes
    } else {
        0
    })
}

/// The CPU model on a `/proc/cpuinfo` line: the trimmed value of a
/// non-empty `model name` entry.
pub open spec fn cpu_model_line(line: Seq<char>) -> Option<Seq<char>> {
    match split_once(line, ':') {
        Some((key, value)) => if trim(key) == "model name"@ && trim(value).len() > 0 {
            Some(trim(value))
        } else {
            None
        },
        None => None,
    }
}

/// The number of lines that start with `processor`.
pub open spec fn processor_lines(ls: Seq<Seq<char>>) -> nat
    decreases ls.len(),
{
    if ls.len() == 0 {
        0
    } else {
        processor_lines(ls.drop_first()) + if strip_prefix(ls[0], "processor"@) is Some {
            1nat
        } else {
            0
        }
    }
}

/// `model (N cores)` from `/proc/cpuinfo` text, when it names a model; N
/// counts the `processor` lines.
pub open spec fn cpuinfo_spec(info: Seq<char>) -> Option<Seq<char>> {
    match find_map(lines(info), |line: Seq<char>| cpu_model_line(line)) {
        Some(model) => Some(
            model + " ("@ + decimal(processor_lines(lines(info))) + " cores)"@,
        ),
        None => None,
    }
}

fn cpu_model_line_exec(line: &[char]) -> (r: Option<&[char]>)
    ensures
        match r {
            Some(m) => cpu_model_line(line@) == Some(m@),
            None => cpu_model_line(line@) is None,
        },
{
    let (key, value) = split_once_slice(line, ':')?;
    let k = trim_slice(key);
    let v = trim_slice(value);
    let model_name = chars_of("model name");
    if crate::text::eq_chars(k, model_name.as_slice()) && v.len() > 0 {
        Some(v)
    } else {
        None
    }
}

fn find_cpu_model(s: &[char]) -> (r: Option<&[char]>)
    ensures
        match r {
            Some(m) => find_map(lines(s@), |line: Seq<char>| cpu_model_line(line)) == Some(m@),
            None => find_map(lines(s@), |line: Seq<char>| cpu_model_line(line)) is None,
        },
{
    let ghost f = |line: Seq<char>| cpu_model_line(line);
    let mut cur: &[char] = s;
    while cur.len() > 0
        invariant
            find_map(lines(s@), f) == find_map(lines(cur@), f),
            f == (|line: Seq<char>| cpu_model_line(line)),
        decreases cur@.len(),
    {
        proof {
            lemma_find_map_lines(cur@, f);
        }
        let (line, rest) = split_first_line(cur);
        let found = cpu_model_line_exec(line);
        if found.is_some() {
            return found;
        }
        cur = rest;
    }
    None
}

/// The number of lines of `s` that start with `p`.
fn count_prefixed_lines(s: &[char], p: &[char]) -> (n: u128)
    requires
        p@ == "processor"@,
    ensures
        n == processor_lines(lines(s@)),
{
    let mut count: u128 = 0;
    let mut cur: &[char] = s;
    assert(s@.len() <= usize::MAX) by {
        assert(s@.len() == s.len());
    }
    while cur.len() > 0
        invariant
            processor_lines(lines(s@)) == count + processor_lines(lines(cur@)),
            p@ == "processor"@,
            count + cur@.len() <= s@.len(),
            s@.len() <= usize::MAX,
        decreases cur@.len(),
    {
        proof {
            crate::text::lemma_lines_unfold(cur@);
            assert(lines(cur@)[0] == first_line(cur@));
            assert(lines(cur@).drop_first() =~= lines(after_first_line(cur@)));
        }
        let (line, rest) = split_first_line(cur);
        if starts_with(line, p) {
            count = count + 1;
        }
        cur = rest;
    }
    count
}

/// The CPU model and core count from `/proc/cpuinfo` text.
pub fn parse_cpuinfo(info: &str) -> (r: Option<String>)
    ensures
        match r {
            Some(s) => cpuinfo_spec(info@) == Some(s@),
            None => cpuinfo_spec(info@) is None,
        },
{
    let chars = chars_of(info);
    let model = find_cpu_model(chars.as_slice())?;
    let processor = chars_of("processor");
    let count = count_prefixed_lines(chars.as_slice(), processor.as_slice());
    let mut s = string_of(model);
    push_str(&mut s, " (");
    push_decimal(&mut s, count);
    push_str(&mut s, " cores)");
    Some(s)
}


/// Integer division rounded toward zero, as Rust's `/` on signed integers.
pub open spec fn div_toward_zero(a: int, b: int) -> int {
    if a >= 0 {
        a / b
    } else {
        -((-a) / b)
    }
}

/// Degrees from a thermal zone's millidegree reading: the trimmed text read
/// as an `i64`, kept only above absolute zero (-273150), divided by 1000
/// toward zero.
pub open spec fn millidegrees_spec(value: Seq<char>) -> Option<int> {
    match parse_i64_spec(trim(value)) {
        Some(v) => if v > -273150 {
            Some(div_toward_zero(v, 1000))
        } else {
            None
        },
        None => None,
    }
}

/// Whole degrees from a thermal zone's millidegree reading.
pub fn parse_millidegrees(value: &str) -> (r: Option<i64>)
    ensures
        match r {
            Some(v) => millidegrees_spec(value@) == Some(v as int),
            None => millidegrees_spec(value@) is None,
        },
{
    let chars = chars_of(value);
    let v = parse_i64(trim_slice(chars.as_slice()))?;
    if v > -273150 {
        if v >= 0 {
            Some(v / 1000)
        } else {
            Some(-((-v) / 1000))
        }
    } else {
        None
    }
}

/// The reading on an `ioreg` line: after `temperature`, after the next `=`,
/// the first word as an `i64`; readings above 1000 are 16.16 fixed point and
/// are divided by 65536.
pub open spec fn ioreg_line(line: Seq<char>) -> Option<int> {
    match split_once_str(line, "temperature"@) {
        Some((_, after)) => match split_once(after, '=') {
            Some((_, value)) => match first_token(trim(value)) {
                Some(word) => match parse_i64_spec(word) {
                    Some(v) => Some(
                        if v > 1000 {
                            v / 65536
                        } else {
                            v
                        },
                    ),
                    None => None,
                },
                None => None,
            },
            None => None,
        },
        None => None,
    }
}

pub open spec fn ioreg_spec(info: Seq<char>) -> Option<int> {
    find_map(lines(info), |line: Seq<char>| ioreg_line(line))
}

fn ioreg_line_exec(line: &[char], key: &[char]) -> (r: Option<i64>)
    requires
        key@ == "temperature"@,
    ensures
        match r {
            Some(v) => ioreg_line(line@) == Some(v as int),
            None => ioreg_line(line@) is None,
        },
{
    let (_, after) = split_once_str_slice(line, key)?;
    let (_, value) = split_once_slice(after, '=')?;
    let word = first_token_slice(trim_slice(value))?;
    let v = parse_i64(word)?;
    Some(
        if v > 1000 {
            v / 65536
        } else {
            v
        },
    )
}

/// The CPU temperature that `ioreg` reports: the first line with a reading.
pub fn parse_ioreg_temperature(info: &str) -> (r: Option<i64>)
    ensures
        match r {
            Some(v) => ioreg_spec(info@) == Some(v as int),
            None => ioreg_spec(info@) is None,
        },
{
    let chars = chars_of(info);
    let key = chars_of("temperature");
    let ghost f = |line: Seq<char>| ioreg_line(line);
    let mut cur: &[char] = chars.as_slice();
    while cur.len() > 0
        invariant
            ioreg_spec(info@) == find_map(lines(cur@), f),
            f == (|line: Seq<char>| ioreg_line(line)),
            key@ == "temperature"@,
        decreases cur@.len(),
    {
        proof {
            lemma_find_map_lines(cur@, f);
        }
        let (line, rest) = split_first_line(cur);
        let found = ioreg_line_exec(line, key.as_slice());
        if found.is_some() {
            return found;
        }
        cur = rest;
    }
    None
}

/// The driver of a DRM device's `uevent` text, with its PCI id in brackets
/// when there is one.
pub open spec fn drm_uevent_spec(info: Seq<char>) -> Option<Seq<char>> {
    match find_map(lines(info), |line: Seq<char>| strip_prefix(line, "DRIVER="@)) {
        Some(driver) => Some(
            match find_map(lines(info), |line: Seq<char>| strip_prefix(line, "PCI_ID="@)) {
                Some(pci) => driver + " ("@ + pci + ")"@,
                None => driver,
            },
        ),
        None => None,
    }
}

/// The GPU named by a DRM device's `uevent` text.
pub fn parse_drm_uevent(info: &str) -> (r: Option<String>)
    ensures
        match r {
            Some(s) => drm_uevent_spec(info@) == Some(s@),
            None => drm_uevent_spec(info@) is None,
        },
{
    let chars = chars_of(info);
    let driver_key = chars_of("DRIVER=");
    let pci_key = chars_of("PCI_ID=");
    let driver = find_prefixed_line(chars.as_slice(), driver_key.as_slice())?;
    let mut s = string_of(driver);
    if let Some(pci) = find_prefixed_line(chars.as_slice(), pci_key.as_slice()) {
        push_str(&mut s, " (");
        push_chars(&mut s, pci);
        push_str(&mut s, ")");
    }
    Some(s)
}

/// The chipset on a `system_profiler` line: the trimmed line starts with
/// `Chipset Model:` and a non-empty value follows.
pub open spec fn chipset_line(line: Seq<char>) -> Option<Seq<char>> {
    match strip_prefix(trim(line), "Chipset Model:"@) {
        Some(rest) => if trim(rest).len() > 0 {
            Some(trim(rest))
        } else {
            None
        },
        None => None,
    }
}

pub open spec fn system_profiler_gpu_spec(info: Seq<char>) -> Option<Seq<char>> {
    find_map(lines(info), |line: Seq<char>| chipset_line(line))
}

fn chipset_line_exec<'a>(line: &'a [char], key: &[char]) -> (r: Option<&'a [char]>)
    requires
        key@ == "Chipset Model:"@,
    ensures
        match r {
            Some(m) => chipset_line(line@) == Some(m@),
            None => chipset_line(line@) is None,
        },
{
    let rest = strip_prefix_slice(trim_slice(line), key)?;
    let value = trim_slice(rest);
    if value.len() > 0 {
        Some(value)
    } else {
        None
    }
}

/// The GPU that `system_profiler` reports: the first chipset model.
pub fn parse_system_profiler_gpu(info: &str) -> (r: Option<String>)
    ensures
        match r {
            Some(s) => system_profiler_gpu_spec(info@) == Some(s@),
            None => system_profiler_gpu_spec(info@) is None,
        },
{
    let chars = chars_of(info);
    let key = chars_of("Chipset Model:");
    let ghost f = |line: Seq<char>| chipset_line(line);
    let mut cur: &[char] = chars.as_slice();
    while cur.len() > 0
        invariant
            system_profiler_gpu_spec(info@) == find_map(lines(cur@), f),
            f == (|line: Seq<char>| chipset_line(line)),
            key@ == "Chipset Model:"@,
        decreases cur@.len(),
    {
        proof {
            lemma_find_map_lines(cur@, f);
        }
        let (line, rest) = split_first_line(cur);
        if let Some(m) = chipset_line_exec(line, key.as_slice()) {
            return Some(string_of(m));
        }
        cur = rest;
    }
    None
}

/// The boot time in `kern.boottime` text: the digits right after the first
/// `sec = `, up to the next `sec = ` or the end, read as a `u64`.
pub open spec fn boottime_spec(value: Seq<char>) -> Option<nat> {
    match split_once_str(value, "sec = "@) {
        Some((_, after)) => {
            let piece = match split_once_str(after, "sec = "@) {
                Some((p, _)) => p,
                None => after,
            };
            parse_unsigned(piece.take(digit_run(piece)), u64::MAX as nat)
        },
        None => None,
    }
}

/// The boot time, in seconds since the epoch, from `kern.boottime` text.
pub fn parse_boottime(value: &str) -> (r: Option<u64>)
    ensures
        match r {
            Some(v) => boottime_spec(value@) == Some(v as nat),
            None => boottime_spec(value@) is None,
        },
{
    let chars = chars_of(value);
    let key = chars_of("sec = ");
    let (_, after) = split_once_str_slice(chars.as_slice(), key.as_slice())?;
    let piece = match split_once_str_slice(after, key.as_slice()) {
        Some((p, _)) => p,
        None => after,
    };
    parse_u64(digit_prefix(piece))
}

/// Uptime in the compact form: `Mm`, `Hh Mm` or `Dd Hh Mm`.
pub open spec fn uptime_text(seconds: nat) -> Seq<char> {
    let days = seconds / 86400;
    let hours = seconds / 3600 % 24;
    let minutes = seconds / 60 % 60;
    if days == 0 && hours == 0 {
        decimal(minutes) + "m"@
    } else if days == 0 {
        decimal(hours) + "h "@ + decimal(minutes) + "m"@
    } else {
        decimal(days) + "d "@ + decimal(hours) + "h "@ + decimal(minutes) + "m"@
    }
}

/// `seconds` of uptime in days, hours and minutes, leading zero units left
/// out.
pub fn format_uptime(seconds: u64) -> (s: String)
    ensures
        s@ == uptime_text(seconds as nat),
{
    let days = seconds / 86400;
    let hours = seconds / 3600 % 24;
    let minutes = seconds / 60 % 60;
    let mut s = String::new();
    if days == 0 && hours == 0 {
        push_decimal(&mut s, minutes as u128);
        push_str(&mut s, "m");
    } else if days == 0 {
        push_decimal(&mut s, hours as u128);
        push_str(&mut s, "h ");
        push_decimal(&mut s, minutes as u128);
        push_str(&mut s, "m");
    } else {
        push_decimal(&mut s, days as u128);
        push_str(&mut s, "d ");
        push_decimal(&mut s, hours as u128);
        push_str(&mut s, "h ");
        push_decimal(&mut s, minutes as u128);
        push_str(&mut s, "m");
    }
    s
}


/// What a fetch gives: the row's value, or why there is none.
pub type FetchResult = Result<String, String>;

/// A fetch result as plain text.
pub open spec fn fetch_view(r: FetchResult) -> Result<Seq<char>, Seq<char>> {
    match r {
        Ok(v) => Ok(v@),
        Err(e) => Err(e@),
    }
}

/// The share of `total` that `used` is, in whole percent (0 when `total`
/// is 0); `used * 100` saturates.
pub open spec fn usage_percent(used: nat, total: nat) -> nat {
    if total == 0 {
        0
    } else {
        sat_mul(used, 100) / total
    }
}

/// `used` and `total` in GiB with the percentage:
/// `U.UU GiB / T.TT GiB (P%)`.
pub open spec fn usage_text(used: nat, total: nat) -> Seq<char> {
    gib_text(used) + " GiB / "@ + gib_text(total) + " GiB ("@ + decimal(usage_percent(used, total))
        + "%)"@
}

/// Memory or disk usage: `U.UU GiB / T.TT GiB (P%)`.
pub fn format_usage(used: u64, total: u64) -> (s: String)
    ensures
        s@ == usage_text(used as nat, total as nat),
{
    let percent: u64 = if total == 0 {
        0
    } else {
        let scaled = match used.checked_mul(100) {
            Some(v) => v,
            None => u64::MAX,
        };
        scaled / total
    };
    let mut s = String::new();
    push_gib(&mut s, used);
    push_str(&mut s, " GiB / ");
    push_gib(&mut s, total);
    push_str(&mut s, " GiB (");
    push_decimal(&mut s, percent as u128);
    push_str(&mut s, "%)");
    s
}

/// The text that stands for a value that could not be fetched.
pub const MISSING: &'static str = "\u{2014}";

/// [`MISSING`] as characters.
pub open spec fn missing() -> Seq<char> {
    seq!['\u{2014}']
}

/// A row from a fetch: the value, or the missing mark with `label: error`
/// added to `errors`.
pub fn fetched_row(label: &str, result: FetchResult, errors: &mut Vec<String>) -> (row: (
    String,
    String,
))
    ensures
        row.0@ == label@,
        match result {
            Ok(v) => row.1@ == v@ && final(errors)@ == old(errors)@,
            Err(e) => row.1@ == missing() && final(errors)@.len() == old(errors)@.len() + 1
                && final(errors)@.take(old(errors)@.len() as int) == old(errors)@
                && final(errors)@.last()@ == label@ + ": "@ + e@,
        },
{
    let mut name = String::new();
    push_str(&mut name, label);
    assert(name@ =~= label@);
    match result {
        Ok(value) => (name, value),
        Err(error) => {
            let mut message = String::new();
            push_str(&mut message, label);
            push_str(&mut message, ": ");
            push_str(&mut message, error.as_str());
            let ghost before = errors@;
            errors.push(message);
            assert(errors@.take(before.len() as int) =~= before);
            let mut dash = String::new();
            push_str(&mut dash, MISSING);
            proof {
                reveal_strlit("\u{2014}");
            }
            assert(dash@ =~= missing());
            (name, dash)
        },
    }
}

/// The first of `values` that is set and not empty.
pub open spec fn first_nonempty(values: Seq<Option<String>>) -> Option<Seq<char>>
    decreases values.len(),
{
    if values.len() == 0 {
        None
    } else {
        match values[0] {
            Some(v) => if v@.len() > 0 {
                Some(v@)
            } else {
                first_nonempty(values.drop_first())
            },
            None => first_nonempty(values.drop_first()),
        }
    }
}

fn first_nonempty_exec(values: &[Option<String>]) -> (r: Option<String>)
    ensures
        match r {
            Some(v) => first_nonempty(values@) == Some(v@),
            None => first_nonempty(values@) is None,
        },
{
    let mut i: usize = 0;
    assert(values@.skip(0) =~= values@);
    while i < values.len()
        invariant
            i <= values@.len(),
            first_nonempty(values@) == first_nonempty(values@.skip(i as int)),
        decreases values@.len() - i,
    {
        assert(values@.skip(i as int)[0] == values@[i as int]);
        assert(values@.skip(i as int).drop_first() =~= values@.skip(i + 1));
        if let Some(v) = &values[i] {
            if v.as_str().unicode_len() > 0 {
                return Some(v.clone());
            }
        }
        i += 1;
    }
    None
}

/// The names joined with `/`.
pub open spec fn slash_joined(names: Seq<Seq<char>>) -> Seq<char>
    decreases names.len(),
{
    if names.len() == 0 {
        Seq::empty()
    } else if names.len() == 1 {
        names[0]
    } else {
        slash_joined(names.drop_last()) + seq!['/'] + names.last()
    }
}

pub open spec fn str_views(names: Seq<&str>) -> Seq<Seq<char>> {
    names.map_values(|n: &str| n@)
}

/// The value of the first of the environment variables `names` that is set
/// and not empty (`values[i]` is what `names[i]` holds, if it is set and
/// Unicode); otherwise an error naming them all.
pub fn environment_value(names: &[&str], values: &[Option<String>]) -> (r: FetchResult)
    ensures
        match first_nonempty(values@) {
            Some(v) => fetch_view(r) == Ok::<Seq<char>, Seq<char>>(v),
            None => fetch_view(r) == Err::<Seq<char>, Seq<char>>(
                slash_joined(str_views(names@)) + " is unset"@,
            ),
        },
{
    match first_nonempty_exec(values) {
        Some(v) => Ok(v),
        None => {
            let ghost nv = str_views(names@);
            let mut e = String::new();
            let mut i: usize = 0;
            assert(nv.take(0) =~= Seq::<Seq<char>>::empty());
            while i < names.len()
                invariant
                    i <= names@.len(),
                    nv == str_views(names@),
                    e@ == slash_joined(nv.take(i as int)),
                decreases names@.len() - i,
            {
                if i > 0 {
                    crate::text::push_char(&mut e, '/');
                }
                push_str(&mut e, names[i]);
                assert(nv.take(i + 1).drop_last() =~= nv.take(i as int));
                assert(i == 0 ==> nv.take(1) =~= seq![nv[0]]);
                i += 1;
            }
            assert(nv.take(i as int) =~= nv);
            push_str(&mut e, " is unset");
            Err(e)
        },
    }
}

/// The host name: `HOSTNAME` or `COMPUTERNAME` when set and not empty
/// (`values` holds them in that order), otherwise what `run_hostname` gives.
pub fn hostname<F: FnOnce() -> FetchResult>(values: &[Option<String>], run_hostname: F) -> (r:
    FetchResult)
    requires
        call_requires(run_hostname, ()),
    ensures
        match first_nonempty(values@) {
            Some(v) => fetch_view(r) == Ok::<Seq<char>, Seq<char>>(v),
            None => call_ensures(run_hostname, (), r),
        },
{
    match first_nonempty_exec(values) {
        Some(v) => Ok(v),
        None => run_hostname(),
    }
}

/// A command's result from its standard output: the trimmed text, or an
/// error when nothing is left.
pub fn command_output(command: &str, stdout: &str) -> (r: FetchResult)
    ensures
        trim(stdout@).len() > 0 ==> fetch_view(r) == Ok::<Seq<char>, Seq<char>>(trim(stdout@)),
        trim(stdout@).len() == 0 ==> fetch_view(r) == Err::<Seq<char>, Seq<char>>(
            command@ + ": returned no output"@,
        ),
{
    let chars = chars_of(stdout);
    let t = trim_slice(chars.as_slice());
    if t.len() > 0 {
        Ok(string_of(t))
    } else {
        let mut e = String::new();
        push_str(&mut e, command);
        push_str(&mut e, ": returned no output");
        Err(e)
    }
}


/// `native`, or when it failed, what `fallback` gives, keeping `native`'s
/// error when the fallback has nothing either.
pub open spec fn with_fallback(native: Result<Seq<char>, Seq<char>>, fallback: Option<String>) -> Result<
    Seq<char>,
    Seq<char>,
> {
    match native {
        Ok(v) => Ok(v),
        Err(e) => match fallback {
            Some(v) => Ok(v@),
            None => Err(e),
        },
    }
}

/// Whether `r` is what `native` gives with `fallback` called when it failed.
pub open spec fn fallback_result<H: FnOnce() -> Option<String>>(
    native: Result<Seq<char>, Seq<char>>,
    fallback: H,
    r: FetchResult,
) -> bool {
    match native {
        Ok(v) => fetch_view(r) == Ok::<Seq<char>, Seq<char>>(v),
        Err(e) => exists|o: Option<String>|
            #[trigger] call_ensures(fallback, (), o) && fetch_view(r) == with_fallback(native, o),
    }
}

fn or_fallback<H: FnOnce() -> Option<String>>(native: FetchResult, fallback: H) -> (r: FetchResult)
    requires
        call_requires(fallback, ()),
    ensures
        fallback_result(fetch_view(native), fallback, r),
{
    let ghost nv = fetch_view(native);
    match native {
        Ok(v) => Ok(v),
        Err(e) => {
            let o = fallback();
            let ghost og = o;
            let r = match o {
                Some(v) => Ok(v),
                None => Err(e),
            };
            assert(call_ensures(fallback, (), og) && fetch_view(r) == with_fallback(nv, og));
            r
        },
    }
}

fn text_result(s: &str) -> (e: String)
    ensures
        e@ == s@,
{
    let mut e = String::new();
    push_str(&mut e, s);
    assert(e@ =~= s@);
    e
}

/// The filesystem row of `df -kP /` output: its second line.
pub open spec fn df_row(output: Seq<char>) -> Option<Seq<char>> {
    if lines(output).len() > 1 {
        Some(lines(output)[1])
    } else {
        None
    }
}

/// Field `i` of the row, read as a `u64`.
pub open spec fn df_field(row: Seq<char>, i: int) -> Option<nat> {
    if 0 <= i < tokens(row).len() {
        parse_unsigned(tokens(row)[i], u64::MAX as nat)
    } else {
        None
    }
}

/// Whether the sizes in `df` output, in KiB, can be counted in bytes in a
/// `u64`.
pub open spec fn df_fits(output: Seq<char>) -> bool {
    match df_row(output) {
        Some(row) => match df_field(row, 1) {
            Some(total) => total * 1024 <= u64::MAX && match df_field(row, 2) {
                Some(used) => used * 1024 <= u64::MAX,
                None => true,
            },
            None => true,
        },
        None => true,
    }
}

/// Root filesystem usage from `df -kP /` output: the total and used KiB of
/// its filesystem row, in bytes.
pub open spec fn df_usage(output: Seq<char>) -> Result<Seq<char>, Seq<char>> {
    match df_row(output) {
        None => Err("df -kP /: returned no filesystem row"@),
        Some(row) => match df_field(row, 1) {
            None => Err("df -kP /: invalid total"@),
            Some(total) => match df_field(row, 2) {
                None => Err("df -kP /: invalid used"@),
                Some(used) => Ok(usage_text(used * 1024, total * 1024)),
            },
        },
    }
}

fn df_field_exec(fields: &Vec<&[char]>, i: usize) -> (r: Option<u64>)
    ensures
        match r {
            Some(v) => i < fields@.len() && parse_unsigned(fields@[i as int]@, u64::MAX as nat)
                == Some(v as nat),
            None => i >= fields@.len() || parse_unsigned(fields@[i as int]@, u64::MAX as nat)
                is None,
        },
{
    if i < fields.len() {
        parse_u64(fields[i])
    } else {
        None
    }
}

/// Whether the sizes in `df` output can be counted in bytes in a `u64`, as
/// [`disk`] needs.
pub fn df_in_range(output: &str) -> (b: bool)
    ensures
        b == df_fits(output@),
{
    let chars = chars_of(output);
    let cur: &[char] = chars.as_slice();
    if cur.len() == 0 {
        assert(lines(output@) =~= Seq::<Seq<char>>::empty());
        return true;
    }
    proof {
        crate::text::lemma_lines_unfold(cur@);
    }
    let (_, rest) = split_first_line(cur);
    if rest.len() == 0 {
        assert(lines(rest@) =~= Seq::<Seq<char>>::empty());
        return true;
    }
    proof {
        crate::text::lemma_lines_unfold(rest@);
    }
    let (row, _) = split_first_line(rest);
    assert(lines(output@)[1] == row@);
    let fields = split_tokens(row);
    match df_field_exec(&fields, 1) {
        Some(total) => {
            if total > u64::MAX / 1024 {
                false
            } else {
                match df_field_exec(&fields, 2) {
                    Some(used) => used <= u64::MAX / 1024,
                    None => true,
                }
            }
        },
        None => true,
    }
}

fn df_usage_exec(output: &str) -> (r: FetchResult)
    requires
        df_fits(output@),
    ensures
        fetch_view(r) == df_usage(output@),
{
    let chars = chars_of(output);
    let cur: &[char] = chars.as_slice();
    if cur.len() == 0 {
        assert(lines(output@) =~= Seq::<Seq<char>>::empty());
        return Err(text_result("df -kP /: returned no filesystem row"));
    }
    proof {
        crate::text::lemma_lines_unfold(cur@);
    }
    let (_, rest) = split_first_line(cur);
    if rest.len() == 0 {
        assert(lines(rest@) =~= Seq::<Seq<char>>::empty());
        return Err(text_result("df -kP /: returned no filesystem row"));
    }
    proof {
        crate::text::lemma_lines_unfold(rest@);
    }
    let (row, _) = split_first_line(rest);
    assert(lines(output@)[1] == row@);
    let fields = split_tokens(row);
    let total = match df_field_exec(&fields, 1) {
        Some(t) => t,
        None => {
            return Err(text_result("df -kP /: invalid total"));
        },
    };
    let total_bytes = total * 1024;
    let used = match df_field_exec(&fields, 2) {
        Some(u) => u,
        None => {
            return Err(text_result("df -kP /: invalid used"));
        },
    };
    Ok(format_usage(used * 1024, total_bytes))
}

/// Root filesystem usage: from `df -kP /` output, or when that fails, from
/// the fallback.
pub fn disk<H: FnOnce() -> Option<String>>(df_output: FetchResult, fallback: H) -> (r: FetchResult)
    requires
        df_output matches Ok(out) ==> df_fits(out@),
        call_requires(fallback, ()),
    ensures
        fallback_result(
            match df_output {
                Ok(out) => df_usage(out@),
                Err(e) => Err(e@),
            },
            fallback,
            r,
        ),
{
    let native = match df_output {
        Ok(out) => df_usage_exec(out.as_str()),
        Err(e) => Err(e),
    };
    or_fallback(native, fallback)
}

/// The seconds of uptime in `/proc/uptime` text: its first word as a `u64`.
pub open spec fn proc_uptime_seconds(info: Seq<char>) -> Option<nat> {
    match first_token(info) {
        Some(word) => parse_unsigned(word, u64::MAX as nat),
        None => None,
    }
}

/// The uptime from `kern.boottime` text and the current time, in seconds
/// since the epoch.
pub open spec fn boottime_uptime(value: Seq<char>, now: Option<u64>) -> Result<
    Seq<char>,
    Seq<char>,
> {
    match boottime_spec(value) {
        Some(boot) => match now {
            Some(t) => if t >= boot {
                Ok(uptime_text((t - boot) as nat))
            } else {
                Err("kern.boottime: invalid value"@)
            },
            None => Err("kern.boottime: invalid value"@),
        },
        None => Err("kern.boottime: invalid value"@),
    }
}

/// How long the machine has been up: from `/proc/uptime` text when it has a
/// reading, otherwise from `kern.boottime` and the clock, each asked for
/// only when needed.
pub fn uptime<F: FnOnce() -> FetchResult, G: FnOnce() -> Option<u64>>(
    proc_uptime: Option<&str>,
    boottime: F,
    now: G,
) -> (r: FetchResult)
    requires
        call_requires(boottime, ()),
        call_requires(now, ()),
    ensures
        proc_seconds(proc_uptime) matches Some(s) ==> fetch_view(r) == Ok::<Seq<char>, Seq<char>>(
            uptime_text(s),
        ),
        proc_seconds(proc_uptime) is None ==> exists|b: FetchResult|
            #[trigger] call_ensures(boottime, (), b) && match b {
                Err(e) => fetch_view(r) == Err::<Seq<char>, Seq<char>>(e@),
                Ok(v) => if boottime_spec(v@) is Some {
                    exists|n: Option<u64>|
                        #[trigger] call_ensures(now, (), n) && fetch_view(r) == boottime_uptime(v@, n)
                } else {
                    fetch_view(r) == boottime_uptime(v@, None)
                },
            },
{
    if let Some(info) = proc_uptime {
        let chars = chars_of(info);
        if let Some(word) = first_token_slice(chars.as_slice()) {
            if let Some(seconds) = parse_u64(word) {
                return Ok(format_uptime(seconds));
            }
        }
    }
    let b = boottime();
    let ghost bg = b;
    let r = match b {
        Err(e) => Err(e),
        Ok(v) => {
            match parse_boottime(v.as_str()) {
                None => Err(text_result("kern.boottime: invalid value")),
                Some(boot) => {
                    let n = now();
                    let ghost ng = n;
                    let r = match n {
                        Some(t) => {
                            if t >= boot {
                                Ok(format_uptime(t - boot))
                            } else {
                                Err(text_result("kern.boottime: invalid value"))
                            }
                        },
                        None => Err(text_result("kern.boottime: invalid value")),
                    };
                    assert(call_ensures(now, (), ng) && fetch_view(r) == boottime_uptime(v@, ng));
                    r
                },
            }
        },
    };
    assert(call_ensures(boottime, (), bg));
    r
}

/// The seconds of uptime in `/proc/uptime` text, when it was read and has a
/// reading.
pub open spec fn proc_seconds(proc_uptime: Option<&str>) -> Option<nat> {
    match proc_uptime {
        Some(info) => proc_uptime_seconds(info@),
        None => None,
    }
}

/// `model (cores cores)` from the two `sysctl` answers, the first error
/// otherwise.
pub open spec fn sysctl_cpu(model: Result<Seq<char>, Seq<char>>, cores: Result<Seq<char>, Seq<char>>) -> Result<
    Seq<char>,
    Seq<char>,
> {
    match model {
        Err(e) => Err(e),
        Ok(m) => match cores {
            Err(e) => Err(e),
            Ok(c) => Ok(m + " ("@ + c + " cores)"@),
        },
    }
}

/// The CPU: from `/proc/cpuinfo` text when it names a model, otherwise from
/// `sysctl`'s model and core count (the count asked for only when the model
/// came), otherwise from the fallback.
pub fn cpu<F: FnOnce() -> FetchResult, G: FnOnce() -> FetchResult, H: FnOnce() -> Option<String>>(
    cpuinfo: Option<&str>,
    model: F,
    cores: G,
    fallback: H,
) -> (r: FetchResult)
    requires
        call_requires(model, ()),
        call_requires(cores, ()),
        call_requires(fallback, ()),
    ensures
        match cpuinfo {
            Some(info) if cpuinfo_spec(info@) is Some => fetch_view(r) == Ok::<Seq<char>, Seq<char>>(
                cpuinfo_spec(info@)->0,
            ),
            _ => exists|m: FetchResult|
                #[trigger] call_ensures(model, (), m) && if m is Err {
                    fallback_result(fetch_view(m), fallback, r)
                } else {
                    exists|c: FetchResult|
                        #[trigger] call_ensures(cores, (), c) && fallback_result(
                            sysctl_cpu(fetch_view(m), fetch_view(c)),
                            fallback,
                            r,
                        )
                },
        },
{
    if let Some(info) = cpuinfo {
        if let Some(v) = parse_cpuinfo(info) {
            return Ok(v);
        }
    }
    let m = model();
    let ghost mg = m;
    assert(call_ensures(model, (), mg));
    match m {
        Err(e) => or_fallback(Err(e), fallback),
        Ok(mv) => {
            let c = cores();
            let ghost cg = c;
            let native = match c {
                Err(e) => Err(e),
                Ok(cv) => {
                    let mut s = String::new();
                    push_str(&mut s, mv.as_str());
                    push_str(&mut s, " (");
                    push_str(&mut s, cv.as_str());
                    push_str(&mut s, " cores)");
                    Ok(s)
                },
            };
            assert(fetch_view(native) == sysctl_cpu(fetch_view(mg), fetch_view(cg)));
            let r = or_fallback(native, fallback);
            assert(call_ensures(cores, (), cg) && fallback_result(
                sysctl_cpu(fetch_view(mg), fetch_view(cg)),
                fallback,
                r,
            ));
            r
        },
    }
}


/// The text that `ParseIntError`'s `Display` gives for the error of
/// `str::parse::<u64>` on `s`; it depends on `s` alone.
pub uninterp spec fn u64_parse_error(s: Seq<char>) -> Seq<char>;

/// `str::parse::<u64>` (std), its error written with `ParseIntError`'s
/// `Display`. The value is the one its documentation describes (an
/// optional `+`, then decimal digits, within range: `parse_unsigned`); the
/// error's text is named `u64_parse_error`, and its wording is not stated
/// here.
#[verifier::external_body]
fn parse_u64_or_reason(s: &str) -> (r: Result<u64, String>)
    ensures
        match r {
            Ok(v) => parse_unsigned(s@, u64::MAX as nat) == Some(v as nat),
            Err(e) => parse_unsigned(s@, u64::MAX as nat) is None && e@ == u64_parse_error(s@),
        },
{
    s.parse::<u64>().map_err(|e| e.to_string())
}

/// Memory usage from `/proc/meminfo` text: used is the total less what is
/// available (the total when `MemAvailable` is absent), both in bytes.
pub open spec fn meminfo_usage(info: Seq<char>) -> Option<Seq<char>> {
    match mem_kib_spec(info, "MemTotal"@) {
        Some(total) => {
            let available = match mem_kib_spec(info, "MemAvailable"@) {
                Some(a) => a,
                None => total,
            };
            Some(usage_text(sat_sub_nat(total, available) * 1024, total * 1024))
        },
        None => None,
    }
}

/// Whether the total in `/proc/meminfo` text can be counted in bytes in a
/// `u64`.
pub open spec fn meminfo_fits(info: Seq<char>) -> bool {
    mem_kib_spec(info, "MemTotal"@) matches Some(total) ==> total * 1024 <= u64::MAX
}

/// Whether the `MemTotal` of `/proc/meminfo` text can be counted in bytes in
/// a `u64`, as [`memory`] needs.
pub fn meminfo_in_range(info: &str) -> (b: bool)
    ensures
        b == meminfo_fits(info@),
{
    match mem_kib(info, "MemTotal") {
        Some(total) => total <= u64::MAX / 1024,
        None => true,
    }
}

/// Used bytes on macOS: from `vm_stat` text when it was read (and its page
/// counts add up within a `u64`), otherwise the whole `total`.
pub open spec fn vm_used(vm_stat: FetchResult, total: nat) -> nat {
    match vm_stat {
        Ok(info) => if vm_available_pages(info@) <= u64::MAX {
            sat_sub_nat(total, sat_mul(vm_available_pages(info@), vm_page_size(info@)))
        } else {
            total
        },
        Err(_) => total,
    }
}

/// The result of the `sysctl`/`vm_stat` path, given what `memsize` gave;
/// `vm_stat` is asked for only once the total is known.
pub open spec fn sysctl_memory_result<G: FnOnce() -> FetchResult, H: FnOnce() -> Option<String>>(
    memsize: FetchResult,
    vm_stat: G,
    fallback: H,
    r: FetchResult,
) -> bool {
    match memsize {
        Err(e) => fallback_result(Err(e@), fallback, r),
        Ok(text) => match parse_unsigned(text@, u64::MAX as nat) {
            None => fallback_result(Err("hw.memsize: "@ + u64_parse_error(text@)), fallback, r),
            Some(total) => exists|vs: FetchResult|
                #[trigger] call_ensures(vm_stat, (), vs) && fallback_result(
                    Ok(usage_text(vm_used(vs, total), total)),
                    fallback,
                    r,
                ),
        },
    }
}

/// Memory usage from `/proc/meminfo` text, when it was read and gives a
/// total.
pub open spec fn read_meminfo(meminfo: Option<&str>) -> Option<Seq<char>> {
    match meminfo {
        Some(info) => meminfo_usage(info@),
        None => None,
    }
}

/// Memory usage: from `/proc/meminfo` text when it gives a total,
/// otherwise from `sysctl hw.memsize` and `vm_stat` (each asked for only when
/// needed), otherwise from the fallback.
pub fn memory<F: FnOnce() -> FetchResult, G: FnOnce() -> FetchResult, H: FnOnce() -> Option<String>>(
    meminfo: Option<&str>,
    memsize: F,
    vm_stat: G,
    fallback: H,
) -> (r: FetchResult)
    requires
        meminfo matches Some(info) ==> meminfo_fits(info@),
        call_requires(memsize, ()),
        call_requires(vm_stat, ()),
        call_requires(fallback, ()),
    ensures
        read_meminfo(meminfo) matches Some(v) ==> fetch_view(r) == Ok::<Seq<char>, Seq<char>>(v),
        read_meminfo(meminfo) is None ==> exists|ms: FetchResult|
            #[trigger] call_ensures(memsize, (), ms) && sysctl_memory_result(ms, vm_stat, fallback, r),
{
    if let Some(info) = meminfo {
        if let Some(total) = mem_kib(info, "MemTotal") {
            let available = match mem_kib(info, "MemAvailable") {
                Some(a) => a,
                None => total,
            };
            let used_kib = if total > available {
                total - available
            } else {
                0
            };
            return Ok(format_usage(used_kib * 1024, total * 1024));
        }
    }
    let ms = memsize();
    let ghost msg = ms;
    assert(call_ensures(memsize, (), msg));
    let r = match ms {
        Err(e) => {
            let r = or_fallback(Err(e), fallback);
            assert(sysctl_memory_result(msg, vm_stat, fallback, r));
            r
        },
        Ok(text) => match parse_u64_or_reason(text.as_str()) {
            Err(reason) => {
                let mut e = String::new();
                push_str(&mut e, "hw.memsize: ");
                push_str(&mut e, reason.as_str());
                assert(e@ =~= "hw.memsize: "@ + reason@);
                let r = or_fallback(Err(e), fallback);
                assert(fallback_result(Err("hw.memsize: "@ + reason@), fallback, r));
                assert(sysctl_memory_result(msg, vm_stat, fallback, r));
                r
            },
            Ok(total) => {
                let vs = vm_stat();
                let ghost vsg = vs;
                let used = match vs {
                    Ok(info) => {
                        let free = vm_stat_pages(info.as_str(), "Pages free");
                        let inactive = vm_stat_pages(info.as_str(), "Pages inactive");
                        let speculative = vm_stat_pages(info.as_str(), "Pages speculative");
                        if free <= u64::MAX - inactive && free + inactive <= u64::MAX
                            - speculative {
                            match parse_vm_stat(info.as_str(), total) {
                                Some(u) => u,
                                None => total,
                            }
                        } else {
                            total
                        }
                    },
                    Err(_) => total,
                };
                assert(used as nat == vm_used(vsg, total as nat));
                let r = or_fallback(Ok(format_usage(used, total)), fallback);
                assert(call_ensures(vm_stat, (), vsg) && fallback_result(
                    Ok(usage_text(vm_used(vsg, total as nat), total as nat)),
                    fallback,
                    r,
                ));
                assert(msg == Ok::<String, String>(text));
                assert(parse_unsigned(text@, u64::MAX as nat) == Some(total as nat));
                assert(exists|vs: FetchResult|
                    #[trigger] call_ensures(vm_stat, (), vs) && fallback_result(
                        Ok(usage_text(vm_used(vs, total as nat), total as nat)),
                        fallback,
                        r,
                    ));
                assert(sysctl_memory_result(msg, vm_stat, fallback, r));
                r
            },
        },
    };
    assert(call_ensures(memsize, (), msg) && sysctl_memory_result(msg, vm_stat, fallback, r));
    r
}

/// A temperature in whole degrees Celsius: `N °C`.
pub open spec fn degrees_text(v: int) -> Seq<char> {
    signed_decimal(v) + " \u{b0}C"@
}

fn format_degrees(v: i64) -> (s: String)
    ensures
        s@ == degrees_text(v as int),
{
    let mut s = String::new();
    push_signed(&mut s, v);
    push_str(&mut s, " \u{b0}C");
    s
}

/// The reading of a thermal zone: its `temp` text, when it was read, as
/// whole degrees.
pub open spec fn zone_reading(zone: (String, Option<String>)) -> Option<int> {
    match zone.1 {
        Some(t) => millidegrees_spec(t@),
        None => None,
    }
}

/// Whether a zone's `type` names the CPU: it holds `cpu` or `package`,
/// ASCII case ignored.
pub open spec fn is_cpu_zone(kind: Seq<char>) -> bool {
    find_sub(ascii_lowercase(kind), "cpu"@) >= 0 || find_sub(ascii_lowercase(kind), "package"@)
        >= 0
}

/// The first readable zone whose type names the CPU.
pub open spec fn cpu_zone_reading(zones: Seq<(String, Option<String>)>) -> Option<int>
    decreases zones.len(),
{
    if zones.len() == 0 {
        None
    } else if zone_reading(zones[0]) is Some && is_cpu_zone(zones[0].0@) {
        zone_reading(zones[0])
    } else {
        cpu_zone_reading(zones.drop_first())
    }
}

/// The first readable zone.
pub open spec fn any_zone_reading(zones: Seq<(String, Option<String>)>) -> Option<int>
    decreases zones.len(),
{
    if zones.len() == 0 {
        None
    } else if zone_reading(zones[0]) is Some {
        zone_reading(zones[0])
    } else {
        any_zone_reading(zones.drop_first())
    }
}

/// The temperature of the thermal zones (each its `type` text and, when
/// read, its `temp` text): the first readable CPU or package zone, else the
/// first readable zone.
pub open spec fn thermal_spec(zones: Seq<(String, Option<String>)>) -> Result<Seq<char>, Seq<char>> {
    match cpu_zone_reading(zones) {
        Some(v) => Ok(degrees_text(v)),
        None => match any_zone_reading(zones) {
            Some(v) => Ok(degrees_text(v)),
            None => Err("no readable thermal zone"@),
        },
    }
}

fn zone_reading_exec(zone: &(String, Option<String>)) -> (r: Option<i64>)
    ensures
        match r {
            Some(v) => zone_reading(*zone) == Some(v as int),
            None => zone_reading(*zone) is None,
        },
{
    match &zone.1 {
        Some(t) => parse_millidegrees(t.as_str()),
        None => None,
    }
}

fn is_cpu_zone_exec(kind: &str) -> (b: bool)
    ensures
        b == is_cpu_zone(kind@),
{
    let chars = chars_of(kind);
    let lower = ascii_lowercase_chars(chars.as_slice());
    let cpu = chars_of("cpu");
    let package = chars_of("package");
    contains_sub(lower.as_slice(), cpu.as_slice()) || contains_sub(
        lower.as_slice(),
        package.as_slice(),
    )
}

/// The temperature of the thermal zones that were found.
pub fn thermal_temperature(zones: &[(String, Option<String>)]) -> (r: FetchResult)
    ensures
        fetch_view(r) == thermal_spec(zones@),
{
    let mut i: usize = 0;
    assert(zones@.skip(0) =~= zones@);
    while i < zones.len()
        invariant
            i <= zones@.len(),
            cpu_zone_reading(zones@) == cpu_zone_reading(zones@.skip(i as int)),
        decreases zones@.len() - i,
    {
        assert(zones@.skip(i as int)[0] == zones@[i as int]);
        assert(zones@.skip(i as int).drop_first() =~= zones@.skip(i + 1));
        if let Some(v) = zone_reading_exec(&zones[i]) {
            if is_cpu_zone_exec(zones[i].0.as_str()) {
                return Ok(format_degrees(v));
            }
        }
        i += 1;
    }
    i = 0;
    while i < zones.len()
        invariant
            i <= zones@.len(),
            cpu_zone_reading(zones@) is None,
            any_zone_reading(zones@) == any_zone_reading(zones@.skip(i as int)),
        decreases zones@.len() - i,
    {
        assert(zones@.skip(i as int)[0] == zones@[i as int]);
        assert(zones@.skip(i as int).drop_first() =~= zones@.skip(i + 1));
        if let Some(v) = zone_reading_exec(&zones[i]) {
            return Ok(format_degrees(v));
        }
        i += 1;
    }
    Err(text_result("no readable thermal zone"))
}

/// The temperature from `ioreg` output.
pub open spec fn ioreg_result(output: Result<Seq<char>, Seq<char>>) -> Result<Seq<char>, Seq<char>> {
    match output {
        Err(e) => Err(e),
        Ok(info) => match ioreg_spec(info) {
            Some(v) => Ok(degrees_text(v)),
            None => Err("IOHWSensor reported no temperature"@),
        },
    }
}

/// The CPU temperature on platform `os`: the thermal zones on Linux, `ioreg`
/// on macOS (each asked for only there), an error elsewhere.
pub fn temperature<
    F: FnOnce() -> Result<Vec<(String, Option<String>)>, String>,
    G: FnOnce() -> FetchResult,
>(os: &str, thermal_zones: F, ioreg: G) -> (r: FetchResult)
    requires
        call_requires(thermal_zones, ()),
        call_requires(ioreg, ()),
    ensures
        os@ == "linux"@ ==> exists|z: Result<Vec<(String, Option<String>)>, String>|
            #[trigger] call_ensures(thermal_zones, (), z) && fetch_view(r) == match z {
                Ok(zones) => thermal_spec(zones@),
                Err(e) => Err(e@),
            },
        os@ == "macos"@ ==> exists|o: FetchResult|
            #[trigger] call_ensures(ioreg, (), o) && fetch_view(r) == ioreg_result(fetch_view(o)),
        os@ != "linux"@ && os@ != "macos"@ ==> fetch_view(r) == Err::<Seq<char>, Seq<char>>(
            "CPU temperature is unsupported on this platform"@,
        ),
{
    proof {
        reveal_strlit("linux");
        reveal_strlit("macos");
        assert("linux"@[0] != "macos"@[0]);
    }
    if same_text(os, "linux") {
        let z = thermal_zones();
        let ghost zg = z;
        let r = match z {
            Ok(zones) => thermal_temperature(zones.as_slice()),
            Err(e) => Err(e),
        };
        assert(call_ensures(thermal_zones, (), zg));
        r
    } else if same_text(os, "macos") {
        let o = ioreg();
        let ghost og = o;
        let r = match o {
            Err(e) => Err(e),
            Ok(info) => match parse_ioreg_temperature(info.as_str()) {
                Some(v) => Ok(format_degrees(v)),
                None => Err(text_result("IOHWSensor reported no temperature")),
            },
        };
        assert(call_ensures(ioreg, (), og));
        r
    } else {
        Err(text_result("CPU temperature is unsupported on this platform"))
    }
}

/// Whether a DRM entry is a card with a readable `uevent`.
pub open spec fn readable_card(entry: (String, Option<String>)) -> bool {
    strip_prefix(entry.0@, "card"@) is Some && entry.1 is Some
}

/// The `uevent` text of the first card entry that has one.
pub open spec fn first_card_uevent(entries: Seq<(String, Option<String>)>) -> Option<Seq<char>>
    decreases entries.len(),
{
    if entries.len() == 0 {
        None
    } else if readable_card(entries[0]) {
        Some(entries[0].1->0@)
    } else {
        first_card_uevent(entries.drop_first())
    }
}

/// The GPU from the DRM entries (each its name and, when read, its
/// `device/uevent` text): the first card with a `uevent`.
pub open spec fn drm_spec(entries: Seq<(String, Option<String>)>) -> Result<Seq<char>, Seq<char>> {
    match first_card_uevent(entries) {
        Some(info) => match drm_uevent_spec(info) {
            Some(g) => Ok(g),
            None => Err("no DRM GPU identity"@),
        },
        None => Err("no DRM GPU identity"@),
    }
}

/// The GPU named by the DRM entries that were found.
pub fn drm_gpu(entries: &[(String, Option<String>)]) -> (r: FetchResult)
    ensures
        fetch_view(r) == drm_spec(entries@),
{
    let card = chars_of("card");
    let mut i: usize = 0;
    assert(entries@.skip(0) =~= entries@);
    while i < entries.len()
        invariant
            i <= entries@.len(),
            card@ == "card"@,
            first_card_uevent(entries@) == first_card_uevent(entries@.skip(i as int)),
        decreases entries@.len() - i,
    {
        assert(entries@.skip(i as int)[0] == entries@[i as int]);
        assert(entries@.skip(i as int).drop_first() =~= entries@.skip(i + 1));
        let name = chars_of(entries[i].0.as_str());
        if starts_with(name.as_slice(), card.as_slice()) {
            if let Some(info) = &entries[i].1 {
                return match parse_drm_uevent(info.as_str()) {
                    Some(g) => Ok(g),
                    None => Err(text_result("no DRM GPU identity")),
                };
            }
        }
        i += 1;
    }
    Err(text_result("no DRM GPU identity"))
}

/// The GPU from `system_profiler` output.
pub open spec fn profiler_result(output: Result<Seq<char>, Seq<char>>) -> Result<Seq<char>, Seq<char>> {
    match output {
        Err(e) => Err(e),
        Ok(info) => match system_profiler_gpu_spec(info) {
            Some(g) => Ok(g),
            None => Err("system_profiler reported no GPU"@),
        },
    }
}

/// The GPU on platform `os`: the DRM entries on Linux, `system_profiler` on
/// macOS (each asked for only there), an error elsewhere.
pub fn gpu<
    F: FnOnce() -> Result<Vec<(String, Option<String>)>, String>,
    G: FnOnce() -> FetchResult,
>(os: &str, drm_entries: F, system_profiler: G) -> (r: FetchResult)
    requires
        call_requires(drm_entries, ()),
        call_requires(system_profiler, ()),
    ensures
        os@ == "linux"@ ==> exists|d: Result<Vec<(String, Option<String>)>, String>|
            #[trigger] call_ensures(drm_entries, (), d) && fetch_view(r) == match d {
                Ok(entries) => drm_spec(entries@),
                Err(e) => Err(e@),
            },
        os@ == "macos"@ ==> exists|o: FetchResult|
            #[trigger] call_ensures(system_profiler, (), o) && fetch_view(r) == profiler_result(
                fetch_view(o),
            ),
        os@ != "linux"@ && os@ != "macos"@ ==> fetch_view(r) == Err::<Seq<char>, Seq<char>>(
            "GPU identity is unsupported on this platform"@,
        ),
{
    proof {
        reveal_strlit("linux");
        reveal_strlit("macos");
        assert("linux"@[0] != "macos"@[0]);
    }
    if same_text(os, "linux") {
        let d = drm_entries();
        let ghost dg = d;
        let r = match d {
            Ok(entries) => drm_gpu(entries.as_slice()),
            Err(e) => Err(e),
        };
        assert(call_ensures(drm_entries, (), dg));
        r
    } else if same_text(os, "macos") {
        let o = system_profiler();
        let ghost og = o;
        let r = match o {
            Err(e) => Err(e),
            Ok(info) => match parse_system_profiler_gpu(info.as_str()) {
                Some(g) => Ok(g),
                None => Err(text_result("system_profiler reported no GPU")),
            },
        };
        assert(call_ensures(system_profiler, (), og));
        r
    } else {
        Err(text_result("GPU identity is unsupported on this platform"))
    }
}


/// The CPU from `sysinfo`'s readings: the first CPU's brand (none when no CPU
/// was listed), the physical core count when known, and the number of CPUs
/// listed; nothing unless the brand is not empty and there is a core.
pub open spec fn sysinfo_cpu_spec(first_brand: Option<Seq<char>>, physical_cores: Option<usize>, cpu_count: usize) -> Option<
    Seq<char>,
> {
    match first_brand {
        Some(model) => {
            let cores = match physical_cores {
                Some(c) => c,
                None => cpu_count,
            };
            if model.len() > 0 && cores > 0 {
                Some(model + " ("@ + decimal(cores as nat) + " cores)"@)
            } else {
                None
            }
        },
        None => None,
    }
}

/// The CPU as `sysinfo` reports it.
pub fn sysinfo_cpu(first_brand: Option<&str>, physical_cores: Option<usize>, cpu_count: usize) -> (r:
    Option<String>)
    ensures
        opt_text(r) == sysinfo_cpu_spec(
            match first_brand {
                Some(b) => Some(b@),
                None => None,
            },
            physical_cores,
            cpu_count,
        ),
{
    let model = first_brand?;
    let cores = match physical_cores {
        Some(c) => c,
        None => cpu_count,
    };
    if model.unicode_len() > 0 && cores > 0 {
        let mut s = String::new();
        push_str(&mut s, model);
        push_str(&mut s, " (");
        push_decimal(&mut s, cores as u128);
        push_str(&mut s, " cores)");
        Some(s)
    } else {
        None
    }
}

pub open spec fn opt_text(o: Option<String>) -> Option<Seq<char>> {
    match o {
        Some(s) => Some(s@),
        None => None,
    }
}

/// Usage from `sysinfo` totals: nothing when the total is 0.
pub open spec fn sysinfo_usage_spec(total: nat, available: nat) -> Option<Seq<char>> {
    if total > 0 {
        Some(usage_text(sat_sub_nat(total, available), total))
    } else {
        None
    }
}

/// Memory usage as `sysinfo` reports it: total and available bytes.
pub fn sysinfo_memory(total: u64, available: u64) -> (r: Option<String>)
    ensures
        opt_text(r) == sysinfo_usage_spec(total as nat, available as nat),
{
    if total > 0 {
        let used = if total > available {
            total - available
        } else {
            0
        };
        Some(format_usage(used, total))
    } else {
        None
    }
}

/// The disk `sysinfo` would report on: the first mounted at the root, or
/// else the first listed.
pub open spec fn chosen_disk(disks: Seq<(bool, u64, u64)>) -> Option<(bool, u64, u64)> {
    if exists|i: int| 0 <= i < disks.len() && (#[trigger] disks[i]).0 {
        Some(disks[first_root(disks)])
    } else if disks.len() > 0 {
        Some(disks[0])
    } else {
        None
    }
}

/// Index of the first disk mounted at the root (the length when none is).
pub open spec fn first_root(disks: Seq<(bool, u64, u64)>) -> int
    decreases disks.len(),
{
    if disks.len() == 0 {
        0
    } else if disks[0].0 {
        0
    } else {
        1 + first_root(disks.drop_first())
    }
}

proof fn lemma_first_root(disks: Seq<(bool, u64, u64)>, i: int)
    requires
        0 <= i < disks.len(),
        disks[i].0,
        forall|j: int| 0 <= j < i ==> !(#[trigger] disks[j]).0,
    ensures
        first_root(disks) == i,
    decreases disks.len(),
{
    if i > 0 {
        assert forall|j: int| 0 <= j < i - 1 implies !(#[trigger] disks.drop_first()[j]).0 by {
            assert(disks.drop_first()[j] == disks[j + 1]);
        }
        lemma_first_root(disks.drop_first(), i - 1);
    }
}

/// Root filesystem usage as `sysinfo` reports it: each disk is whether it is
/// mounted at `/`, its total bytes and its available bytes.
pub fn sysinfo_disk(disks: &[(bool, u64, u64)]) -> (r: Option<String>)
    ensures
        opt_text(r) == match chosen_disk(disks@) {
            Some(d) => sysinfo_usage_spec(d.1 as nat, d.2 as nat),
            None => None,
        },
{
    let mut i: usize = 0;
    while i < disks.len()
        invariant
            i <= disks@.len(),
            forall|j: int| 0 <= j < i ==> !(#[trigger] disks@[j]).0,
        decreases disks@.len() - i,
    {
        if disks[i].0 {
            proof {
                lemma_first_root(disks@, i as int);
            }
            return sysinfo_memory(disks[i].1, disks[i].2);
        }
        i += 1;
    }
    if disks.len() > 0 {
        sysinfo_memory(disks[0].1, disks[0].2)
    } else {
        None
    }
}

} // verus!
