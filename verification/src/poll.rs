//! Status text and path tests used when a file load completes.

use vstd::prelude::*;
use crate::text::{append_decimal, chars_of, decimal_text, ends_with_chars, starts_with_chars};

verus! {

/// Load-time text: minutes are left out under a minute, seconds under a
/// second, e.g. `加载时间：2分15秒321毫秒` / `加载时间：15秒321毫秒` / `加载时间：321毫秒`.
pub open spec fn load_duration_text(total_ms: nat) -> Seq<char> {
    let mins = total_ms / 60000;
    let secs = (total_ms % 60000) / 1000;
    let ms = total_ms % 1000;
    if mins > 0 {
        "加载时间："@ + decimal_text(mins) + "分"@ + decimal_text(secs) + "秒"@ + decimal_text(ms) + "毫秒"@
    } else if secs > 0 {
        "加载时间："@ + decimal_text(secs) + "秒"@ + decimal_text(ms) + "毫秒"@
    } else {
        "加载时间："@ + decimal_text(ms) + "毫秒"@
    }
}

/// A load of `mins` minutes, `secs` seconds and `ms` milliseconds (with
/// `secs < 60`, `ms < 1000`) reads as those three numbers, the minutes left
/// out when zero, and the seconds too when both are zero.
pub proof fn lemma_load_duration_parts(mins: nat, secs: nat, ms: nat)
    requires
        secs < 60,
        ms < 1000,
    ensures
        load_duration_text(mins * 60000 + secs * 1000 + ms) == if mins > 0 {
            "加载时间："@ + decimal_text(mins) + "分"@ + decimal_text(secs) + "秒"@ + decimal_text(ms) + "毫秒"@
        } else if secs > 0 {
            "加载时间："@ + decimal_text(secs) + "秒"@ + decimal_text(ms) + "毫秒"@
        } else {
            "加载时间："@ + decimal_text(ms) + "毫秒"@
        },
{
    let total: int = (mins * 60000 + secs * 1000 + ms) as int;
    let rest: int = (secs * 1000 + ms) as int;
    vstd::arithmetic::div_mod::lemma_fundamental_div_mod_converse(total, 60000, mins as int, rest);
    vstd::arithmetic::div_mod::lemma_fundamental_div_mod_converse(rest, 1000, secs as int, ms as int);
    vstd::arithmetic::div_mod::lemma_fundamental_div_mod_converse(total, 1000, (mins * 60 + secs) as int, ms as int);
}

/// The load-time text for a load that took `total_ms` milliseconds.
pub fn format_load_duration(total_ms: u128) -> (r: String)
    ensures
        r@ == load_duration_text(total_ms as nat),
{
    let mins = total_ms / 60000;
    let secs = (total_ms % 60000) / 1000;
    let ms = total_ms % 1000;
    let mut s = String::new();
    s.append("加载时间：");
    if mins > 0 {
        append_decimal(&mut s, mins);
        s.append("分");
        append_decimal(&mut s, secs);
        s.append("秒");
    } else if secs > 0 {
        append_decimal(&mut s, secs);
        s.append("秒");
    }
    append_decimal(&mut s, ms);
    s.append("毫秒");
    proof {
        let t = total_ms as nat;
        if mins > 0 {
            assert(s@ =~= "加载时间："@ + decimal_text(t / 60000) + "分"@ + decimal_text((t % 60000) / 1000)
                + "秒"@ + decimal_text(t % 1000) + "毫秒"@);
        } else if secs > 0 {
            assert(s@ =~= "加载时间："@ + decimal_text((t % 60000) / 1000) + "秒"@ + decimal_text(t % 1000)
                + "毫秒"@);
        } else {
            assert(s@ =~= "加载时间："@ + decimal_text(t % 1000) + "毫秒"@);
        }
    }
    s
}

/// The characters after the last `/` of `p` (all of `p` when it has none).
pub open spec fn last_segment(p: Seq<char>) -> Seq<char>
    decreases p.len(),
{
    if p.len() == 0 || p.last() == '/' {
        Seq::empty()
    } else {
        last_segment(p.drop_last()).push(p.last())
    }
}

/// A path whose file name every platform reads the same way: no `\\`, no
/// `:`, not starting with `//` (so no drive, share or verbatim prefix, and `/`
/// is its only separator).
pub open spec fn plain_path(p: Seq<char>) -> bool {
    &&& !p.contains('\\')
    &&& !p.contains(':')
    &&& !(p.len() >= 2 && p[0] == '/' && p[1] == '/')
}

/// A segment that is a file name: not empty, not `.` or `..`.
pub open spec fn plain_segment(s: Seq<char>) -> bool {
    &&& s.len() > 0
    &&& s != seq!['.']
    &&& s != seq!['.', '.']
}

/// The last component of a path, if it has one.
///
/// Trusted: `Path::file_name` returns the final component of the path (none
/// when the path ends in `..`, or is empty or a root). For a plain path (see
/// `plain_path`) ending in a plain segment, the components are the
/// `/`-separated pieces on every platform, so the result is that segment. For
/// other paths (with a drive, share or verbatim prefix, a trailing `/`, or a
/// final `.` or `..`) the contract states nothing of the result, which
/// depends on the platform's path rules.
#[verifier::external_body]
fn path_file_name(path: &str) -> (r: Option<String>)
    ensures
        r is None ==> !(plain_path(path@) && plain_segment(last_segment(path@))),
        r matches Some(n) ==> (plain_path(path@) && plain_segment(last_segment(path@)) ==> n@ == last_segment(
            path@,
        )),
{
    std::path::Path::new(path).file_name().and_then(|n| n.to_str()).map(|n| n.to_string())
}

/// A file name of the form `yinhe-detached-….yin`: a project that was dragged
/// out into a new window.
pub open spec fn is_detached_file_name(name: Seq<char>) -> bool {
    "yinhe-detached-"@.is_prefix_of(name) && ".yin"@.is_suffix_of(name)
}

/// Whether a file name names a detached temporary project.
pub fn detached_file_name(name: &str) -> (r: bool)
    ensures
        r == is_detached_file_name(name@),
{
    let cs = chars_of(name);
    let prefix = chars_of("yinhe-detached-");
    let suffix = chars_of(".yin");
    starts_with_chars(&cs, &prefix) && ends_with_chars(&cs, &suffix)
}

/// Whether the path's file name is that of a detached temporary project
/// (such files are not added to the recent-files list).
pub fn is_detached_temp_path(path: &str) -> (r: bool)
    ensures
        plain_path(path@) && plain_segment(last_segment(path@)) ==> r == is_detached_file_name(
            last_segment(path@),
        ),
{
    match path_file_name(path) {
        Some(n) => detached_file_name(n.as_str()),
        None => false,
    }
}

} // verus!
