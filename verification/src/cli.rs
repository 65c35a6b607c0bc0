//! What the command line means: where credentials come from, and which days are
//! asked for.

use crate::pager;
use crate::text;
use crate::text::{copy_opt, trim};
use vstd::prelude::*;

verus! {

/// The first of the two that is given and not empty.
pub open spec fn first_given(flag: Option<Seq<char>>, variable: Option<Seq<char>>) -> Option<
    Seq<char>,
> {
    match flag {
        Some(f) if f.len() > 0 => Some(f),
        _ => match variable {
            Some(v) if v.len() > 0 => Some(v),
            _ => None,
        },
    }
}

fn nonempty(value: Option<&str>) -> (r: Option<String>)
    ensures
        text::opt_view(r) == first_given(text::opt_str_view(value), None),
{
    match value {
        Some(v) => if v.is_empty() {
            None
        } else {
            Some(v.to_owned())
        },
        None => None,
    }
}

/// A credential that needs no prompt: the flag's value, else the environment
/// variable's. An empty value counts as none.
pub fn given_credential(flag: Option<&str>, variable: Option<&str>) -> (r: Option<String>)
    ensures
        text::opt_view(r) == first_given(text::opt_str_view(flag), text::opt_str_view(variable)),
{
    match nonempty(flag) {
        Some(f) => Some(f),
        None => nonempty(variable),
    }
}

/// The username in the line that was typed at the prompt: trimmed, and none where
/// nothing is left.
pub fn username_from_line(line: &str) -> (r: Option<String>)
    ensures
        text::opt_view(r) == first_given(Some(text::trimmed(line@)), None),
{
    let t: String = trim(line);
    if t.as_str().is_empty() {
        None
    } else {
        Some(t)
    }
}

/// The password that was typed at the prompt, as it is: none where it is empty.
pub fn password_from_line(line: &str) -> (r: Option<String>)
    ensures
        text::opt_view(r) == first_given(Some(line@), None),
{
    nonempty(Some(line))
}

/// Text of white space alone, as an empty notice file holds it.
pub fn is_blank(raw: &str) -> (r: bool)
    ensures
        r == (text::trimmed(raw@).len() == 0),
{
    trim(raw).as_str().is_empty()
}

/// The first and the last day that are asked for. `--all` asks for no range;
/// `--today`, or neither bound, asks for today alone; else the bounds count as
/// they are given.
pub open spec fn date_range_of(
    all: bool,
    today: bool,
    from: Option<Seq<char>>,
    to: Option<Seq<char>>,
    today_date: Seq<char>,
) -> (Option<Seq<char>>, Option<Seq<char>>) {
    if all {
        (None, None)
    } else if today || (from is None && to is None) {
        (Some(today_date), Some(today_date))
    } else {
        (from, to)
    }
}

/// The first and the last day that are asked for.
pub fn resolve_date_range(
    all: bool,
    today: bool,
    from: &Option<String>,
    to: &Option<String>,
    today_date: &str,
) -> (r: (Option<String>, Option<String>))
    ensures
        (text::opt_view(r.0), text::opt_view(r.1)) == date_range_of(
            all,
            today,
            text::opt_view(*from),
            text::opt_view(*to),
            today_date@,
        ),
{
    if all {
        return (None, None);
    }
    if today || (from.is_none() && to.is_none()) {
        return (Some(today_date.to_owned()), Some(today_date.to_owned()));
    }
    (copy_opt(from), copy_opt(to))
}

// ── laws ────────────────────────────────────────────────────────────────────
/// A flag that is not empty overrides the environment variable.
pub proof fn law_flag_overrides_variable(flag: Seq<char>, variable: Option<Seq<char>>)
    requires
        flag.len() > 0,
    ensures
        first_given(Some(flag), variable) == Some(flag),
{
}

/// A credential that is found is never empty, and it is one of the two given.
pub proof fn law_credential_is_given(flag: Option<Seq<char>>, variable: Option<Seq<char>>)
    ensures
        first_given(flag, variable) matches Some(c) ==> c.len() > 0 && (flag == Some(c) || variable
            == Some(c)),
{
}

/// `--today` asks for what no option at all asks for, whatever bounds are given
/// with it.
pub proof fn law_today_is_the_default(
    from: Option<Seq<char>>,
    to: Option<Seq<char>>,
    today_date: Seq<char>,
)
    ensures
        date_range_of(false, true, from, to, today_date) == date_range_of(
            false,
            false,
            None,
            None,
            today_date,
        ),
{
}

/// Notices are collected by date in every case but that of `--all`.
pub proof fn law_only_all_goes_without_notices(
    all: bool,
    today: bool,
    from: Option<Seq<char>>,
    to: Option<Seq<char>>,
    today_date: Seq<char>,
)
    ensures
        ({
            let (first, last) = date_range_of(all, today, from, to, today_date);
            pager::window_of(first, last) is None <==> all
        }),
{
}

/// A variable counts where the flag is not given or empty, and nothing is found only
/// where neither holds anything.
pub proof fn law_variable_stands_in(flag: Option<Seq<char>>, variable: Option<Seq<char>>)
    ensures
        first_given(flag, variable) is None <==> (flag is None || flag->0.len() == 0) && (variable
            is None || variable->0.len() == 0),
        (flag is None || flag->0.len() == 0) && variable is Some && variable->0.len() > 0
            ==> first_given(flag, variable) == variable,
{
}

/// The days that each combination of options asks for.
pub proof fn law_options_ask_for_days(
    all: bool,
    today: bool,
    from: Option<Seq<char>>,
    to: Option<Seq<char>>,
    today_date: Seq<char>,
)
    ensures
        all ==> date_range_of(all, today, from, to, today_date) == (
            None::<Seq<char>>,
            None::<Seq<char>>,
        ),
        !all && today ==> date_range_of(all, today, from, to, today_date) == (
            Some(today_date),
            Some(today_date),
        ),
        !all && !today && (from is Some || to is Some) ==> date_range_of(
            all,
            today,
            from,
            to,
            today_date,
        ) == (from, to),
        !all && from is None && to is None ==> date_range_of(all, today, from, to, today_date) == (
            Some(today_date),
            Some(today_date),
        ),
{
}

} // verus!
