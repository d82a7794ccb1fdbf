use vstd::prelude::*;

use crate::catalog::Episode;
use crate::season::SeasonNumber;
use crate::text::{decimal_text, push_decimal, push_str, string_of};

verus! {

/// Results shown on one page of search results.
pub const PER_PAGE: usize = 5;

/// How long ago, or how far ahead, a moment `seconds` away is: positive
/// seconds lie in the past.
pub open spec fn duration_text(seconds: int) -> Seq<char> {
    if seconds > 0 {
        if seconds >= 60 {
            if seconds / 60 == 1 {
                "one minute ago"@
            } else {
                decimal_text((seconds / 60) as nat) + " minutes ago"@
            }
        } else {
            "< one minute ago"@
        }
    } else {
        let s = -seconds;
        if s == 0 {
            "right now"@
        } else if s >= 60 {
            if s / 60 == 1 {
                "in one minute"@
            } else {
                "in "@ + decimal_text((s / 60) as nat) + " minutes"@
            }
        } else {
            "< one minute"@
        }
    }
}

/// Describe a span of `seconds` for display: positive seconds lie in the
/// past, negative ones ahead.
pub fn duration_display(seconds: i64) -> (s: String)
    ensures
        s@ == duration_text(seconds as int),
{
    if seconds > 0 {
        let n: u64 = seconds as u64;
        if n >= 60 {
            let m = n / 60;
            if m == 1 {
                string_of("one minute ago")
            } else {
                let mut s = String::new();
                push_decimal(&mut s, m);
                push_str(&mut s, " minutes ago");
                s
            }
        } else {
            string_of("< one minute ago")
        }
    } else {
        let n: u64 = if seconds == i64::MIN {
            9_223_372_036_854_775_808u64
        } else {
            (-seconds) as u64
        };
        if n == 0 {
            string_of("right now")
        } else if n >= 60 {
            let m = n / 60;
            if m == 1 {
                string_of("in one minute")
            } else {
                let mut s = string_of("in ");
                push_decimal(&mut s, m);
                push_str(&mut s, " minutes");
                s
            }
        } else {
            string_of("< one minute")
        }
    }
}

/// The three-letter name of month `m`; any number past eleven is December.
pub open spec fn month_text(m: u32) -> Seq<char> {
    if m == 1 {
        "Jan"@
    } else if m == 2 {
        "Feb"@
    } else if m == 3 {
        "Mar"@
    } else if m == 4 {
        "Apr"@
    } else if m == 5 {
        "May"@
    } else if m == 6 {
        "Jun"@
    } else if m == 7 {
        "Jul"@
    } else if m == 8 {
        "Aug"@
    } else if m == 9 {
        "Sep"@
    } else if m == 10 {
        "Oct"@
    } else if m == 11 {
        "Nov"@
    } else {
        "Dec"@
    }
}

/// The three-letter name of month `m` (January is one); any number past
/// eleven is December.
pub fn format_month(m: u32) -> (s: &'static str)
    ensures
        s@ == month_text(m),
{
    match m {
        1 => "Jan",
        2 => "Feb",
        3 => "Mar",
        4 => "Apr",
        5 => "May",
        6 => "Jun",
        7 => "Jul",
        8 => "Aug",
        9 => "Sep",
        10 => "Oct",
        11 => "Nov",
        _ => "Dec",
    }
}

/// A day of the week.
#[derive(Clone, Copy, PartialEq, Eq, Structural, Debug)]
pub enum Weekday {
    Mon,
    Tue,
    Wed,
    Thu,
    Fri,
    Sat,
    Sun,
}

/// The two-letter name of a day of the week.
pub open spec fn week_text(d: Weekday) -> Seq<char> {
    match d {
        Weekday::Mon => "Mo"@,
        Weekday::Tue => "Tu"@,
        Weekday::Wed => "We"@,
        Weekday::Thu => "Th"@,
        Weekday::Fri => "Fr"@,
        Weekday::Sat => "Sa"@,
        Weekday::Sun => "Su"@,
    }
}

/// The two-letter name of a day of the week.
pub fn format_week(weekday: Weekday) -> (s: &'static str)
    ensures
        s@ == week_text(weekday),
{
    match weekday {
        Weekday::Mon => "Mo",
        Weekday::Tue => "Tu",
        Weekday::Wed => "We",
        Weekday::Thu => "Th",
        Weekday::Fri => "Fr",
        Weekday::Sat => "Sa",
        Weekday::Sun => "Su",
    }
}

/// The days of a week, starting on `start`.
pub open spec fn week_from(start: Weekday) -> Seq<Weekday> {
    let all = seq![Weekday::Mon, Weekday::Tue, Weekday::Wed, Weekday::Thu, Weekday::Fri, Weekday::Sat, Weekday::Sun];
    let k = match start {
        Weekday::Mon => 0int,
        Weekday::Tue => 1,
        Weekday::Wed => 2,
        Weekday::Thu => 3,
        Weekday::Fri => 4,
        Weekday::Sat => 5,
        Weekday::Sun => 6,
    };
    Seq::new(7, |i: int| all[(i + k) % 7])
}

/// The seven days of a week, starting on `start_of_week`.
pub fn week(start_of_week: Weekday) -> (r: Vec<Weekday>)
    ensures
        r@ == week_from(start_of_week),
{
    let all = [Weekday::Mon, Weekday::Tue, Weekday::Wed, Weekday::Thu, Weekday::Fri, Weekday::Sat, Weekday::Sun];
    let k: usize = match start_of_week {
        Weekday::Mon => 0,
        Weekday::Tue => 1,
        Weekday::Wed => 2,
        Weekday::Thu => 3,
        Weekday::Fri => 4,
        Weekday::Sat => 5,
        Weekday::Sun => 6,
    };
    let mut out: Vec<Weekday> = Vec::new();
    let mut i: usize = 0;
    while i < 7
        invariant
            i <= 7,
            k < 7,
            all@ == seq![Weekday::Mon, Weekday::Tue, Weekday::Wed, Weekday::Thu, Weekday::Fri, Weekday::Sat, Weekday::Sun],
            out@.len() == i,
            forall|j: int| 0 <= j < i ==> out@[j] == all@[(j + k) % 7],
        decreases 7 - i,
    {
        out.push(all[(i + k) % 7]);
        i = i + 1;
    }
    assert(out@ =~= week_from(start_of_week));
    out
}

/// The page controls of a result list: the page before, if any, the page
/// after, if any, and the text `FIRST-LAST (LEN)`.
pub struct Pagination {
    pub prev: Option<usize>,
    pub next: Option<usize>,
    pub text: String,
}

/// The page controls for page `page` of `len` results, shown only when the
/// results do not fit on one page.
pub fn paginate(page: usize, len: usize) -> (r: Option<Pagination>)
    requires
        (page + 1) * PER_PAGE <= usize::MAX,
    ensures
        len <= PER_PAGE ==> r is None,
        len > PER_PAGE ==> (r matches Some(p) && {
            &&& p.prev == (if page > 0 {
                Some((page - 1) as usize)
            } else {
                None
            })
            &&& p.next == (if (page + 1) * PER_PAGE < len {
                Some((page + 1) as usize)
            } else {
                None
            })
            &&& p.text@ == decimal_text((page * PER_PAGE) as nat) + "-"@ + decimal_text(
                (if (page + 1) * PER_PAGE < len {
                    (page + 1) * PER_PAGE
                } else {
                    len as int
                }) as nat,
            ) + " ("@ + decimal_text(len as nat) + ")"@
        }),
{
    if len <= PER_PAGE {
        return None;
    }
    let prev = if page > 0 {
        Some(page - 1)
    } else {
        None
    };
    let end = (page + 1) * PER_PAGE;
    let next = if end < len {
        Some(page + 1)
    } else {
        None
    };
    let mut text = String::new();
    push_decimal(&mut text, (page * PER_PAGE) as u64);
    push_str(&mut text, "-");
    push_decimal(&mut text, (if end < len {
        end
    } else {
        len
    }) as u64);
    push_str(&mut text, " (");
    push_decimal(&mut text, len as u64);
    push_str(&mut text, ")");
    Some(Pagination { prev, next, text })
}

/// The title of an episode on the dashboard: `SxN` (or `Special N`), its
/// absolute number in brackets when known, and its name after a colon when
/// known.
pub open spec fn episode_title_text(e: Episode) -> Seq<char> {
    let number = match e.season {
        SeasonNumber::Number(n) => decimal_text(n as nat) + "x"@ + decimal_text(e.number as nat),
        SeasonNumber::Specials => "Special "@ + decimal_text(e.number as nat),
    };
    let number = match e.absolute_number {
        Some(a) => number + " ("@ + decimal_text(a as nat) + ")"@,
        None => number,
    };
    match e.name {
        Some(name) => number + ": "@ + name@,
        None => number,
    }
}

/// The title of an episode on the dashboard.
pub fn episode_title(episode: &Episode) -> (s: String)
    ensures
        s@ == episode_title_text(*episode),
{
    let mut s = String::new();
    match episode.season {
        SeasonNumber::Number(n) => {
            push_decimal(&mut s, n as u64);
            push_str(&mut s, "x");
            push_decimal(&mut s, episode.number as u64);
        },
        SeasonNumber::Specials => {
            push_str(&mut s, "Special ");
            push_decimal(&mut s, episode.number as u64);
        },
    }
    if let Some(a) = episode.absolute_number {
        push_str(&mut s, " (");
        push_decimal(&mut s, a as u64);
        push_str(&mut s, ")");
    }
    if let Some(name) = &episode.name {
        push_str(&mut s, ": ");
        push_str(&mut s, name.as_str());
    }
    s
}

} // verus!
