//! The birthday calculation itself, and the greeting text built from it.

use vstd::prelude::*;
use crate::date::{
    day_number, days_before_year, is_leap_year, lemma_next_year_gap, ordinal_of, Date, MAX_YEAR,
};
use crate::errors::AppError;
use crate::user::User;

verus! {

/// Day number of the birthday's next occurrence once its day-of-year has
/// already passed: the birthday's month and day in the year after `today`'s,
/// with a February 29 birthday landing on March 1 in a non-leap target year.
pub open spec fn next_birthday_number(today: Date, birthday: Date) -> int {
    let ny = today.spec_year() + 1;
    if birthday.spec_month() == 2 && birthday.spec_day() == 29 && !is_leap_year(ny) {
        days_before_year(ny) + ordinal_of(ny, 3, 1)
    } else {
        days_before_year(ny) + ordinal_of(ny, birthday.spec_month(), birthday.spec_day())
    }
}

/// Days from `today` to the next occurrence of `birthday`'s month and day.
/// Both days are ranked within today's year, so the two ordinals are measured
/// against the same year length: zero when they match, their difference while
/// the birthday is still ahead this year, and the calendar day-count to next
/// year's occurrence otherwise. (Ranking February 29 in a non-leap year makes
/// it coincide with March 1, the first existing day after it.)
pub open spec fn spec_days_until(today: Date, birthday: Date) -> int {
    let t_ord = ordinal_of(today.spec_year(), today.spec_month(), today.spec_day());
    let b_ord = ordinal_of(today.spec_year(), birthday.spec_month(), birthday.spec_day());
    if b_ord == t_ord {
        0
    } else if b_ord > t_ord {
        b_ord - t_ord
    } else {
        next_birthday_number(today, birthday) - day_number(today)
    }
}

/// The calculation is defined unless it would have to step past the last
/// supported year to reach the next occurrence.
pub open spec fn next_birthday_representable(today: Date, birthday: Date) -> bool {
    let t_ord = ordinal_of(today.spec_year(), today.spec_month(), today.spec_day());
    let b_ord = ordinal_of(today.spec_year(), birthday.spec_month(), birthday.spec_day());
    b_ord >= t_ord || today.spec_year() < MAX_YEAR
}

/// How many days remain until the next occurrence of `birthday`'s month and
/// day, counting from `today`; 0 means the birthday is today.
pub fn days_until_next_birthday(today: Date, birthday: &Date) -> (r: Result<u32, AppError>)
    requires
        today.wf(),
        birthday.wf(),
    ensures
        r matches Ok(n) ==> next_birthday_representable(today, *birthday) && n as int
            == spec_days_until(today, *birthday),
        r matches Err(e) ==> !next_birthday_representable(today, *birthday) && (e matches
            AppError::Other(m) && m@ == "Date arithmetic overflow"@),
{
    let today_ordinal = today.ordinal();
    let birthday_ordinal = birthday.ordinal_in(today.year());

    // Birthday is today!
    if today_ordinal == birthday_ordinal {
        return Ok(0);
    }

    // Birthday yet to come this year
    if birthday_ordinal > today_ordinal {
        return Ok(birthday_ordinal - today_ordinal);
    }

    // Birthday already passed this year
    if today.year() >= MAX_YEAR {
        return Err(AppError::Other("Date arithmetic overflow".to_owned()));
    }
    let next_year = today.year() + 1;
    let next_birthday = match birthday.with_year(next_year) {
        Some(d) => d,
        None => {
            // a leap-day birthday lands on the first existing day, March 1;
            // March 1 exists in every supported year, so this never fails
            match Date::from_ymd_opt(next_year, 3, 1) {
                Some(d) => d,
                None => {
                    return Err(AppError::Other("Date arithmetic overflow".to_owned()));
                },
            }
        },
    };
    proof {
        lemma_next_year_gap(
            today.spec_year(),
            today.spec_month(),
            today.spec_day(),
            next_birthday.spec_month(),
            next_birthday.spec_day(),
        );
    }
    let diff = next_birthday.day_number() - today.day_number();
    Ok(diff as u32)
}

/// A birthday on today's own date is due in zero days.
pub proof fn lemma_birthday_today(d: Date)
    ensures
        spec_days_until(d, d) == 0,
{
}

/// While the birthday's day-of-year — ranked in today's year — is still
/// ahead of today's, the wait is exactly the difference of the two ordinals.
pub proof fn lemma_birthday_ahead(today: Date, birthday: Date)
    requires
        ordinal_of(today.spec_year(), birthday.spec_month(), birthday.spec_day()) > ordinal_of(
            today.spec_year(),
            today.spec_month(),
            today.spec_day(),
        ),
    ensures
        spec_days_until(today, birthday) == ordinal_of(
            today.spec_year(),
            birthday.spec_month(),
            birthday.spec_day(),
        ) - ordinal_of(today.spec_year(), today.spec_month(), today.spec_day()),
{
}

/// Once the birthday's day-of-year has passed, the wait is the calendar
/// day-count from `today` to the birthday's occurrence in the following year
/// (landing on March 1 for a leap-day birthday when that year has no
/// February 29), and it is between 1 and 731 days whenever that year is
/// still representable.
pub proof fn lemma_birthday_passed(today: Date, birthday: Date)
    requires
        today.wf(),
        birthday.wf(),
        ordinal_of(today.spec_year(), birthday.spec_month(), birthday.spec_day()) < ordinal_of(
            today.spec_year(),
            today.spec_month(),
            today.spec_day(),
        ),
    ensures
        spec_days_until(today, birthday) == next_birthday_number(today, birthday) - day_number(
            today,
        ),
        today.spec_year() < MAX_YEAR ==> 1 <= spec_days_until(today, birthday) <= 731,
{
    if today.spec_year() < MAX_YEAR {
        let ny = today.spec_year() + 1;
        if birthday.spec_month() == 2 && birthday.spec_day() == 29 && !is_leap_year(ny) {
            lemma_next_year_gap(
                today.spec_year(),
                today.spec_month(),
                today.spec_day(),
                3,
                1,
            );
        } else {
            lemma_next_year_gap(
                today.spec_year(),
                today.spec_month(),
                today.spec_day(),
                birthday.spec_month(),
                birthday.spec_day(),
            );
        }
    }
}

/// Decimal digits of `n`, most significant first, without sign or leading
/// zeros.
pub open spec fn spec_dec(n: nat) -> Seq<char>
    decreases n,
{
    if n < 10 {
        seq![dec_digit(n)]
    } else {
        spec_dec(n / 10) + seq![dec_digit(n % 10)]
    }
}

pub open spec fn dec_digit(n: nat) -> char {
    if n == 0 {
        '0'
    } else if n == 1 {
        '1'
    } else if n == 2 {
        '2'
    } else if n == 3 {
        '3'
    } else if n == 4 {
        '4'
    } else if n == 5 {
        '5'
    } else if n == 6 {
        '6'
    } else if n == 7 {
        '7'
    } else if n == 8 {
        '8'
    } else {
        '9'
    }
}

fn digit_str(d: u32) -> (r: &'static str)
    requires
        d < 10,
    ensures
        r@ == seq![dec_digit(d as nat)],
{
    let s = if d == 0 {
        "0"
    } else if d == 1 {
        "1"
    } else if d == 2 {
        "2"
    } else if d == 3 {
        "3"
    } else if d == 4 {
        "4"
    } else if d == 5 {
        "5"
    } else if d == 6 {
        "6"
    } else if d == 7 {
        "7"
    } else if d == 8 {
        "8"
    } else {
        "9"
    };
    proof {
        reveal_strlit("0");
        reveal_strlit("1");
        reveal_strlit("2");
        reveal_strlit("3");
        reveal_strlit("4");
        reveal_strlit("5");
        reveal_strlit("6");
        reveal_strlit("7");
        reveal_strlit("8");
        reveal_strlit("9");
        assert(s@ =~= seq![dec_digit(d as nat)]);
    }
    s
}

/// Renders `n` in decimal.
fn dec_str(n: u32) -> (r: String)
    ensures
        r@ == spec_dec(n as nat),
    decreases n,
{
    if n < 10 {
        digit_str(n).to_owned()
    } else {
        let mut s = dec_str(n / 10);
        s.append(digit_str(n % 10));
        s
    }
}

/// The greeting shown for `name` when the next birthday is `days` days away.
pub open spec fn spec_birthday_message(name: Seq<char>, days: int) -> Seq<char> {
    if days == 0 {
        "Hello, "@ + name + "! Happy birthday!"@
    } else {
        "Hello, "@ + name + "! Your birthday is in "@ + spec_dec(days as nat) + " day(s)"@
    }
}

/// Formats the greeting for `user`, given the current date.
pub fn get_birthday_message(today: Date, user: &User) -> (r: Result<String, AppError>)
    requires
        today.wf(),
        user.wf(),
    ensures
        r matches Ok(m) ==> next_birthday_representable(today, user.spec_birthday()) && m@
            == spec_birthday_message(
            user.spec_name(),
            spec_days_until(today, user.spec_birthday()),
        ),
        r matches Err(e) ==> !next_birthday_representable(today, user.spec_birthday()) && (e
            matches AppError::Other(m) && m@ == "Date arithmetic overflow"@),
{
    let days = match days_until_next_birthday(today, user.birthday()) {
        Ok(n) => n,
        Err(e) => {
            return Err(e);
        },
    };
    let mut m = "Hello, ".to_owned();
    m.append(user.name());
    if days == 0 {
        m.append("! Happy birthday!");
    } else {
        m.append("! Your birthday is in ");
        let rendered = dec_str(days);
        m.append(rendered.as_str());
        m.append(" day(s)");
    }
    Ok(m)
}

} // verus!
