//! The date and time from which a published price list applies.
use crate::text::{
    decimal, join, law_join_grows, law_numeral_round_trip, law_words_between_blanks,
    law_words_of_joined_words, lemma_decimal_digits, lemma_words_are_words, parse_u32,
    push_decimal, same_text, split_words, u32_of, unbroken, views, words,
};
use vstd::prelude::*;

verus! {

/// The Thai name of a month, by its English name.
pub open spec fn thai_month(english: Seq<char>) -> Option<Seq<char>> {
    if english == "January"@ {
        Some("มกราคม"@)
    } else if english == "February"@ {
        Some("กุมภาพันธ์"@)
    } else if english == "March"@ {
        Some("มีนาคม"@)
    } else if english == "April"@ {
        Some("เมษายน"@)
    } else if english == "May"@ {
        Some("พฤษภาคม"@)
    } else if english == "June"@ {
        Some("มิถุนายน"@)
    } else if english == "July"@ {
        Some("กรกฎาคม"@)
    } else if english == "August"@ {
        Some("สิงหาคม"@)
    } else if english == "September"@ {
        Some("กันยายน"@)
    } else if english == "October"@ {
        Some("ตุลาคม"@)
    } else if english == "November"@ {
        Some("พฤศจิกายน"@)
    } else if english == "December"@ {
        Some("ธันวาคม"@)
    } else {
        None
    }
}

/// Day, month and year as the notification shows them.
pub open spec fn date_text(day: u32, month: Seq<char>, year: u32) -> Seq<char> {
    decimal(day as nat) + seq![' '] + month + seq![' '] + decimal(year as nat)
}

/// Date and time of a remark whose fourth to sixth words are a day, an English month and a year,
/// and whose eighth is a time; two empty texts for any other remark. A remark has nine words or
/// more.
pub open spec fn effective_datetime(remark: Seq<char>) -> (Seq<char>, Seq<char>) {
    let w = words(remark);
    if w.len() < 9 {
        (Seq::empty(), Seq::empty())
    } else {
        match (u32_of(w[3]), thai_month(w[4]), u32_of(w[5])) {
            (Some(day), Some(month), Some(year)) => (date_text(day, month, year), w[7]),
            _ => (Seq::empty(), Seq::empty()),
        }
    }
}

/// Finds the Thai name of the month that `english` names.
fn month_name(english: &str) -> (r: Option<&'static str>)
    ensures
        match r {
            Some(name) => thai_month(english@) == Some(name@),
            None => thai_month(english@) is None,
        },
{
    if same_text(english, "January") {
        Some("มกราคม")
    } else if same_text(english, "February") {
        Some("กุมภาพันธ์")
    } else if same_text(english, "March") {
        Some("มีนาคม")
    } else if same_text(english, "April") {
        Some("เมษายน")
    } else if same_text(english, "May") {
        Some("พฤษภาคม")
    } else if same_text(english, "June") {
        Some("มิถุนายน")
    } else if same_text(english, "July") {
        Some("กรกฎาคม")
    } else if same_text(english, "August") {
        Some("สิงหาคม")
    } else if same_text(english, "September") {
        Some("กันยายน")
    } else if same_text(english, "October") {
        Some("ตุลาคม")
    } else if same_text(english, "November") {
        Some("พฤศจิกายน")
    } else if same_text(english, "December") {
        Some("ธันวาคม")
    } else {
        None
    }
}

/// Reads the effective date and time out of a remark such as
/// `Are effective on 19 June 2026 from 05:00 AM`: here `("19 มิถุนายน 2026", "05:00")`.
///
/// Any other shape gives two empty strings, so that a caller can leave the date out.
pub fn parse_effective_datetime(remark: &str) -> (r: (String, String))
    ensures
        (r.0@, r.1@) == effective_datetime(remark@),
        words(remark@).len() < 9 ==> r.0@.len() == 0,
        r.0@.len() == 0 <==> r.1@.len() == 0,
        r.1@.len() > 0 ==> r.1@ == words(remark@)[7],
{
    proof {
        law_date_and_time_come_together(remark@);
    }
    let parts: Vec<&str> = split_words(remark);
    assert(views(parts@).len() == parts@.len());
    if parts.len() < 9 {
        return (String::new(), String::new());
    }
    assert(forall|i: int| 0 <= i < parts@.len() ==> parts@[i]@ == #[trigger] words(remark@)[i]);
    match (parse_u32(parts[3]), month_name(parts[4]), parse_u32(parts[5])) {
        (Some(day), Some(month), Some(year)) => {
            proof {
                reveal_strlit(" ");
                assert(" "@ =~= seq![' ']);
            }
            let mut date: String = String::new();
            push_decimal(&mut date, day as u64);
            date.append(" ");
            date.append(month);
            date.append(" ");
            push_decimal(&mut date, year as u64);
            assert(date@ =~= date_text(day, month@, year));
            (date, parts[7].to_owned())
        },
        _ => (String::new(), String::new()),
    }
}

/// The remark that announces prices from the given day and time.
pub open spec fn remark(day: u32, month: Seq<char>, year: u32, time: Seq<char>) -> Seq<char> {
    join(
        seq![
            "Are"@,
            "effective"@,
            "on"@,
            decimal(day as nat),
            month,
            decimal(year as nat),
            "from"@,
            time,
            "AM"@,
        ],
        seq![' '],
    )
}

/// Whatever day, month, year and time a remark announces, they are read back from it.
pub proof fn law_remark_round_trip(day: u32, month: Seq<char>, year: u32, time: Seq<char>)
    requires
        thai_month(month) is Some,
        time.len() > 0,
        unbroken(time),
    ensures
        effective_datetime(remark(day, month, year, time)) == (
            date_text(day, thai_month(month)->0, year),
            time,
        ),
{
    reveal_strlit("Are");
    reveal_strlit("effective");
    reveal_strlit("on");
    reveal_strlit("from");
    reveal_strlit("AM");
    lemma_month_is_word(month);
    lemma_decimal_digits(day as nat);
    lemma_decimal_digits(year as nat);
    law_numeral_round_trip(day);
    law_numeral_round_trip(year);
    law_words_of_joined_words(
        seq![
            "Are"@,
            "effective"@,
            "on"@,
            decimal(day as nat),
            month,
            decimal(year as nat),
            "from"@,
            time,
            "AM"@,
        ],
    );
}

proof fn lemma_month_is_word(english: Seq<char>)
    requires
        thai_month(english) is Some,
    ensures
        english.len() > 0,
        unbroken(english),
{
    reveal_strlit("January");
    reveal_strlit("February");
    reveal_strlit("March");
    reveal_strlit("April");
    reveal_strlit("May");
    reveal_strlit("June");
    reveal_strlit("July");
    reveal_strlit("August");
    reveal_strlit("September");
    reveal_strlit("October");
    reveal_strlit("November");
    reveal_strlit("December");
}

/// The date is empty exactly where the time is: a remark is understood whole or not at all.
pub proof fn law_date_and_time_come_together(remark: Seq<char>)
    ensures
        effective_datetime(remark).0.len() == 0 <==> effective_datetime(remark).1.len() == 0,
{
    lemma_words_are_words(remark);
}

/// The months are these twelve words and no others, each with this Thai name.
pub proof fn law_months(english: Seq<char>)
    ensures
        thai_month(english) is Some <==> {
            ||| english == "January"@
            ||| english == "February"@
            ||| english == "March"@
            ||| english == "April"@
            ||| english == "May"@
            ||| english == "June"@
            ||| english == "July"@
            ||| english == "August"@
            ||| english == "September"@
            ||| english == "October"@
            ||| english == "November"@
            ||| english == "December"@
        },
        thai_month("January"@) == Some("มกราคม"@),
        thai_month("February"@) == Some("กุมภาพันธ์"@),
        thai_month("March"@) == Some("มีนาคม"@),
        thai_month("April"@) == Some("เมษายน"@),
        thai_month("May"@) == Some("พฤษภาคม"@),
        thai_month("June"@) == Some("มิถุนายน"@),
        thai_month("July"@) == Some("กรกฎาคม"@),
        thai_month("August"@) == Some("สิงหาคม"@),
        thai_month("September"@) == Some("กันยายน"@),
        thai_month("October"@) == Some("ตุลาคม"@),
        thai_month("November"@) == Some("พฤศจิกายน"@),
        thai_month("December"@) == Some("ธันวาคม"@),
{
    lemma_reveal_english_months();
    assert("January"@[1] == 'a' && "June"@[1] == 'u' && "July"@[2] == 'l' && "June"@[2] == 'n');
    assert("March"@[2] == 'r' && "May"@[2] == 'y' && "April"@[1] == 'p' && "August"@[1] == 'u');
}

proof fn lemma_reveal_english_months()
    ensures
        "January"@.len() == 7 && "January"@[0] == 'J' && "January"@[1] == 'a',
        "February"@.len() == 8 && "February"@[0] == 'F',
        "March"@.len() == 5 && "March"@[0] == 'M' && "March"@[2] == 'r',
        "April"@.len() == 5 && "April"@[0] == 'A' && "April"@[1] == 'p',
        "May"@.len() == 3 && "May"@[0] == 'M' && "May"@[2] == 'y',
        "June"@.len() == 4 && "June"@[0] == 'J' && "June"@[1] == 'u' && "June"@[2] == 'n',
        "July"@.len() == 4 && "July"@[0] == 'J' && "July"@[2] == 'l',
        "August"@.len() == 6 && "August"@[0] == 'A' && "August"@[1] == 'u',
        "September"@.len() == 9 && "September"@[0] == 'S',
        "October"@.len() == 7 && "October"@[0] == 'O',
        "November"@.len() == 8 && "November"@[0] == 'N',
        "December"@.len() == 8 && "December"@[0] == 'D',
{
    reveal_strlit("January");
    reveal_strlit("February");
    reveal_strlit("March");
    reveal_strlit("April");
    reveal_strlit("May");
    reveal_strlit("June");
    reveal_strlit("July");
    reveal_strlit("August");
    reveal_strlit("September");
    reveal_strlit("October");
    reveal_strlit("November");
    reveal_strlit("December");
}

/// A Thai month is one word.
proof fn lemma_thai_month_is_word(english: Seq<char>)
    requires
        thai_month(english) is Some,
    ensures
        (thai_month(english)->0).len() > 0,
        unbroken(thai_month(english)->0),
{
    reveal_strlit("มกราคม");
    reveal_strlit("กุมภาพันธ์");
    reveal_strlit("มีนาคม");
    reveal_strlit("เมษายน");
    reveal_strlit("พฤษภาคม");
    reveal_strlit("มิถุนายน");
    reveal_strlit("กรกฎาคม");
    reveal_strlit("สิงหาคม");
    reveal_strlit("กันยายน");
    reveal_strlit("ตุลาคม");
    reveal_strlit("พฤศจิกายน");
    reveal_strlit("ธันวาคม");
}

/// A remark is understood exactly where it has nine words or more, the fourth and sixth are
/// numbers and the fifth is a month. The date then has three words, single spaces between them:
/// the numeral of the day, the Thai month and the numeral of the year. The time is the eighth
/// word as it stands. No other remark gives a date or a time.
pub proof fn law_date_tells_day_month_and_year(remark: Seq<char>)
    ensures
        ({
            let w = words(remark);
            let (date, time) = effective_datetime(remark);
            let understood = w.len() >= 9 && u32_of(w[3]) is Some && thai_month(w[4]) is Some
                && u32_of(w[5]) is Some;
            &&& understood ==> {
                let day = decimal(u32_of(w[3])->0 as nat);
                let month = thai_month(w[4])->0;
                let year = decimal(u32_of(w[5])->0 as nat);
                &&& words(date) == seq![day, month, year]
                &&& date == day + " "@ + month + " "@ + year
                &&& time == w[7]
            }
            &&& !understood ==> date.len() == 0 && time.len() == 0
        }),
{
    let w = words(remark);
    if w.len() >= 9 && u32_of(w[3]) is Some && thai_month(w[4]) is Some && u32_of(w[5]) is Some {
        lemma_date_words(u32_of(w[3])->0, w[4], u32_of(w[5])->0);
        reveal_strlit(" ");
        assert(" "@ =~= seq![' ']);
    }
}

proof fn lemma_date_words(day: u32, month: Seq<char>, year: u32)
    requires
        thai_month(month) is Some,
    ensures
        words(date_text(day, thai_month(month)->0, year)) == seq![
            decimal(day as nat),
            thai_month(month)->0,
            decimal(year as nat),
        ],
{
    let thai = thai_month(month)->0;
    let (d, y) = (decimal(day as nat), decimal(year as nat));
    lemma_thai_month_is_word(month);
    lemma_decimal_digits(day as nat);
    lemma_decimal_digits(year as nat);
    law_words_between_blanks(d, ' ', thai + seq![' '] + y);
    law_words_between_blanks(thai, ' ', y);
    law_words_between_blanks(y, ' ', y);
    assert(d + seq![' '] + (thai + seq![' '] + y) =~= date_text(day, thai, year));
    assert(seq![d] + (seq![thai] + seq![y]) =~= seq![d, thai, y]);
}

/// The day, the month and the year of a remark are read back from the date that it gives.
pub proof fn law_date_of_a_remark_reads_back(
    day: u32,
    month: Seq<char>,
    year: u32,
    time: Seq<char>,
)
    requires
        thai_month(month) is Some,
        time.len() > 0,
        unbroken(time),
    ensures
        words(effective_datetime(remark(day, month, year, time)).0) == seq![
            decimal(day as nat),
            thai_month(month)->0,
            decimal(year as nat),
        ],
        u32_of(words(effective_datetime(remark(day, month, year, time)).0)[0]) == Some(day),
        u32_of(words(effective_datetime(remark(day, month, year, time)).0)[2]) == Some(year),
        effective_datetime(remark(day, month, year, time)).1 == time,
{
    law_remark_round_trip(day, month, year, time);
    lemma_date_words(day, month, year);
    law_numeral_round_trip(day);
    law_numeral_round_trip(year);
}

/// Remarks of different days, or of different years, give different dates.
pub proof fn law_different_days_give_different_dates(
    day: u32,
    other_day: u32,
    month: Seq<char>,
    year: u32,
    other_year: u32,
    time: Seq<char>,
)
    requires
        thai_month(month) is Some,
        time.len() > 0,
        unbroken(time),
        day != other_day || year != other_year,
    ensures
        effective_datetime(remark(day, month, year, time)).0 != effective_datetime(
            remark(other_day, month, other_year, time),
        ).0,
{
    law_date_of_a_remark_reads_back(day, month, year, time);
    law_date_of_a_remark_reads_back(other_day, month, other_year, time);
}

/// The remark starts with three fixed words and has `from` and `AM` around the time.
#[verifier::rlimit(40)]
pub proof fn law_remark_in_full(day: u32, month: Seq<char>, year: u32, time: Seq<char>)
    ensures
        remark(day, month, year, time) == "Are effective on "@ + decimal(day as nat) + " "@ + month
            + " "@ + decimal(year as nat) + " from "@ + time + " AM"@,
{
    reveal_with_fuel(join, 10);
    reveal_strlit("Are");
    reveal_strlit("effective");
    reveal_strlit("on");
    reveal_strlit("from");
    reveal_strlit("AM");
    reveal_strlit("Are effective on ");
    reveal_strlit(" ");
    reveal_strlit(" from ");
    reveal_strlit(" AM");
    let parts = seq![
        "Are"@,
        "effective"@,
        "on"@,
        decimal(day as nat),
        month,
        decimal(year as nat),
        "from"@,
        time,
        "AM"@,
    ];
    let one = seq![' '];
    let p3 = seq![parts[0], parts[1], parts[2]];
    let p4 = p3.push(parts[3]);
    let p5 = p4.push(parts[4]);
    let p6 = p5.push(parts[5]);
    let p7 = p6.push(parts[6]);
    let p8 = p7.push(parts[7]);
    law_join_grows(seq![parts[0]], parts[1], one);
    law_join_grows(seq![parts[0]], parts[0], one);
    law_join_grows(seq![parts[0], parts[1]], parts[2], one);
    law_join_grows(p3, parts[3], one);
    law_join_grows(p4, parts[4], one);
    law_join_grows(p5, parts[5], one);
    law_join_grows(p6, parts[6], one);
    law_join_grows(p7, parts[7], one);
    law_join_grows(p8, parts[8], one);
    assert(seq![parts[0]].push(parts[1]) =~= seq![parts[0], parts[1]]);
    assert(seq![parts[0], parts[1]].push(parts[2]) =~= p3);
    assert(p8.push(parts[8]) =~= parts);
    assert(" "@ =~= one);
    assert(join(p3, one) =~= "Are effective on"@) by {
        reveal_strlit("Are effective on");
    }
    assert("Are effective on "@ =~= join(p3, one) + one);
    assert(one + parts[6] + one =~= " from "@);
    assert(one + parts[8] =~= " AM"@);
    let start = "Are effective on "@ + parts[3] + " "@ + month + " "@ + parts[5];
    assert(join(p6, one) =~= start);
    assert(join(p8, one) =~= start + " from "@ + time);
    assert(join(parts, one) =~= start + " from "@ + time + " AM"@);
}

} // verus!
