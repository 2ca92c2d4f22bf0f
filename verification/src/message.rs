//! The wording of the notification.
use crate::price::{amount_text, out_of_range, price_text, rounded_gap, value};
use crate::snapshot::{change_views, is_rise, ChangeView, PriceChange};
use crate::text::{join, law_join_grows};
use vstd::arithmetic::power2::pow2;
use vstd::prelude::*;

verus! {

/// The first line.
pub const MESSAGE_HEADER: &'static str = "📰 แจ้งข่าวราคาน้ำมัน!!";

/// What the date line starts with.
pub const DATE_LABEL: &'static str = "📅 ราคาปรับขึ้น-ลง วันที่";

/// The bullet of a fuel type.
pub const OIL_TYPE_BULLET: &'static str = "⛽";

/// The arrow between the bullet and the name.
pub const OIL_TYPE_ARROW: &'static str = "▶";

/// The word for a fall.
pub const DIRECTION_DECREASE: &'static str = "ลด";

/// The word for a rise.
pub const DIRECTION_INCREASE: &'static str = "เพิ่ม";

/// The header, with a date line below it where there is a date.
pub open spec fn header_text(date: Seq<char>, time: Seq<char>) -> Seq<char> {
    if date.len() == 0 {
        MESSAGE_HEADER@
    } else if time.len() == 0 {
        MESSAGE_HEADER@ + "\n"@ + DATE_LABEL@ + " "@ + date
    } else {
        MESSAGE_HEADER@ + "\n"@ + DATE_LABEL@ + " "@ + date + " เวลา "@ + time + " น."@
    }
}

/// By how much a price moved, in baht; `inf` beyond the range of binary64.
pub open spec fn difference_text(c: ChangeView) -> Seq<char> {
    let gap = rounded_gap(c.new, c.old);
    if gap < out_of_range() {
        amount_text(gap)
    } else {
        "inf"@
    }
}

pub open spec fn direction(c: ChangeView) -> Seq<char> {
    if is_rise(c) {
        DIRECTION_INCREASE@
    } else {
        DIRECTION_DECREASE@
    }
}

/// The line that names the fuel.
pub open spec fn name_line(c: ChangeView) -> Seq<char> {
    OIL_TYPE_BULLET@ + " "@ + OIL_TYPE_ARROW@ + " "@ + c.name
}

/// The line that tells the move.
pub open spec fn move_line(c: ChangeView) -> Seq<char> {
    "ปรับ"@ + direction(c) + " "@ + difference_text(c) + " บาท"@
}

/// The line that tells both prices.
pub open spec fn price_line(c: ChangeView) -> Seq<char> {
    "จากราคา "@ + price_text(c.old) + " บาท เป็น "@ + price_text(c.new) + " บาท"@
}

/// The three lines about one change.
pub open spec fn change_text(c: ChangeView) -> Seq<char> {
    name_line(c) + "\n"@ + move_line(c) + "\n"@ + price_line(c)
}

/// The header and the changes, with a blank line before each change.
pub open spec fn message_text(
    date: Seq<char>,
    time: Seq<char>,
    changes: Seq<ChangeView>,
) -> Seq<char> {
    header_text(date, time) + "\n\n"@ + join(
        changes.map_values(|c: ChangeView| change_text(c)),
        "\n\n"@,
    )
}

fn push_name_line(out: &mut String, change: &PriceChange)
    ensures
        final(out)@ == old(out)@ + name_line(change@),
{
    out.append(OIL_TYPE_BULLET);
    out.append(" ");
    out.append(OIL_TYPE_ARROW);
    out.append(" ");
    out.append(change.name.as_str());
    assert(out@ =~= old(out)@ + name_line(change@));
}

fn push_move_line(out: &mut String, change: &PriceChange)
    ensures
        final(out)@ == old(out)@ + move_line(change@),
{
    out.append("ปรับ");
    if change.is_increase() {
        out.append(DIRECTION_INCREASE);
    } else {
        out.append(DIRECTION_DECREASE);
    }
    assert(out@ =~= old(out)@ + "ปรับ"@ + direction(change@));
    out.append(" ");
    match change.difference() {
        Some(gap) => gap.push_text(out),
        None => out.append("inf"),
    }
    assert(out@ =~= old(out)@ + "ปรับ"@ + direction(change@) + " "@ + difference_text(change@));
    out.append(" บาท");
    assert(out@ =~= old(out)@ + move_line(change@));
}

fn push_price_line(out: &mut String, change: &PriceChange)
    ensures
        final(out)@ == old(out)@ + price_line(change@),
{
    out.append("จากราคา ");
    change.old_price.push_text(out);
    out.append(" บาท เป็น ");
    change.new_price.push_text(out);
    out.append(" บาท");
    assert(out@ =~= old(out)@ + price_line(change@));
}

/// Appends the lines about one change.
fn push_change(out: &mut String, change: &PriceChange)
    ensures
        final(out)@ == old(out)@ + change_text(change@),
{
    push_name_line(out, change);
    out.append("\n");
    push_move_line(out, change);
    out.append("\n");
    push_price_line(out, change);
    assert(out@ =~= old(out)@ + change_text(change@));
}

/// Builds the notification:
///
/// ```text
/// 📰 แจ้งข่าวราคาน้ำมัน!!
/// 📅 ราคาปรับขึ้น-ลง วันที่ <date> เวลา <time> น.
///
/// ⛽ ▶ <name>
/// ปรับลด/เพิ่ม <difference> บาท
/// จากราคา <old> บาท เป็น <new> บาท
/// ```
///
/// with the last three lines once for each change. An empty date leaves out the date line.
pub fn format_message(
    effective_date: &str,
    effective_time: &str,
    changes: &[PriceChange],
) -> (message: String)
    ensures
        message@ == message_text(effective_date@, effective_time@, change_views(changes@)),
{
    let mut out: String = MESSAGE_HEADER.to_owned();
    if !effective_date.is_empty() {
        out.append("\n");
        out.append(DATE_LABEL);
        out.append(" ");
        out.append(effective_date);
        if !effective_time.is_empty() {
            out.append(" เวลา ");
            out.append(effective_time);
            out.append(" น.");
        }
    }
    assert(out@ =~= header_text(effective_date@, effective_time@));
    out.append("\n\n");
    let ghost prefix = out@;
    let ghost parts = change_views(changes@).map_values(|c: ChangeView| change_text(c));
    let mut i: usize = 0;
    assert(out@ =~= prefix + join(parts.take(0), "\n\n"@));
    while i < changes.len()
        invariant
            i <= changes@.len(),
            parts == change_views(changes@).map_values(|c: ChangeView| change_text(c)),
            out@ == prefix + join(parts.take(i as int), "\n\n"@),
        decreases changes@.len() - i,
    {
        if i > 0 {
            out.append("\n\n");
        }
        push_change(&mut out, &changes[i]);
        proof {
            assert(parts.take(i + 1).drop_last() =~= parts.take(i as int));
            assert(parts[i as int] == change_text(changes@[i as int]@));
            if i == 0 {
                assert(out@ =~= prefix + parts[0]);
            } else {
                let told = join(parts.take(i as int), "\n\n"@);
                assert(out@ =~= prefix + (told + "\n\n"@ + parts[i as int]));
            }
        }
        i = i + 1;
    }
    assert(parts.take(i as int) =~= parts);
    out
}

/// Every message starts with the header.
pub proof fn law_message_starts_with_header(
    date: Seq<char>,
    time: Seq<char>,
    changes: Seq<ChangeView>,
)
    ensures
        MESSAGE_HEADER@.is_prefix_of(message_text(date, time, changes)),
{
    let h = MESSAGE_HEADER@;
    let header = header_text(date, time);
    assert(header.take(h.len() as int) =~= h);
    assert(message_text(date, time, changes).take(h.len() as int) =~= h);
}

/// Without a date there is no date line, whatever the time: the changes follow the header.
pub proof fn law_no_date_no_date_line(time: Seq<char>, changes: Seq<ChangeView>)
    ensures
        message_text(Seq::empty(), time, changes) == MESSAGE_HEADER@ + "\n\n"@ + join(
            changes.map_values(|c: ChangeView| change_text(c)),
            "\n\n"@,
        ),
{
}

/// Every change is told, with a blank line before it.
pub proof fn law_every_change_is_told(
    date: Seq<char>,
    time: Seq<char>,
    changes: Seq<ChangeView>,
    i: int,
)
    requires
        0 <= i < changes.len(),
    ensures
        exists|before: Seq<char>, after: Seq<char>|
            message_text(date, time, changes) == #[trigger] (before + "\n\n"@ + change_text(
                changes[i],
            ) + after),
{
    let parts = changes.map_values(|c: ChangeView| change_text(c));
    let gap = "\n\n"@;
    let header = header_text(date, time);
    assert(parts[i] == change_text(changes[i]));
    lemma_part_of_join(header, parts, gap, i);
}

/// A part of a join is found behind a separator once the join itself stands behind one.
proof fn lemma_part_of_join(start: Seq<char>, parts: Seq<Seq<char>>, gap: Seq<char>, i: int)
    requires
        0 <= i < parts.len(),
    ensures
        exists|before: Seq<char>, after: Seq<char>|
            start + gap + join(parts, gap) == #[trigger] (before + gap + parts[i] + after),
    decreases parts.len(),
{
    let all = start + gap + join(parts, gap);
    let none = Seq::<char>::empty();
    if parts.len() == 1 {
        assert(all =~= start + gap + parts[i] + none);
    } else if i == parts.len() - 1 {
        let before = start + gap + join(parts.drop_last(), gap);
        assert(all =~= before + gap + parts[i] + none);
    } else {
        let rest = parts.drop_last();
        lemma_part_of_join(start, rest, gap, i);
        let (before, after) = choose|before: Seq<char>, after: Seq<char>|
            start + gap + join(rest, gap) == #[trigger] (before + gap + rest[i] + after);
        assert(all =~= (start + gap + join(rest, gap)) + gap + parts.last());
        assert(all =~= before + gap + parts[i] + (after + gap + parts.last()));
    }
}

/// Without a change the message is the header, the date line where there is a date, and a blank
/// line. The date line tells the date, then the time where there is one.
pub proof fn law_message_without_changes(date: Seq<char>, time: Seq<char>)
    ensures
        date.len() == 0 ==> message_text(date, time, Seq::empty()) == "📰 แจ้งข่าวราคาน้ำมัน!!"@
            + "\n\n"@,
        date.len() > 0 && time.len() == 0 ==> message_text(date, time, Seq::empty())
            == "📰 แจ้งข่าวราคาน้ำมัน!!"@ + "\n"@ + "📅 ราคาปรับขึ้น-ลง วันที่"@ + " "@ + date
            + "\n\n"@,
        date.len() > 0 && time.len() > 0 ==> message_text(date, time, Seq::empty())
            == "📰 แจ้งข่าวราคาน้ำมัน!!"@ + "\n"@ + "📅 ราคาปรับขึ้น-ลง วันที่"@ + " "@ + date
            + " เวลา "@ + time + " น."@ + "\n\n"@,
{
    let gap = "\n\n"@;
    let none = Seq::<ChangeView>::empty().map_values(|c: ChangeView| change_text(c));
    assert(none =~= Seq::<Seq<char>>::empty());
    law_join_grows(none, gap, gap);
    assert(header_text(date, time) + gap + Seq::<char>::empty() =~= header_text(date, time) + gap);
}

/// A change is told in three lines: the bullet, the arrow and the whole name; the word for up or
/// down, by which price is higher, and the difference; and both prices, the old one first.
#[verifier::rlimit(40)]
pub proof fn law_lines_of_a_change(c: ChangeView)
    ensures
        change_text(c) == ("⛽"@ + " "@ + "▶"@ + " "@ + c.name) + "\n"@ + ("ปรับ"@ + (if value(c.new)
            > value(c.old) {
            "เพิ่ม"@
        } else {
            "ลด"@
        }) + " "@ + (if rounded_gap(c.new, c.old) < pow2(2098) {
            amount_text(rounded_gap(c.new, c.old))
        } else {
            "inf"@
        }) + " บาท"@) + "\n"@ + ("จากราคา "@ + price_text(c.old) + " บาท เป็น "@ + price_text(c.new)
            + " บาท"@),
{
}

/// One more change adds its lines to a message, behind a blank line unless they are the first.
#[verifier::rlimit(40)]
pub proof fn law_message_grows_by_a_change(
    date: Seq<char>,
    time: Seq<char>,
    changes: Seq<ChangeView>,
    c: ChangeView,
)
    ensures
        changes.len() == 0 ==> message_text(date, time, changes.push(c)) == message_text(
            date,
            time,
            changes,
        ) + change_text(c),
        changes.len() > 0 ==> message_text(date, time, changes.push(c)) == message_text(
            date,
            time,
            changes,
        ) + "\n\n"@ + change_text(c),
{
    let gap = "\n\n"@;
    let parts = changes.map_values(|c: ChangeView| change_text(c));
    let more = changes.push(c).map_values(|c: ChangeView| change_text(c));
    let start = header_text(date, time) + gap;
    assert(more =~= parts.push(change_text(c)));
    law_join_grows(parts, change_text(c), gap);
    if changes.len() == 0 {
        assert(parts =~= Seq::<Seq<char>>::empty());
        assert(more =~= seq![change_text(c)]);
        assert(start + join(parts, gap) =~= start);
    } else {
        let told = join(parts, gap);
        assert(start + (told + gap + change_text(c)) =~= start + told + gap + change_text(c));
    }
}

/// Every change is told by its whole name: behind a blank line stand the bullet, the arrow and the
/// name, and the line ends with the name.
#[verifier::rlimit(40)]
pub proof fn law_every_name_is_told_in_full(
    date: Seq<char>,
    time: Seq<char>,
    changes: Seq<ChangeView>,
    i: int,
)
    requires
        0 <= i < changes.len(),
    ensures
        exists|before: Seq<char>, after: Seq<char>|
            message_text(date, time, changes) == #[trigger] (before + "\n\n"@ + "⛽ ▶ "@
                + changes[i].name + "\n"@ + after),
{
    let c = changes[i];
    let all = message_text(date, time, changes);
    law_every_change_is_told(date, time, changes, i);
    let (before, after) = choose|before: Seq<char>, after: Seq<char>|
        all == #[trigger] (before + "\n\n"@ + change_text(c) + after);
    reveal_strlit("⛽ ▶ ");
    reveal_strlit("⛽");
    reveal_strlit("▶");
    reveal_strlit(" ");
    assert("⛽"@ + " "@ + "▶"@ + " "@ =~= "⛽ ▶ "@);
    assert(name_line(c) =~= "⛽ ▶ "@ + c.name);
    let rest = move_line(c) + "\n"@ + price_line(c);
    assert(change_text(c) =~= name_line(c) + "\n"@ + rest);
    assert(all =~= before + "\n\n"@ + "⛽ ▶ "@ + c.name + "\n"@ + (rest + after));
}

/// Two messages with the same date and time that differ in the name of a single change differ.
#[verifier::rlimit(40)]
pub proof fn law_names_are_not_confused(
    date: Seq<char>,
    time: Seq<char>,
    a: ChangeView,
    b: ChangeView,
)
    requires
        a.old == b.old,
        a.new == b.new,
        message_text(date, time, seq![a]) == message_text(date, time, seq![b]),
    ensures
        a.name == b.name,
{
    let gap = "\n\n"@;
    let start = header_text(date, time) + gap;
    let (x, y) = (change_text(a), change_text(b));
    let pa = seq![a].map_values(|c: ChangeView| change_text(c));
    let pb = seq![b].map_values(|c: ChangeView| change_text(c));
    assert(pa =~= seq![x]);
    assert(pb =~= seq![y]);
    law_join_grows(pa, x, gap);
    law_join_grows(pb, y, gap);
    assert((start + x).skip(start.len() as int) =~= x);
    assert((start + y).skip(start.len() as int) =~= y);
    assert(move_line(a) == move_line(b) && price_line(a) == price_line(b));
    let head = OIL_TYPE_BULLET@ + " "@ + OIL_TYPE_ARROW@ + " "@;
    let tail = "\n"@ + move_line(a) + "\n"@ + price_line(a);
    assert(x =~= head + a.name + tail);
    assert(y =~= head + b.name + tail);
    let h = head.len() as int;
    assert(a.name.len() == b.name.len());
    assert(x.subrange(h, h + a.name.len()) =~= a.name);
    assert(y.subrange(h, h + b.name.len()) =~= b.name);
}

/// What follows a line break within a text stands behind that line break in a longer text, too.
proof fn lemma_after_a_break(
    before: Seq<char>,
    start: Seq<char>,
    line_break: Seq<char>,
    line: Seq<char>,
    after: Seq<char>,
)
    ensures
        before + (start + line_break + line) + after == (before + start) + line_break + line
            + after,
{
    assert(before + (start + line_break + line) =~= (before + start) + line_break + line);
}

/// Every change is told with both its prices, the old one first, on a line of their own.
#[verifier::rlimit(40)]
pub proof fn law_both_prices_are_told(
    date: Seq<char>,
    time: Seq<char>,
    changes: Seq<ChangeView>,
    i: int,
)
    requires
        0 <= i < changes.len(),
    ensures
        exists|before: Seq<char>, after: Seq<char>|
            message_text(date, time, changes) == #[trigger] (before + "\n"@ + ("จากราคา "@
                + price_text(changes[i].old) + " บาท เป็น "@ + price_text(changes[i].new)
                + " บาท"@) + after),
{
    let c = changes[i];
    let all = message_text(date, time, changes);
    law_every_change_is_told(date, time, changes, i);
    let (before, after) = choose|before: Seq<char>, after: Seq<char>|
        all == #[trigger] (before + "\n\n"@ + change_text(c) + after);
    let start = name_line(c) + "\n"@ + move_line(c);
    let line = "จากราคา "@ + price_text(c.old) + " บาท เป็น "@ + price_text(c.new) + " บาท"@;
    assert(change_text(c) == start + "\n"@ + line);
    lemma_after_a_break(before + "\n\n"@, start, "\n"@, line, after);
    assert(all == (before + "\n\n"@ + start) + "\n"@ + line + after);
}

} // verus!
