//! Price lists and the changes they announce.
use crate::price::{
    abs, baht, exponent_field, is_negative, is_quote, lemma_in_range, lemma_magnitude_order,
    magnitude, out_of_range, rounded_gap, scale, significand, value, Price,
};
use crate::rounding::lemma_nearest_exceeds;
use vstd::arithmetic::power2::{lemma2_to64_rest, lemma_pow2_adds, lemma_pow2_pos, pow2};
use vstd::prelude::*;

verus! {

/// The bits of 0.01: a price moves if it moves by more than this many baht. Fuel prices are
/// quoted in satang, hundredths of a baht; less is arithmetical noise.
pub const PRICE_CHANGE_THRESHOLD: u64 = 0x3f84_7ae1_47ae_147b;

/// One fuel type of a price list.
#[derive(Clone, Debug)]
pub struct FuelEntry {
    pub name: String,
    pub price_yesterday: Price,
    pub price_today: Price,
    pub price_tomorrow: Price,
}

/// What a `FuelEntry` says: the name's text and the prices' bits.
pub struct EntryView {
    pub name: Seq<char>,
    pub yesterday: u64,
    pub today: u64,
    pub tomorrow: u64,
}

impl View for FuelEntry {
    type V = EntryView;

    open spec fn view(&self) -> EntryView {
        EntryView {
            name: self.name@,
            yesterday: self.price_yesterday@,
            today: self.price_today@,
            tomorrow: self.price_tomorrow@,
        }
    }
}

/// A price list as it was fetched.
#[derive(Clone, Debug)]
pub struct PriceSnapshot {
    /// When it was fetched, as an RFC 3339 timestamp.
    pub captured_at: String,
    /// The list's own date, by which a new list is told from one already seen.
    pub source_date: String,
    /// The date from which the prices apply; empty if the list does not say.
    pub effective_date: String,
    /// The time from which the prices apply; empty if the list does not say.
    pub effective_time: String,
    pub entries: Vec<FuelEntry>,
}

/// What a `PriceSnapshot` says.
#[verifier::ext_equal]
pub struct SnapshotView {
    pub captured_at: Seq<char>,
    pub source_date: Seq<char>,
    pub effective_date: Seq<char>,
    pub effective_time: Seq<char>,
    pub entries: Seq<EntryView>,
}

/// What each entry says.
pub open spec fn entry_views(entries: Seq<FuelEntry>) -> Seq<EntryView> {
    entries.map_values(|e: FuelEntry| e@)
}

impl View for PriceSnapshot {
    type V = SnapshotView;

    open spec fn view(&self) -> SnapshotView {
        SnapshotView {
            captured_at: self.captured_at@,
            source_date: self.source_date@,
            effective_date: self.effective_date@,
            effective_time: self.effective_time@,
            entries: entry_views(self.entries@),
        }
    }
}

/// A fuel type whose price moved from yesterday to today.
#[derive(Clone, Debug)]
pub struct PriceChange {
    pub name: String,
    pub old_price: Price,
    pub new_price: Price,
}

/// What a `PriceChange` says: the name's text and the prices' bits.
pub struct ChangeView {
    pub name: Seq<char>,
    pub old: u64,
    pub new: u64,
}

impl View for PriceChange {
    type V = ChangeView;

    open spec fn view(&self) -> ChangeView {
        ChangeView { name: self.name@, old: self.old_price@, new: self.new_price@ }
    }
}

/// What each change says.
pub open spec fn change_views(changes: Seq<PriceChange>) -> Seq<ChangeView> {
    changes.map_values(|c: PriceChange| c@)
}

/// The price went up.
pub open spec fn is_rise(c: ChangeView) -> bool {
    value(c.new) > value(c.old)
}

impl PriceChange {
    /// By how much the price moved, up or down; nothing where binary64 cannot hold it.
    pub fn difference(&self) -> (r: Option<Price>)
        ensures
            match r {
                Some(p) => {
                    &&& !is_negative(p@)
                    &&& magnitude(p@) == rounded_gap(self@.new, self@.old)
                    &&& magnitude(p@) < out_of_range()
                },
                None => rounded_gap(self@.new, self@.old) >= out_of_range(),
            },
            r is Some ==> magnitude(r->0@) == rounded_gap(self.new_price@, self.old_price@),
            r is Some <==> rounded_gap(self.new_price@, self.old_price@) < pow2(2098),
    {
        self.new_price.distance(&self.old_price)
    }

    /// Tells whether the price went up.
    pub fn is_increase(&self) -> (r: bool)
        ensures
            r == is_rise(self@),
            r == (value(self.new_price@) > value(self.old_price@)),
    {
        self.new_price.exceeds(&self.old_price)
    }
}

/// Two prices differ by more than the threshold.
pub open spec fn moved(old: u64, new: u64) -> bool {
    rounded_gap(new, old) > magnitude(PRICE_CHANGE_THRESHOLD)
}

/// The change that an entry announces if its price moved.
pub open spec fn change_of(e: EntryView) -> ChangeView {
    ChangeView { name: e.name, old: e.yesterday, new: e.today }
}

/// The changes that a list of entries announces, in the order of the list.
pub open spec fn changes(entries: Seq<EntryView>) -> Seq<ChangeView> {
    entries.filter(|e: EntryView| moved(e.yesterday, e.today)).map_values(
        |e: EntryView| change_of(e),
    )
}

proof fn lemma_threshold_in_range()
    ensures
        magnitude(PRICE_CHANGE_THRESHOLD) < out_of_range(),
{
    assert(exponent_field(PRICE_CHANGE_THRESHOLD) == 1016);
    lemma_in_range(PRICE_CHANGE_THRESHOLD);
}

/// Tells whether a price moved.
fn has_moved(old: &Price, new: &Price) -> (r: bool)
    ensures
        r == moved(old@, new@),
{
    match new.distance(old) {
        Some(gap) => {
            let bits: u64 = gap.to_bits();
            proof {
                lemma_magnitude_order(PRICE_CHANGE_THRESHOLD, bits);
            }
            bits > PRICE_CHANGE_THRESHOLD
        },
        None => {
            proof {
                lemma_threshold_in_range();
            }
            true
        },
    }
}

/// Compares yesterday's price of each entry with today's and returns those that moved.
pub fn compute_changes(snapshot: &PriceSnapshot) -> (r: Vec<PriceChange>)
    ensures
        change_views(r@) == changes(snapshot@.entries),
        r@.len() <= snapshot.entries@.len(),
        forall|k: int|
            0 <= k < r@.len() ==> exists|i: int|
                {
                    &&& 0 <= i < snapshot.entries@.len()
                    &&& (#[trigger] snapshot.entries@[i]).name@ == (#[trigger] r@[k]).name@
                    &&& snapshot.entries@[i].price_yesterday@ == r@[k].old_price@
                    &&& snapshot.entries@[i].price_today@ == r@[k].new_price@
                    &&& moved(r@[k].old_price@, r@[k].new_price@)
                },
{
    let mut r: Vec<PriceChange> = Vec::new();
    let mut i: usize = 0;
    let ghost all = snapshot@.entries;
    proof {
        reveal(Seq::filter);
        assert(all.take(0) =~= Seq::<EntryView>::empty());
        assert(change_views(r@) =~= changes(all.take(0)));
    }
    while i < snapshot.entries.len()
        invariant
            i <= snapshot.entries@.len(),
            all == entry_views(snapshot.entries@),
            change_views(r@) == changes(all.take(i as int)),
        decreases snapshot.entries@.len() - i,
    {
        let entry: &FuelEntry = &snapshot.entries[i];
        proof {
            reveal(Seq::filter);
            assert(all.take(i + 1).drop_last() =~= all.take(i as int));
            assert(all.take(i + 1).last() == entry@);
        }
        if has_moved(&entry.price_yesterday, &entry.price_today) {
            let change: PriceChange = PriceChange {
                name: entry.name.clone(),
                old_price: entry.price_yesterday,
                new_price: entry.price_today,
            };
            let ghost earlier = r@;
            r.push(change);
            assert(change_views(r@) =~= change_views(earlier).push(change@));
        }
        assert(change_views(r@) =~= changes(all.take(i + 1)));
        i = i + 1;
    }
    assert(all.take(i as int) =~= all);
    proof {
        law_changes_are_the_moves(all);
        assert forall|k: int| 0 <= k < r@.len() implies exists|j: int|
            {
                &&& 0 <= j < snapshot.entries@.len()
                &&& (#[trigger] snapshot.entries@[j]).name@ == (#[trigger] r@[k]).name@
                &&& snapshot.entries@[j].price_yesterday@ == r@[k].old_price@
                &&& snapshot.entries@[j].price_today@ == r@[k].new_price@
                &&& moved(r@[k].old_price@, r@[k].new_price@)
            } by {
            assert(change_views(r@)[k] == r@[k]@);
            law_change_tells_yesterday_and_today(all, k);
            let j = choose|j: int|
                {
                    &&& 0 <= j < all.len()
                    &&& (#[trigger] all[j]).name == changes(all)[k].name
                    &&& all[j].yesterday == changes(all)[k].old
                    &&& all[j].today == changes(all)[k].new
                    &&& moved(all[j].yesterday, all[j].today)
                };
            assert(all[j] == snapshot.entries@[j]@);
        }
    }
    r
}

/// The threshold as a significand and a scale.
proof fn lemma_threshold()
    ensures
        magnitude(PRICE_CHANGE_THRESHOLD) == 0x14_7ae1_47ae_147b * pow2(1015),
        baht() == 0x800_0000_0000_0000 * pow2(1015),
{
    assert(exponent_field(PRICE_CHANGE_THRESHOLD) == 1016);
    assert(scale(PRICE_CHANGE_THRESHOLD) == 1015);
    assert(significand(PRICE_CHANGE_THRESHOLD) == 0x14_7ae1_47ae_147b);
    lemma_pow2_adds(59, 1015);
    lemma2_to64_rest();
}

/// The threshold is the binary64 number closest to a hundredth of a baht: a hundred times it is
/// off by less than fifty of its last bits.
pub proof fn law_threshold_is_a_satang()
    ensures
        abs(100 * magnitude(PRICE_CHANGE_THRESHOLD) - baht()) < 50 * pow2(
            scale(PRICE_CHANGE_THRESHOLD),
        ),
{
    lemma_threshold();
    lemma_pow2_pos(1015);
    assert(scale(PRICE_CHANGE_THRESHOLD) == 1015);
}

/// A price moves exactly where the exact distance is at least the threshold and half its last
/// bit; so no distance up to the threshold counts.
pub proof fn law_moved_exactly(old: u64, new: u64)
    ensures
        moved(old, new) <==> 2 * abs(value(new) - value(old)) >= 2 * magnitude(
            PRICE_CHANGE_THRESHOLD,
        ) + pow2(scale(PRICE_CHANGE_THRESHOLD)),
{
    lemma_threshold();
    assert(scale(PRICE_CHANGE_THRESHOLD) == 1015);
    lemma_nearest_exceeds(abs(value(new) - value(old)), 0x14_7ae1_47ae_147b, 1015);
}

/// Prices that stand for the same number of satang have not moved: what lies between them is
/// noise.
pub proof fn law_noise_is_no_move(old: u64, new: u64, satang: int)
    requires
        is_quote(old, satang),
        is_quote(new, satang),
    ensures
        !moved(old, new),
{
    law_moved_exactly(old, new);
    lemma_threshold();
    lemma_pow2_pos(1015);
    assert(scale(PRICE_CHANGE_THRESHOLD) == 1015);
}

/// Prices that are two satang or more apart have moved.
pub proof fn law_two_satang_are_a_move(old: u64, p: int, new: u64, q: int)
    requires
        is_quote(old, p),
        is_quote(new, q),
        abs(q - p) >= 2,
    ensures
        moved(old, new),
{
    law_moved_exactly(old, new);
    lemma_threshold();
    lemma_pow2_pos(1015);
    assert(scale(PRICE_CHANGE_THRESHOLD) == 1015);
    let one = baht() as int;
    assert((q >= p + 2 ==> q * one >= p * one + 2 * one) && (q <= p - 2 ==> q * one <= p * one - 2
        * one)) by (nonlinear_arith)
        requires
            one > 0,
    ;
}

/// Whatever moved went up or down.
pub proof fn law_a_move_has_a_direction(old: u64, new: u64)
    requires
        moved(old, new),
    ensures
        value(new) != value(old),
{
    law_moved_exactly(old, new);
    lemma_threshold();
    lemma_pow2_pos(1015);
    assert(scale(PRICE_CHANGE_THRESHOLD) == 1015);
}

/// The changes are those of the entries that moved, all of them and no others.
pub proof fn law_changes_are_the_moves(entries: Seq<EntryView>)
    ensures
        forall|i: int|
            0 <= i < entries.len() && moved(entries[i].yesterday, entries[i].today)
                ==> changes(entries).contains(change_of(#[trigger] entries[i])),
        forall|c: ChangeView| #[trigger]
            changes(entries).contains(c) ==> exists|i: int|
                #![trigger entries[i]]
                0 <= i < entries.len() && moved(entries[i].yesterday, entries[i].today) && c
                    == change_of(entries[i]),
        changes(entries).len() <= entries.len(),
    decreases entries.len(),
{
    reveal(Seq::filter);
    if entries.len() > 0 {
        let before = entries.drop_last();
        let e = entries.last();
        law_changes_are_the_moves(before);
        lemma_changes_step(entries);
        assert forall|i: int|
            0 <= i < entries.len() && moved(
                entries[i].yesterday,
                entries[i].today,
            ) implies changes(entries).contains(change_of(#[trigger] entries[i])) by {
            if i < before.len() {
                assert(before[i] == entries[i]);
                let j = choose|j: int|
                    0 <= j < changes(before).len() && changes(before)[j] == change_of(before[i]);
                assert(changes(entries)[j] == change_of(entries[i]));
            } else {
                assert(changes(entries)[changes(before).len() as int] == change_of(e));
            }
        }
        assert forall|c: ChangeView| #[trigger] changes(entries).contains(c) implies exists|i: int|
            #![trigger entries[i]]
            0 <= i < entries.len() && moved(entries[i].yesterday, entries[i].today) && c
                == change_of(entries[i]) by {
            if changes(before).contains(c) {
                let i = choose|i: int|
                    #![trigger before[i]]
                    0 <= i < before.len() && moved(before[i].yesterday, before[i].today) && c
                        == change_of(before[i]);
                assert(entries[i] == before[i]);
            } else {
                let j = choose|j: int| 0 <= j < changes(entries).len() && changes(entries)[j] == c;
                if j < changes(before).len() {
                    assert(changes(before)[j] == c);
                }
                assert(entries[entries.len() - 1] == e);
            }
        }
    }
}

/// The last entry adds its change, or none, to those before it.
proof fn lemma_changes_step(entries: Seq<EntryView>)
    requires
        entries.len() > 0,
    ensures
        changes(entries) == if moved(entries.last().yesterday, entries.last().today) {
            changes(entries.drop_last()).push(change_of(entries.last()))
        } else {
            changes(entries.drop_last())
        },
{
    reveal(Seq::filter);
    if moved(entries.last().yesterday, entries.last().today) {
        assert(changes(entries) =~= changes(entries.drop_last()).push(change_of(entries.last())));
    } else {
        assert(changes(entries) =~= changes(entries.drop_last()));
    }
}

/// A change that is no rise is a fall: none is reported of a price that stays the same.
pub proof fn law_no_rise_is_a_fall(entries: Seq<EntryView>, i: int)
    requires
        0 <= i < changes(entries).len(),
    ensures
        !is_rise(changes(entries)[i]) ==> value(changes(entries)[i].new) < value(
            changes(entries)[i].old,
        ),
{
    law_changes_are_the_moves(entries);
    let c = changes(entries)[i];
    assert(changes(entries).contains(c));
    law_a_move_has_a_direction(c.old, c.new);
}

/// The view of a list says of each entry its name and its three prices, in the order of the list,
/// and of the list its four texts.
pub proof fn law_view_of_a_list(s: PriceSnapshot, i: int)
    ensures
        s@.captured_at == s.captured_at@,
        s@.source_date == s.source_date@,
        s@.effective_date == s.effective_date@,
        s@.effective_time == s.effective_time@,
        s@.entries.len() == s.entries@.len(),
        0 <= i < s.entries@.len() ==> {
            &&& s@.entries[i].name == s.entries@[i].name@
            &&& s@.entries[i].yesterday == s.entries@[i].price_yesterday@
            &&& s@.entries[i].today == s.entries@[i].price_today@
            &&& s@.entries[i].tomorrow == s.entries@[i].price_tomorrow@
        },
{
}

/// The views of changes say of each its name, its old price and its new one, in order.
pub proof fn law_views_of_changes(c: Seq<PriceChange>, i: int)
    ensures
        change_views(c).len() == c.len(),
        0 <= i < c.len() ==> {
            &&& change_views(c)[i].name == c[i].name@
            &&& change_views(c)[i].old == c[i].old_price@
            &&& change_views(c)[i].new == c[i].new_price@
        },
{
}

/// A single entry gives one change if its price moved from yesterday to today, with its whole name
/// and these two prices, and none otherwise.
pub proof fn law_change_of_one_entry(e: EntryView)
    ensures
        moved(e.yesterday, e.today) ==> {
            &&& changes(seq![e]).len() == 1
            &&& changes(seq![e])[0].name == e.name
            &&& changes(seq![e])[0].old == e.yesterday
            &&& changes(seq![e])[0].new == e.today
        },
        !moved(e.yesterday, e.today) ==> changes(seq![e]).len() == 0,
{
    lemma_changes_step(seq![e]);
    lemma_no_entries_no_changes();
    assert(seq![e].drop_last() =~= Seq::<EntryView>::empty());
}

proof fn lemma_no_entries_no_changes()
    ensures
        changes(Seq::empty()) == Seq::<ChangeView>::empty(),
{
    reveal(Seq::filter);
    assert(changes(Seq::empty()) =~= Seq::<ChangeView>::empty());
}

/// The changes of one list after another are those of the first and then those of the second.
pub proof fn law_changes_of_lists_in_a_row(a: Seq<EntryView>, b: Seq<EntryView>)
    ensures
        changes(a + b) == changes(a) + changes(b),
    decreases b.len(),
{
    if b.len() == 0 {
        lemma_no_entries_no_changes();
        assert(b =~= Seq::<EntryView>::empty());
        assert(a + b =~= a);
        assert(changes(a) + changes(b) =~= changes(a));
    } else {
        law_changes_of_lists_in_a_row(a, b.drop_last());
        lemma_changes_step(b);
        lemma_changes_step(a + b);
        assert((a + b).drop_last() =~= a + b.drop_last());
        assert((a + b).last() == b.last());
        assert(changes(a + b) =~= changes(a) + changes(b));
    }
}

/// Each change is that of an entry with its name, whose price yesterday is its old price and whose
/// price today is its new one.
pub proof fn law_change_tells_yesterday_and_today(entries: Seq<EntryView>, k: int)
    requires
        0 <= k < changes(entries).len(),
    ensures
        exists|i: int|
            {
                &&& 0 <= i < entries.len()
                &&& (#[trigger] entries[i]).name == changes(entries)[k].name
                &&& entries[i].yesterday == changes(entries)[k].old
                &&& entries[i].today == changes(entries)[k].new
                &&& moved(entries[i].yesterday, entries[i].today)
            },
{
    law_changes_are_the_moves(entries);
    let c = changes(entries)[k];
    assert(changes(entries).contains(c));
    let i = choose|i: int|
        #![trigger entries[i]]
        0 <= i < entries.len() && moved(entries[i].yesterday, entries[i].today) && c == change_of(
            entries[i],
        );
    assert(entries[i].name == c.name);
}

/// Tomorrow's prices have no say: lists that agree in everything else bring the same changes.
pub proof fn law_tomorrow_has_no_say(a: Seq<EntryView>, b: Seq<EntryView>)
    requires
        a.len() == b.len(),
        forall|i: int|
            0 <= i < a.len() ==> {
                &&& (#[trigger] a[i]).name == b[i].name
                &&& a[i].yesterday == b[i].yesterday
                &&& a[i].today == b[i].today
            },
    ensures
        changes(a) == changes(b),
    decreases a.len(),
{
    if a.len() == 0 {
        assert(a =~= b);
    } else {
        let (x, y) = (a.drop_last(), b.drop_last());
        assert forall|i: int| 0 <= i < x.len() implies {
            &&& (#[trigger] x[i]).name == y[i].name
            &&& x[i].yesterday == y[i].yesterday
            &&& x[i].today == y[i].today
        } by {
            assert(x[i] == a[i] && y[i] == b[i]);
        }
        law_tomorrow_has_no_say(x, y);
        lemma_changes_step(a);
        lemma_changes_step(b);
        assert(a[a.len() - 1].name == b[b.len() - 1].name);
    }
}

/// What counts as a move, in figures: twice the distance is at least that of the odd number of
/// units which lies half a unit above the hundredth part of a baht. Up or down makes no
/// difference.
pub proof fn law_moved_in_figures(old: u64, new: u64)
    ensures
        moved(old, new) <==> {
            ||| 2 * (value(new) - value(old)) >= 0x28_f5c2_8f5c_28f7 * pow2(1015)
            ||| 2 * (value(old) - value(new)) >= 0x28_f5c2_8f5c_28f7 * pow2(1015)
        },
        moved(old, new) <==> moved(new, old),
{
    law_moved_exactly(old, new);
    law_moved_exactly(new, old);
    lemma_threshold();
    lemma_pow2_pos(1015);
    assert(scale(PRICE_CHANGE_THRESHOLD) == 1015);
}

} // verus!
