//! The price list as the retailer publishes it.
use crate::effective::{effective_datetime, parse_effective_datetime};
use crate::price::Price;
use crate::snapshot::{
    changes, entry_views, law_change_tells_yesterday_and_today, moved, EntryView, FuelEntry,
    PriceSnapshot, SnapshotView,
};
use vstd::prelude::*;

verus! {

/// Where the list is published.
pub const BANGCHAK_API_URL: &'static str = "https://oil-price.bangchak.co.th/apioilprice2/en";

/// How the watcher introduces itself.
pub const HTTP_USER_AGENT: &'static str = "auto-fuel-price-bot/0.1 (+https://github.com/)";

/// How long a request may take, in seconds.
pub const HTTP_TIMEOUT_SECS: u64 = 15;

/// One published list. `oil_list` is itself a JSON text.
#[derive(Debug)]
pub struct BangchakWire {
    pub oil_price_date: String,
    pub oil_list: String,
    pub oil_remark2: String,
}

/// One fuel type of a published list.
#[derive(Debug)]
pub struct BangchakOilItem {
    pub oil_name: String,
    pub price_yesterday: Price,
    pub price_today: Price,
    pub price_tomorrow: Price,
}

/// What an item says about its fuel type.
pub open spec fn item_view(item: BangchakOilItem) -> EntryView {
    EntryView {
        name: item.oil_name@,
        yesterday: item.price_yesterday@,
        today: item.price_today@,
        tomorrow: item.price_tomorrow@,
    }
}

/// A published list, understood.
#[derive(Debug)]
pub struct BangchakResponse {
    pub oil_price_date: String,
    pub effective_date: String,
    pub effective_time: String,
    pub items: Vec<FuelEntry>,
}

/// The publication cannot be used.
#[derive(Clone, Copy, Debug, PartialEq, Eq, Structural)]
pub enum FeedError {
    /// It holds no list.
    EmptyPayload,
}

/// The current list: the first one published.
pub fn current_payload(raw: Vec<BangchakWire>) -> (r: Result<BangchakWire, FeedError>)
    ensures
        match r {
            Ok(payload) => raw@.len() > 0 && payload == raw@[0],
            Err(FeedError::EmptyPayload) => raw@.len() == 0,
        },
{
    let mut lists: Vec<BangchakWire> = raw;
    if lists.len() == 0 {
        return Err(FeedError::EmptyPayload);
    }
    Ok(lists.swap_remove(0))
}

/// Puts a list and its items together, with the effective date and time read from its remark.
pub fn build_response(payload: BangchakWire, items: Vec<BangchakOilItem>) -> (r: BangchakResponse)
    ensures
        r.oil_price_date@ == payload.oil_price_date@,
        (r.effective_date@, r.effective_time@) == effective_datetime(payload.oil_remark2@),
        entry_views(r.items@) == items@.map_values(|item: BangchakOilItem| item_view(item)),
        r.items@.len() == items@.len(),
        forall|i: int|
            0 <= i < items@.len() ==> {
                &&& (#[trigger] r.items@[i]).name@ == items@[i].oil_name@
                &&& r.items@[i].price_yesterday@ == items@[i].price_yesterday@
                &&& r.items@[i].price_today@ == items@[i].price_today@
                &&& r.items@[i].price_tomorrow@ == items@[i].price_tomorrow@
            },
{
    let mut entries: Vec<FuelEntry> = Vec::new();
    let ghost wanted = items@.map_values(|item: BangchakOilItem| item_view(item));
    let mut i: usize = 0;
    assert(entry_views(entries@) =~= wanted.take(0));
    while i < items.len()
        invariant
            i <= items@.len(),
            wanted == items@.map_values(|item: BangchakOilItem| item_view(item)),
            entry_views(entries@) == wanted.take(i as int),
        decreases items@.len() - i,
    {
        let item: &BangchakOilItem = &items[i];
        let entry: FuelEntry = FuelEntry {
            name: item.oil_name.clone(),
            price_yesterday: item.price_yesterday,
            price_today: item.price_today,
            price_tomorrow: item.price_tomorrow,
        };
        let ghost earlier = entries@;
        entries.push(entry);
        proof {
            assert(wanted[i as int] == entry@);
            assert(entry_views(entries@) =~= entry_views(earlier).push(entry@));
            assert(entry_views(entries@) =~= wanted.take(i + 1));
        }
        i = i + 1;
    }
    assert(wanted.take(i as int) =~= wanted);
    proof {
        law_entries_take_over_the_items(items@, entries@);
    }
    let (effective_date, effective_time) = parse_effective_datetime(payload.oil_remark2.as_str());
    BangchakResponse {
        oil_price_date: payload.oil_price_date,
        effective_date,
        effective_time,
        items: entries,
    }
}

/// The snapshot of a list that was fetched at `captured_at`.
pub open spec fn snapshot_view(captured_at: Seq<char>, response: BangchakResponse) -> SnapshotView {
    SnapshotView {
        captured_at,
        source_date: response.oil_price_date@,
        effective_date: response.effective_date@,
        effective_time: response.effective_time@,
        entries: entry_views(response.items@),
    }
}

/// Takes a snapshot of a list.
pub fn take_snapshot(captured_at: String, response: BangchakResponse) -> (r: PriceSnapshot)
    ensures
        r@ == snapshot_view(captured_at@, response),
        r.captured_at@ == captured_at@,
        r.source_date@ == response.oil_price_date@,
        r.effective_date@ == response.effective_date@,
        r.effective_time@ == response.effective_time@,
        r.entries@ == response.items@,
{
    PriceSnapshot {
        captured_at,
        source_date: response.oil_price_date,
        effective_date: response.effective_date,
        effective_time: response.effective_time,
        entries: response.items,
    }
}

/// Entries that say what items say are as many, in the same order, and each has its item's name
/// and its item's prices of yesterday, today and tomorrow.
pub proof fn law_entries_take_over_the_items(items: Seq<BangchakOilItem>, entries: Seq<FuelEntry>)
    requires
        entry_views(entries) == items.map_values(|item: BangchakOilItem| item_view(item)),
    ensures
        entries.len() == items.len(),
        forall|i: int|
            0 <= i < items.len() ==> {
                &&& (#[trigger] entries[i]).name@ == items[i].oil_name@
                &&& entries[i].price_yesterday@ == items[i].price_yesterday@
                &&& entries[i].price_today@ == items[i].price_today@
                &&& entries[i].price_tomorrow@ == items[i].price_tomorrow@
            },
{
    assert(entry_views(entries).len() == entries.len());
    assert forall|i: int| 0 <= i < items.len() implies {
        &&& (#[trigger] entries[i]).name@ == items[i].oil_name@
        &&& entries[i].price_yesterday@ == items[i].price_yesterday@
        &&& entries[i].price_today@ == items[i].price_today@
        &&& entries[i].price_tomorrow@ == items[i].price_tomorrow@
    } by {
        assert(entry_views(entries)[i] == entries[i]@);
        assert(entry_views(entries)[i] == item_view(items[i]));
    }
}

/// Items whose prices did not move from yesterday to today make a list without changes, whatever
/// their prices of tomorrow are.
pub proof fn law_still_prices_make_a_quiet_list(
    items: Seq<BangchakOilItem>,
    entries: Seq<FuelEntry>,
)
    requires
        entry_views(entries) == items.map_values(|item: BangchakOilItem| item_view(item)),
        forall|i: int|
            0 <= i < items.len() ==> !moved(
                (#[trigger] items[i]).price_yesterday@,
                items[i].price_today@,
            ),
    ensures
        changes(entry_views(entries)).len() == 0,
{
    let all = entry_views(entries);
    law_entries_take_over_the_items(items, entries);
    if changes(all).len() > 0 {
        law_change_tells_yesterday_and_today(all, 0);
        let i = choose|i: int|
            {
                &&& 0 <= i < all.len()
                &&& (#[trigger] all[i]).name == changes(all)[0].name
                &&& all[i].yesterday == changes(all)[0].old
                &&& all[i].today == changes(all)[0].new
                &&& moved(all[i].yesterday, all[i].today)
            };
        assert(all[i] == entries[i]@);
        assert(entries[i].price_today@ == items[i].price_today@);
        assert(!moved(items[i].price_yesterday@, items[i].price_today@));
    }
}

/// A snapshot keeps the list's date, effective date and time, and entries as they are, beside the
/// time of capture.
pub proof fn law_snapshot_keeps_the_list(captured_at: Seq<char>, response: BangchakResponse)
    ensures
        snapshot_view(captured_at, response).captured_at == captured_at,
        snapshot_view(captured_at, response).source_date == response.oil_price_date@,
        snapshot_view(captured_at, response).effective_date == response.effective_date@,
        snapshot_view(captured_at, response).effective_time == response.effective_time@,
        snapshot_view(captured_at, response).entries.len() == response.items@.len(),
        forall|i: int|
            0 <= i < response.items@.len() ==> {
                let e = #[trigger] snapshot_view(captured_at, response).entries[i];
                &&& e.name == response.items@[i].name@
                &&& e.yesterday == response.items@[i].price_yesterday@
                &&& e.today == response.items@[i].price_today@
                &&& e.tomorrow == response.items@[i].price_tomorrow@
            },
{
}

} // verus!
