//! One run of the watcher: what to do about a price list, and what to remember of it.
use crate::config::{text_of, AppConfig};
use crate::line::{plain_push, push_request, LinePushRequest, PushView};
use crate::message::{
    change_text, format_message, header_text, law_both_prices_are_told,
    law_every_name_is_told_in_full, message_text,
};
use crate::price::price_text;
use crate::snapshot::{
    change_of, change_views, changes, compute_changes, law_changes_are_the_moves, moved,
    ChangeView, PriceSnapshot, SnapshotView,
};
use crate::text::join;
use vstd::prelude::*;

verus! {

/// What is remembered between runs.
#[derive(Debug)]
pub struct StoredState {
    /// The last list.
    pub snapshot: PriceSnapshot,
    /// A notification about a list of its date was delivered.
    pub notified: bool,
}

/// What a `StoredState` says.
#[verifier::ext_equal]
pub struct StateView {
    pub snapshot: SnapshotView,
    pub notified: bool,
}

impl View for StoredState {
    type V = StateView;

    open spec fn view(&self) -> StateView {
        StateView { snapshot: self.snapshot@, notified: self.notified }
    }
}

/// The view of an optional state.
pub open spec fn stored_view(stored: Option<StoredState>) -> Option<StateView> {
    match stored {
        Some(s) => Some(s@),
        None => None,
    }
}

/// Takes up a list that was remembered. Where it is not known whether its date was notified, it
/// was if the list brings changes: such a list is remembered only once they are told.
pub fn restore(snapshot: PriceSnapshot, notified: Option<bool>) -> (r: StoredState)
    ensures
        r@ == (StateView {
            snapshot: snapshot@,
            notified: match notified {
                Some(known) => known,
                None => changes(snapshot@.entries).len() > 0,
            },
        }),
        r.snapshot == snapshot,
        notified is Some ==> r.notified == notified->0,
        notified is None ==> r.notified == (changes(snapshot@.entries).len() > 0),
{
    let flag: bool = match notified {
        Some(known) => known,
        None => {
            let found = compute_changes(&snapshot);
            assert(change_views(found@).len() == found@.len());
            found.len() > 0
        },
    };
    StoredState { snapshot, notified: flag }
}

/// What to do about a price list.
#[derive(Debug)]
pub enum Decision {
    /// No price moved: remember the list, and whether its date was notified before.
    Unchanged(StoredState),
    /// Its date was notified before: remember the list.
    AlreadyNotified(PriceSnapshot),
    /// There is news, but no recipient or no token for it.
    CredentialsMissing,
    /// Show the message and send nothing.
    Preview(String),
    /// Push the message, and remember the list once it is delivered.
    Push { token: String, request: LinePushRequest, snapshot: PriceSnapshot },
}

/// What a `Decision` says.
pub enum DecisionView {
    Unchanged(StateView),
    AlreadyNotified(SnapshotView),
    CredentialsMissing,
    Preview(Seq<char>),
    Push { token: Seq<char>, request: PushView, snapshot: SnapshotView },
}

impl View for Decision {
    type V = DecisionView;

    open spec fn view(&self) -> DecisionView {
        match *self {
            Decision::Unchanged(s) => DecisionView::Unchanged(s@),
            Decision::AlreadyNotified(s) => DecisionView::AlreadyNotified(s@),
            Decision::CredentialsMissing => DecisionView::CredentialsMissing,
            Decision::Preview(text) => DecisionView::Preview(text@),
            Decision::Push { token, request, snapshot } => DecisionView::Push {
                token: token@,
                request: request@,
                snapshot: snapshot@,
            },
        }
    }
}

/// What a run is given: where notifications go, whether to send them, and the list.
pub struct Input {
    pub target: Option<Seq<char>>,
    pub token: Option<Seq<char>>,
    pub dry_run: bool,
    pub current: SnapshotView,
}

/// The state holds a list of the given date, and that date was notified.
pub open spec fn notified_for(date: Seq<char>, stored: Option<StateView>) -> bool {
    stored is Some && stored->0.snapshot.source_date == date && stored->0.notified
}

/// The date of this list was notified.
pub open spec fn is_notified(current: SnapshotView, stored: Option<StateView>) -> bool {
    notified_for(current.source_date, stored)
}

/// The message about a list.
pub open spec fn news(current: SnapshotView) -> Seq<char> {
    message_text(current.effective_date, current.effective_time, changes(current.entries))
}

/// What to do about a list, given what is remembered.
pub open spec fn decision(input: Input, stored: Option<StateView>) -> DecisionView {
    if changes(input.current.entries).len() == 0 {
        DecisionView::Unchanged(
            StateView {
                snapshot: input.current,
                notified: is_notified(input.current, stored),
            },
        )
    } else if is_notified(input.current, stored) {
        DecisionView::AlreadyNotified(input.current)
    } else {
        match (input.target, input.token) {
            (Some(target), Some(token)) => if input.dry_run {
                DecisionView::Preview(news(input.current))
            } else {
                DecisionView::Push {
                    token,
                    request: plain_push(target, news(input.current)),
                    snapshot: input.current,
                }
            },
            _ => DecisionView::CredentialsMissing,
        }
    }
}

/// What to remember once a decision has been carried out, if anything new. Only a push depends on
/// whether it was delivered.
pub open spec fn kept(d: DecisionView, delivered: bool) -> Option<StateView> {
    match d {
        DecisionView::Unchanged(s) => Some(s),
        DecisionView::AlreadyNotified(snapshot) => Some(StateView { snapshot, notified: true }),
        DecisionView::Push { snapshot, .. } => if delivered {
            Some(StateView { snapshot, notified: true })
        } else {
            None
        },
        _ => None,
    }
}

/// The view of what a run is given.
pub open spec fn input_view(config: AppConfig, dry_run: bool, current: PriceSnapshot) -> Input {
    Input {
        target: text_of(config.line_target),
        token: text_of(config.line_token),
        dry_run,
        current: current@,
    }
}

/// Decides what to do about the list `current`, given what is remembered.
pub fn decide(
    config: &AppConfig,
    dry_run: bool,
    current: PriceSnapshot,
    stored: &Option<StoredState>,
) -> (d: Decision)
    ensures
        d@ == decision(input_view(*config, dry_run, current), stored_view(*stored)),
        ({
            let found = changes(current@.entries);
            let text = message_text(
                current.effective_date@,
                current.effective_time@,
                changes(current@.entries),
            );
            let before = stored is Some && stored->0.notified && stored->0.snapshot.source_date@
                == current.source_date@;
            match d {
                Decision::Unchanged(s) => {
                    &&& found.len() == 0
                    &&& s.snapshot == current
                    &&& s.notified == before
                },
                Decision::AlreadyNotified(s) => found.len() > 0 && before && s == current,
                Decision::CredentialsMissing => {
                    &&& found.len() > 0
                    &&& !before
                    &&& config.line_target is None || config.line_token is None
                },
                Decision::Preview(shown) => {
                    &&& found.len() > 0
                    &&& !before
                    &&& dry_run
                    &&& config.line_target is Some && config.line_token is Some
                    &&& shown@ == text
                },
                Decision::Push { token, request, snapshot } => {
                    &&& found.len() > 0
                    &&& !before
                    &&& !dry_run
                    &&& config.line_target is Some && config.line_token is Some
                    &&& token@ == config.line_token->0@
                    &&& request.to@ == config.line_target->0@
                    &&& request.messages@[0].message_type@ == "text"@
                    &&& request.messages@[0].text@ == text
                    &&& snapshot == current
                },
            }
        }),
{
    let found = compute_changes(&current);
    assert(change_views(found@).len() == found@.len());
    let notified: bool = match stored {
        Some(state) => state.notified && state.snapshot.source_date == current.source_date,
        None => false,
    };
    if found.len() == 0 {
        return Decision::Unchanged(StoredState { snapshot: current, notified });
    }
    if notified {
        return Decision::AlreadyNotified(current);
    }
    match (&config.line_target, &config.line_token) {
        (Some(target), Some(token)) => {
            let text: String = format_message(
                current.effective_date.as_str(),
                current.effective_time.as_str(),
                found.as_slice(),
            );
            if dry_run {
                Decision::Preview(text)
            } else {
                Decision::Push {
                    token: token.clone(),
                    request: push_request(target.clone(), text),
                    snapshot: current,
                }
            }
        },
        _ => Decision::CredentialsMissing,
    }
}

/// What to remember once `d` has been carried out, if anything new; `delivered` tells whether a
/// push was.
pub fn to_persist(d: Decision, delivered: bool) -> (r: Option<StoredState>)
    ensures
        stored_view(r) == kept(d@, delivered),
        match d {
            Decision::Unchanged(s) => r == Some(s),
            Decision::AlreadyNotified(s) => r is Some && r->0.snapshot == s && r->0.notified,
            Decision::Push { snapshot, .. } => {
                &&& r is Some <==> delivered
                &&& r is Some ==> r->0.snapshot == snapshot && r->0.notified
            },
            _ => r is None,
        },
{
    match d {
        Decision::Unchanged(state) => Some(state),
        Decision::AlreadyNotified(snapshot) => Some(StoredState { snapshot, notified: true }),
        Decision::Push { snapshot, .. } => if delivered {
            Some(StoredState { snapshot, notified: true })
        } else {
            None
        },
        _ => None,
    }
}

/// What a run leaves remembered.
pub open spec fn stored_after(
    input: Input,
    delivered: bool,
    stored: Option<StateView>,
) -> Option<StateView> {
    match kept(decision(input, stored), delivered) {
        Some(s) => Some(s),
        None => stored,
    }
}

/// A message is pushed exactly where a price moved, the list's date was not notified before, there
/// are a recipient and a token, and nothing asks for a dry run.
pub proof fn law_push_is_due(input: Input, stored: Option<StateView>)
    ensures
        decision(input, stored) is Push <==> {
            &&& changes(input.current.entries).len() > 0
            &&& !is_notified(input.current, stored)
            &&& input.target is Some
            &&& input.token is Some
            &&& !input.dry_run
        },
{
}

/// A list is remembered exactly where it brings no change, its date was notified before, or its
/// message was pushed and delivered. It is the run's own list that is remembered, and its date
/// counts as notified exactly in the last two cases.
pub proof fn law_kept_for_a_reason(input: Input, delivered: bool, stored: Option<StateView>)
    ensures
        kept(decision(input, stored), delivered) is Some <==> {
            ||| changes(input.current.entries).len() == 0
            ||| is_notified(input.current, stored)
            ||| decision(input, stored) is Push && delivered
        },
        kept(decision(input, stored), delivered) matches Some(s) ==> {
            &&& s.snapshot == input.current
            &&& s.notified <==> is_notified(input.current, stored) || decision(
                input,
                stored,
            ) is Push && delivered
        },
{
}

/// A run without changes notifies nobody: unless the date was notified before it, a later list of
/// that date which does bring changes is pushed.
pub proof fn law_late_change_is_pushed(
    input: Input,
    delivered: bool,
    stored: Option<StateView>,
    later: Input,
)
    requires
        changes(input.current.entries).len() == 0,
        !is_notified(input.current, stored),
        later.current.source_date == input.current.source_date,
        changes(later.current.entries).len() > 0,
        later.target is Some,
        later.token is Some,
        !later.dry_run,
    ensures
        decision(later, stored_after(input, delivered, stored)) is Push,
{
}

/// After a delivered push, no run on a list of the same date pushes again.
pub proof fn law_no_second_push(input: Input, stored: Option<StateView>, later: Input)
    requires
        decision(input, stored) is Push,
        later.current.source_date == input.current.source_date,
    ensures
        !(decision(later, stored_after(input, true, stored)) is Push),
        !(decision(later, stored_after(input, true, stored)) is Preview),
{
}

/// What could not be told is told by a later run on the same list: a run that remembered nothing
/// leaves what was remembered as it was, and the next one that can push does push.
pub proof fn law_undelivered_news_is_pushed_later(
    input: Input,
    delivered: bool,
    stored: Option<StateView>,
    later: Input,
)
    requires
        kept(decision(input, stored), delivered) is None,
        later.current.source_date == input.current.source_date,
        later.current.entries == input.current.entries,
        later.target is Some,
        later.token is Some,
        !later.dry_run,
    ensures
        stored_after(input, delivered, stored) == stored,
        decision(later, stored_after(input, delivered, stored)) is Push,
{
}

/// How many messages a series of runs delivers. Each run comes with whether a push that it makes
/// is delivered.
pub open spec fn deliveries(runs: Seq<(Input, bool)>, stored: Option<StateView>) -> nat
    decreases runs.len(),
{
    if runs.len() == 0 {
        0
    } else {
        let (input, delivered) = runs[0];
        (if decision(input, stored) is Push && delivered {
            1nat
        } else {
            0nat
        }) + deliveries(runs.drop_first(), stored_after(input, delivered, stored))
    }
}

/// What a series of runs leaves remembered.
pub open spec fn stored_after_all(
    runs: Seq<(Input, bool)>,
    stored: Option<StateView>,
) -> Option<StateView>
    decreases runs.len(),
{
    if runs.len() == 0 {
        stored
    } else {
        stored_after_all(runs.drop_first(), stored_after(runs[0].0, runs[0].1, stored))
    }
}

/// However often the watcher runs on lists of one date, at most one message is delivered; none if
/// that date was notified to begin with. Afterwards the date counts as notified exactly if it did
/// before or a message was delivered.
pub proof fn law_one_delivery_per_date(
    runs: Seq<(Input, bool)>,
    date: Seq<char>,
    stored: Option<StateView>,
)
    requires
        forall|i: int| 0 <= i < runs.len() ==> (#[trigger] runs[i]).0.current.source_date == date,
    ensures
        deliveries(runs, stored) <= 1,
        notified_for(date, stored) ==> deliveries(runs, stored) == 0,
        notified_for(date, stored_after_all(runs, stored)) <==> notified_for(date, stored)
            || deliveries(runs, stored) == 1,
    decreases runs.len(),
{
    if runs.len() > 0 {
        let rest = runs.drop_first();
        assert(runs[0].0.current.source_date == date);
        assert forall|i: int| 0 <= i < rest.len() implies (#[trigger] rest[i]).0.current.source_date
            == date by {
            assert(rest[i] == runs[i + 1]);
        }
        law_one_delivery_per_date(rest, date, stored_after(runs[0].0, runs[0].1, stored));
    }
}

/// What a run is given is what the settings and the list say.
pub proof fn law_view_of_the_input(config: AppConfig, dry_run: bool, current: PriceSnapshot)
    ensures
        ({
            let input = input_view(config, dry_run, current);
            &&& input.target is Some <==> config.line_target is Some
            &&& input.target is Some ==> input.target->0 == config.line_target->0@
            &&& input.token is Some <==> config.line_token is Some
            &&& input.token is Some ==> input.token->0 == config.line_token->0@
            &&& input.dry_run == dry_run
            &&& input.current == current@
        }),
{
}

/// A push goes to the recipient, under the token, as plain text. Its text is the message about the
/// list: with the list's effective date for its date, the effective time for its time, and the
/// changes of its entries. What is remembered after it is the list.
pub proof fn law_push_tells_the_list(input: Input, stored: Option<StateView>)
    requires
        decision(input, stored) is Push,
    ensures
        ({
            let d = decision(input, stored);
            &&& d->token == input.token->0
            &&& d->request.to == input.target->0
            &&& d->request.message_type == "text"@
            &&& d->request.text == message_text(
                input.current.effective_date,
                input.current.effective_time,
                changes(input.current.entries),
            )
            &&& d->snapshot == input.current
        }),
{
}

/// A preview is made exactly where a push would be but for the dry run, and shows the text that
/// this push would have.
pub proof fn law_preview_shows_what_a_push_would_say(input: Input, stored: Option<StateView>)
    ensures
        ({
            let sending = Input { dry_run: false, ..input };
            let trying = Input { dry_run: true, ..input };
            &&& decision(trying, stored) is Preview <==> decision(sending, stored) is Push
            &&& decision(trying, stored) matches DecisionView::Preview(text) ==> text == (decision(
                sending,
                stored,
            )->request).text
            &&& !(decision(trying, stored) is Push)
            &&& !(decision(sending, stored) is Preview)
        }),
{
}

/// Whatever is pushed or previewed about a dated list has the date line for its second line: the
/// label, the list's effective date, and then its effective time.
#[verifier::rlimit(40)]
pub proof fn law_told_text_has_the_date_line(input: Input, stored: Option<StateView>)
    requires
        decision(input, stored) is Push || decision(input, stored) is Preview,
        input.current.effective_date.len() > 0,
        input.current.effective_time.len() > 0,
    ensures
        exists|body: Seq<char>|
            (match decision(input, stored) {
                DecisionView::Push { request, .. } => request.text,
                DecisionView::Preview(text) => text,
                _ => Seq::empty(),
            }) == #[trigger] ("📰 แจ้งข่าวราคาน้ำมัน!!"@ + "\n"@ + "📅 ราคาปรับขึ้น-ลง วันที่"@ + " "@
                + input.current.effective_date + " เวลา "@ + input.current.effective_time + " น."@
                + "\n\n"@ + body),
{
    let body = join(
        changes(input.current.entries).map_values(|c: ChangeView| change_text(c)),
        "\n\n"@,
    );
    let line = "📰 แจ้งข่าวราคาน้ำมัน!!"@ + "\n"@ + "📅 ราคาปรับขึ้น-ลง วันที่"@ + " "@
        + input.current.effective_date + " เวลา "@ + input.current.effective_time + " น."@;
    assert(header_text(input.current.effective_date, input.current.effective_time) == line);
    assert(news(input.current) == line + "\n\n"@ + body);
}

/// Whatever is pushed or previewed names every fuel type that moved, in full.
#[verifier::rlimit(40)]
pub proof fn law_told_text_names_every_move(input: Input, stored: Option<StateView>, i: int)
    requires
        decision(input, stored) is Push || decision(input, stored) is Preview,
        0 <= i < input.current.entries.len(),
        moved(input.current.entries[i].yesterday, input.current.entries[i].today),
    ensures
        exists|before: Seq<char>, after: Seq<char>|
            (match decision(input, stored) {
                DecisionView::Push { request, .. } => request.text,
                DecisionView::Preview(text) => text,
                _ => Seq::empty(),
            }) == #[trigger] (before + "\n\n"@ + "⛽ ▶ "@ + input.current.entries[i].name + "\n"@
                + after),
{
    let all = changes(input.current.entries);
    let e = input.current.entries[i];
    law_changes_are_the_moves(input.current.entries);
    assert(all.contains(change_of(input.current.entries[i])));
    let k = choose|k: int| 0 <= k < all.len() && all[k] == change_of(e);
    assert(all[k].name == e.name);
    law_every_name_is_told_in_full(
        input.current.effective_date,
        input.current.effective_time,
        all,
        k,
    );
}

/// The five decisions, each with the cases in which it is made.
pub proof fn law_when_each_decision_is_made(input: Input, stored: Option<StateView>)
    ensures
        ({
            let d = decision(input, stored);
            let quiet = changes(input.current.entries).len() == 0;
            let before = stored is Some && stored->0.notified && stored->0.snapshot.source_date
                == input.current.source_date;
            let able = input.target is Some && input.token is Some;
            &&& d is Unchanged <==> quiet
            &&& d is AlreadyNotified <==> !quiet && before
            &&& d is CredentialsMissing <==> !quiet && !before && !able
            &&& d is Preview <==> !quiet && !before && able && input.dry_run
            &&& d is Push <==> !quiet && !before && able && !input.dry_run
            &&& d matches DecisionView::Unchanged(s) ==> s.snapshot == input.current && s.notified
                == before
            &&& d matches DecisionView::AlreadyNotified(s) ==> s == input.current
        }),
{
}

/// What is remembered after each decision: the list and the flag of an unchanged one; the list, as
/// notified, of one whose date was notified; that of a push only once it is delivered; nothing
/// after the others.
pub proof fn law_what_each_decision_leaves(d: DecisionView, delivered: bool)
    ensures
        d matches DecisionView::Unchanged(s) ==> kept(d, delivered) == Some(s),
        d matches DecisionView::AlreadyNotified(s) ==> {
            &&& kept(d, delivered) is Some
            &&& kept(d, delivered)->0.snapshot == s
            &&& kept(d, delivered)->0.notified
        },
        d is Push && delivered ==> {
            &&& kept(d, delivered) is Some
            &&& kept(d, delivered)->0.snapshot == d->snapshot
            &&& kept(d, delivered)->0.notified
        },
        d is Push && !delivered ==> kept(d, delivered) is None,
        d is CredentialsMissing || d is Preview ==> kept(d, delivered) is None,
{
}

/// Whatever is pushed or previewed tells of every fuel type that moved its price of yesterday and,
/// after it, its price of today.
#[verifier::rlimit(40)]
pub proof fn law_told_text_tells_yesterday_and_today(
    input: Input,
    stored: Option<StateView>,
    i: int,
)
    requires
        decision(input, stored) is Push || decision(input, stored) is Preview,
        0 <= i < input.current.entries.len(),
        moved(input.current.entries[i].yesterday, input.current.entries[i].today),
    ensures
        exists|before: Seq<char>, after: Seq<char>|
            (match decision(input, stored) {
                DecisionView::Push { request, .. } => request.text,
                DecisionView::Preview(text) => text,
                _ => Seq::empty(),
            }) == #[trigger] (before + "\n"@ + ("จากราคา "@ + price_text(
                input.current.entries[i].yesterday,
            ) + " บาท เป็น "@ + price_text(input.current.entries[i].today) + " บาท"@) + after),
{
    let all = changes(input.current.entries);
    let e = input.current.entries[i];
    law_changes_are_the_moves(input.current.entries);
    assert(all.contains(change_of(input.current.entries[i])));
    let k = choose|k: int| 0 <= k < all.len() && all[k] == change_of(e);
    assert(all[k].old == e.yesterday && all[k].new == e.today);
    law_both_prices_are_told(input.current.effective_date, input.current.effective_time, all, k);
}

} // verus!
