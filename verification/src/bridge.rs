//! Streaming bridge: what the background fetch task sends over the channel
//! before closing it, and how the picker's outcome becomes the run's result.

use vstd::prelude::*;
use crate::item::{SelectableItem, ErrorItem, PickItem, display_of};
use crate::name::NameRule;
use crate::resource::{RawResource, ResourceGroup, FetchError, flatten_groups, flatten_spec, id_of};

verus! {

/// The message shown for a fetch failure.
pub open spec fn fetch_error_text(e: FetchError) -> Seq<char> {
    match e {
        FetchError::Empty => "no reservations"@,
        FetchError::Transport(m) => m@,
    }
}

/// Renders a fetch failure as its human-readable message.
pub fn fetch_error_message(e: &FetchError) -> (r: String)
    ensures
        r@ == fetch_error_text(*e),
{
    match e {
        FetchError::Empty => String::from_str("no reservations"),
        FetchError::Transport(m) => m.clone(),
    }
}

/// Wraps every fetched resource under the active rule, in fetch order: one
/// item per resource, each with its display text resolved once.
#[verifier::loop_isolation(false)]
pub fn resolve_items(resources: Vec<RawResource>, rule: &NameRule) -> (items: Vec<SelectableItem>)
    ensures
        items@.len() == resources@.len(),
        forall|i: int|
            0 <= i < items@.len() ==> (#[trigger] items@[i]).resource == resources@[i]
                && items@[i].display@ == display_of(*rule, resources@[i]),
{
    let ghost all = resources@;
    let mut rs = resources;
    let mut items: Vec<SelectableItem> = Vec::new();
    proof {
        assert(rs@ =~= all.skip(0));
    }
    while rs.len() > 0
        invariant
            items@.len() + rs@.len() == all.len(),
            rs@ == all.skip(items@.len() as int),
            forall|i: int|
                0 <= i < items@.len() ==> (#[trigger] items@[i]).resource == all[i]
                    && items@[i].display@ == display_of(*rule, all[i]),
        decreases rs@.len(),
    {
        let ghost before = rs@;
        let ghost done = items@.len() as int;
        let r = rs.remove(0);
        proof {
            assert(r == all[done]);
            assert(rs@ =~= all.skip(done + 1));
        }
        items.push(SelectableItem::new(r, rule));
    }
    items
}

/// The fetcher's work after the service reply arrives: unwrap the grouped
/// response into one flat sequence and wrap each resource for the picker.
pub fn items_from_response(groups: Option<Vec<ResourceGroup>>, rule: &NameRule) -> (out: Result<
    Vec<SelectableItem>,
    FetchError,
>)
    ensures
        groups is None ==> (out matches Err(e) && e is Empty),
        groups matches Some(gs) ==> (out matches Ok(items) && items@.len() == flatten_spec(
            gs@,
        ).len() && (forall|i: int|
            0 <= i < items@.len() ==> (#[trigger] items@[i]).resource == flatten_spec(gs@)[i]
                && items@[i].display@ == display_of(*rule, flatten_spec(gs@)[i]))),
{
    match flatten_groups(groups) {
        Err(e) => Err(e),
        Ok(rs) => Ok(resolve_items(rs, rule)),
    }
}

/// The terminal event of one run: everything the fetch task sends before it
/// closes the channel. On success, one item per resolved resource in fetch
/// order; on failure, exactly one error item carrying the failure's message.
#[verifier::loop_isolation(false)]
pub fn bridge_events(outcome: Result<Vec<SelectableItem>, FetchError>) -> (events: Vec<PickItem>)
    ensures
        outcome matches Ok(items) ==> events@.len() == items@.len() && (forall|i: int|
            0 <= i < events@.len() ==> ((#[trigger] events@[i]) matches PickItem::Resource(it)
                && it == items@[i])),
        outcome matches Err(e) ==> events@.len() == 1 && (events@[0] matches PickItem::Error(err)
            && err.message@ == fetch_error_text(e)),
{
    match outcome {
        Ok(items) => {
            let ghost all = items@;
            let mut rest = items;
            let mut events: Vec<PickItem> = Vec::new();
            proof {
                assert(rest@ =~= all.skip(0));
            }
            while rest.len() > 0
                invariant
                    events@.len() + rest@.len() == all.len(),
                    rest@ == all.skip(events@.len() as int),
                    forall|i: int|
                        0 <= i < events@.len() ==> ((#[trigger] events@[i])
                            matches PickItem::Resource(it) && it == all[i]),
                decreases rest@.len(),
            {
                let ghost done = events@.len() as int;
                let it = rest.remove(0);
                proof {
                    assert(it == all[done]);
                    assert(rest@ =~= all.skip(done + 1));
                }
                events.push(PickItem::Resource(it));
            }
            events
        },
        Err(e) => {
            let mut events: Vec<PickItem> = Vec::new();
            events.push(PickItem::Error(ErrorItem { message: fetch_error_message(&e) }));
            events
        },
    }
}

/// The channel sees exactly one terminal event, never more, never none: the
/// sent sequence is either all resource items — as many as were fetched,
/// possibly zero, before the close — or exactly one error item; the two
/// kinds never mix, and a failure is never swallowed.
pub proof fn lemma_one_terminal_event(
    outcome: Result<Vec<SelectableItem>, FetchError>,
    events: Seq<PickItem>,
)
    requires
        outcome matches Ok(items) ==> events.len() == items@.len() && (forall|i: int|
            0 <= i < events.len() ==> (#[trigger] events[i]) is Resource),
        outcome matches Err(e) ==> events.len() == 1 && events[0] is Error,
    ensures
        (forall|i: int| 0 <= i < events.len() ==> (#[trigger] events[i]) is Resource) || (
        events.len() == 1 && events[0] is Error),
        outcome matches Ok(items) ==> events.len() == items@.len(),
        outcome matches Err(_) ==> events.len() == 1,
{
}

/// Why the run ended without a usable selection.
#[derive(Debug)]
pub enum SelectionError {
    /// The operator aborted the picker.
    Aborted,
    /// The picker returned no item to choose from.
    NoSelection,
    /// The synthetic error entity was selected; it never yields an
    /// identifier.
    ErrorSelected,
    /// The selected resource carries no identifier.
    MissingIdentifier,
}

/// The output stage: turns the picker's outcome into the identifier to act
/// on, or the reason there is none. Selecting the error entity is detected
/// here and is a selection failure, never an identifier.
pub fn decide_selection(aborted: bool, picked: Option<&PickItem>) -> (out: Result<
    String,
    SelectionError,
>)
    ensures
        aborted ==> (out matches Err(e) && e is Aborted),
        !aborted ==> match picked {
            None => out matches Err(e) && e is NoSelection,
            Some(p) => match p {
                PickItem::Error(_) => out matches Err(e) && e is ErrorSelected,
                PickItem::Resource(it) => if id_of(it.resource).len() > 0 {
                    out matches Ok(s) && s@ == id_of(it.resource)
                } else {
                    out matches Err(e) && e is MissingIdentifier
                },
            },
        },
{
    if aborted {
        return Err(SelectionError::Aborted);
    }
    match picked {
        None => Err(SelectionError::NoSelection),
        Some(p) => match p {
            PickItem::Error(_) => Err(SelectionError::ErrorSelected),
            PickItem::Resource(it) => {
                let id = it.output_value();
                if id.as_str().unicode_len() == 0 {
                    Err(SelectionError::MissingIdentifier)
                } else {
                    Ok(id)
                }
            },
        },
    }
}

} // verus!
