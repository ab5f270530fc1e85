//! The selector: from the devices that are installed and those that are in
//! use to the list of devices to expose.

use crate::device_set::DeviceSet;
use crate::failure::Failure;
use crate::order::{
    ascending, lemma_ascending_no_duplicates, lemma_listing_exists, lemma_lists_len, listing,
    lists, precedes,
};
use crate::text::{join, joined};
use vstd::prelude::*;

verus! {

/// What the caller asks for.
#[derive(Clone, Copy, Debug, PartialEq, Eq, Structural)]
pub struct SelectionRequest {
    /// Leave out the devices that host a compute workload.
    pub empty_only: bool,
    /// How many devices to list; `None` asks for every eligible device,
    /// which is not the same as asking for none.
    pub count: Option<usize>,
}

/// The devices that may be selected: all of them, or those not in use.
pub open spec fn eligible(total: Set<Seq<char>>, used: Set<Seq<char>>, empty_only: bool) -> Set<
    Seq<char>,
> {
    if empty_only {
        total.difference(used)
    } else {
        total
    }
}

/// What a selection among the `eligible` devices gives: the first `count`
/// of them in ascending order, or all of them where no count is given. It
/// fails where no device is eligible, and where more are asked for than
/// are eligible.
pub open spec fn selection(eligible: Set<Seq<char>>, count: Option<usize>) -> Result<
    Seq<Seq<char>>,
    Failure,
> {
    if eligible.len() == 0 {
        Err(Failure::NoDevicesAvailable)
    } else {
        match count {
            None => Ok(listing(eligible)),
            Some(n) => if n > eligible.len() {
                Err(Failure::InsufficientDevices { requested: n, available: eligible.len() as usize })
            } else {
                Ok(listing(eligible).take(n as int))
            },
        }
    }
}

/// What `r` stands for in contracts: a list by the identifiers it holds.
pub open spec fn outcome(r: Result<Vec<String>, Failure>) -> Result<Seq<Seq<char>>, Failure> {
    match r {
        Ok(list) => Ok(list.deep_view()),
        Err(e) => Err(e),
    }
}

/// The devices that may be selected. The devices in use are read only
/// where `empty_only` is set.
pub fn eligible_devices(total: DeviceSet, used: &DeviceSet, empty_only: bool) -> (set: DeviceSet)
    ensures
        set@ == eligible(total@, used@, empty_only),
{
    if empty_only {
        total.difference(used)
    } else {
        total
    }
}

/// Selects among the eligible devices.
pub fn select_from(eligible: &DeviceSet, count: Option<usize>) -> (r: Result<Vec<String>, Failure>)
    ensures
        outcome(r) == selection(eligible@, count),
{
    let mut list = eligible.sorted();
    proof {
        lemma_lists_len(list.deep_view(), eligible@);
    }
    let available = list.len();
    if available == 0 {
        return Err(Failure::NoDevicesAvailable);
    }
    let target = match count {
        Some(n) => n,
        None => available,
    };
    if target > available {
        return Err(Failure::InsufficientDevices { requested: target, available });
    }
    let ghost all = list.deep_view();
    list.truncate(target);
    proof {
        assert(list.deep_view() == all.take(target as int));
        assert(all.take(all.len() as int) == all);
    }
    Ok(list)
}

/// Selects the devices to expose.
pub fn select(total: DeviceSet, used: &DeviceSet, request: &SelectionRequest) -> (r: Result<
    Vec<String>,
    Failure,
>)
    ensures
        outcome(r) == selection(eligible(total@, used@, request.empty_only), request.count),
{
    let set = eligible_devices(total, used, request.empty_only);
    select_from(&set, request.count)
}

/// Writes a selection as it is shown: the identifiers with a comma between
/// neighbours.
pub fn render(list: &Vec<String>) -> (line: String)
    ensures
        line@ == joined(list.deep_view(), ','),
{
    join(list, ',')
}

/// Whatever is selected is installed, and not in use where the devices in
/// use are left out; it is in ascending order, holds nothing twice, and is
/// as long as the count says where there is one, and never longer than
/// the number of eligible devices.
pub proof fn law_selection_within_bounds(
    total: Set<Seq<char>>,
    used: Set<Seq<char>>,
    request: SelectionRequest,
)
    requires
        total.finite(),
    ensures
        selection(eligible(total, used, request.empty_only), request.count) matches Ok(list) ==> {
            &&& forall|i: int| 0 <= i < list.len() ==> total.contains(#[trigger] list[i])
            &&& request.empty_only ==> forall|i: int|
                0 <= i < list.len() ==> !used.contains(#[trigger] list[i])
            &&& ascending(list)
            &&& list.no_duplicates()
            &&& request.count matches Some(n) ==> list.len() == n
            &&& list.len() <= eligible(total, used, request.empty_only).len()
        },
{
    let set = eligible(total, used, request.empty_only);
    if selection(set, request.count) is Ok {
        let all = listing(set);
        lemma_listing_exists(set);
        assert forall|i: int| 0 <= i < all.len() implies set.contains(#[trigger] all[i]) by {
            assert(all.contains(all[i]));
        }
        match request.count {
            Some(n) => {
                law_count_takes_smallest(set, n);
                lemma_ascending_no_duplicates(all.take(n as int));
            },
            None => {
                lemma_ascending_no_duplicates(all);
            },
        }
    }
}

/// Without a count, and with the devices in use left out, the selection is
/// the list of the installed devices that are not in use, in ascending
/// order and each of them once, provided that there is such a device.
pub proof fn law_unused_devices_listed(total: Set<Seq<char>>, used: Set<Seq<char>>)
    requires
        total.finite(),
        total.len() > 0,
        used.subset_of(total),
        total.difference(used).len() > 0,
    ensures
        selection(eligible(total, used, true), None) matches Ok(list) && {
            &&& lists(list, total.difference(used))
            &&& ascending(list)
            &&& list.no_duplicates()
            &&& list.to_set() == total.difference(used)
        },
{
    let rest = total.difference(used);
    lemma_listing_exists(rest);
    lemma_lists_len(listing(rest), rest);
    lemma_ascending_no_duplicates(listing(rest));
}

/// Without a count, and with the devices in use left in, the selection is
/// the list of all installed devices in ascending order.
pub proof fn law_all_devices_listed(total: Set<Seq<char>>, used: Set<Seq<char>>)
    requires
        total.finite(),
        total.len() > 0,
    ensures
        selection(eligible(total, used, false), None) matches Ok(list) && {
            &&& lists(list, total)
            &&& ascending(list)
            &&& list.to_set() == total
        },
{
    lemma_listing_exists(total);
    lemma_lists_len(listing(total), total);
}

/// A count that does not exceed the number of eligible devices gives
/// exactly that many: all of them eligible, in ascending order, and each
/// preceding every eligible device that was left out.
pub proof fn law_count_takes_smallest(eligible: Set<Seq<char>>, n: usize)
    requires
        eligible.finite(),
        eligible.len() > 0,
        n <= eligible.len(),
    ensures
        selection(eligible, Some(n)) matches Ok(list) && {
            &&& list.len() == n
            &&& list == listing(eligible).take(n as int)
            &&& ascending(list)
            &&& forall|i: int| 0 <= i < list.len() ==> eligible.contains(#[trigger] list[i])
            &&& forall|i: int, other: Seq<char>|
                0 <= i < list.len() && eligible.contains(other) && !list.contains(other)
                    ==> #[trigger] precedes(list[i], other)
        },
{
    lemma_listing_exists(eligible);
    let all = listing(eligible);
    let list = all.take(n as int);
    assert forall|i: int| 0 <= i < list.len() implies eligible.contains(#[trigger] list[i]) by {
        assert(all.contains(all[i]));
    }
    assert forall|i: int, other: Seq<char>|
        0 <= i < list.len() && eligible.contains(other) && !list.contains(other) implies #[trigger] precedes(
        list[i],
        other,
    ) by {
        assert(all.contains(other));
        let m = choose|m: int| 0 <= m < all.len() && all[m] == other;
        if m < n {
            assert(list[m] == other);
        }
        assert(precedes(all[i], all[m]));
    }
    assert forall|i: int, j: int| 0 <= i < j < list.len() implies precedes(
        #[trigger] list[i],
        #[trigger] list[j],
    ) by {
        assert(precedes(all[i], all[j]));
    }
}

/// A count that exceeds the number of eligible devices, of which there is
/// at least one, fails and reports both numbers.
pub proof fn law_count_too_large(eligible: Set<Seq<char>>, n: usize)
    requires
        eligible.finite(),
        eligible.len() > 0,
        n > eligible.len(),
    ensures
        selection(eligible, Some(n)) == Err::<Seq<Seq<char>>, Failure>(
            Failure::InsufficientDevices { requested: n, available: eligible.len() as usize },
        ),
        eligible.len() as usize == eligible.len(),
{
}

/// With no eligible device the selection fails, whatever the count.
pub proof fn law_nothing_eligible(eligible: Set<Seq<char>>, count: Option<usize>)
    requires
        eligible.finite(),
        eligible.len() == 0,
    ensures
        selection(eligible, count) == Err::<Seq<Seq<char>>, Failure>(Failure::NoDevicesAvailable),
{
}

/// A count of zero gives the empty list where a device is eligible, while
/// no count gives them all.
pub proof fn law_zero_is_not_absent(eligible: Set<Seq<char>>)
    requires
        eligible.finite(),
        eligible.len() > 0,
    ensures
        selection(eligible, Some(0usize)) == Ok::<Seq<Seq<char>>, Failure>(Seq::empty()),
        selection(eligible, None) matches Ok(list) && list.len() == eligible.len(),
{
    lemma_listing_exists(eligible);
    assert(listing(eligible).take(0) =~= Seq::<Seq<char>>::empty());
}

} // verus!
