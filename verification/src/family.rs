//! The default device family of an inventory: the identifiers that default requests rotate over.

use vstd::prelude::*;
use crate::config::CDI_GPU_DEVICE_ALL;
use crate::device_id;
use crate::error::CdiGpuSelectionError;
use crate::inventory;
use crate::text;

verus! {

/// The identifiers whose device name is a number.
pub open spec fn indexed_ids(ids: Seq<Seq<char>>) -> Seq<Seq<char>> {
    ids.filter(|id: Seq<char>| device_id::gpu_index(id) is Some)
}

/// The identifiers that name a device of its own.
pub open spec fn named_ids(ids: Seq<Seq<char>>) -> Seq<Seq<char>> {
    ids.filter(|id: Seq<char>| device_id::names_one_gpu(id))
}

/// The place of an identifier by device number; those without one come first.
pub open spec fn index_rank(id: Seq<char>) -> int {
    match device_id::gpu_index(id) {
        Some(index) => index as int,
        None => -1,
    }
}

/// Order by device number, then by the identifier's text.
pub open spec fn index_at_most(a: Seq<char>, b: Seq<char>) -> bool {
    index_rank(a) < index_rank(b) || (index_rank(a) == index_rank(b) && text::text_at_most(
        a,
        b,
    ))
}

/// [`index_at_most`] as a relation.
pub open spec fn index_order() -> spec_fn(Seq<char>, Seq<char>) -> bool {
    |a: Seq<char>, b: Seq<char>| index_at_most(a, b)
}

/// The family for the identifiers of an inventory. Numbered devices come first, ordered by
/// number. Without any, the devices with other names are used in the inventory's order. The
/// identifier for every GPU is the last resort, and only where the platform allows it.
pub open spec fn default_family(ids: Seq<Seq<char>>, allow_all_devices: bool) -> Result<
    Seq<Seq<char>>,
    CdiGpuSelectionError,
> {
    if indexed_ids(ids).len() > 0 {
        Ok(indexed_ids(ids).sort_by(index_order()))
    } else if named_ids(ids).len() > 0 {
        Ok(named_ids(ids))
    } else if ids.contains(CDI_GPU_DEVICE_ALL@) {
        if allow_all_devices {
            Ok(seq![CDI_GPU_DEVICE_ALL@])
        } else {
            Err(CdiGpuSelectionError::AllDevicesDefaultUnsupported)
        }
    } else {
        Err(CdiGpuSelectionError::NoAvailableDevices)
    }
}

/// `family` is the family for the identifiers of an inventory.
pub open spec fn is_default_family(
    ids: Seq<Seq<char>>,
    allow_all_devices: bool,
    family: Seq<Seq<char>>,
) -> bool {
    default_family(ids, allow_all_devices) matches Ok(devices) && devices == family
}

/// Default requests to an inventory are refused with `error`.
pub open spec fn is_refused(
    ids: Seq<Seq<char>>,
    allow_all_devices: bool,
    error: CdiGpuSelectionError,
) -> bool {
    default_family(ids, allow_all_devices) matches Err(reason) && reason == error
}

/// A result with the texts of its device identifiers.
pub open spec fn family_text(res: Result<Vec<String>, CdiGpuSelectionError>) -> Result<
    Seq<Seq<char>>,
    CdiGpuSelectionError,
> {
    match res {
        Ok(devices) => Ok(devices.deep_view()),
        Err(error) => Err(error),
    }
}

/// Ordering by device number is a total order.
pub proof fn law_index_order_is_total()
    ensures
        vstd::relations::total_ordering(index_order()),
{
    let order = index_order();
    assert forall|a: Seq<char>, b: Seq<char>| #[trigger]
        order(a, b) && #[trigger] order(b, a) implies a == b by {
        text::law_order_is_total(a, b);
    }
    assert forall|a: Seq<char>, b: Seq<char>, c: Seq<char>| #[trigger]
        order(a, b) && #[trigger] order(b, c) implies order(a, c) by {
        if text::text_less(a, b) && text::text_less(b, c) {
            text::law_order_is_transitive(a, b, c);
        }
    }
    assert forall|a: Seq<char>, b: Seq<char>| #[trigger] order(a, b) || #[trigger] order(b, a) by {
        text::law_order_is_total(a, b);
    }
}

/// The numbered identifiers in order hold the same identifiers as the inventory lists with a
/// number, each one once.
proof fn lemma_sorted_indexed_ids(ids: Seq<Seq<char>>)
    requires
        ids.no_duplicates(),
    ensures
        ({
            let sorted = indexed_ids(ids).sort_by(index_order());
            &&& sorted.len() == indexed_ids(ids).len()
            &&& sorted.no_duplicates()
            &&& vstd::relations::sorted_by(sorted, index_order())
            &&& forall|id: Seq<char>| #[trigger]
                sorted.contains(id) <==> ids.contains(id) && device_id::gpu_index(id) is Some
        }),
{
    broadcast use vstd::seq_lib::group_to_multiset_ensures;

    let has_index = |id: Seq<char>| device_id::gpu_index(id) is Some;
    let listed = indexed_ids(ids);
    let sorted = listed.sort_by(index_order());
    law_index_order_is_total();
    listed.lemma_sort_by_ensures(index_order());
    lemma_filter_members(ids, has_index);
    assert(sorted.to_multiset().len() == sorted.len());
    assert(listed.to_multiset().len() == listed.len());
    listed.lemma_multiset_has_no_duplicates();
    sorted.lemma_multiset_has_no_duplicates_conv();
    assert forall|id: Seq<char>| #[trigger] sorted.contains(id) <==> listed.contains(id) by {
        assert(sorted.to_multiset().count(id) == listed.to_multiset().count(id));
    }
}

/// What a filter keeps.
proof fn lemma_filter_members(ids: Seq<Seq<char>>, keep: spec_fn(Seq<char>) -> bool)
    ensures
        forall|id: Seq<char>| #[trigger]
            ids.filter(keep).contains(id) <==> ids.contains(id) && keep(id),
        ids.no_duplicates() ==> ids.filter(keep).no_duplicates(),
        text::strictly_sorted(ids) ==> text::strictly_sorted(ids.filter(keep)),
    decreases ids.len(),
{
    reveal(Seq::filter);
    if ids.len() > 0 {
        let shorter = ids.drop_last();
        lemma_filter_members(shorter, keep);
        assert(ids =~= shorter.push(ids.last()));
        let kept = shorter.filter(keep);
        assert forall|id: Seq<char>| #[trigger]
            ids.filter(keep).contains(id) <==> ids.contains(id) && keep(id) by {
            if shorter.contains(id) {
                let k = choose|k: int| 0 <= k < shorter.len() && shorter[k] == id;
                assert(ids[k] == id);
            }
            if ids.contains(id) && id != ids.last() {
                let k = choose|k: int| 0 <= k < ids.len() && ids[k] == id;
                assert(shorter[k] == id);
            }
            assert(ids[ids.len() - 1] == ids.last());
            if keep(ids.last()) {
                assert(ids.filter(keep) == kept.push(ids.last()));
                if kept.contains(id) {
                    let k = choose|k: int| 0 <= k < kept.len() && kept[k] == id;
                    assert(kept.push(ids.last())[k] == id);
                }
                assert(kept.push(ids.last())[kept.len() as int] == ids.last());
            }
        }
        if text::strictly_sorted(ids) && keep(ids.last()) {
            assert forall|i: int| 0 <= i < kept.len() implies text::text_less(
                #[trigger] kept[i],
                ids.last(),
            ) by {
                assert(kept.contains(kept[i]));
                let k = choose|k: int| 0 <= k < shorter.len() && shorter[k] == kept[i];
                assert(ids[k] == kept[i]);
            }
        }
        if ids.no_duplicates() && keep(ids.last()) {
            assert(!kept.contains(ids.last()));
        }
    }
}

/// No text occurs twice in strictly sorted texts.
proof fn lemma_sorted_has_no_duplicates(texts: Seq<Seq<char>>)
    requires
        text::strictly_sorted(texts),
    ensures
        texts.no_duplicates(),
{
    assert forall|i: int, j: int|
        0 <= i < texts.len() && 0 <= j < texts.len() && i != j implies texts[i] != texts[j] by {
        text::law_order_is_total(texts[i], texts[j]);
    }
}

/// A family is never empty, holds no identifier twice and holds only identifiers of the inventory.
pub proof fn law_family_is_part_of_inventory(ids: Seq<Seq<char>>, allow_all_devices: bool)
    requires
        inventory::is_normalized(ids),
    ensures
        default_family(ids, allow_all_devices) matches Ok(family) ==> {
            &&& family.len() > 0
            &&& family.no_duplicates()
            &&& forall|id: Seq<char>| #[trigger] family.contains(id) ==> ids.contains(id)
        },
{
    lemma_sorted_has_no_duplicates(ids);
    lemma_sorted_indexed_ids(ids);
    lemma_filter_members(ids, |id: Seq<char>| device_id::names_one_gpu(id));
}

/// Where an inventory lists numbered devices, the family is exactly those devices, ordered by
/// number and then by text. No other sequence is.
pub proof fn law_numbered_devices_come_first(
    ids: Seq<Seq<char>>,
    allow_all_devices: bool,
    candidate: Seq<Seq<char>>,
)
    requires
        inventory::is_normalized(ids),
        exists|id: Seq<char>| #[trigger] ids.contains(id) && device_id::gpu_index(id) is Some,
    ensures
        is_default_family(ids, allow_all_devices, candidate) <==> {
            &&& forall|i: int, j: int|
                0 <= i < j < candidate.len() ==> {
                    let number = device_id::gpu_index(#[trigger] candidate[i])->0;
                    let later = device_id::gpu_index(#[trigger] candidate[j])->0;
                    number < later || (number == later && text::text_less(
                        candidate[i],
                        candidate[j],
                    ))
                }
            &&& forall|id: Seq<char>| #[trigger]
                candidate.contains(id) <==> ids.contains(id) && device_id::gpu_index(id) is Some
        },
{
    let order = index_order();
    let sorted = indexed_ids(ids).sort_by(order);
    lemma_sorted_has_no_duplicates(ids);
    lemma_sorted_indexed_ids(ids);
    let numbered = choose|id: Seq<char>| #[trigger]
        ids.contains(id) && device_id::gpu_index(id) is Some;
    assert(sorted.contains(numbered));
    assert forall|i: int, j: int| 0 <= i < j < sorted.len() implies {
        let number = device_id::gpu_index(#[trigger] sorted[i])->0;
        let later = device_id::gpu_index(#[trigger] sorted[j])->0;
        number < later || (number == later && text::text_less(sorted[i], sorted[j]))
    } by {
        assert(sorted.contains(sorted[i]) && sorted.contains(sorted[j]));
        assert(order(sorted[i], sorted[j]));
    }
    if (forall|i: int, j: int|
        0 <= i < j < candidate.len() ==> {
            let number = device_id::gpu_index(#[trigger] candidate[i])->0;
            let later = device_id::gpu_index(#[trigger] candidate[j])->0;
            number < later || (number == later && text::text_less(candidate[i], candidate[j]))
        }) && (forall|id: Seq<char>| #[trigger]
        candidate.contains(id) <==> ids.contains(id) && device_id::gpu_index(id) is Some) {
        assert forall|i: int, j: int| 0 <= i < j < candidate.len() implies #[trigger] order(
            candidate[i],
            candidate[j],
        ) && candidate[i] != candidate[j] by {
            assert(candidate.contains(candidate[i]) && candidate.contains(candidate[j]));
            text::law_order_is_total(candidate[i], candidate[j]);
        }
        assert(candidate.no_duplicates()) by {
            assert forall|i: int, j: int|
                0 <= i < candidate.len() && 0 <= j < candidate.len() && i != j implies candidate[i]
                != candidate[j] by {
                if i < j {
                    assert(order(candidate[i], candidate[j]));
                } else {
                    assert(order(candidate[j], candidate[i]));
                }
            }
        }
        lemma_same_members_same_multiset(candidate, sorted);
        law_index_order_is_total();
        vstd::seq_lib::lemma_sorted_unique(candidate, sorted, order);
    }
}

/// Sequences without duplicates hold the same items equally often where they hold the same items.
proof fn lemma_same_members_same_multiset(a: Seq<Seq<char>>, b: Seq<Seq<char>>)
    requires
        a.no_duplicates(),
        b.no_duplicates(),
        forall|t: Seq<char>| #[trigger] a.contains(t) <==> b.contains(t),
    ensures
        a.to_multiset() == b.to_multiset(),
{
    broadcast use vstd::seq_lib::group_to_multiset_ensures;

    a.lemma_multiset_has_no_duplicates();
    b.lemma_multiset_has_no_duplicates();
    assert forall|t: Seq<char>| a.to_multiset().count(t) == b.to_multiset().count(t) by {
        assert(a.contains(t) <==> b.contains(t));
        assert(a.to_multiset().contains(t) <==> a.contains(t));
        assert(b.to_multiset().contains(t) <==> b.contains(t));
    }
    assert(a.to_multiset() =~= b.to_multiset());
}

/// Where an inventory lists no numbered device but devices with other names, the family is
/// exactly those devices, sorted by text. No other sequence is.
pub proof fn law_named_devices_come_second(
    ids: Seq<Seq<char>>,
    allow_all_devices: bool,
    candidate: Seq<Seq<char>>,
)
    requires
        inventory::is_normalized(ids),
        forall|id: Seq<char>| #[trigger] ids.contains(id) ==> device_id::gpu_index(id) is None,
        exists|id: Seq<char>| #[trigger] ids.contains(id) && id != "nvidia.com/gpu=all"@,
    ensures
        is_default_family(ids, allow_all_devices, candidate) <==> {
            &&& forall|i: int, j: int|
                0 <= i < j < candidate.len() ==> text::text_less(
                    #[trigger] candidate[i],
                    #[trigger] candidate[j],
                )
            &&& forall|id: Seq<char>| #[trigger]
                candidate.contains(id) <==> ids.contains(id) && id != "nvidia.com/gpu=all"@
        },
{
    let named = named_ids(ids);
    lemma_no_numbered_ids(ids);
    lemma_filter_members(ids, |id: Seq<char>| device_id::names_one_gpu(id));
    assert forall|id: Seq<char>| #[trigger] ids.contains(id) implies (device_id::names_one_gpu(id)
        <==> id != "nvidia.com/gpu=all"@) by {
        let i = choose|i: int| 0 <= i < ids.len() && ids[i] == id;
        assert(device_id::gpu_suffix(ids[i]) is Some);
        device_id::law_all_is_the_only_collective_id(id);
    }
    let own = choose|id: Seq<char>| #[trigger]
        ids.contains(id) && id != "nvidia.com/gpu=all"@;
    assert(named.contains(own));
    if text::strictly_sorted(candidate) && (forall|id: Seq<char>| #[trigger]
        candidate.contains(id) <==> ids.contains(id) && id != "nvidia.com/gpu=all"@) {
        text::law_sorted_texts_are_unique(candidate, named);
    }
}

/// Without a numbered device there are no numbered identifiers.
proof fn lemma_no_numbered_ids(ids: Seq<Seq<char>>)
    requires
        forall|id: Seq<char>| #[trigger] ids.contains(id) ==> device_id::gpu_index(id) is None,
    ensures
        indexed_ids(ids).len() == 0,
{
    let indexed = indexed_ids(ids);
    lemma_filter_members(ids, |id: Seq<char>| device_id::gpu_index(id) is Some);
    if indexed.len() > 0 {
        assert(indexed.contains(indexed[0]));
    }
}

/// When a default request is refused, and when it gets every GPU. No device is available exactly
/// where the inventory is empty. Every GPU is the default exactly where the inventory holds
/// nothing but the identifier for every GPU, and then only where the platform allows it; where
/// it does not, the request is refused. In any other inventory the family leaves that identifier
/// out and the platform makes no difference.
pub proof fn law_every_gpu_is_the_last_resort(ids: Seq<Seq<char>>, allow_all_devices: bool)
    requires
        inventory::is_normalized(ids),
    ensures
        match default_family(ids, allow_all_devices) {
            Ok(family) => family.contains(CDI_GPU_DEVICE_ALL@) <==> ids
                == seq![CDI_GPU_DEVICE_ALL@],
            Err(error) => error != CdiGpuSelectionError::MissingDefaultDevice,
        },
        is_refused(
            ids,
            allow_all_devices,
            CdiGpuSelectionError::NoAvailableDevices,
        ) <==> ids.len() == 0,
        is_refused(
            ids,
            allow_all_devices,
            CdiGpuSelectionError::AllDevicesDefaultUnsupported,
        ) <==> ids == seq![CDI_GPU_DEVICE_ALL@] && !allow_all_devices,
        is_default_family(ids, allow_all_devices, seq![CDI_GPU_DEVICE_ALL@]) <==> ids
            == seq![CDI_GPU_DEVICE_ALL@] && allow_all_devices,
        ids != seq![CDI_GPU_DEVICE_ALL@] ==> default_family(ids, true) == default_family(
            ids,
            false,
        ),
{
    let all = CDI_GPU_DEVICE_ALL@;
    let indexed = indexed_ids(ids);
    let named = named_ids(ids);
    device_id::law_all_is_the_only_collective_id(all);
    lemma_sorted_has_no_duplicates(ids);
    lemma_sorted_indexed_ids(ids);
    lemma_filter_members(ids, |id: Seq<char>| device_id::gpu_index(id) is Some);
    lemma_filter_members(ids, |id: Seq<char>| device_id::names_one_gpu(id));
    if indexed.len() == 0 && named.len() == 0 {
        assert forall|i: int| 0 <= i < ids.len() implies #[trigger] ids[i] == all by {
            device_id::law_all_is_the_only_collective_id(ids[i]);
            assert(ids.contains(ids[i]));
            assert(!named.contains(ids[i]));
        }
        if ids.len() > 0 {
            assert(ids[0] == all);
            assert(ids.len() == 1) by {
                if ids.len() > 1 {
                    assert(ids[1] == all);
                }
            }
            assert(ids =~= seq![all]);
        }
    } else if indexed.len() > 0 {
        let sorted = indexed.sort_by(index_order());
        assert(indexed.contains(indexed[0]));
        assert(sorted.contains(sorted[0]));
        if ids == seq![all] {
            assert(ids.contains(indexed[0]));
        }
        if sorted.contains(all) {
            assert(device_id::gpu_index(all) is Some);
        }
        assert(seq![all].contains(seq![all][0]));
    } else {
        assert(named.contains(named[0]));
        if ids == seq![all] {
            assert(ids.contains(named[0]));
        }
        assert(seq![all].contains(seq![all][0]));
    }
}

/// Of two numbered devices of a family, the one with the smaller number stands first; with equal
/// numbers, the one whose identifier comes first.
pub proof fn law_family_is_in_numeric_order(
    ids: Seq<Seq<char>>,
    allow_all_devices: bool,
    family: Seq<Seq<char>>,
    i: int,
    j: int,
    number: u64,
    later: u64,
)
    requires
        inventory::is_normalized(ids),
        is_default_family(ids, allow_all_devices, family),
        0 <= i < j < family.len(),
        device_id::gpu_index(family[i]) == Some(number),
        device_id::gpu_index(family[j]) == Some(later),
    ensures
        number <= later,
        number == later ==> text::text_less(family[i], family[j]),
{
    law_family_is_part_of_inventory(ids, allow_all_devices);
    assert(family.contains(family[i]));
    assert(ids.contains(family[i]) && device_id::gpu_index(family[i]) is Some);
    law_numbered_devices_come_first(ids, allow_all_devices, family);
}

/// What a family is, for any inventory. Where some identifier of the inventory has a number, the
/// family has exactly those with a number, by number and then by text. Else it has every identifier
/// but the one for every GPU, by text. Where there is only that one, the family is it alone, if
/// that is allowed. Every other request is refused, for want of devices exactly where the
/// inventory is empty.
pub proof fn law_what_a_family_is(ids: Seq<Seq<char>>, allow_all_devices: bool)
    requires
        inventory::is_normalized(ids),
    ensures
        match default_family(ids, allow_all_devices) {
            Ok(family) => {
                let all = "nvidia.com/gpu=all"@;
                let numbered = exists|id: Seq<char>| #[trigger]
                    ids.contains(id) && device_id::gpu_index(id) is Some;
                &&& ids.len() > 0
                &&& ids == seq![all] ==> allow_all_devices
                &&& forall|id: Seq<char>| #[trigger]
                    family.contains(id) <==> ids.contains(id) && (if numbered {
                        device_id::gpu_index(id) is Some
                    } else {
                        id != all || ids == seq![all]
                    })
                &&& forall|i: int, j: int|
                    0 <= i < j < family.len() ==> {
                        let number = device_id::gpu_index(#[trigger] family[i]);
                        let later = device_id::gpu_index(#[trigger] family[j]);
                        if numbered {
                            number->0 < later->0 || (number == later && text::text_less(
                                family[i],
                                family[j],
                            ))
                        } else {
                            text::text_less(family[i], family[j])
                        }
                    }
            },
            Err(error) => {
                ||| error == CdiGpuSelectionError::NoAvailableDevices && ids.len() == 0
                ||| error == CdiGpuSelectionError::AllDevicesDefaultUnsupported && ids
                    == seq!["nvidia.com/gpu=all"@] && !allow_all_devices
            },
        },
{
    let all = "nvidia.com/gpu=all"@;
    law_every_gpu_is_the_last_resort(ids, allow_all_devices);
    law_family_is_part_of_inventory(ids, allow_all_devices);
    if let Ok(family) = default_family(ids, allow_all_devices) {
        if exists|id: Seq<char>| #[trigger]
            ids.contains(id) && device_id::gpu_index(id) is Some {
            law_numbered_devices_come_first(ids, allow_all_devices, family);
            assert forall|i: int, j: int| 0 <= i < j < family.len() implies {
                let number = device_id::gpu_index(#[trigger] family[i]);
                let later = device_id::gpu_index(#[trigger] family[j]);
                number->0 < later->0 || (number == later && text::text_less(family[i], family[j]))
            } by {
                assert(family.contains(family[i]) && family.contains(family[j]));
            }
        } else if exists|id: Seq<char>| #[trigger] ids.contains(id) && id != all {
            law_named_devices_come_second(ids, allow_all_devices, family);
            let own = choose|id: Seq<char>| #[trigger] ids.contains(id) && id != all;
            assert(ids != seq![all]);
        } else {
            assert(ids.contains(ids[0]));
            if ids.len() > 1 {
                assert(ids.contains(ids[1]));
                text::law_order_is_total(all, all);
            }
            assert(ids =~= seq![all]);
            assert(family == seq![all]);
            assert(family[0] == all && ids[0] == all);
        }
    }
}

} // verus!
