//! The GPUs that a container runtime reports.

use vstd::prelude::*;
use crate::config::CDI_GPU_DEVICE_ALL;
use crate::device_id;
use crate::device_id::{cdi_nvidia_gpu_index, cdi_nvidia_gpu_suffix, CDI_NVIDIA_GPU_ALL_SUFFIX};
use crate::error::CdiGpuSelectionError;
use crate::family;
use crate::text;
use crate::text::{comes_before, same_text, trim_white_space};

verus! {

/// The identifiers of an inventory: sorted, each one once, each an NVIDIA GPU identifier without
/// white space around it.
pub open spec fn is_normalized(ids: Seq<Seq<char>>) -> bool {
    &&& text::strictly_sorted(ids)
    &&& forall|i: int|
        0 <= i < ids.len() ==> device_id::gpu_suffix(#[trigger] ids[i]) is Some
            && text::trimmed(ids[i]) == ids[i]
}

/// `id` is an NVIDIA GPU identifier that the runtime reported, with or without white space
/// around it.
pub open spec fn is_reported(reported: Seq<Seq<char>>, id: Seq<char>) -> bool {
    &&& device_id::gpu_suffix(id) is Some
    &&& exists|i: int| 0 <= i < reported.len() && text::trimmed(#[trigger] reported[i]) == id
}

/// `ids` are the identifiers of the inventory built from what the runtime reported.
pub open spec fn is_inventory_of(ids: Seq<Seq<char>>, reported: Seq<Seq<char>>) -> bool {
    &&& is_normalized(ids)
    &&& forall|id: Seq<char>| #[trigger] ids.contains(id) <==> is_reported(reported, id)
}

/// Normalized CDI GPU inventory used by local container drivers.
#[derive(Debug)]
pub struct CdiGpuInventory {
    device_ids: Vec<String>,
}

impl View for CdiGpuInventory {
    type V = Seq<Seq<char>>;

    closed spec fn view(&self) -> Seq<Seq<char>> {
        self.device_ids.deep_view()
    }
}

impl CdiGpuInventory {
    #[verifier::type_invariant]
    spec fn well_formed(self) -> bool {
        is_normalized(self.device_ids.deep_view())
    }

    /// Build a normalized inventory from runtime-reported CDI device IDs.
    #[must_use]
    pub fn new(device_ids: &[&str]) -> (res: Self)
        ensures
            is_inventory_of(res@, device_ids.deep_view()),
            forall|i: int|
                0 <= i < device_ids@.len() ==> ("nvidia.com/gpu="@.is_prefix_of(
                    text::trimmed(#[trigger] device_ids@[i]@),
                ) <==> res@.contains(text::trimmed(device_ids@[i]@))),
            forall|id: Seq<char>| #[trigger]
                res@.contains(id) ==> exists|i: int|
                    0 <= i < device_ids@.len() && text::trimmed(#[trigger] device_ids@[i]@) == id,
            forall|k: int, m: int|
                0 <= k < m < res@.len() ==> text::text_less(
                    #[trigger] res@[k],
                    #[trigger] res@[m],
                ),
    {
        let ghost reported = device_ids.deep_view();
        let mut ids: Vec<String> = Vec::new();
        for i in 0..device_ids.len()
            invariant
                reported == device_ids.deep_view(),
                is_inventory_of(ids.deep_view(), reported.take(i as int)),
        {
            let ghost before = ids.deep_view();
            let id = trim_white_space(device_ids[i]);
            proof {
                text::law_trimming_is_idempotent(reported[i as int]);
                lemma_reported_push(reported, i as int);
            }
            if cdi_nvidia_gpu_suffix(id).is_some() {
                let position: usize = insertion_point(&ids, id);
                if position == ids.len() || !same_text(ids[position].as_str(), id) {
                    proof {
                        lemma_insert_keeps_inventory(
                            before,
                            reported.take(i as int),
                            reported.take(i + 1),
                            position as int,
                            id@,
                        );
                    }
                    ids.insert(position, id.to_string());
                    assert(ids.deep_view() =~= before.insert(position as int, id@));
                } else {
                    assert(before[position as int] == id@);
                    assert(before.contains(id@));
                }
            }
        }
        assert(reported.take(reported.len() as int) =~= reported);
        proof {
            let texts = ids.deep_view();
            assert forall|i: int|
                0 <= i < device_ids@.len() implies ("nvidia.com/gpu="@.is_prefix_of(
                text::trimmed(#[trigger] device_ids@[i]@),
            ) <==> texts.contains(text::trimmed(device_ids@[i]@))) by {
                let id = text::trimmed(reported[i]);
                device_id::law_device_name_follows_the_prefix(id, id);
                assert(texts.contains(id) <==> is_reported(reported, id));
            }
            assert forall|id: Seq<char>| #[trigger] texts.contains(id) implies exists|i: int|
                0 <= i < device_ids@.len() && text::trimmed(#[trigger] device_ids@[i]@) == id by {
                assert(is_reported(reported, id));
                let i = choose|i: int|
                    0 <= i < reported.len() && text::trimmed(#[trigger] reported[i]) == id;
                assert(reported[i] == device_ids@[i]@);
            }
        }
        CdiGpuInventory { device_ids: ids }
    }

    /// The identifiers of the inventory, in order.
    #[must_use]
    pub fn as_slice(&self) -> (res: &[String])
        ensures
            res.deep_view() == self@,
            is_normalized(self@),
            res@.len() == self@.len(),
            forall|i: int| 0 <= i < self@.len() ==> (#[trigger] res@[i])@ == self@[i],
    {
        proof {
            use_type_invariant(self);
        }
        let res = self.device_ids.as_slice();
        assert(res.deep_view() =~= self.device_ids.deep_view());
        res
    }

    /// Tells whether the runtime reported no NVIDIA GPU.
    #[must_use]
    pub fn is_empty(&self) -> (res: bool)
        ensures
            res == (self@.len() == 0),
    {
        self.device_ids.is_empty()
    }

    /// Returns the identifiers that default requests rotate over.
    pub fn default_device_family(&self, allow_all_devices: bool) -> (res: Result<
        Vec<String>,
        CdiGpuSelectionError,
    >)
        ensures
            family::family_text(res) == family::default_family(self@, allow_all_devices),
            is_normalized(self@),
            match res {
                Ok(devices) => family::default_family(self@, allow_all_devices) matches Ok(family)
                    && devices.deep_view() == family,
                Err(error) => family::default_family(self@, allow_all_devices) matches Err(reason)
                    && reason == error,
            },
            match res {
                Ok(devices) => {
                    let all = "nvidia.com/gpu=all"@;
                    let numbered = exists|id: Seq<char>| #[trigger]
                        self@.contains(id) && device_id::gpu_index(id) is Some;
                    let ids = devices.deep_view();
                    &&& self@.len() > 0
                    &&& self@ == seq![all] ==> allow_all_devices
                    &&& forall|id: Seq<char>| #[trigger]
                        ids.contains(id) <==> self@.contains(id) && (if numbered {
                            device_id::gpu_index(id) is Some
                        } else {
                            id != all || self@ == seq![all]
                        })
                    &&& forall|i: int, j: int|
                        0 <= i < j < ids.len() ==> {
                            let number = device_id::gpu_index(#[trigger] ids[i]);
                            let later = device_id::gpu_index(#[trigger] ids[j]);
                            if numbered {
                                number->0 < later->0 || (number == later && text::text_less(
                                    ids[i],
                                    ids[j],
                                ))
                            } else {
                                text::text_less(ids[i], ids[j])
                            }
                        }
                },
                Err(error) => {
                    ||| error == CdiGpuSelectionError::NoAvailableDevices && self@.len() == 0
                    ||| error == CdiGpuSelectionError::AllDevicesDefaultUnsupported && self@
                        == seq!["nvidia.com/gpu=all"@] && !allow_all_devices
                },
            },
    {
        proof {
            use_type_invariant(self);
            family::law_what_a_family_is(self@, allow_all_devices);
        }
        let indexed = self.indexed_devices();
        if !indexed.is_empty() {
            return Ok(indexed);
        }
        let named = self.named_devices();
        if !named.is_empty() {
            return Ok(named);
        }
        proof {
            lemma_only_all_is_left(self@);
        }
        if self.device_ids.is_empty() {
            return Err(CdiGpuSelectionError::NoAvailableDevices);
        }
        if !allow_all_devices {
            return Err(CdiGpuSelectionError::AllDevicesDefaultUnsupported);
        }
        let all: Vec<String> = vec![CDI_GPU_DEVICE_ALL.to_string()];
        assert(all.deep_view() =~= seq![CDI_GPU_DEVICE_ALL@]);
        Ok(all)
    }

    /// The numbered devices, ordered by number and then by text.
    fn indexed_devices(&self) -> (res: Vec<String>)
        ensures
            res.deep_view() == family::indexed_ids(self@).sort_by(family::index_order()),
            res.len() == family::indexed_ids(self@).len(),
    {
        proof {
            use_type_invariant(self);
            family::law_index_order_is_total();
        }
        let ghost ids = self@;
        let mut devices: Vec<String> = Vec::new();
        let mut indexes: Vec<u64> = Vec::new();
        assert(devices.deep_view() =~= Seq::<Seq<char>>::empty());
        assert(ids.take(0) =~= Seq::<Seq<char>>::empty());
        proof {
            reveal(Seq::filter);
        }
        for i in 0..self.device_ids.len()
            invariant
                ids == self.device_ids.deep_view(),
                is_normalized(ids),
                devices.len() == indexes.len(),
                forall|k: int|
                    0 <= k < indexes.len() ==> device_id::gpu_index(
                        #[trigger] devices.deep_view()[k],
                    ) == Some(indexes@[k]),
                forall|k: int, m: int|
                    0 <= k < m < indexes.len() ==> indexes@[k] <= indexes@[m],
                vstd::relations::sorted_by(devices.deep_view(), family::index_order()),
                forall|k: int, m: int|
                    0 <= k < devices.len() && i <= m < ids.len() ==> text::text_less(
                        #[trigger] devices.deep_view()[k],
                        #[trigger] ids[m],
                    ),
                devices.deep_view().to_multiset() == family::indexed_ids(
                    ids.take(i as int),
                ).to_multiset(),
        {
            let id = &self.device_ids[i];
            let ghost before = devices.deep_view();
            proof {
                broadcast use vstd::seq_lib::group_to_multiset_ensures;

                assert(ids[i as int] == id@);
                assert(ids.take(i + 1).drop_last() =~= ids.take(i as int));
                reveal(Seq::filter);
            }
            if let Some(index) = cdi_nvidia_gpu_index(id.as_str()) {
                let position: usize = position_after(&indexes, index);
                devices.insert(position, id.clone());
                indexes.insert(position, index);
                proof {
                    let after = devices.deep_view();
                    assert(after =~= before.insert(position as int, id@));
                    lemma_insert_in_multiset(before, position as int, id@);
                    lemma_insert_by_index(before, position as int, id@);
                }
            }
        }
        proof {
            broadcast use vstd::seq_lib::group_to_multiset_ensures;

            assert(ids.take(ids.len() as int) =~= ids);
            assert(devices.deep_view().to_multiset().len() == devices.len());
            family::indexed_ids(ids).lemma_sort_by_ensures(family::index_order());
            vstd::seq_lib::lemma_sorted_unique(
                devices.deep_view(),
                family::indexed_ids(ids).sort_by(family::index_order()),
                family::index_order(),
            );
        }
        devices
    }

    /// The devices with a name of their own, in the inventory's order.
    fn named_devices(&self) -> (res: Vec<String>)
        ensures
            res.deep_view() == family::named_ids(self@),
    {
        let ghost ids = self@;
        let mut devices: Vec<String> = Vec::new();
        assert(ids.take(0) =~= Seq::<Seq<char>>::empty());
        proof {
            reveal(Seq::filter);
        }
        for i in 0..self.device_ids.len()
            invariant
                ids == self.device_ids.deep_view(),
                devices.deep_view() =~= family::named_ids(ids.take(i as int)),
        {
            let id = &self.device_ids[i];
            let ghost before = devices.deep_view();
            proof {
                assert(ids.take(i + 1).drop_last() =~= ids.take(i as int));
                reveal(Seq::filter);
            }
            if let Some(suffix) = cdi_nvidia_gpu_suffix(id.as_str()) {
                if !same_text(suffix, CDI_NVIDIA_GPU_ALL_SUFFIX) {
                    devices.push(id.clone());
                    assert(devices.deep_view() =~= before.push(id@));
                }
            }
        }
        assert(ids.take(ids.len() as int) =~= ids);
        devices
    }
}

/// The position after the last number that is at most `index`.
fn position_after(indexes: &Vec<u64>, index: u64) -> (res: usize)
    requires
        forall|i: int, j: int| 0 <= i < j < indexes.len() ==> indexes@[i] <= indexes@[j],
    ensures
        res <= indexes.len(),
        forall|i: int| 0 <= i < res ==> indexes@[i] <= index,
        forall|i: int| res <= i < indexes.len() ==> index < indexes@[i],
{
    let mut low: usize = 0;
    let mut high: usize = indexes.len();
    while low < high
        invariant
            forall|i: int, j: int| 0 <= i < j < indexes.len() ==> indexes@[i] <= indexes@[j],
            low <= high <= indexes.len(),
            forall|i: int| 0 <= i < low ==> indexes@[i] <= index,
            forall|i: int| high <= i < indexes.len() ==> index < indexes@[i],
        decreases high - low,
    {
        let middle: usize = low + (high - low) / 2;
        if indexes[middle] <= index {
            low = middle + 1;
        } else {
            high = middle;
        }
    }
    low
}

/// Inserting an item adds it to the items, wherever it is put.
proof fn lemma_insert_in_multiset(s: Seq<Seq<char>>, position: int, item: Seq<char>)
    requires
        0 <= position <= s.len(),
    ensures
        s.insert(position, item).to_multiset() == s.to_multiset().insert(item),
{
    broadcast use vstd::seq_lib::group_to_multiset_ensures;

    let grown = s.insert(position, item);
    assert(grown[position] == item);
    assert(grown.remove(position) =~= s);
    assert(grown.to_multiset().count(item) > 0);
    assert(grown.to_multiset() =~= s.to_multiset().insert(item));
}

/// Inserting an identifier after those with at most its device number keeps the order by number,
/// where those with the same number come before it by text.
proof fn lemma_insert_by_index(ids: Seq<Seq<char>>, position: int, id: Seq<char>)
    requires
        vstd::relations::sorted_by(ids, family::index_order()),
        0 <= position <= ids.len(),
        forall|i: int|
            0 <= i < position ==> family::index_rank(#[trigger] ids[i]) <= family::index_rank(id),
        forall|i: int|
            position <= i < ids.len() ==> family::index_rank(id) < family::index_rank(
                #[trigger] ids[i],
            ),
        forall|i: int| 0 <= i < ids.len() ==> text::text_less(#[trigger] ids[i], id),
    ensures
        vstd::relations::sorted_by(ids.insert(position, id), family::index_order()),
{
    let order = family::index_order();
    let grown = ids.insert(position, id);
    assert forall|i: int, j: int| 0 <= i < j < grown.len() implies #[trigger] order(
        grown[i],
        grown[j],
    ) by {
        let from = if i < position { i } else { i - 1 };
        let to = if j < position { j } else { j - 1 };
        if i != position && j != position {
            assert(order(ids[from], ids[to]));
        }
    }
}

/// An inventory without a device of its own name is empty or holds the identifier for every GPU
/// and nothing else.
proof fn lemma_only_all_is_left(ids: Seq<Seq<char>>)
    requires
        is_normalized(ids),
        family::named_ids(ids).len() == 0,
    ensures
        ids.contains(CDI_GPU_DEVICE_ALL@) <==> ids.len() > 0,
{
    let named = |id: Seq<char>| device_id::names_one_gpu(id);
    if ids.len() > 0 {
        if device_id::names_one_gpu(ids[0]) {
            ids.lemma_filter_contains(named, 0);
            assert(false);
        }
        device_id::law_all_is_the_only_collective_id(ids[0]);
    }
}

impl Default for CdiGpuInventory {
    fn default() -> (res: Self)
        ensures
            res@ == Seq::<Seq<char>>::empty(),
    {
        let ids: Vec<String> = Vec::new();
        assert(ids.deep_view() =~= Seq::<Seq<char>>::empty());
        CdiGpuInventory { device_ids: ids }
    }
}

impl Clone for CdiGpuInventory {
    fn clone(&self) -> (res: Self)
        ensures
            res@ == self@,
    {
        proof {
            use_type_invariant(self);
        }
        let ids = self.device_ids.clone();
        assert(ids.deep_view() =~= self.device_ids.deep_view());
        CdiGpuInventory { device_ids: ids }
    }
}

impl PartialEq for CdiGpuInventory {
    fn eq(&self, other: &Self) -> (res: bool)
        ensures
            res == (self@ == other@),
    {
        if self.device_ids.len() != other.device_ids.len() {
            assert(self@.len() != other@.len());
            return false;
        }
        for i in 0..self.device_ids.len()
            invariant
                self.device_ids.len() == other.device_ids.len(),
                forall|k: int| 0 <= k < i ==> self@[k] == other@[k],
        {
            if !(self.device_ids[i] == other.device_ids[i]) {
                assert(self@[i as int] != other@[i as int]);
                return false;
            }
        }
        assert(self@ =~= other@);
        true
    }
}

impl vstd::std_specs::cmp::PartialEqSpecImpl for CdiGpuInventory {
    open spec fn obeys_eq_spec() -> bool {
        true
    }

    open spec fn eq_spec(&self, other: &Self) -> bool {
        self@ == other@
    }
}

impl Eq for CdiGpuInventory {

}

/// The position before the first identifier that does not come before `id`.
fn insertion_point(ids: &Vec<String>, id: &str) -> (res: usize)
    requires
        text::strictly_sorted(ids.deep_view()),
    ensures
        res <= ids.len(),
        forall|i: int| 0 <= i < res ==> text::text_less(#[trigger] ids.deep_view()[i], id@),
        forall|i: int|
            res <= i < ids.len() ==> !text::text_less(#[trigger] ids.deep_view()[i], id@),
{
    let ghost texts = ids.deep_view();
    let mut low: usize = 0;
    let mut high: usize = ids.len();
    while low < high
        invariant
            texts == ids.deep_view(),
            text::strictly_sorted(texts),
            low <= high <= ids.len(),
            forall|i: int| 0 <= i < low ==> text::text_less(#[trigger] texts[i], id@),
            forall|i: int|
                high <= i < texts.len() ==> !text::text_less(#[trigger] texts[i], id@),
        decreases high - low,
    {
        let middle: usize = low + (high - low) / 2;
        if comes_before(ids[middle].as_str(), id) {
            assert forall|i: int| 0 <= i < middle + 1 implies text::text_less(
                #[trigger] texts[i],
                id@,
            ) by {
                if i < middle {
                    text::law_order_is_transitive(texts[i], texts[middle as int], id@);
                }
            }
            low = middle + 1;
        } else {
            assert forall|i: int| middle <= i < texts.len() implies !text::text_less(
                #[trigger] texts[i],
                id@,
            ) by {
                if middle < i && text::text_less(texts[i], id@) {
                    text::law_order_is_transitive(texts[middle as int], texts[i], id@);
                }
            }
            high = middle;
        }
    }
    low
}

/// What one more reported identifier adds.
proof fn lemma_reported_push(reported: Seq<Seq<char>>, i: int)
    requires
        0 <= i < reported.len(),
    ensures
        forall|id: Seq<char>| #[trigger]
            is_reported(reported.take(i + 1), id) <==> is_reported(reported.take(i), id) || (
            device_id::gpu_suffix(id) is Some && id == text::trimmed(reported[i])),
{
    let shorter = reported.take(i);
    let longer = reported.take(i + 1);
    assert forall|id: Seq<char>| #[trigger]
        is_reported(longer, id) <==> is_reported(shorter, id) || (device_id::gpu_suffix(
            id,
        ) is Some && id == text::trimmed(reported[i])) by {
        if is_reported(shorter, id) {
            let k = choose|k: int|
                0 <= k < shorter.len() && text::trimmed(#[trigger] shorter[k]) == id;
            assert(longer[k] == shorter[k]);
        }
        if id == text::trimmed(reported[i]) {
            assert(longer[i] == reported[i]);
        }
        if is_reported(longer, id) {
            let k = choose|k: int|
                0 <= k < longer.len() && text::trimmed(#[trigger] longer[k]) == id;
            if k < i {
                assert(shorter[k] == longer[k]);
            }
        }
    }
}

/// Inserting a new identifier in its place keeps the inventory normalized.
proof fn lemma_insert_keeps_inventory(
    ids: Seq<Seq<char>>,
    reported: Seq<Seq<char>>,
    extended: Seq<Seq<char>>,
    position: int,
    id: Seq<char>,
)
    requires
        is_inventory_of(ids, reported),
        forall|t: Seq<char>| #[trigger]
            is_reported(extended, t) <==> is_reported(reported, t) || t == id,
        device_id::gpu_suffix(id) is Some,
        text::trimmed(id) == id,
        0 <= position <= ids.len(),
        forall|i: int| 0 <= i < position ==> text::text_less(#[trigger] ids[i], id),
        forall|i: int| position <= i < ids.len() ==> !text::text_less(#[trigger] ids[i], id),
        position < ids.len() ==> ids[position] != id,
    ensures
        is_inventory_of(ids.insert(position, id), extended),
{
    let grown = ids.insert(position, id);
    assert forall|i: int| position <= i < ids.len() implies text::text_less(
        id,
        #[trigger] ids[i],
    ) by {
        text::law_order_is_total(ids[i], id);
        text::law_order_is_total(ids[position], id);
    }
    assert forall|i: int, j: int| 0 <= i < j < grown.len() implies text::text_less(
        #[trigger] grown[i],
        #[trigger] grown[j],
    ) by {
        let from = if i < position { i } else { i - 1 };
        let to = if j < position { j } else { j - 1 };
        if i != position && j != position {
            assert(text::text_less(ids[from], ids[to]));
        }
    }
    assert forall|t: Seq<char>| #[trigger] grown.contains(t) <==> is_reported(extended, t) by {
        if grown.contains(t) && t != id {
            let k = choose|k: int| 0 <= k < grown.len() && grown[k] == t;
            let from = if k < position { k } else { k - 1 };
            assert(ids[from] == t);
            assert(ids.contains(t));
        }
        if ids.contains(t) {
            let k = choose|k: int| 0 <= k < ids.len() && ids[k] == t;
            let to = if k < position { k } else { k + 1 };
            assert(grown[to] == t);
        }
        assert(grown[position] == id);
    }
}

/// An inventory depends only on which NVIDIA GPU identifiers are reported: neither their order, nor
/// how often each comes, nor white space around them, nor other devices make a difference.
pub proof fn law_inventory_is_determined(
    ids: Seq<Seq<char>>,
    reported: Seq<Seq<char>>,
    other_ids: Seq<Seq<char>>,
    other_reported: Seq<Seq<char>>,
)
    requires
        is_inventory_of(ids, reported),
        is_inventory_of(other_ids, other_reported),
        forall|id: Seq<char>| #[trigger]
            is_reported(reported, id) <==> is_reported(other_reported, id),
    ensures
        ids == other_ids,
{
    assert forall|id: Seq<char>| #[trigger] ids.contains(id) <==> other_ids.contains(id) by {
        assert(is_reported(reported, id) <==> is_reported(other_reported, id));
    }
    text::law_sorted_texts_are_unique(ids, other_ids);
}

/// An inventory built from the identifiers of an inventory is the same inventory.
pub proof fn law_normalizing_is_idempotent(ids: Seq<Seq<char>>, again: Seq<Seq<char>>)
    requires
        is_normalized(ids),
        is_inventory_of(again, ids),
    ensures
        again == ids,
{
    assert forall|id: Seq<char>| #[trigger] again.contains(id) <==> ids.contains(id) by {
        assert(again.contains(id) <==> is_reported(ids, id));
        if ids.contains(id) {
            let i = choose|i: int| 0 <= i < ids.len() && ids[i] == id;
            assert(text::trimmed(ids[i]) == id);
        }
        if is_reported(ids, id) {
            let i = choose|i: int| 0 <= i < ids.len() && text::trimmed(#[trigger] ids[i]) == id;
            assert(ids[i] == id);
        }
    }
    text::law_sorted_texts_are_unique(again, ids);
}

/// An inventory is empty exactly where no reported identifier is that of an NVIDIA GPU.
pub proof fn law_empty_without_nvidia_gpus(ids: Seq<Seq<char>>, reported: Seq<Seq<char>>)
    requires
        is_inventory_of(ids, reported),
    ensures
        ids.len() == 0 <==> forall|i: int|
            0 <= i < reported.len() ==> device_id::gpu_suffix(
                text::trimmed(#[trigger] reported[i]),
            ) is None,
{
    if ids.len() > 0 {
        assert(ids.contains(ids[0]));
        assert(is_reported(reported, ids[0]));
    } else {
        assert forall|i: int| 0 <= i < reported.len() implies device_id::gpu_suffix(
            text::trimmed(#[trigger] reported[i]),
        ) is None by {
            let id = text::trimmed(reported[i]);
            assert(!ids.contains(id));
        }
    }
}

/// Normalized means: each identifier comes before every later one, each starts with
/// `nvidia.com/gpu=` and none has white space around it.
pub proof fn law_what_normalized_means(ids: Seq<Seq<char>>)
    ensures
        is_normalized(ids) <==> (forall|i: int, j: int|
            0 <= i < j < ids.len() ==> text::text_less(#[trigger] ids[i], #[trigger] ids[j])) && (
        forall|i: int|
            0 <= i < ids.len() ==> "nvidia.com/gpu="@.is_prefix_of(#[trigger] ids[i])
                && text::trimmed(ids[i]) == ids[i]),
{
    assert forall|id: Seq<char>| #[trigger]
        device_id::gpu_suffix(id) is Some <==> "nvidia.com/gpu="@.is_prefix_of(id) by {
        device_id::law_device_name_follows_the_prefix(id, id);
    }
    if is_normalized(ids) {
        assert forall|i: int| 0 <= i < ids.len() implies "nvidia.com/gpu="@.is_prefix_of(
            #[trigger] ids[i],
        ) by {
            assert(device_id::gpu_suffix(ids[i]) is Some);
        }
    }
}

/// A reported identifier that starts with `nvidia.com/gpu=`, whatever follows, is in the inventory
/// without the white space around it, and nothing else is.
pub proof fn law_inventory_holds_the_reported_gpus(
    ids: Seq<Seq<char>>,
    reported: Seq<Seq<char>>,
    id: Seq<char>,
)
    requires
        is_inventory_of(ids, reported),
    ensures
        ids.contains(id) <==> "nvidia.com/gpu="@.is_prefix_of(id) && exists|i: int|
            0 <= i < reported.len() && text::trimmed(#[trigger] reported[i]) == id,
{
    device_id::law_device_name_follows_the_prefix(id, id);
    assert(ids.contains(id) <==> is_reported(reported, id));
}

/// Two inventories are equal exactly where they hold the same identifiers in the same places.
pub proof fn law_equality_compares_every_identifier(a: &CdiGpuInventory, b: &CdiGpuInventory)
    ensures
        vstd::std_specs::cmp::PartialEqSpec::eq_spec(a, b) <==> a@.len() == b@.len() && (forall|
            i: int,
        |
            0 <= i < a@.len() ==> #[trigger] a@[i] == b@[i]),
{
    if a@.len() == b@.len() && (forall|i: int| 0 <= i < a@.len() ==> #[trigger] a@[i] == b@[i]) {
        assert(a@ =~= b@);
    }
}

} // verus!
