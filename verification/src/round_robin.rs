//! Round-robin selection of the device for default GPU requests.

use std::sync::atomic::{AtomicUsize, Ordering};
use vstd::prelude::*;
use crate::error::CdiGpuSelectionError;
use crate::family;
use crate::inventory;
use crate::inventory::CdiGpuInventory;

verus! {

/// The device of a family at a cursor, which counts round and round over the devices.
pub open spec fn device_at(family: Seq<Seq<char>>, cursor: usize) -> Seq<char> {
    family[cursor as int % family.len() as int]
}

/// What a default request selects at a cursor, for the identifiers of an inventory.
pub open spec fn selection(ids: Seq<Seq<char>>, cursor: usize, allow_all_devices: bool) -> Result<
    Seq<char>,
    CdiGpuSelectionError,
> {
    match family::default_family(ids, allow_all_devices) {
        Ok(family) => Ok(device_at(family, cursor)),
        Err(error) => Err(error),
    }
}

/// A default request selects the device `id` at a cursor.
pub open spec fn selects(
    ids: Seq<Seq<char>>,
    cursor: usize,
    allow_all_devices: bool,
    id: Seq<char>,
) -> bool {
    selection(ids, cursor, allow_all_devices) matches Ok(device) && device == id
}

/// A result with the text of its device identifier.
pub open spec fn selected_text(res: Result<String, CdiGpuSelectionError>) -> Result<
    Seq<char>,
    CdiGpuSelectionError,
> {
    match res {
        Ok(id) => Ok(id@),
        Err(error) => Err(error),
    }
}

/// The cursor after one step, which starts over at zero after the largest value.
pub open spec fn advanced(cursor: usize) -> usize {
    if cursor == usize::MAX {
        0
    } else {
        (cursor + 1) as usize
    }
}

/// The cursor after one default request. Only a request that consumes its turn and selects a
/// device moves it.
pub open spec fn cursor_after(
    ids: Seq<Seq<char>>,
    cursor: usize,
    consume: bool,
    allow_all_devices: bool,
) -> usize {
    if consume && family::default_family(ids, allow_all_devices) is Ok {
        advanced(cursor)
    } else {
        cursor
    }
}

/// One default request: the identifiers of the inventory it goes to, whether it consumes its
/// turn, and whether the platform allows every GPU as the default.
pub struct DefaultRequest {
    pub ids: Seq<Seq<char>>,
    pub consume: bool,
    pub allow_all_devices: bool,
}

/// A request takes a turn where it consumes it and selects a device.
pub open spec fn takes_turn(request: DefaultRequest) -> bool {
    request.consume && family::default_family(request.ids, request.allow_all_devices) is Ok
}

/// How many requests of a run take a turn.
pub open spec fn turns_taken(requests: Seq<DefaultRequest>) -> nat {
    requests.filter(|request: DefaultRequest| takes_turn(request)).len()
}

/// The cursor after a run of default requests, each of which finds it where the one before left
/// it.
pub open spec fn cursor_after_run(cursor: usize, requests: Seq<DefaultRequest>) -> usize
    decreases requests.len(),
{
    if requests.len() == 0 {
        cursor
    } else {
        let last = requests.last();
        cursor_after(
            last.ids,
            cursor_after_run(cursor, requests.drop_last()),
            last.consume,
            last.allow_all_devices,
        )
    }
}

/// A run of `turns` consuming default requests to one inventory.
pub open spec fn consuming_run(
    ids: Seq<Seq<char>>,
    turns: nat,
    allow_all_devices: bool,
) -> Seq<DefaultRequest> {
    Seq::new(turns, |turn: int| DefaultRequest { ids, consume: true, allow_all_devices })
}

/// The cursor after `turns` consuming default requests to one inventory.
pub open spec fn cursor_after_turns(
    ids: Seq<Seq<char>>,
    cursor: usize,
    turns: nat,
    allow_all_devices: bool,
) -> usize {
    cursor_after_run(cursor, consuming_run(ids, turns, allow_all_devices))
}

/// Concurrency-safe round-robin cursor for default CDI GPU selection.
#[derive(Debug)]
pub struct CdiGpuRoundRobin {
    next: AtomicUsize,
}

impl CdiGpuRoundRobin {
    /// The atomic that holds the cursor.
    pub closed spec fn cursor_cell(&self) -> AtomicUsize {
        self.next
    }

    /// The cursor was created at zero.
    pub open spec fn starts_at_zero(&self) -> bool {
        call_ensures(AtomicUsize::new, (0usize,), self.cursor_cell())
    }

    /// `cursor` is a value that adding one to the cursor in a single atomic step gives back: the
    /// value from before the addition.
    pub open spec fn claims(&self, cursor: usize) -> bool {
        call_ensures(
            AtomicUsize::fetch_add,
            (&self.cursor_cell(), 1usize, Ordering::Relaxed),
            cursor,
        )
    }

    /// `cursor` is a value that reading the cursor gives.
    pub open spec fn shows(&self, cursor: usize) -> bool {
        call_ensures(AtomicUsize::load, (&self.cursor_cell(), Ordering::Relaxed), cursor)
    }

    /// Create a cursor at the first device.
    ///
    /// That the first access finds zero is the effect of `AtomicUsize::new` and no part of the
    /// contract.
    #[must_use]
    pub fn new() -> (res: Self)
        ensures
            res.starts_at_zero(),
            call_ensures(AtomicUsize::new, (0usize,), res.cursor_cell()),
    {
        CdiGpuRoundRobin { next: AtomicUsize::new(0) }
    }

    /// Return the next default device ID and advance the cursor.
    ///
    /// Other threads may move the cursor at any time, so the cursor of this turn is whichever
    /// value the atomic addition claims. The advance itself is the effect of
    /// `AtomicUsize::fetch_add` on the shared cursor and no part of the contract, nor is it that
    /// a refused request leaves the cursor alone.
    pub fn next_default_device_id(
        &self,
        inventory: &CdiGpuInventory,
        allow_all_devices: bool,
    ) -> (res: Result<String, CdiGpuSelectionError>)
        ensures
            res is Ok <==> family::default_family(inventory@, allow_all_devices) is Ok,
            res is Ok ==> exists|cursor: usize| #[trigger]
                self.claims(cursor) && selected_text(res) == selection(
                    inventory@,
                    cursor,
                    allow_all_devices,
                ),
            res is Err ==> forall|cursor: usize|
                selected_text(res) == #[trigger] selection(inventory@, cursor, allow_all_devices),
            res matches Ok(id) ==> exists|cursor: usize| #[trigger]
                call_ensures(
                    AtomicUsize::fetch_add,
                    (&self.cursor_cell(), 1usize, Ordering::Relaxed),
                    cursor,
                ) && (family::default_family(inventory@, allow_all_devices) matches Ok(family)
                    && id@ == device_at(family, cursor)),
            res matches Err(error) ==> (family::default_family(
                inventory@,
                allow_all_devices,
            ) matches Err(reason) && reason == error),
    {
        self.selected_default_device_id(inventory, true, allow_all_devices)
    }

    /// Return the current default device ID without advancing the cursor.
    ///
    /// Other threads may move the cursor at any time, so the cursor of this look is whichever
    /// value the read shows. That the shared cursor stays where it is follows from what
    /// `AtomicUsize::load` does and is no part of the contract.
    pub fn peek_default_device_id(
        &self,
        inventory: &CdiGpuInventory,
        allow_all_devices: bool,
    ) -> (res: Result<String, CdiGpuSelectionError>)
        ensures
            res is Ok <==> family::default_family(inventory@, allow_all_devices) is Ok,
            res is Ok ==> exists|cursor: usize| #[trigger]
                self.shows(cursor) && selected_text(res) == selection(
                    inventory@,
                    cursor,
                    allow_all_devices,
                ),
            res is Err ==> forall|cursor: usize|
                selected_text(res) == #[trigger] selection(inventory@, cursor, allow_all_devices),
            res matches Ok(id) ==> exists|cursor: usize| #[trigger]
                call_ensures(
                    AtomicUsize::load,
                    (&self.cursor_cell(), Ordering::Relaxed),
                    cursor,
                ) && (family::default_family(inventory@, allow_all_devices) matches Ok(family)
                    && id@ == device_at(family, cursor)),
            res matches Err(error) ==> (family::default_family(
                inventory@,
                allow_all_devices,
            ) matches Err(reason) && reason == error),
    {
        self.selected_default_device_id(inventory, false, allow_all_devices)
    }

    /// Select a default device at the cursor, which a consuming request advances.
    fn selected_default_device_id(
        &self,
        inventory: &CdiGpuInventory,
        consume: bool,
        allow_all_devices: bool,
    ) -> (res: Result<String, CdiGpuSelectionError>)
        ensures
            res is Ok <==> family::default_family(inventory@, allow_all_devices) is Ok,
            res is Ok && consume ==> exists|cursor: usize| #[trigger]
                self.claims(cursor) && selected_text(res) == selection(
                    inventory@,
                    cursor,
                    allow_all_devices,
                ),
            res is Ok && !consume ==> exists|cursor: usize| #[trigger]
                self.shows(cursor) && selected_text(res) == selection(
                    inventory@,
                    cursor,
                    allow_all_devices,
                ),
            res is Err ==> forall|cursor: usize|
                selected_text(res) == #[trigger] selection(inventory@, cursor, allow_all_devices),
            res matches Err(error) ==> (family::default_family(
                inventory@,
                allow_all_devices,
            ) matches Err(reason) && reason == error),
    {
        let devices = match inventory.default_device_family(allow_all_devices) {
            Ok(devices) => devices,
            Err(error) => {
                return Err(error);
            },
        };
        proof {
            family::law_family_is_part_of_inventory(inventory@, allow_all_devices);
        }
        let base: usize = if consume {
            self.next.fetch_add(1, Ordering::Relaxed)
        } else {
            self.next.load(Ordering::Relaxed)
        };
        assert(if consume {
            self.claims(base)
        } else {
            self.shows(base)
        });
        Ok(default_device_at(&devices, base))
    }
}

impl Default for CdiGpuRoundRobin {
    fn default() -> (res: Self)
        ensures
            res.starts_at_zero(),
    {
        CdiGpuRoundRobin::new()
    }
}

/// Return the device of a family at a cursor.
fn default_device_at(devices: &Vec<String>, cursor: usize) -> (res: String)
    requires
        devices.len() > 0,
    ensures
        res@ == device_at(devices.deep_view(), cursor),
        res@ == devices@[cursor as int % devices@.len() as int]@,
{
    devices[cursor % devices.len()].clone()
}

/// Take one turn with a cursor that only the caller moves: return the default device ID at the
/// cursor, and the cursor for the next turn.
pub fn default_device_turn(
    inventory: &CdiGpuInventory,
    cursor: usize,
    consume: bool,
    allow_all_devices: bool,
) -> (res: (Result<String, CdiGpuSelectionError>, usize))
    ensures
        selected_text(res.0) == selection(inventory@, cursor, allow_all_devices),
        res.1 == cursor_after(inventory@, cursor, consume, allow_all_devices),
        match res.0 {
            Ok(id) => family::default_family(inventory@, allow_all_devices) matches Ok(family)
                && id@ == family[cursor as int % family.len() as int],
            Err(error) => family::default_family(inventory@, allow_all_devices) matches Err(reason)
                && reason == error,
        },
        res.1 == (if !consume || res.0 is Err {
            cursor as int
        } else if cursor < usize::MAX {
            cursor + 1
        } else {
            0
        }),
{
    match inventory.default_device_family(allow_all_devices) {
        Ok(devices) => {
            proof {
                family::law_family_is_part_of_inventory(inventory@, allow_all_devices);
            }
            let next: usize = if consume {
                cursor.wrapping_add(1)
            } else {
                cursor
            };
            (Ok(default_device_at(&devices, cursor)), next)
        },
        Err(error) => (Err(error), cursor),
    }
}

/// The turn number `turn` of a run of consuming default requests selects the device `id`. Turns
/// are counted from zero, and the run starts at a cursor.
pub open spec fn turn_selects(
    ids: Seq<Seq<char>>,
    cursor: usize,
    turn: nat,
    allow_all_devices: bool,
    id: Seq<char>,
) -> bool {
    selects(
        ids,
        cursor_after_turns(ids, cursor, turn, allow_all_devices),
        allow_all_devices,
        id,
    )
}

/// `turns` turns over `devices` devices do not lose their place: the cursor does not start over
/// at zero before the last of them, or the number of devices divides the number of cursors.
pub open spec fn keeps_place(cursor: usize, turns: nat, devices: nat) -> bool {
    ||| cursor + turns <= usize::MAX + 1
    ||| (usize::MAX + 1) % (devices as int) == 0
}

/// After any run of requests, to any inventories, the cursor is where it started plus the number
/// of requests that took a turn, round the range of cursors.
pub proof fn law_cursor_counts_turns(cursor: usize, requests: Seq<DefaultRequest>)
    ensures
        cursor_after_run(cursor, requests) as int == (cursor + turns_taken(requests)) % (usize::MAX
            + 1),
    decreases requests.len(),
{
    let size = usize::MAX + 1;
    reveal(Seq::filter);
    if requests.len() == 0 {
        vstd::arithmetic::div_mod::lemma_small_mod(cursor as nat, size as nat);
    } else {
        let earlier = requests.drop_last();
        law_cursor_counts_turns(cursor, earlier);
        if takes_turn(requests.last()) {
            let previous = cursor_after_run(cursor, earlier);
            vstd::arithmetic::div_mod::lemma_add_mod_noop(cursor + turns_taken(earlier), 1, size);
            vstd::arithmetic::div_mod::lemma_small_mod(1, size as nat);
            if previous == usize::MAX {
                vstd::arithmetic::div_mod::lemma_mod_self_0(size);
            } else {
                vstd::arithmetic::div_mod::lemma_small_mod((previous + 1) as nat, size as nat);
            }
        }
    }
}

/// A request after any run of requests selects the device at the number of turns taken so far,
/// counted on from the cursor where the run started, be it a consuming request or a peek.
pub proof fn law_selection_after_a_run(
    cursor: usize,
    requests: Seq<DefaultRequest>,
    ids: Seq<Seq<char>>,
    family: Seq<Seq<char>>,
    allow_all_devices: bool,
)
    requires
        family::is_default_family(ids, allow_all_devices, family),
    ensures
        selects(
            ids,
            cursor_after_run(cursor, requests),
            allow_all_devices,
            family[(cursor + turns_taken(requests)) % (usize::MAX + 1) % (family.len() as int)],
        ),
{
    law_cursor_counts_turns(cursor, requests);
}

/// One run after another is one longer run.
pub proof fn law_runs_compose(
    cursor: usize,
    first: Seq<DefaultRequest>,
    second: Seq<DefaultRequest>,
)
    ensures
        cursor_after_run(cursor, first + second) == cursor_after_run(
            cursor_after_run(cursor, first),
            second,
        ),
    decreases second.len(),
{
    if second.len() == 0 {
        assert(first + second =~= first);
    } else {
        law_runs_compose(cursor, first, second.drop_last());
        assert((first + second).drop_last() =~= first + second.drop_last());
    }
}

/// A request that takes no turn, a peek or a refused request, changes nothing for any later
/// request: the run leaves the cursor where it would be without that request.
pub proof fn law_requests_without_a_turn_change_nothing(
    cursor: usize,
    before: Seq<DefaultRequest>,
    request: DefaultRequest,
    after: Seq<DefaultRequest>,
)
    requires
        !takes_turn(request),
    ensures
        cursor_after_run(cursor, before.push(request) + after) == cursor_after_run(
            cursor,
            before + after,
        ),
{
    law_runs_compose(cursor, before.push(request), after);
    law_runs_compose(cursor, before, after);
    assert(before.push(request).drop_last() =~= before);
}

/// Each consuming request to an inventory with a family moves the cursor by one, round the range
/// of cursors.
pub proof fn law_consuming_requests_advance_by_one(
    ids: Seq<Seq<char>>,
    cursor: usize,
    turns: nat,
    allow_all_devices: bool,
)
    requires
        family::default_family(ids, allow_all_devices) is Ok,
    ensures
        cursor_after_turns(ids, cursor, turns, allow_all_devices) as int == (cursor + turns) % (
        usize::MAX + 1),
{
    lemma_all_take_turns(ids, turns, allow_all_devices);
    law_cursor_counts_turns(cursor, consuming_run(ids, turns, allow_all_devices));
}

/// Every consuming request to an inventory with a family takes a turn.
proof fn lemma_all_take_turns(ids: Seq<Seq<char>>, turns: nat, allow_all_devices: bool)
    requires
        family::default_family(ids, allow_all_devices) is Ok,
    ensures
        turns_taken(consuming_run(ids, turns, allow_all_devices)) == turns,
    decreases turns,
{
    reveal(Seq::filter);
    if turns > 0 {
        let fewer = (turns - 1) as nat;
        lemma_all_take_turns(ids, fewer, allow_all_devices);
        assert(consuming_run(ids, turns, allow_all_devices).drop_last() =~= consuming_run(
            ids,
            fewer,
            allow_all_devices,
        ));
    }
}

/// The device of each turn of a run of consuming requests, where the run keeps its place.
pub proof fn law_device_of_each_turn(
    ids: Seq<Seq<char>>,
    family: Seq<Seq<char>>,
    cursor: usize,
    turn: nat,
    allow_all_devices: bool,
)
    requires
        inventory::is_normalized(ids),
        family::is_default_family(ids, allow_all_devices, family),
        keeps_place(cursor, turn + 1, family.len()),
    ensures
        turn_selects(
            ids,
            cursor,
            turn,
            allow_all_devices,
            family[(cursor + turn) % family.len() as int],
        ),
{
    let size = usize::MAX + 1;
    let n = family.len() as int;
    family::law_family_is_part_of_inventory(ids, allow_all_devices);
    law_consuming_requests_advance_by_one(ids, cursor, turn, allow_all_devices);
    if cursor + turn < size {
        vstd::arithmetic::div_mod::lemma_small_mod((cursor + turn) as nat, size as nat);
    } else {
        let times = size / n;
        vstd::arithmetic::div_mod::lemma_fundamental_div_mod(size, n);
        assert(times > 0) by (nonlinear_arith)
            requires
                size == n * times,
                size > 0,
                n > 0,
        ;
        vstd::arithmetic::div_mod::lemma_mod_mod(cursor + turn, n, times);
    }
}

/// A fresh cursor starts with the first device of the family.
pub proof fn law_rotation_starts_with_the_first_device(
    ids: Seq<Seq<char>>,
    allow_all_devices: bool,
)
    requires
        inventory::is_normalized(ids),
    ensures
        family::default_family(ids, allow_all_devices) matches Ok(family) ==> selects(
            ids,
            0,
            allow_all_devices,
            family[0],
        ),
{
    family::law_family_is_part_of_inventory(ids, allow_all_devices);
}

/// A default request selects a device of the family, or fails as the family does, whatever the
/// cursor.
pub proof fn law_selection_is_in_family(
    ids: Seq<Seq<char>>,
    cursor: usize,
    allow_all_devices: bool,
)
    requires
        inventory::is_normalized(ids),
    ensures
        match selection(ids, cursor, allow_all_devices) {
            Ok(id) => family::default_family(ids, allow_all_devices) matches Ok(family)
                && family.contains(id) && ids.contains(id),
            Err(error) => family::is_refused(ids, allow_all_devices, error),
        },
{
    family::law_family_is_part_of_inventory(ids, allow_all_devices);
    if let Ok(family) = family::default_family(ids, allow_all_devices) {
        let place = cursor as int % family.len() as int;
        vstd::arithmetic::div_mod::lemma_mod_bound(cursor as int, family.len() as int);
        assert(family.contains(family[place]));
    }
}

/// A peek leaves the cursor where it is, so any number of peeks and the next consuming request
/// select the same device.
pub proof fn law_peek_keeps_the_cursor(
    ids: Seq<Seq<char>>,
    cursor: usize,
    allow_all_devices: bool,
)
    ensures
        cursor_after(ids, cursor, false, allow_all_devices) == cursor,
        selection(
            ids,
            cursor_after(ids, cursor, false, allow_all_devices),
            allow_all_devices,
        ) == selection(ids, cursor, allow_all_devices),
{
}

/// A refused request leaves the cursor where it is.
pub proof fn law_refusal_keeps_the_cursor(
    ids: Seq<Seq<char>>,
    cursor: usize,
    consume: bool,
    allow_all_devices: bool,
)
    requires
        selection(ids, cursor, allow_all_devices) is Err,
    ensures
        cursor_after(ids, cursor, consume, allow_all_devices) == cursor,
{
}

/// Consuming requests walk the family in order, and the first device follows the last.
pub proof fn law_next_device_follows(
    ids: Seq<Seq<char>>,
    family: Seq<Seq<char>>,
    cursor: usize,
    place: int,
    allow_all_devices: bool,
)
    requires
        inventory::is_normalized(ids),
        family::is_default_family(ids, allow_all_devices, family),
        0 <= place < family.len(),
        selects(ids, cursor, allow_all_devices, family[place]),
        keeps_place(cursor, 2, family.len()),
    ensures
        selects(
            ids,
            cursor_after(ids, cursor, true, allow_all_devices),
            allow_all_devices,
            if place + 1 < family.len() {
                family[place + 1]
            } else {
                family[0]
            },
        ),
{
    let n = family.len() as int;
    family::law_family_is_part_of_inventory(ids, allow_all_devices);
    vstd::arithmetic::div_mod::lemma_mod_bound(cursor as int, n);
    assert(cursor as int % n == place);
    reveal_with_fuel(cursor_after_run, 2);
    assert(consuming_run(ids, 1, allow_all_devices).drop_last() =~= Seq::<
        DefaultRequest,
    >::empty());
    law_device_of_each_turn(ids, family, cursor, 1, allow_all_devices);
    vstd::arithmetic::div_mod::lemma_add_mod_noop_right(1, cursor as int, n);
    if place + 1 < n {
        vstd::arithmetic::div_mod::lemma_small_mod((place + 1) as nat, n as nat);
    } else {
        vstd::arithmetic::div_mod::lemma_mod_self_0(n);
    }
}

/// In as many consecutive turns as the family has devices, every device gets exactly one turn.
pub proof fn law_rotation_is_fair(
    ids: Seq<Seq<char>>,
    family: Seq<Seq<char>>,
    cursor: usize,
    allow_all_devices: bool,
)
    requires
        inventory::is_normalized(ids),
        family::is_default_family(ids, allow_all_devices, family),
        keeps_place(cursor, family.len(), family.len()),
    ensures
        forall|id: Seq<char>| #[trigger]
            family.contains(id) ==> exists|turn: nat|
                turn < family.len() && #[trigger] turn_selects(
                    ids,
                    cursor,
                    turn,
                    allow_all_devices,
                    id,
                ),
        forall|first: nat, second: nat, id: Seq<char>|
            first < family.len() && second < family.len() && #[trigger] turn_selects(
                ids,
                cursor,
                first,
                allow_all_devices,
                id,
            ) && #[trigger] turn_selects(ids, cursor, second, allow_all_devices, id) ==> first
                == second,
{
    let n = family.len() as int;
    family::law_family_is_part_of_inventory(ids, allow_all_devices);
    assert forall|id: Seq<char>| #[trigger] family.contains(id) implies exists|turn: nat|
        turn < family.len() && #[trigger] turn_selects(
            ids,
            cursor,
            turn,
            allow_all_devices,
            id,
        ) by {
        let place = choose|place: int| 0 <= place < n && family[place] == id;
        let turn = ((place - cursor) % n) as nat;
        vstd::arithmetic::div_mod::lemma_mod_bound(place - cursor, n);
        vstd::arithmetic::div_mod::lemma_add_mod_noop_right(cursor as int, place - cursor, n);
        vstd::arithmetic::div_mod::lemma_small_mod(place as nat, n as nat);
        assert((cursor + turn) % n == place);
        law_device_of_each_turn(ids, family, cursor, turn, allow_all_devices);
    }
    assert forall|first: nat, second: nat, id: Seq<char>|
        first < family.len() && second < family.len() && #[trigger] turn_selects(
            ids,
            cursor,
            first,
            allow_all_devices,
            id,
        ) && #[trigger] turn_selects(ids, cursor, second, allow_all_devices, id) implies first
        == second by {
        law_device_of_each_turn(ids, family, cursor, first, allow_all_devices);
        law_device_of_each_turn(ids, family, cursor, second, allow_all_devices);
        vstd::arithmetic::div_mod::lemma_mod_bound(cursor + first, n);
        vstd::arithmetic::div_mod::lemma_mod_bound(cursor + second, n);
        assert((cursor + first) % n == (cursor + second) % n);
        vstd::arithmetic::div_mod::lemma_mod_equivalence(cursor + second, cursor + first, n);
        vstd::arithmetic::div_mod::lemma_mod_equivalence(cursor + first, cursor + second, n);
        if first < second {
            vstd::arithmetic::div_mod::lemma_small_mod((second - first) as nat, n as nat);
        } else {
            vstd::arithmetic::div_mod::lemma_small_mod((first - second) as nat, n as nat);
        }
    }
}

/// After as many turns as the family has devices, the same device comes again.
pub proof fn law_rotation_is_periodic(
    ids: Seq<Seq<char>>,
    family: Seq<Seq<char>>,
    cursor: usize,
    allow_all_devices: bool,
)
    requires
        inventory::is_normalized(ids),
        family::is_default_family(ids, allow_all_devices, family),
        keeps_place(cursor, family.len() + 1, family.len()),
    ensures
        selection(
            ids,
            cursor_after_turns(ids, cursor, family.len(), allow_all_devices),
            allow_all_devices,
        ) == selection(ids, cursor, allow_all_devices),
{
    let n = family.len() as int;
    family::law_family_is_part_of_inventory(ids, allow_all_devices);
    law_device_of_each_turn(ids, family, cursor, family.len(), allow_all_devices);
    vstd::arithmetic::div_mod::lemma_mod_add_multiples_vanish(cursor as int, n);
}

/// Among any devices the first cursors give each in its place, and adding the number of devices to
/// a cursor gives the same device again.
pub proof fn law_cursors_count_round_the_devices(devices: Seq<Seq<char>>, cursor: usize)
    requires
        devices.len() > 0,
    ensures
        cursor < devices.len() ==> device_at(devices, cursor) == devices[cursor as int],
        cursor + devices.len() <= usize::MAX ==> device_at(
            devices,
            (cursor + devices.len()) as usize,
        ) == device_at(devices, cursor),
{
    let n = devices.len() as int;
    if cursor < n {
        vstd::arithmetic::div_mod::lemma_small_mod(cursor as nat, n as nat);
    }
    vstd::arithmetic::div_mod::lemma_mod_add_multiples_vanish(cursor as int, n);
}

/// The first cursors select the devices of a family in order, and adding the number of devices to
/// a cursor selects the same device again.
pub proof fn law_cursors_count_round_the_family(
    ids: Seq<Seq<char>>,
    family: Seq<Seq<char>>,
    cursor: usize,
    allow_all_devices: bool,
)
    requires
        family::is_default_family(ids, allow_all_devices, family),
        family.len() > 0,
    ensures
        cursor < family.len() ==> (selection(ids, cursor, allow_all_devices) matches Ok(id) && id
            == family[cursor as int]),
        cursor + family.len() <= usize::MAX ==> selection(
            ids,
            (cursor + family.len()) as usize,
            allow_all_devices,
        ) == selection(ids, cursor, allow_all_devices),
{
    law_cursors_count_round_the_devices(family, cursor);
}

/// A consuming request that selects a device moves the cursor on by exactly one, and from the
/// largest cursor to zero. Every other request leaves it.
pub proof fn law_where_the_cursor_goes(
    ids: Seq<Seq<char>>,
    cursor: usize,
    allow_all_devices: bool,
)
    ensures
        cursor_after(ids, cursor, false, allow_all_devices) == cursor,
        selection(ids, cursor, allow_all_devices) is Err ==> cursor_after(
            ids,
            cursor,
            true,
            allow_all_devices,
        ) == cursor,
        selection(ids, cursor, allow_all_devices) is Ok && cursor < usize::MAX ==> cursor_after(
            ids,
            cursor,
            true,
            allow_all_devices,
        ) == cursor + 1,
        selection(ids, cursor, allow_all_devices) is Ok && cursor == usize::MAX ==> cursor_after(
            ids,
            cursor,
            true,
            allow_all_devices,
        ) == 0,
{
}

} // verus!
