//! Which keychain a script belongs to.
use vstd::prelude::*;

use crate::bdk::bdk_electrum_client::{
    further_scripts_have_their_places, hashed_scripts, incremental_scripts, with_places,
};
use crate::bdk::response::FullScanResponse;
use crate::hash::{electrum_script_hash, ElectrumScriptHash};
use crate::ordered::{Key, OrderedMap, Value};

verus! {

/// Whether an index lies beyond the last active one of its keychain, where there is one, and the gap.
pub open spec fn is_beyond(index: u32, last_active: Option<u32>, stop_gap: usize) -> bool {
    match last_active {
        Some(last) => index > last + stop_gap,
        None => false,
    }
}

/// Whether the place of a script is put down: no script before it lies beyond the gap.
pub open spec fn is_noted(
    scripts: Seq<(u32, Vec<u8>)>,
    i: int,
    last_active: Option<u32>,
    stop_gap: usize,
) -> bool {
    &&& 0 <= i < scripts.len()
    &&& forall|j: int| 0 <= j < i ==> !is_beyond((#[trigger] scripts[j]).0, last_active, stop_gap)
}

/// The scripts of a keychain whose places are put down: those up to the first that lies beyond the gap.
pub open spec fn noted(
    scripts: Seq<(u32, Vec<u8>)>,
    last_active: Option<u32>,
    stop_gap: usize,
) -> Seq<(u32, Vec<u8>)>
    decreases scripts.len(),
{
    if scripts.len() == 0 {
        Seq::empty()
    } else if is_noted(scripts, scripts.len() - 1, last_active, stop_gap) {
        scripts
    } else {
        noted(scripts.drop_last(), last_active, stop_gap)
    }
}

/// The places of the scripts of some keychains.
pub open spec fn reverse_lookup<K: Key>(
    keychains: Seq<(K, Vec<(u32, Vec<u8>)>)>,
    last_active: Map<K::V, u32>,
    stop_gap: usize,
) -> Map<ElectrumScriptHash, (K::V, u32)>
    decreases keychains.len(),
{
    if keychains.len() == 0 {
        Map::empty()
    } else {
        let (keychain, scripts) = keychains.last();
        with_places(
            reverse_lookup(keychains.drop_last(), last_active, stop_gap),
            keychain@,
            hashed_scripts(noted(scripts@, last_active.get(keychain@), stop_gap)),
        )
    }
}

/// Whether an index lies beyond the last active one of its keychain and the gap, so that the place of no
/// later script is put down.
pub fn is_beyond_gap<K: Key>(
    keychain: &K,
    index: u32,
    response: &FullScanResponse<K>,
    stop_gap: usize,
) -> (r: bool)
    ensures
        r == is_beyond(index, response.last_active_indices@.get(keychain@), stop_gap),
{
    match response.last_active_indices.get(keychain) {
        Some(last_active) => {
            index > *last_active && (index - *last_active) as u64 > stop_gap as u64
        },
        None => false,
    }
}

/// Build a reverse lookup map, from the hash of a script to its keychain and index.
///
/// This allows us to efficiently determine which keychain a transaction belongs to. Of the scripts of a
/// keychain, those up to the first that lies beyond its last active index and the gap are put down; of a
/// keychain without a last active index, all.
pub fn build_reverse_lookup_map<K: Key>(
    keychains: &Vec<(K, Vec<(u32, Vec<u8>)>)>,
    response: &FullScanResponse<K>,
    stop_gap: usize,
) -> (r: OrderedMap<ElectrumScriptHash, (K, u32)>)
    ensures
        r@ == reverse_lookup(keychains@, response.last_active_indices@, stop_gap),
{
    let ghost last_active = response.last_active_indices@;
    let mut r: OrderedMap<ElectrumScriptHash, (K, u32)> = OrderedMap::new();
    let mut k: usize = 0;
    while k < keychains.len()
        invariant
            k <= keychains.len(),
            last_active == response.last_active_indices@,
            r@ == reverse_lookup(keychains@.take(k as int), last_active, stop_gap),
        decreases keychains.len() - k,
    {
        let keychain = &keychains[k].0;
        let scripts = &keychains[k].1;
        let ghost before = r@;
        let ghost last = last_active.get(keychain@);
        let hashed = incremental_scripts(scripts);
        let mut i: usize = 0;
        let mut goes_on = true;
        proof {
            assert(hashed_scripts(scripts@.take(0)) =~= Seq::empty());
        }
        while goes_on && i < scripts.len()
            invariant
                i <= scripts.len(),
                hashed@ == hashed_scripts(scripts@),
                last_active == response.last_active_indices@,
                last == last_active.get(keychain@),
                r@ == with_places(before, keychain@, hashed_scripts(scripts@.take(i as int))),
                goes_on ==> forall|j: int|
                    0 <= j < i ==> !is_beyond((#[trigger] scripts@[j]).0, last, stop_gap),
                !goes_on ==> i > 0 && is_noted(scripts@, i - 1, last, stop_gap) && is_beyond(
                    scripts@[i - 1].0,
                    last,
                    stop_gap,
                ),
            decreases scripts.len() - i,
        {
            r.insert(hashed[i].0, (keychain.replica(), hashed[i].1));
            if is_beyond_gap(keychain, scripts[i].0, response, stop_gap) {
                goes_on = false;
            }
            proof {
                let places = hashed_scripts(scripts@.take(i + 1));
                assert(places.drop_last() =~= hashed_scripts(scripts@.take(i as int)));
                assert(places.last() == hashed@[i as int]);
            }
            i = i + 1;
        }
        proof {
            noted_is_exact(scripts@, last, stop_gap);
            let n = noted(scripts@, last, stop_gap).len() as int;
            if n < i {
                assert(is_noted(scripts@, i - 1, last, stop_gap));
            }
            if i < n {
                assert(is_noted(scripts@, i as int, last, stop_gap));
                assert(!is_beyond(scripts@[i - 1].0, last, stop_gap));
            }
            assert(keychains@.take(k + 1).drop_last() =~= keychains@.take(k as int));
            assert(keychains@.take(k + 1).last() == keychains@[k as int]);
        }
        k = k + 1;
    }
    proof {
        assert(keychains@.take(keychains@.len() as int) =~= keychains@);
    }
    r
}

/// The scripts whose places are put down are the first ones of a keychain.
proof fn noted_is_exact(
    scripts: Seq<(u32, Vec<u8>)>,
    last_active: Option<u32>,
    stop_gap: usize,
)
    ensures
        ({
            let kept = noted(scripts, last_active, stop_gap);
            &&& kept.len() <= scripts.len()
            &&& kept == scripts.take(kept.len() as int)
            &&& forall|i: int|
                0 <= i < scripts.len() ==> (#[trigger] is_noted(scripts, i, last_active, stop_gap)
                    <==> i < kept.len())
        }),
    decreases scripts.len(),
{
    let kept = noted(scripts, last_active, stop_gap);
    if scripts.len() == 0 {
        assert(kept =~= scripts.take(0));
    } else if is_noted(scripts, scripts.len() - 1, last_active, stop_gap) {
        assert(kept =~= scripts.take(scripts.len() as int));
        assert forall|i: int| 0 <= i < scripts.len() implies #[trigger] is_noted(
            scripts,
            i,
            last_active,
            stop_gap,
        ) by {}
    } else {
        let init = scripts.drop_last();
        noted_is_exact(init, last_active, stop_gap);
        assert(kept =~= scripts.take(kept.len() as int));
        assert forall|i: int| 0 <= i < scripts.len() implies (#[trigger] is_noted(
            scripts,
            i,
            last_active,
            stop_gap,
        ) <==> i < kept.len()) by {
            if i < init.len() {
                if is_noted(scripts, i, last_active, stop_gap) {
                    assert forall|j: int| 0 <= j < i implies !is_beyond(
                        (#[trigger] init[j]).0,
                        last_active,
                        stop_gap,
                    ) by {
                        assert(init[j] == scripts[j]);
                    }
                    assert(is_noted(init, i, last_active, stop_gap));
                }
                if is_noted(init, i, last_active, stop_gap) {
                    assert forall|j: int| 0 <= j < i implies !is_beyond(
                        (#[trigger] scripts[j]).0,
                        last_active,
                        stop_gap,
                    ) by {
                        assert(init[j] == scripts[j]);
                    }
                }
            }
        }
    }
}

/// Whether a script of a keychain is put down with a place.
pub open spec fn is_place_of<K: Key>(
    keychains: Seq<(K, Vec<(u32, Vec<u8>)>)>,
    last_active: Map<K::V, u32>,
    stop_gap: usize,
    k: int,
    i: int,
    hash: ElectrumScriptHash,
    place: (K::V, u32),
) -> bool {
    &&& 0 <= k < keychains.len()
    &&& is_noted(keychains[k].1@, i, last_active.get(keychains[k].0@), stop_gap)
    &&& hash == electrum_script_hash(keychains[k].1@[i].1@)
    &&& place == (keychains[k].0@, keychains[k].1@[i].0)
}

/// The map holds every script of each keychain up to the first index beyond the last active one and the
/// gap, and no others; with each it holds a keychain and an index at which the script is.
pub proof fn reverse_lookup_is_exact<K: Key>(
    keychains: Seq<(K, Vec<(u32, Vec<u8>)>)>,
    last_active: Map<K::V, u32>,
    stop_gap: usize,
)
    ensures
        forall|k: int, i: int, hash: ElectrumScriptHash, place: (K::V, u32)| #[trigger]
            is_place_of(keychains, last_active, stop_gap, k, i, hash, place) ==> reverse_lookup(
                keychains,
                last_active,
                stop_gap,
            ).contains_key(hash),
        forall|hash: ElectrumScriptHash| #[trigger]
            reverse_lookup(keychains, last_active, stop_gap).contains_key(hash) ==> exists|
                k: int,
                i: int,
            |
                is_place_of(
                    keychains,
                    last_active,
                    stop_gap,
                    k,
                    i,
                    hash,
                    reverse_lookup(keychains, last_active, stop_gap)[hash],
                ),
    decreases keychains.len(),
{
    let places = reverse_lookup(keychains, last_active, stop_gap);
    if keychains.len() > 0 {
        let init = keychains.drop_last();
        let end = keychains.len() - 1;
        let (keychain, scripts) = keychains.last();
        let last = last_active.get(keychain@);
        let before = reverse_lookup(init, last_active, stop_gap);
        let kept = noted(scripts@, last, stop_gap);
        reverse_lookup_is_exact(init, last_active, stop_gap);
        noted_is_exact(scripts@, last, stop_gap);
        places_are_exact(before, keychain@, hashed_scripts(kept));
        assert forall|k: int, i: int, hash: ElectrumScriptHash, place: (K::V, u32)| #[trigger]
            is_place_of(
                keychains,
                last_active,
                stop_gap,
                k,
                i,
                hash,
                place,
            ) implies places.contains_key(hash) by {
            if k < end {
                assert(init[k] == keychains[k]);
                assert(is_place_of(init, last_active, stop_gap, k, i, hash, place));
            } else {
                assert(is_noted(scripts@, i, last, stop_gap));
                assert(hashed_scripts(kept)[i].0 == hash);
            }
        }
        assert forall|hash: ElectrumScriptHash| #[trigger] places.contains_key(hash) implies exists|
            k: int,
            i: int,
        |
            is_place_of(keychains, last_active, stop_gap, k, i, hash, places[hash]) by {
            if exists|i: int|
                0 <= i < kept.len() && is_put(
                    hashed_scripts(kept),
                    i,
                    hash,
                    keychain@,
                    places[hash],
                ) {
                let i = choose|i: int|
                    0 <= i < kept.len() && is_put(
                        hashed_scripts(kept),
                        i,
                        hash,
                        keychain@,
                        places[hash],
                    );
                assert(kept[i] == scripts@[i]);
                assert(is_noted(scripts@, i, last, stop_gap));
                assert(is_place_of(keychains, last_active, stop_gap, end, i, hash, places[hash]));
            } else {
                assert(before.contains_key(hash) && before[hash] == places[hash]);
                let (k, i) = choose|k: int, i: int|
                    is_place_of(init, last_active, stop_gap, k, i, hash, before[hash]);
                assert(init[k] == keychains[k]);
                assert(is_place_of(keychains, last_active, stop_gap, k, i, hash, places[hash]));
            }
        }
    }
}

/// Whether a script of a list is put down with a place.
spec fn is_put<KV>(
    scripts: Seq<(ElectrumScriptHash, u32)>,
    i: int,
    hash: ElectrumScriptHash,
    keychain: KV,
    place: (KV, u32),
) -> bool {
    scripts[i].0 == hash && place == (keychain, scripts[i].1)
}

proof fn places_are_exact<KV>(
    before: Map<ElectrumScriptHash, (KV, u32)>,
    keychain: KV,
    scripts: Seq<(ElectrumScriptHash, u32)>,
)
    ensures
        ({
            let places = with_places(before, keychain, scripts);
            &&& forall|i: int|
                0 <= i < scripts.len() ==> places.contains_key((#[trigger] scripts[i]).0)
            &&& forall|hash: ElectrumScriptHash| #[trigger]
                before.contains_key(hash) ==> places.contains_key(hash)
            &&& forall|hash: ElectrumScriptHash| #[trigger]
                places.contains_key(hash) ==> (before.contains_key(hash) && places[hash]
                    == before[hash]) || exists|i: int|
                    0 <= i < scripts.len() && is_put(scripts, i, hash, keychain, places[hash])
        }),
    decreases scripts.len(),
{
    if scripts.len() > 0 {
        let init = scripts.drop_last();
        places_are_exact(before, keychain, init);
        let held = with_places(before, keychain, init);
        let places = with_places(before, keychain, scripts);
        assert forall|i: int| 0 <= i < scripts.len() implies places.contains_key(
            (#[trigger] scripts[i]).0,
        ) by {
            if i < init.len() {
                assert(init[i] == scripts[i]);
            }
        }
        assert forall|hash: ElectrumScriptHash| #[trigger] places.contains_key(hash) implies (
        before.contains_key(hash) && places[hash] == before[hash]) || exists|i: int|
            0 <= i < scripts.len() && is_put(scripts, i, hash, keychain, places[hash]) by {
            if hash == scripts.last().0 {
                assert(is_put(scripts, scripts.len() - 1, hash, keychain, places[hash]));
            } else if !(before.contains_key(hash) && held[hash] == before[hash]) {
                assert(held.contains_key(hash));
                let i = choose|i: int|
                    0 <= i < init.len() && is_put(init, i, hash, keychain, held[hash]);
                assert(is_put(scripts, i, hash, keychain, places[hash]));
            }
        }
    }
}

/// A script lies beyond the gap where its index is greater than the last active one by more than the gap;
/// without a last active one there is nothing beyond.
pub proof fn the_gap_counts_from_the_last_active(index: u32, last: u32, stop_gap: usize)
    ensures
        is_beyond(index, Some(last), stop_gap) <==> index - last > stop_gap,
        !is_beyond(index, None, stop_gap),
{
}

/// Each script of a keychain before which none lies beyond the gap is found by its hash, wherever its
/// keychain stands.
pub proof fn scripts_within_the_gap_are_found<K: Key>(
    keychains: Seq<(K, Vec<(u32, Vec<u8>)>)>,
    last_active: Map<K::V, u32>,
    stop_gap: usize,
    k: int,
    i: int,
)
    requires
        0 <= k < keychains.len(),
        0 <= i < keychains[k].1@.len(),
        last_active.contains_key(keychains[k].0@) ==> forall|j: int|
            0 <= j < i ==> (#[trigger] keychains[k].1@[j]).0 - last_active[keychains[k].0@]
                <= stop_gap,
    ensures
        reverse_lookup(keychains, last_active, stop_gap).contains_key(
            electrum_script_hash(keychains[k].1@[i].1@),
        ),
{
    let hash = electrum_script_hash(keychains[k].1@[i].1@);
    let place = (keychains[k].0@, keychains[k].1@[i].0);
    reverse_lookup_is_exact(keychains, last_active, stop_gap);
    assert(is_place_of(keychains, last_active, stop_gap, k, i, hash, place));
}

/// Whether a script of a keychain is gone through: none of those before it lies beyond the gap.
pub open spec fn is_gone_through<K: Key>(
    keychains: Seq<(K, Vec<(u32, Vec<u8>)>)>,
    last_active: Map<K::V, u32>,
    stop_gap: usize,
    k: int,
    i: int,
) -> bool {
    &&& 0 <= k < keychains.len()
    &&& 0 <= i < keychains[k].1@.len()
    &&& last_active.contains_key(keychains[k].0@) ==> forall|j: int|
        0 <= j < i ==> (#[trigger] keychains[k].1@[j]).0 - last_active[keychains[k].0@] <= stop_gap
}

/// The place of a script is that of the last listing of its hash that is gone through: the keychain there, and
/// the index. A hash without such a listing has none.
pub proof fn the_last_listing_gives_the_place<K: Key>(
    keychains: Seq<(K, Vec<(u32, Vec<u8>)>)>,
    last_active: Map<K::V, u32>,
    stop_gap: usize,
    k: int,
    i: int,
    hash: ElectrumScriptHash,
)
    ensures
        is_gone_through(keychains, last_active, stop_gap, k, i) && electrum_script_hash(
            keychains[k].1@[i].1@,
        ) == hash && (forall|l: int, j: int| #[trigger]
            is_gone_through(keychains, last_active, stop_gap, l, j) && (l > k || (l == k && j > i))
                ==> electrum_script_hash(keychains[l].1@[j].1@) != hash) ==> reverse_lookup(
            keychains,
            last_active,
            stop_gap,
        ).get(hash) == Some((keychains[k].0@, keychains[k].1@[i].0)),
        (forall|l: int, j: int| #[trigger]
            is_gone_through(keychains, last_active, stop_gap, l, j) ==> electrum_script_hash(
                keychains[l].1@[j].1@,
            ) != hash) ==> !reverse_lookup(keychains, last_active, stop_gap).contains_key(hash),
    decreases keychains.len(),
{
    if keychains.len() > 0 {
        let init = keychains.drop_last();
        let end = keychains.len() - 1;
        let (keychain, scripts) = keychains.last();
        let last = last_active.get(keychain@);
        let kept = noted(scripts@, last, stop_gap);
        let hashed = hashed_scripts(kept);
        the_last_listing_gives_the_place(init, last_active, stop_gap, k, i, hash);
        noted_is_exact(scripts@, last, stop_gap);
        assert forall|l: int, j: int| #[trigger]
            is_gone_through(init, last_active, stop_gap, l, j) implies is_gone_through(
            keychains,
            last_active,
            stop_gap,
            l,
            j,
        ) && init[l] == keychains[l] by {}
        assert forall|j: int| 0 <= j < kept.len() implies is_gone_through(
            keychains,
            last_active,
            stop_gap,
            end,
            j,
        ) && #[trigger] hashed[j] == (electrum_script_hash(scripts@[j].1@), scripts@[j].0) by {
            assert(is_noted(scripts@, j, last, stop_gap));
        }
        if is_gone_through(keychains, last_active, stop_gap, k, i) {
            if k == end {
                assert(is_noted(scripts@, i, last, stop_gap));
            } else {
                assert(init[k] == keychains[k]);
                assert(is_gone_through(init, last_active, stop_gap, k, i));
            }
        }
        further_scripts_have_their_places(
            reverse_lookup(init, last_active, stop_gap),
            keychain@,
            hashed,
            i,
            hash,
        );
    }
}

} // verus!
