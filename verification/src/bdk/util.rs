//! Merkle proofs, and the text of index ranges.
use vstd::arithmetic::div_mod::lemma_div_denominator;
use vstd::arithmetic::power2::{lemma2_to64, lemma_pow2_pos, lemma_pow2_unfold, pow2};
use vstd::prelude::*;
use vstd::string::*;

use crate::electrum::types::TransactionMerkel;
use crate::hash::{hash_sha256d, sha256d, Hash256, Txid};
use crate::ordered::{OrderedSet, Value};
use crate::text::{append_decimal, decimal};

verus! {

/// The node of a Merkle tree above two others.
pub open spec fn parent(left: Hash256, right: Hash256) -> Hash256 {
    sha256d(left.bytes@ + right.bytes@)
}

/// Where a branch leads from a node at a position: at an even position the next hash of the branch
/// stands to the right, at an odd one to the left.
pub open spec fn branch_end(node: Hash256, pos: nat, branch: Seq<Hash256>) -> Hash256
    decreases branch.len(),
{
    if branch.len() == 0 {
        node
    } else {
        let up = if pos % 2 == 0 {
            parent(node, branch[0])
        } else {
            parent(branch[0], node)
        };
        branch_end(up, pos / 2, branch.drop_first())
    }
}

/// The other node below the parent of a node: the last node of a level of odd length is its own.
pub open spec fn sibling(level: Seq<Hash256>, i: int) -> Hash256 {
    if i % 2 == 1 {
        level[i - 1]
    } else if i + 1 < level.len() {
        level[i + 1]
    } else {
        level[i]
    }
}

/// The level of a Merkle tree above another one.
pub open spec fn level_above(level: Seq<Hash256>) -> Seq<Hash256> {
    Seq::new(
        ((level.len() + 1) / 2) as nat,
        |i: int| parent(level[2 * i], sibling(level, 2 * i)),
    )
}

/// The root of the Merkle tree over some leaves.
pub open spec fn merkle_root(level: Seq<Hash256>) -> Hash256
    decreases level.len(),
{
    if level.len() <= 1 {
        level[0]
    } else {
        merkle_root(level_above(level))
    }
}

/// The branch that connects a leaf to the root.
pub open spec fn merkle_branch(level: Seq<Hash256>, i: int) -> Seq<Hash256>
    decreases level.len(),
{
    if level.len() <= 1 {
        Seq::empty()
    } else {
        seq![sibling(level, i)] + merkle_branch(level_above(level), i / 2)
    }
}

/// The branch of a leaf leads from the leaf to the root of its tree: a proof drawn from the Merkle
/// tree of a block is always accepted.
pub proof fn branch_leads_to_root(level: Seq<Hash256>, i: int)
    requires
        0 <= i < level.len(),
    ensures
        branch_end(level[i], i as nat, merkle_branch(level, i)) == merkle_root(level),
    decreases level.len(),
{
    if level.len() > 1 {
        let above = level_above(level);
        let branch = merkle_branch(level, i);
        branch_leads_to_root(above, i / 2);
        assert(branch.drop_first() =~= merkle_branch(above, i / 2));
        if i % 2 == 1 {
            assert(sibling(level, i - 1) == level[i]);
            assert(2 * (i / 2) == i - 1);
        } else {
            assert(2 * (i / 2) == i);
        }
    }
}

/// The bytes of one hash and then those of another.
fn joined(left: &Hash256, right: &Hash256) -> (r: Vec<u8>)
    ensures
        r@ == left.bytes@ + right.bytes@,
{
    let mut r: Vec<u8> = Vec::new();
    let mut i: usize = 0;
    while i < 32
        invariant
            i <= 32,
            r@ == left.bytes@.take(i as int),
        decreases 32 - i,
    {
        r.push(left.bytes[i]);
        proof {
            assert(left.bytes@.take(i + 1) =~= left.bytes@.take(i as int).push(left.bytes@[i as int]));
        }
        i = i + 1;
    }
    let mut j: usize = 0;
    proof {
        assert(left.bytes@.take(32) =~= left.bytes@);
        assert(r@ =~= left.bytes@ + right.bytes@.take(0));
    }
    while j < 32
        invariant
            j <= 32,
            r@ == left.bytes@ + right.bytes@.take(j as int),
        decreases 32 - j,
    {
        r.push(right.bytes[j]);
        proof {
            assert(left.bytes@ + right.bytes@.take(j + 1) =~= (left.bytes@ + right.bytes@.take(
                j as int,
            )).push(right.bytes@[j as int]));
        }
        j = j + 1;
    }
    proof {
        assert(right.bytes@.take(32) =~= right.bytes@);
    }
    r
}

/// Verifies a Merkle inclusion proof for a transaction with the given `txid` and the `merkle_root`
/// of the block header.
///
/// Returns `true` if the transaction is included in the corresponding block, and `false`
/// otherwise.
pub fn validate_merkle_proof(
    txid: &Txid,
    merkle_root: &Hash256,
    merkle_res: &TransactionMerkel,
) -> (r: bool)
    ensures
        r == (branch_end(*txid, merkle_res.pos as nat, merkle_res.merkle@) == *merkle_root),
{
    let mut index: usize = merkle_res.pos;
    let mut cur: Hash256 = *txid;
    let n = merkle_res.merkle.len();
    let mut i: usize = 0;
    proof {
        assert(merkle_res.merkle@.skip(0) =~= merkle_res.merkle@);
    }
    while i < n
        invariant
            i <= n,
            n == merkle_res.merkle.len(),
            branch_end(cur, index as nat, merkle_res.merkle@.skip(i as int)) == branch_end(
                *txid,
                merkle_res.pos as nat,
                merkle_res.merkle@,
            ),
        decreases n - i,
    {
        let hash = merkle_res.merkle[i];
        proof {
            assert(merkle_res.merkle@.skip(i as int).drop_first() =~= merkle_res.merkle@.skip(
                i + 1,
            ));
        }
        let data = if index % 2 == 0 {
            joined(&cur, &hash)
        } else {
            joined(&hash, &cur)
        };
        cur = hash_sha256d(&data);
        index = index / 2;
        i = i + 1;
    }
    proof {
        assert(merkle_res.merkle@.skip(n as int).len() == 0);
    }
    cur.same(merkle_root)
}

/// The ranges of consecutive indexes in an ascending list: each as long as it can be.
pub open spec fn index_ranges(indexes: Seq<u32>) -> Seq<(u32, u32)>
    decreases indexes.len(),
{
    if indexes.len() == 0 {
        Seq::empty()
    } else {
        let before = index_ranges(indexes.drop_last());
        let index = indexes.last();
        if before.len() > 0 && before.last().1 + 1 == index {
            before.drop_last().push((before.last().0, index))
        } else {
            before.push((index, index))
        }
    }
}

/// The text of a range: one number, or its first and its last number.
pub open spec fn range_text(range: (u32, u32)) -> Seq<char> {
    if range.0 == range.1 {
        decimal(range.0 as nat)
    } else {
        decimal(range.0 as nat) + seq!['-'] + decimal(range.1 as nat)
    }
}

/// A text with another one behind it; where the first is not empty a comma stands between them.
pub open spec fn listed(output: Seq<char>, text: Seq<char>) -> Seq<char> {
    if output.len() == 0 {
        text
    } else {
        output + seq![',', ' '] + text
    }
}

/// The text of a list of ranges.
pub open spec fn ranges_text(ranges: Seq<(u32, u32)>) -> Seq<char>
    decreases ranges.len(),
{
    if ranges.len() == 0 {
        Seq::empty()
    } else {
        listed(ranges_text(ranges.drop_last()), range_text(ranges.last()))
    }
}

/// Whether an index lies in one of some ranges.
pub open spec fn in_ranges(ranges: Seq<(u32, u32)>, index: u32) -> bool {
    exists|i: int|
        0 <= i < ranges.len() && (#[trigger] ranges[i]).0 <= index && index <= ranges[i].1
}

/// The ranges of an ascending list of indexes hold those indexes and no others, and no two of them
/// could be one.
pub proof fn ranges_are_exact(indexes: Seq<u32>)
    requires
        forall|i: int, j: int| 0 <= i < j < indexes.len() ==> indexes[i] < indexes[j],
    ensures
        forall|index: u32| #[trigger]
            in_ranges(index_ranges(indexes), index) <==> indexes.contains(index),
        forall|i: int|
            0 <= i < index_ranges(indexes).len() ==> (#[trigger] index_ranges(indexes)[i]).0
                <= index_ranges(indexes)[i].1,
        forall|i: int, j: int|
            0 <= i < j < index_ranges(indexes).len() ==> (#[trigger] index_ranges(indexes)[i]).1 + 1
                < (#[trigger] index_ranges(indexes)[j]).0,
        indexes.len() > 0 ==> index_ranges(indexes).len() > 0 && index_ranges(indexes).last().1
            == indexes.last(),
    decreases indexes.len(),
{
    let ranges = index_ranges(indexes);
    if indexes.len() > 0 {
        let init = indexes.drop_last();
        let before = index_ranges(init);
        let last = indexes.last();
        ranges_are_exact(init);
        if init.len() > 0 {
            assert(before.last().1 == init.last());
            assert(init.last() == indexes[indexes.len() - 2]);
            assert(indexes[indexes.len() - 2] < indexes[indexes.len() - 1]);
        } else {
            assert(before.len() == 0);
        }
        assert forall|index: u32| #[trigger]
            in_ranges(ranges, index) <==> indexes.contains(index) by {
            assert(indexes.contains(index) <==> init.contains(index) || index == last) by {
                if indexes.contains(index) {
                    let i = choose|i: int| 0 <= i < indexes.len() && indexes[i] == index;
                    if i < init.len() {
                        assert(init[i] == index);
                    }
                }
                if init.contains(index) {
                    let i = choose|i: int| 0 <= i < init.len() && init[i] == index;
                    assert(indexes[i] == index);
                }
                assert(indexes[indexes.len() - 1] == last);
            }
            assert(in_ranges(before, index) <==> init.contains(index));
            if in_ranges(ranges, index) {
                let i = choose|i: int|
                    0 <= i < ranges.len() && (#[trigger] ranges[i]).0 <= index && index
                        <= ranges[i].1;
                if i < ranges.len() - 1 {
                    assert(before[i] == ranges[i]);
                } else if index != last {
                    assert(before[i].0 <= index && index <= before[i].1);
                }
            }
            if in_ranges(before, index) {
                let i = choose|i: int|
                    0 <= i < before.len() && (#[trigger] before[i]).0 <= index && index
                        <= before[i].1;
                assert(ranges[i].0 <= index && index <= ranges[i].1);
            }
            if index == last {
                assert(ranges[ranges.len() - 1].1 == last);
            }
        }
    }
}

/// Appends a range to a list of ranges.
pub fn push_range(output: &mut String, start: u32, end: u32)
    ensures
        final(output)@ == listed(old(output)@, range_text((start, end))),
{
    proof {
        reveal_strlit(", ");
        reveal_strlit("-");
    }
    let ghost before = output@;
    if output.as_str().unicode_len() > 0 {
        output.append(", ");
        proof {
            assert(output@ =~= before + seq![',', ' ']);
        }
    } else {
        proof {
            assert(before =~= Seq::<char>::empty());
        }
    }
    let ghost head = output@;
    append_decimal(output, start);
    if start != end {
        output.append("-");
        append_decimal(output, end);
    }
    proof {
        assert(output@ =~= head + range_text((start, end)));
        assert(output@ =~= listed(before, range_text((start, end))));
    }
}

/// The text of the ranges of a set of indexes, or `None` where the set is empty.
pub fn format_index_ranges(indexes: &OrderedSet<u32>) -> (r: Option<String>)
    ensures
        match r {
            Some(text) => indexes.list().len() > 0 && text@ == ranges_text(
                index_ranges(indexes.list()),
            ),
            None => indexes.list().len() == 0,
        },
{
    let n = indexes.len();
    if n == 0 {
        return None;
    }
    let ghost list = indexes.list();
    let mut ranges = String::new();
    let mut start: u32 = *indexes.at(0);
    let mut end: u32 = start;
    let mut i: usize = 1;
    proof {
        assert(list.take(1).drop_last() =~= list.take(0));
        assert(index_ranges(list.take(0)) =~= Seq::empty());
        assert(index_ranges(list.take(1)) =~= seq![(start, end)]);
        assert(seq![(start, end)].drop_last() =~= Seq::<(u32, u32)>::empty());
    }
    while i < n
        invariant
            1 <= i <= n,
            n == indexes.list().len(),
            list == indexes.list(),
            index_ranges(list.take(i as int)).len() > 0,
            index_ranges(list.take(i as int)).last() == (start, end),
            end == list[i - 1],
            ranges@ == ranges_text(index_ranges(list.take(i as int)).drop_last()),
            forall|a: int, b: int| 0 <= a < b < list.len() ==> list[a] < list[b],
        decreases n - i,
    {
        let index = *indexes.at(i);
        let ghost before = index_ranges(list.take(i as int));
        proof {
            assert(list.take(i + 1).drop_last() =~= list.take(i as int));
            assert(list.take(i + 1).last() == index);
            assert(list[i - 1] < list[i as int]);
        }
        if index == end + 1 {
            end = index;
            proof {
                assert(index_ranges(list.take(i + 1)).drop_last() =~= before.drop_last());
            }
        } else {
            push_range(&mut ranges, start, end);
            start = index;
            end = index;
            proof {
                assert(index_ranges(list.take(i + 1)).drop_last() =~= before);
            }
        }
        i = i + 1;
    }
    push_range(&mut ranges, start, end);
    proof {
        assert(list.take(n as int) =~= list);
    }
    Some(ranges)
}

/// What is logged of the scan of a range of indexes.
pub fn log_scan_range(start_index: u32, end_index: u32) -> (r: String)
    ensures
        r@ == "Finding transactions ["@ + range_text((start_index, end_index)) + "]"@,
{
    let mut range = String::new();
    push_range(&mut range, start_index, end_index);
    let mut r = "Finding transactions [".to_owned();
    r.append(range.as_str());
    r.append("]");
    r
}

/// What is logged of the loading of some indexes, if there are any.
pub fn log_loading_indexes(indexes: &OrderedSet<u32>) -> (r: Option<String>)
    ensures
        match r {
            Some(text) => indexes.list().len() > 0 && text@ == "Loading transactions ["@
                + ranges_text(index_ranges(indexes.list())) + "]"@,
            None => indexes.list().len() == 0,
        },
{
    match format_index_ranges(indexes) {
        Some(ranges) => {
            let mut r = "Loading transactions [".to_owned();
            r.append(ranges.as_str());
            r.append("]");
            Some(r)
        },
        None => None,
    }
}

/// A branch is gone through from its first hash on: at an even position the hash stands to the right of the
/// node, at an odd one to its left, the two are hashed together, and the position is halved.
pub proof fn each_hash_of_a_branch_stands_on_its_side(
    node: Hash256,
    pos: nat,
    next: Hash256,
    rest: Seq<Hash256>,
)
    ensures
        branch_end(node, pos, Seq::empty()) == node,
        pos % 2 == 0 ==> branch_end(node, pos, seq![next]) == sha256d(
            node.bytes@ + next.bytes@,
        ),
        pos % 2 == 1 ==> branch_end(node, pos, seq![next]) == sha256d(
            next.bytes@ + node.bytes@,
        ),
        branch_end(node, pos, seq![next] + rest) == branch_end(
            branch_end(node, pos, seq![next]),
            pos / 2,
            rest,
        ),
{
    reveal_with_fuel(branch_end, 2);
    assert((seq![next] + rest).drop_first() =~= rest);
    assert(seq![next].drop_first() =~= Seq::<Hash256>::empty());
}

/// Where a branch of several hashes leads can be found part by part.
pub proof fn a_branch_can_be_taken_in_parts(
    node: Hash256,
    pos: nat,
    a: Seq<Hash256>,
    b: Seq<Hash256>,
)
    ensures
        branch_end(node, pos, a + b) == branch_end(
            branch_end(node, pos, a),
            (pos / pow2(a.len())) as nat,
            b,
        ),
    decreases a.len(),
{
    lemma2_to64();
    if a.len() == 0 {
        assert(a + b =~= b);
    } else {
        let up = if pos % 2 == 0 {
            parent(node, a[0])
        } else {
            parent(a[0], node)
        };
        let rest = a.drop_first();
        a_branch_can_be_taken_in_parts(up, pos / 2, rest, b);
        assert((a + b).drop_first() =~= rest + b);
        lemma_pow2_unfold(a.len());
        lemma_pow2_pos(rest.len());
        lemma_div_denominator(pos as int, 2, pow2(rest.len()) as int);
    }
}

/// A range is shown by its first and its last index, and by one number where they are the same; ranges are
/// listed in order, parted by a comma and a space.
pub proof fn ranges_are_listed_in_order(ranges: Seq<(u32, u32)>, range: (u32, u32))
    ensures
        range.0 == range.1 ==> range_text(range) == decimal(range.0 as nat),
        range.0 != range.1 ==> range_text(range) == decimal(range.0 as nat) + seq!['-'] + decimal(
            range.1 as nat,
        ),
        ranges_text(seq![range]) == range_text(range),
        ranges_text(ranges).len() > 0 ==> ranges_text(ranges.push(range)) == ranges_text(ranges)
            + seq![',', ' '] + range_text(range),
{
    reveal_with_fuel(ranges_text, 2);
    assert(ranges.push(range).drop_last() =~= ranges);
    assert(seq![range].drop_last() =~= Seq::<(u32, u32)>::empty());
    assert(seq![range].last() == range);
}

} // verus!
