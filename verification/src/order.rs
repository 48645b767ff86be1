//! Deterministic ordering of inputs before assembly. The sort key is the full
//! display name (the forward-slash relative path), compared as UTF-8 bytes —
//! an explicit choice over sorting by base file name alone, so that equal base
//! names in different directories keep their directory grouping.

use crate::block::InputItem;
use vstd::prelude::*;
use vstd::slice::slice_index_get;
use vstd::utf8::encode_utf8;

verus! {

/// Lexicographic order on byte sequences: a prefix sorts before its
/// extensions, otherwise the first differing byte decides.
pub open spec fn bytes_le(a: Seq<u8>, b: Seq<u8>) -> bool
    decreases a.len(),
{
    if a.len() == 0 {
        true
    } else if b.len() == 0 {
        false
    } else if a[0] < b[0] {
        true
    } else if a[0] > b[0] {
        false
    } else {
        bytes_le(a.drop_first(), b.drop_first())
    }
}

/// Order on inputs: by display name, as encoded bytes.
pub open spec fn item_le(a: InputItem, b: InputItem) -> bool {
    bytes_le(encode_utf8(a.display_name@), encode_utf8(b.display_name@))
}

pub proof fn lemma_bytes_le_refl(a: Seq<u8>)
    ensures
        bytes_le(a, a),
    decreases a.len(),
{
    if a.len() > 0 {
        lemma_bytes_le_refl(a.drop_first());
    }
}

pub proof fn lemma_bytes_le_total(a: Seq<u8>, b: Seq<u8>)
    ensures
        bytes_le(a, b) || bytes_le(b, a),
    decreases a.len(),
{
    if a.len() > 0 && b.len() > 0 && a[0] == b[0] {
        lemma_bytes_le_total(a.drop_first(), b.drop_first());
    }
}

pub proof fn lemma_bytes_le_trans(a: Seq<u8>, b: Seq<u8>, c: Seq<u8>)
    requires
        bytes_le(a, b),
        bytes_le(b, c),
    ensures
        bytes_le(a, c),
    decreases a.len(),
{
    if a.len() > 0 && b.len() > 0 && c.len() > 0 && a[0] == b[0] && b[0] == c[0] {
        lemma_bytes_le_trans(a.drop_first(), b.drop_first(), c.drop_first());
    }
}

/// Compares two names in the sort order.
pub fn name_le(a: &str, b: &str) -> (r: bool)
    ensures
        r == bytes_le(encode_utf8(a@), encode_utf8(b@)),
{
    let ab = a.as_bytes();
    let bb = b.as_bytes();
    proof {
        assert(bytes_le(ab@.skip(0), bb@.skip(0)) == bytes_le(ab@, bb@)) by {
            assert(ab@.skip(0) =~= ab@);
            assert(bb@.skip(0) =~= bb@);
        }
    }
    let mut i: usize = 0;
    while i < ab.len() && i < bb.len()
        invariant
            0 <= i <= ab@.len(),
            i <= bb@.len(),
            bytes_le(ab@, bb@) == bytes_le(ab@.skip(i as int), bb@.skip(i as int)),
            ab@ == encode_utf8(a@),
            bb@ == encode_utf8(b@),
        decreases ab@.len() - i,
    {
        let x = *slice_index_get(ab, i);
        let y = *slice_index_get(bb, i);
        if x < y {
            return true;
        }
        if x > y {
            return false;
        }
        proof {
            assert(ab@.skip(i as int).drop_first() =~= ab@.skip(i as int + 1));
            assert(bb@.skip(i as int).drop_first() =~= bb@.skip(i as int + 1));
        }
        i += 1;
    }
    ab.len() <= bb.len()
}

/// Sorts the inputs by display name: the result is a permutation of the
/// input, ordered by `item_le`.
pub fn sort_items(items: Vec<InputItem>) -> (r: Vec<InputItem>)
    ensures
        r@.len() == items@.len(),
        r@.to_multiset() == items@.to_multiset(),
        forall|x: int, y: int|
            0 <= x < y < r@.len() ==> item_le(#[trigger] r@[x], #[trigger] r@[y]),
{
    broadcast use vstd::seq_lib::group_to_multiset_ensures;

    let mut rest = items;
    let mut r: Vec<InputItem> = Vec::new();
    while rest.len() > 0
        invariant
            r@.len() + rest@.len() == items@.len(),
            r@.to_multiset().add(rest@.to_multiset()) == items@.to_multiset(),
            forall|x: int, y: int|
                0 <= x < y < r@.len() ==> item_le(#[trigger] r@[x], #[trigger] r@[y]),
            forall|x: int, y: int|
                0 <= x < r@.len() && 0 <= y < rest@.len() ==> item_le(
                    #[trigger] r@[x],
                    #[trigger] rest@[y],
                ),
        decreases rest@.len(),
    {
        let mut m: usize = 0;
        let mut j: usize = 1;
        proof {
            lemma_bytes_le_refl(encode_utf8(rest@[0].display_name@));
        }
        while j < rest.len()
            invariant
                0 <= m < j <= rest@.len(),
                rest@.len() > 0,
                forall|k: int| 0 <= k < j ==> item_le(rest@[m as int], #[trigger] rest@[k]),
            decreases rest@.len() - j,
        {
            if name_le(rest[j].display_name.as_str(), rest[m].display_name.as_str()) {
                proof {
                    assert forall|k: int| 0 <= k < j implies item_le(
                        rest@[j as int],
                        #[trigger] rest@[k],
                    ) by {
                        lemma_bytes_le_trans(
                            encode_utf8(rest@[j as int].display_name@),
                            encode_utf8(rest@[m as int].display_name@),
                            encode_utf8(rest@[k].display_name@),
                        );
                    }
                }
                m = j;
            } else {
                proof {
                    lemma_bytes_le_total(
                        encode_utf8(rest@[m as int].display_name@),
                        encode_utf8(rest@[j as int].display_name@),
                    );
                }
            }
            proof {
                lemma_bytes_le_refl(encode_utf8(rest@[m as int].display_name@));
            }
            j += 1;
        }
        let ghost pre_rest = rest@;
        let ghost pre_r = r@;
        let item = rest.remove(m);
        r.push(item);
        proof {
            assert(r@.to_multiset().add(rest@.to_multiset()) == items@.to_multiset()) by {
                pre_rest.to_multiset_ensures();
                pre_r.to_multiset_ensures();
                assert(r@ == pre_r.push(item));
                assert(rest@ == pre_rest.remove(m as int));
                assert(pre_rest[m as int] == item);
                assert(pre_rest.contains(item));
                assert(pre_rest.to_multiset().count(item) > 0);
                assert(pre_rest.remove(m as int).to_multiset() =~= pre_rest.to_multiset().remove(
                    item,
                ));
                assert(pre_r.push(item).to_multiset() =~= pre_r.to_multiset().insert(item));
                assert(pre_r.to_multiset().insert(item).add(pre_rest.to_multiset().remove(item))
                    =~= pre_r.to_multiset().add(pre_rest.to_multiset()));
            }
            assert(forall|y: int|
                0 <= y < rest@.len() ==> item_le(item, #[trigger] rest@[y])) by {
                assert(forall|y: int|
                    0 <= y < rest@.len() ==> #[trigger] rest@[y] == if y < m as int {
                        pre_rest[y]
                    } else {
                        pre_rest[y + 1]
                    });
            }
        }
    }
    r
}

} // verus!
