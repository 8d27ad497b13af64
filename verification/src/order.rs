//! Lexicographic order of strings by their UTF-8 bytes (the order of
//! `str::cmp`), and a stable ordering of a list of keys.

use vstd::prelude::*;
use vstd::utf8::encode_utf8;

verus! {

/// `a` comes no later than `b` in byte-wise lexicographic order.
pub open spec fn bytes_le(a: Seq<u8>, b: Seq<u8>) -> bool
    decreases a.len(),
{
    if a.len() == 0 {
        true
    } else if b.len() == 0 {
        false
    } else if a[0] < b[0] {
        true
    } else if a[0] > b[0] {
        false
    } else {
        bytes_le(a.drop_first(), b.drop_first())
    }
}

/// `a` comes no later than `b` when compared as strings.
pub open spec fn text_le(a: Seq<char>, b: Seq<char>) -> bool {
    bytes_le(encode_utf8(a), encode_utf8(b))
}

/// Any two byte strings are comparable.
pub proof fn lemma_bytes_le_total(a: Seq<u8>, b: Seq<u8>)
    ensures
        bytes_le(a, b) || bytes_le(b, a),
    decreases a.len(),
{
    if a.len() > 0 && b.len() > 0 && a[0] == b[0] {
        lemma_bytes_le_total(a.drop_first(), b.drop_first());
    }
}

/// Every byte string comes no later than itself.
pub proof fn lemma_bytes_le_reflexive(a: Seq<u8>)
    ensures
        bytes_le(a, a),
    decreases a.len(),
{
    if a.len() > 0 {
        lemma_bytes_le_reflexive(a.drop_first());
    }
}

/// Byte-wise lexicographic order is transitive.
pub proof fn lemma_bytes_le_transitive(a: Seq<u8>, b: Seq<u8>, c: Seq<u8>)
    requires
        bytes_le(a, b),
        bytes_le(b, c),
    ensures
        bytes_le(a, c),
    decreases a.len(),
{
    if a.len() > 0 && b.len() > 0 && c.len() > 0 && a[0] == b[0] && b[0] == c[0] {
        lemma_bytes_le_transitive(a.drop_first(), b.drop_first(), c.drop_first());
    }
}

/// Whether `a` comes no later than `b`, comparing the strings' bytes.
pub fn text_le_exec(a: &str, b: &str) -> (r: bool)
    ensures
        r == text_le(a@, b@),
{
    let x = a.as_bytes();
    let y = b.as_bytes();
    let mut i: usize = 0;
    assert(x@.skip(0) =~= x@);
    assert(y@.skip(0) =~= y@);
    while i < x.len() && i < y.len()
        invariant
            x@ == encode_utf8(a@),
            y@ == encode_utf8(b@),
            i <= x@.len(),
            i <= y@.len(),
            bytes_le(x@, y@) == bytes_le(x@.skip(i as int), y@.skip(i as int)),
        decreases x@.len() - i,
    {
        proof {
            let xs = x@.skip(i as int);
            let ys = y@.skip(i as int);
            assert(xs.drop_first() =~= x@.skip(i + 1));
            assert(ys.drop_first() =~= y@.skip(i + 1));
            assert(xs[0] == x@[i as int]);
            assert(ys[0] == y@[i as int]);
        }
        if x[i] < y[i] {
            return true;
        }
        if x[i] > y[i] {
            return false;
        }
        i = i + 1;
    }
    proof {
        let xs = x@.skip(i as int);
        let ys = y@.skip(i as int);
        assert(xs.len() == 0 || ys.len() == 0);
    }
    i == x.len()
}

/// `order` lists every index below `n` exactly once.
pub open spec fn is_ordering(order: Seq<usize>, n: nat) -> bool {
    &&& order.len() == n
    &&& forall|k: int| 0 <= k < order.len() ==> #[trigger] order[k] < n
    &&& forall|k: int, l: int| 0 <= k < l < order.len() ==> #[trigger] order[k] != #[trigger] order[l]
}

/// The keys, taken in the given order, never decrease.
pub open spec fn keys_sorted(keys: Seq<String>, order: Seq<usize>) -> bool {
    forall|k: int, l: int|
        0 <= k < l < order.len() ==> text_le(
            #[trigger] keys[order[k] as int]@,
            #[trigger] keys[order[l] as int]@,
        )
}

/// Index, within `rest`, of a smallest key among the indices in `rest`.
fn smallest(keys: &Vec<String>, rest: &Vec<usize>) -> (m: usize)
    requires
        rest@.len() > 0,
        forall|k: int| 0 <= k < rest@.len() ==> #[trigger] rest@[k] < keys@.len(),
    ensures
        m < rest@.len(),
        forall|k: int|
            0 <= k < rest@.len() ==> text_le(
                keys@[rest@[m as int] as int]@,
                #[trigger] keys@[rest@[k] as int]@,
            ),
{
    let mut m: usize = 0;
    let mut j: usize = 1;
    proof {
        lemma_bytes_le_reflexive(encode_utf8(keys@[rest@[0] as int]@));
    }
    while j < rest.len()
        invariant
            rest@.len() > 0,
            forall|k: int| 0 <= k < rest@.len() ==> #[trigger] rest@[k] < keys@.len(),
            m < j <= rest@.len(),
            forall|k: int|
                0 <= k < j ==> text_le(
                    keys@[rest@[m as int] as int]@,
                    #[trigger] keys@[rest@[k] as int]@,
                ),
        decreases rest@.len() - j,
    {
        let cand = rest[j];
        let best = rest[m];
        if !text_le_exec(keys[best].as_str(), keys[cand].as_str()) {
            proof {
                let kc = keys@[cand as int]@;
                let kb = keys@[best as int]@;
                lemma_bytes_le_total(encode_utf8(kb), encode_utf8(kc));
                lemma_bytes_le_reflexive(encode_utf8(kc));
                assert forall|k: int| 0 <= k < j implies text_le(kc, #[trigger] keys@[rest@[k] as int]@) by {
                    lemma_bytes_le_transitive(
                        encode_utf8(kc),
                        encode_utf8(kb),
                        encode_utf8(keys@[rest@[k] as int]@),
                    );
                }
            }
            m = j;
        }
        j = j + 1;
    }
    m
}

/// The indices of `keys` arranged so that the keys never decrease; among
/// equal keys the order is unspecified.
pub fn sorted_order(keys: &Vec<String>) -> (order: Vec<usize>)
    ensures
        is_ordering(order@, keys@.len()),
        keys_sorted(keys@, order@),
{
    let n = keys.len();
    let mut rest: Vec<usize> = Vec::new();
    let mut i: usize = 0;
    while i < n
        invariant
            n == keys@.len(),
            i <= n,
            rest@.len() == i,
            forall|k: int| 0 <= k < i ==> #[trigger] rest@[k] == k,
        decreases n - i,
    {
        rest.push(i);
        i = i + 1;
    }
    let mut order: Vec<usize> = Vec::new();
    while rest.len() > 0
        invariant
            n == keys@.len(),
            order@.len() + rest@.len() == n,
            forall|k: int| 0 <= k < order@.len() ==> #[trigger] order@[k] < n,
            forall|k: int| 0 <= k < rest@.len() ==> #[trigger] rest@[k] < n,
            forall|k: int, l: int| 0 <= k < l < order@.len() ==> #[trigger] order@[k] != #[trigger] order@[l],
            forall|k: int, l: int| 0 <= k < l < rest@.len() ==> #[trigger] rest@[k] != #[trigger] rest@[l],
            forall|k: int, l: int|
                0 <= k < order@.len() && 0 <= l < rest@.len() ==> #[trigger] order@[k] != #[trigger] rest@[l],
            keys_sorted(keys@, order@),
            forall|k: int, l: int|
                0 <= k < order@.len() && 0 <= l < rest@.len() ==> text_le(
                    #[trigger] keys@[order@[k] as int]@,
                    #[trigger] keys@[rest@[l] as int]@,
                ),
        decreases rest@.len(),
    {
        let m = smallest(keys, &rest);
        let ghost old_rest = rest@;
        let ghost old_order = order@;
        let pick = rest.remove(m);
        order.push(pick);
        proof {
            assert(rest@ =~= old_rest.take(m as int) + old_rest.skip(m + 1));
            assert forall|l: int| 0 <= l < rest@.len() implies #[trigger] rest@[l] == old_rest[
                if l < m { l } else { l + 1 }
            ] by {}
            assert forall|k: int, l: int| 0 <= k < l < order@.len() implies text_le(
                #[trigger] keys@[order@[k] as int]@,
                #[trigger] keys@[order@[l] as int]@,
            ) by {
                if l == order@.len() - 1 {
                    assert(order@[l] == old_rest[m as int]);
                    assert(order@[k] == old_order[k]);
                } else {
                    assert(order@[k] == old_order[k]);
                    assert(order@[l] == old_order[l]);
                }
            }
            assert forall|k: int, l: int|
                0 <= k < order@.len() && 0 <= l < rest@.len() implies text_le(
                #[trigger] keys@[order@[k] as int]@,
                #[trigger] keys@[rest@[l] as int]@,
            ) by {
                let ol = if l < m { l } else { l + 1 };
                assert(rest@[l] == old_rest[ol]);
                if k < old_order.len() {
                    assert(order@[k] == old_order[k]);
                } else {
                    assert(order@[k] == old_rest[m as int]);
                }
            }
            assert forall|k: int, l: int| 0 <= k < l < order@.len() implies #[trigger] order@[k]
                != #[trigger] order@[l] by {
                if l == order@.len() - 1 {
                    assert(order@[k] == old_order[k]);
                }
            }
            assert forall|k: int, l: int| 0 <= k < l < rest@.len() implies #[trigger] rest@[k]
                != #[trigger] rest@[l] by {
                let ok = if k < m { k } else { k + 1 };
                let ol = if l < m { l } else { l + 1 };
                assert(rest@[k] == old_rest[ok]);
                assert(rest@[l] == old_rest[ol]);
            }
            assert forall|k: int, l: int|
                0 <= k < order@.len() && 0 <= l < rest@.len() implies #[trigger] order@[k]
                != #[trigger] rest@[l] by {
                let ol = if l < m { l } else { l + 1 };
                assert(rest@[l] == old_rest[ol]);
                if k < old_order.len() {
                    assert(order@[k] == old_order[k]);
                } else {
                    assert(order@[k] == old_rest[m as int]);
                }
            }
        }
    }
    order
}

} // verus!
