//! Sorting key/value pairs by key, in the byte order of Rust's slices.
use crate::codec::{
    byte_lt, byte_order, compare_bytes, lemma_byte_order_antisym, lemma_byte_order_equal,
    lemma_byte_order_trans, Order,
};
use crate::segment::{kv_view, KeyValue};
use vstd::prelude::*;

verus! {

/// The keys strictly ascend.
pub open spec fn keys_ascending(kvs: Seq<(Seq<u8>, Seq<u8>)>) -> bool {
    forall|i: int, j: int| 0 <= i < j < kvs.len() ==> byte_lt(#[trigger] kvs[i].0, #[trigger] kvs[j].0)
}

/// No key occurs twice.
pub open spec fn keys_distinct(kvs: Seq<(Seq<u8>, Seq<u8>)>) -> bool {
    forall|i: int, j: int| 0 <= i < j < kvs.len() ==> #[trigger] kvs[i].0 != #[trigger] kvs[j].0
}

/// Every pair of `out` occurs in `input` from `lo` on.
#[verifier::opaque]
pub open spec fn drawn_from(out: Seq<(Seq<u8>, Seq<u8>)>, input: Seq<(Seq<u8>, Seq<u8>)>, lo: int) -> bool {
    forall|t: int| 0 <= t < out.len() ==> exists|j: int| lo <= j < input.len() && #[trigger] out[t] == #[trigger] input[j]
}

/// Every pair of `input` from `lo` on occurs in `out`.
#[verifier::opaque]
pub open spec fn holds_all(out: Seq<(Seq<u8>, Seq<u8>)>, input: Seq<(Seq<u8>, Seq<u8>)>, lo: int) -> bool {
    forall|j: int| lo <= j < input.len() ==> exists|t: int| 0 <= t < out.len() && #[trigger] out[t] == #[trigger] input[j]
}

/// `a` and `b` hold the same pairs: each pair of one occurs in the other.
pub open spec fn same_pairs(a: Seq<(Seq<u8>, Seq<u8>)>, b: Seq<(Seq<u8>, Seq<u8>)>) -> bool {
    a.len() == b.len() && covers(a, b, 0)
}

/// `out` holds exactly the pairs of `input` from `lo` on.
pub open spec fn covers(out: Seq<(Seq<u8>, Seq<u8>)>, input: Seq<(Seq<u8>, Seq<u8>)>, lo: int) -> bool {
    drawn_from(out, input, lo) && holds_all(out, input, lo)
}

proof fn lemma_insert_keeps_ascending(pre: Seq<(Seq<u8>, Seq<u8>)>, pos: int, x: (Seq<u8>, Seq<u8>))
    requires
        0 <= pos <= pre.len(),
        keys_ascending(pre),
        forall|t: int| 0 <= t < pos ==> byte_lt(#[trigger] pre[t].0, x.0),
        forall|t: int| pos <= t < pre.len() ==> byte_lt(x.0, #[trigger] pre[t].0),
    ensures
        keys_ascending(pre.insert(pos, x)),
{
    let post = pre.insert(pos, x);
    assert forall|a: int, b: int| 0 <= a < b < post.len() implies byte_lt(#[trigger] post[a].0, #[trigger] post[b].0) by {
        if b < pos {
            assert(post[a] == pre[a] && post[b] == pre[b]);
        } else if b == pos {
            assert(post[a] == pre[a]);
        } else if a == pos {
            assert(post[b] == pre[b - 1]);
        } else if a < pos {
            assert(post[a] == pre[a] && post[b] == pre[b - 1]);
            lemma_byte_order_trans(pre[a].0, x.0, pre[b - 1].0);
        } else {
            assert(post[a] == pre[a - 1] && post[b] == pre[b - 1]);
        }
    }
}

proof fn lemma_place_after(pre: Seq<(Seq<u8>, Seq<u8>)>, pos: int, k: Seq<u8>)
    requires
        0 <= pos < pre.len(),
        keys_ascending(pre),
        byte_order(pre[pos].0, k) != Order::Less,
        pre[pos].0 != k,
    ensures
        forall|t: int| pos <= t < pre.len() ==> byte_lt(k, #[trigger] pre[t].0),
{
    lemma_byte_order_equal(pre[pos].0, k);
    lemma_byte_order_antisym(k, pre[pos].0);
    lemma_byte_order_equal(k, pre[pos].0);
    assert forall|t: int| pos <= t < pre.len() implies byte_lt(k, #[trigger] pre[t].0) by {
        if t > pos {
            assert(byte_lt(pre[pos].0, pre[t].0));
            lemma_byte_order_trans(k, pre[pos].0, pre[t].0);
        }
    }
}

proof fn lemma_insert_covers(
    pre: Seq<(Seq<u8>, Seq<u8>)>,
    pos: int,
    input: Seq<(Seq<u8>, Seq<u8>)>,
    m: int,
)
    requires
        0 <= pos <= pre.len(),
        0 <= m < input.len(),
        covers(pre, input, m + 1),
    ensures
        covers(pre.insert(pos, input[m]), input, m),
{
    lemma_insert_drawn(pre, pos, input, m);
    lemma_insert_holds(pre, pos, input, m);
}

proof fn lemma_insert_drawn(pre: Seq<(Seq<u8>, Seq<u8>)>, pos: int, input: Seq<(Seq<u8>, Seq<u8>)>, m: int)
    requires
        0 <= pos <= pre.len(),
        0 <= m < input.len(),
        drawn_from(pre, input, m + 1),
    ensures
        drawn_from(pre.insert(pos, input[m]), input, m),
{
    reveal(drawn_from);
    let post = pre.insert(pos, input[m]);
    assert forall|t: int| 0 <= t < post.len() implies exists|j: int| m <= j < input.len() && #[trigger] post[t] == #[trigger] input[j] by {
        if t < pos {
            assert(post[t] == pre[t]);
        } else if t == pos {
            assert(post[t] == input[m]);
        } else {
            assert(post[t] == pre[t - 1]);
        }
    }
}

proof fn lemma_insert_holds(pre: Seq<(Seq<u8>, Seq<u8>)>, pos: int, input: Seq<(Seq<u8>, Seq<u8>)>, m: int)
    requires
        0 <= pos <= pre.len(),
        0 <= m < input.len(),
        holds_all(pre, input, m + 1),
    ensures
        holds_all(pre.insert(pos, input[m]), input, m),
{
    reveal(holds_all);
    let post = pre.insert(pos, input[m]);
    assert forall|j: int| m <= j < input.len() implies exists|t: int| 0 <= t < post.len() && #[trigger] post[t] == #[trigger] input[j] by {
        if j == m {
            assert(post[pos] == input[j]);
        } else {
            let t = choose|t: int| 0 <= t < pre.len() && #[trigger] pre[t] == #[trigger] input[j];
            if t < pos {
                assert(post[t] == input[j]);
            } else {
                assert(post[t + 1] == input[j]);
            }
        }
    }
}

proof fn lemma_later_key_differs(pre: Seq<(Seq<u8>, Seq<u8>)>, pos: int, input: Seq<(Seq<u8>, Seq<u8>)>, m: int)
    requires
        0 <= pos < pre.len(),
        0 <= m < input.len(),
        keys_distinct(input),
        covers(pre, input, m + 1),
    ensures
        pre[pos].0 != input[m].0,
{
    reveal(drawn_from);
    let j = choose|j: int| m + 1 <= j < input.len() && #[trigger] pre[pos] == #[trigger] input[j];
    assert(input[m].0 != input[j].0);
}

proof fn lemma_insert_step(pre: Seq<(Seq<u8>, Seq<u8>)>, pos: int, input: Seq<(Seq<u8>, Seq<u8>)>, m: int)
    requires
        0 <= pos <= pre.len(),
        0 <= m < input.len(),
        keys_distinct(input),
        keys_ascending(pre),
        covers(pre, input, m + 1),
        forall|t: int| 0 <= t < pos ==> byte_lt(#[trigger] pre[t].0, input[m].0),
        pos < pre.len() ==> byte_order(pre[pos].0, input[m].0) != Order::Less,
    ensures
        keys_ascending(pre.insert(pos, input[m])),
        covers(pre.insert(pos, input[m]), input, m),
{
    if pos < pre.len() {
        lemma_later_key_differs(pre, pos, input, m);
        lemma_place_after(pre, pos, input[m].0);
    }
    lemma_insert_keeps_ascending(pre, pos, input[m]);
    lemma_insert_covers(pre, pos, input, m);
}

/// Sorts pairs with distinct keys by key, ascending.
pub fn sort_by_key(kvs: Vec<KeyValue>) -> (r: Vec<KeyValue>)
    requires
        keys_distinct(kv_view(kvs@)),
    ensures
        keys_ascending(kv_view(r@)),
        same_pairs(kv_view(r@), kv_view(kvs@)),
{
    let ghost input = kv_view(kvs@);
    let n = kvs.len();
    let mut src = kvs;
    let mut out: Vec<KeyValue> = Vec::new();
    assert(kv_view(src@) =~= input.subrange(0, src@.len() as int));
    assert(covers(kv_view(out@), input, n as int)) by {
        reveal(drawn_from);
        reveal(holds_all);
    }
    // `src` is consumed from the back into `out`, which stays sorted.
    while src.len() > 0
        invariant
            n == input.len(),
            keys_distinct(input),
            src@.len() + out@.len() == n,
            kv_view(src@) == input.subrange(0, src@.len() as int),
            keys_ascending(kv_view(out@)),
            covers(kv_view(out@), input, src@.len() as int),
        decreases src@.len(),
    {
        let ghost m = src@.len() - 1;
        let ghost old_src = src@;
        let item = src.pop().unwrap();
        proof {
            assert(kv_view(old_src)[m] == input[m]);
            assert(kv_view(src@) =~= input.subrange(0, src@.len() as int));
        }
        let mut pos: usize = 0;
        while pos < out.len() && compare_bytes(out[pos].0.as_slice(), item.0.as_slice()) == Order::Less
            invariant
                pos <= out@.len(),
                forall|t: int| 0 <= t < pos ==> byte_lt(#[trigger] kv_view(out@)[t].0, item.0@),
            decreases out@.len() - pos,
        {
            pos = pos + 1;
        }
        let ghost pre = kv_view(out@);
        proof {
            lemma_insert_step(pre, pos as int, input, m);
        }
        out.insert(pos, item);
        assert(kv_view(out@) =~= pre.insert(pos as int, input[m]));
    }
    assert(src@.len() == 0);
    out
}

} // verus!
