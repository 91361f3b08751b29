//! Ordered reassembly: concatenating fragment contents in ascending index
//! order reproduces the whole resource.

use vstd::prelude::*;
use crate::planner::{FragmentSpec, lemma_plan_partitions, plan_inputs_valid, plan_spec};

verus! {

/// The bytes of a sequence of fragments laid end to end, in order.
pub open spec fn concat_bytes(frags: Seq<Seq<u8>>) -> Seq<u8>
    decreases frags.len(),
{
    if frags.len() == 0 {
        Seq::empty()
    } else {
        frags[0] + concat_bytes(frags.drop_first())
    }
}

proof fn lemma_concat_bytes_push(frags: Seq<Seq<u8>>, last: Seq<u8>)
    ensures
        concat_bytes(frags.push(last)) == concat_bytes(frags) + last,
    decreases frags.len(),
{
    if frags.len() == 0 {
        let one = frags.push(last);
        assert(one.drop_first() =~= Seq::<Seq<u8>>::empty());
        assert(concat_bytes(one) == one[0] + concat_bytes(one.drop_first()));
        assert(one[0] == last);
        assert(last + Seq::<u8>::empty() =~= last);
        assert(concat_bytes(frags) + last =~= last);
    } else {
        assert(frags.push(last).drop_first() =~= frags.drop_first().push(last));
        lemma_concat_bytes_push(frags.drop_first(), last);
        assert(frags[0] + (concat_bytes(frags.drop_first()) + last) =~= (frags[0] + concat_bytes(
            frags.drop_first(),
        )) + last);
    }
}

/// The content of one fragment of a resource: the bytes of `content` from
/// `frag.start_byte` through `frag.end_byte` inclusive. This is what a
/// byte-range fetch of that fragment returns.
pub fn fragment_content(content: &Vec<u8>, frag: &FragmentSpec) -> (r: Vec<u8>)
    requires
        frag.start_byte <= frag.end_byte,
        frag.end_byte < content@.len(),
    ensures
        r@ == content@.subrange(frag.start_byte as int, frag.end_byte as int + 1),
{
    let n: usize = content.len();
    let start: usize = frag.start_byte as usize;
    let end: usize = frag.end_byte as usize;
    let mut r: Vec<u8> = Vec::new();
    let mut j: usize = start;
    while j <= end
        invariant
            start <= j <= end + 1,
            end < n == content@.len(),
            r@ =~= content@.subrange(start as int, j as int),
        decreases end + 1 - j,
    {
        r.push(content[j]);
        j = j + 1;
        proof {
            assert(r@ =~= content@.subrange(start as int, j as int));
        }
    }
    r
}

/// Concatenates fragment contents in ascending index order into one buffer:
/// the reassembled file is exactly the fragments laid end to end.
pub fn reassemble(fragments: &Vec<Vec<u8>>) -> (r: Vec<u8>)
    ensures
        r@ == concat_bytes(fragments.deep_view()),
{
    let ghost all = fragments.deep_view();
    let mut r: Vec<u8> = Vec::new();
    let mut i: usize = 0;
    while i < fragments.len()
        invariant
            i <= fragments@.len(),
            all == fragments.deep_view(),
            all.len() == fragments@.len(),
            forall|k: int| 0 <= k < all.len() ==> #[trigger] all[k] == fragments@[k]@,
            r@ == concat_bytes(all.take(i as int)),
        decreases fragments@.len() - i,
    {
        let frag: &Vec<u8> = &fragments[i];
        let mut j: usize = 0;
        while j < frag.len()
            invariant
                j <= frag@.len(),
                r@ == concat_bytes(all.take(i as int)) + frag@.take(j as int),
            decreases frag@.len() - j,
        {
            r.push(frag[j]);
            j = j + 1;
            proof {
                assert(concat_bytes(all.take(i as int)) + frag@.take(j - 1) + seq![frag@[j - 1]]
                    =~= concat_bytes(all.take(i as int)) + frag@.take(j as int));
            }
        }
        proof {
            lemma_concat_bytes_push(all.take(i as int), all[i as int]);
            assert(all.take(i as int).push(all[i as int]) =~= all.take(i as int + 1));
            assert(frag@.take(frag@.len() as int) =~= frag@);
        }
        i = i + 1;
    }
    proof {
        assert(all.take(all.len() as int) =~= all);
    }
    r
}

/// Reassembling the planned fragments of a resource, in ascending index
/// order, reproduces byte for byte the content that a single unfragmented
/// fetch of the same resource returns: if each fragment holds exactly the
/// bytes of its planned range, their ordered concatenation is the whole
/// content.
pub proof fn lemma_reassembly_matches_whole(
    content: Seq<u8>,
    total_size: u64,
    fragment_count: usize,
    frags: Seq<Seq<u8>>,
)
    requires
        plan_inputs_valid(total_size, fragment_count),
        content.len() == total_size,
        frags.len() == fragment_count,
        forall|i: int|
            0 <= i < fragment_count ==> #[trigger] frags[i] == content.subrange(
                plan_spec(total_size, fragment_count)[i].start_byte as int,
                plan_spec(total_size, fragment_count)[i].end_byte as int + 1,
            ),
    ensures
        concat_bytes(frags) == content,
{
    lemma_reassembly_suffix(content, total_size, fragment_count, frags, 0);
    lemma_plan_partitions(total_size, fragment_count);
    assert(frags.skip(0) =~= frags);
    assert(content.subrange(0, total_size as int) =~= content);
}

proof fn lemma_reassembly_suffix(
    content: Seq<u8>,
    total_size: u64,
    fragment_count: usize,
    frags: Seq<Seq<u8>>,
    i: int,
)
    requires
        plan_inputs_valid(total_size, fragment_count),
        content.len() == total_size,
        frags.len() == fragment_count,
        forall|k: int|
            0 <= k < fragment_count ==> #[trigger] frags[k] == content.subrange(
                plan_spec(total_size, fragment_count)[k].start_byte as int,
                plan_spec(total_size, fragment_count)[k].end_byte as int + 1,
            ),
        0 <= i <= fragment_count,
    ensures
        concat_bytes(frags.skip(i)) == content.subrange(
            if i == fragment_count {
                total_size as int
            } else {
                plan_spec(total_size, fragment_count)[i].start_byte as int
            },
            total_size as int,
        ),
    decreases fragment_count - i,
{
    let p = plan_spec(total_size, fragment_count);
    lemma_plan_partitions(total_size, fragment_count);
    if i == fragment_count {
        assert(frags.skip(i) =~= Seq::<Seq<u8>>::empty());
        assert(concat_bytes(frags.skip(i)) =~= content.subrange(
            total_size as int,
            total_size as int,
        ));
    } else {
        lemma_reassembly_suffix(content, total_size, fragment_count, frags, i + 1);
        let lo = p[i].start_byte as int;
        let mid = p[i].end_byte as int + 1;
        let hi = total_size as int;
        assert(frags.skip(i)[0] == frags[i]);
        assert(frags.skip(i).drop_first() =~= frags.skip(i + 1));
        if i + 1 == fragment_count {
            assert(mid == hi);
        } else {
            assert(p[i + 1].start_byte == p[i].end_byte + 1);
        }
        assert(content.subrange(lo, mid) + content.subrange(mid, hi) =~= content.subrange(lo, hi));
    }
}

} // verus!
