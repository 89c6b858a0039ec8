//! Chunks of a request: their identity, their place in the request, their order.

use crate::key_map::MapKey;
use crate::protocols::{
    block_hashes, block_tokens, compute_block_hash_for_seq, hash_values, LocalBlockHash,
};
use crate::text::{
    lemma_text_before_total, lemma_text_before_transitive, precedes, text_before,
};
use std::sync::Arc;
use vstd::prelude::*;

verus! {

/// A model id and the hash of the chunk's own tokens.
pub type ChunkKey = (String, u64);

/// What a [`ChunkKey`] stands for.
pub type ChunkId = (Seq<char>, u64);

pub open spec fn ids(keys: Seq<ChunkKey>) -> Seq<ChunkId> {
    Seq::new(keys.len(), |i: int| keys[i]@)
}

pub open spec fn ref_ids(keys: Seq<&ChunkKey>) -> Seq<ChunkId> {
    Seq::new(keys.len(), |i: int| keys[i]@)
}

/// Chunks in order of their model, then of their hash.
pub open spec fn chunk_before(a: ChunkId, b: ChunkId) -> bool {
    text_before(a.0, b.0) || (a.0 == b.0 && a.1 < b.1)
}

pub proof fn lemma_chunk_before_total(a: ChunkId, b: ChunkId)
    ensures
        a == b || chunk_before(a, b) || chunk_before(b, a),
        !(chunk_before(a, b) && chunk_before(b, a)),
        !chunk_before(a, a),
{
    lemma_text_before_total(a.0, b.0);
    lemma_text_before_total(a.0, a.0);
}

pub proof fn lemma_chunk_before_transitive(a: ChunkId, b: ChunkId, c: ChunkId)
    requires
        chunk_before(a, b),
        chunk_before(b, c),
    ensures
        chunk_before(a, c),
{
    if text_before(a.0, b.0) && text_before(b.0, c.0) {
        lemma_text_before_transitive(a.0, b.0, c.0);
    }
}

pub fn chunk_precedes(a: &ChunkKey, b: &ChunkKey) -> (r: bool)
    ensures
        r == chunk_before(a@, b@),
{
    if a.0 == b.0 {
        proof {
            lemma_text_before_total(a.0@, a.0@);
        }
        a.1 < b.1
    } else {
        precedes(a.0.as_str(), b.0.as_str())
    }
}

pub fn clone_key(key: &ChunkKey) -> (copy: ChunkKey)
    ensures
        copy@ == key@,
{
    (key.0.clone(), key.1)
}

pub fn clone_keys(keys: &[ChunkKey], limit: usize) -> (copy: Vec<ChunkKey>)
    ensures
        ids(copy@) == first(ids(keys@), limit as int),
{
    let mut copy: Vec<ChunkKey> = Vec::new();
    let mut i: usize = 0;
    while i < keys.len() && i < limit
        invariant
            i <= keys@.len(),
            i <= limit,
            copy@.len() == i,
            forall|j: int| 0 <= j < i ==> (#[trigger] copy@[j])@ == keys@[j]@,
        decreases keys@.len() - i,
    {
        copy.push(clone_key(&keys[i]));
        i += 1;
    }
    assert(ids(copy@) =~= first(ids(keys@), limit as int));
    copy
}

/// The first `limit` items, or all of them when there are fewer.
pub open spec fn first<A>(s: Seq<A>, limit: int) -> Seq<A> {
    if s.len() <= limit {
        s
    } else {
        s.take(limit)
    }
}

/// Where a chunk lies, with the complete request that leads up to it. All
/// descriptors of one request share the storage of the tokens.
#[derive(Debug)]
pub struct ChunkDescriptor {
    pub prefix_tokens: Arc<Vec<u32>>,
    pub start_chunk: u32,
    pub end_chunk: u32,
}

#[verifier::ext_equal]
pub struct DescriptorModel {
    pub prefix_tokens: Seq<u32>,
    pub start_chunk: u32,
    pub end_chunk: u32,
}

impl View for ChunkDescriptor {
    type V = DescriptorModel;

    open spec fn view(&self) -> DescriptorModel {
        DescriptorModel {
            prefix_tokens: (*self.prefix_tokens)@,
            start_chunk: self.start_chunk,
            end_chunk: self.end_chunk,
        }
    }
}

impl Clone for ChunkDescriptor {
    fn clone(&self) -> (copy: Self)
        ensures
            copy@ == self@,
    {
        ChunkDescriptor {
            prefix_tokens: Arc::clone(&self.prefix_tokens),
            start_chunk: self.start_chunk,
            end_chunk: self.end_chunk,
        }
    }
}

pub open spec fn described(chunks: Seq<(ChunkKey, ChunkDescriptor)>) -> Seq<
    (ChunkId, DescriptorModel),
> {
    Seq::new(chunks.len(), |i: int| (chunks[i].0@, chunks[i].1@))
}

/// The chunks of a request whose chunk `i` has the hash `hashes[i]`.
pub open spec fn request_chunks(
    model_id: Seq<char>,
    tokens: Seq<u32>,
    chunk_size: int,
    hashes: Seq<u64>,
) -> Seq<(ChunkId, DescriptorModel)> {
    let complete = tokens.len() as int / chunk_size;
    let count = if complete <= hashes.len() {
        complete
    } else {
        hashes.len() as int
    };
    Seq::new(
        count as nat,
        |i: int|
            (
                (model_id, hashes[i]),
                DescriptorModel {
                    prefix_tokens: tokens,
                    start_chunk: i as u32,
                    end_chunk: (i + 1) as u32,
                },
            ),
    )
}

/// The first `count` tokens.
pub fn copy_tokens(tokens: &[u32], count: usize) -> (copy: Vec<u32>)
    requires
        count <= tokens@.len(),
    ensures
        copy@ == tokens@.take(count as int),
{
    let mut copy: Vec<u32> = Vec::new();
    let mut i: usize = 0;
    while i < count
        invariant
            i <= count <= tokens@.len(),
            copy@ == tokens@.take(i as int),
        decreases count - i,
    {
        copy.push(tokens[i]);
        assert(copy@ =~= tokens@.take(i + 1));
        i += 1;
    }
    copy
}

/// Describes the complete chunks of a request, given their hashes.
pub fn describe_chunks(
    model_id: &str,
    tokens: &[u32],
    chunk_size: usize,
    hashes: &Vec<LocalBlockHash>,
) -> (chunks: Vec<(ChunkKey, ChunkDescriptor)>)
    requires
        chunk_size > 0,
    ensures
        described(chunks@) == request_chunks(
            model_id@,
            tokens@,
            chunk_size as int,
            hash_values(hashes@),
        ),
{
    let complete: usize = tokens.len() / chunk_size;
    let count: usize = if complete <= hashes.len() {
        complete
    } else {
        hashes.len()
    };
    let prefix_tokens: Arc<Vec<u32>> = Arc::new(copy_tokens(tokens, tokens.len()));
    assert((*prefix_tokens)@ =~= tokens@);
    let mut chunks: Vec<(ChunkKey, ChunkDescriptor)> = Vec::new();
    let ghost goal = request_chunks(model_id@, tokens@, chunk_size as int, hash_values(hashes@));
    let mut i: usize = 0;
    while i < count
        invariant
            i <= count,
            count <= hashes.len(),
            (*prefix_tokens)@ == tokens@,
            goal == request_chunks(model_id@, tokens@, chunk_size as int, hash_values(hashes@)),
            goal.len() == count,
            chunks@.len() == i,
            forall|j: int|
                0 <= j < i ==> ((#[trigger] chunks@[j]).0@, chunks@[j].1@) == goal[j],
        decreases count - i,
    {
        let key: ChunkKey = (model_id.to_owned(), hashes[i].0);
        let descriptor = ChunkDescriptor {
            prefix_tokens: Arc::clone(&prefix_tokens),
            start_chunk: #[verifier::truncate] (i as u32),
            end_chunk: #[verifier::truncate] ((i + 1) as u32),
        };
        chunks.push((key, descriptor));
        i += 1;
    }
    assert(described(chunks@) =~= goal);
    chunks
}

/// Describes the complete chunks of a request.
///
/// The hashes are taken over blocks of as many tokens as the low 32 bits of
/// `chunk_size` say.
pub fn chunk_descriptors(model_id: &str, tokens: &[u32], chunk_size: usize) -> (chunks: Vec<
    (ChunkKey, ChunkDescriptor),
>)
    requires
        (chunk_size as u32) > 0,
    ensures
        described(chunks@) == request_chunks(
            model_id@,
            tokens@,
            chunk_size as int,
            block_hashes(tokens@, (chunk_size as u32) as int),
        ),
{
    proof {
        assert(chunk_size == 0 ==> (chunk_size as u32) == 0);
    }
    let hashes = compute_block_hash_for_seq(tokens, #[verifier::truncate] (chunk_size as u32));
    describe_chunks(model_id, tokens, chunk_size, &hashes)
}

/// The items in order of their first occurrence, each once.
pub open spec fn distinct<A>(s: Seq<A>) -> Seq<A>
    decreases s.len(),
{
    if s.len() == 0 {
        s
    } else {
        let init = distinct(s.drop_last());
        if init.contains(s.last()) {
            init
        } else {
            init.push(s.last())
        }
    }
}

/// Keeping first occurrences drops no item and repeats none.
pub proof fn lemma_distinct<A>(s: Seq<A>)
    ensures
        distinct(s).no_duplicates(),
        forall|x: A| #[trigger] distinct(s).contains(x) <==> s.contains(x),
    decreases s.len(),
{
    if s.len() > 0 {
        let init = distinct(s.drop_last());
        lemma_distinct(s.drop_last());
        assert forall|x: A| #[trigger] distinct(s).contains(x) <==> s.contains(x) by {
            if s.contains(x) && x != s.last() {
                let i = choose|i: int| 0 <= i < s.len() && s[i] == x;
                assert(s.drop_last()[i] == x);
                assert(init.contains(x));
            }
            if init.contains(x) {
                assert(s.drop_last().contains(x));
                let i = choose|i: int| 0 <= i < s.drop_last().len() && s.drop_last()[i] == x;
                assert(s[i] == x);
                let j = choose|j: int| 0 <= j < init.len() && init[j] == x;
                assert(distinct(s)[j] == x);
            }
            if !init.contains(s.last()) {
                assert(distinct(s)[init.len() as int] == s.last());
            }
            if distinct(s).contains(x) && !init.contains(x) {
                let j = choose|j: int| 0 <= j < distinct(s).len() && distinct(s)[j] == x;
                if j < init.len() {
                    assert(init[j] == x);
                }
                assert(s[s.len() - 1] == x);
            }
        }
    }
}

/// Filtering one item more.
pub proof fn lemma_filter_next<A>(s: Seq<A>, keep: spec_fn(A) -> bool, at: int)
    requires
        0 <= at < s.len(),
    ensures
        s.take(at + 1).filter(keep) == if keep(s[at]) {
            s.take(at).filter(keep).push(s[at])
        } else {
            s.take(at).filter(keep)
        },
{
    reveal(Seq::filter);
    assert(s.take(at + 1).drop_last() =~= s.take(at));
    assert(s.take(at + 1).last() == s[at]);
}

/// Filtering keeps exactly the items that satisfy the predicate.
pub proof fn lemma_filter_membership<A>(s: Seq<A>, keep: spec_fn(A) -> bool, x: A)
    ensures
        s.filter(keep).contains(x) <==> s.contains(x) && keep(x),
    decreases s.len(),
{
    reveal(Seq::filter);
    if s.len() > 0 {
        let init = s.drop_last();
        let before = init.filter(keep);
        let out = s.filter(keep);
        lemma_filter_membership(init, keep, x);
        assert(s[s.len() - 1] == s.last());
        if init.contains(x) {
            let i = choose|i: int| 0 <= i < init.len() && init[i] == x;
            assert(s[i] == x);
        }
        if s.contains(x) && x != s.last() {
            let i = choose|i: int| 0 <= i < s.len() && s[i] == x;
            assert(init[i] == x);
        }
        if before.contains(x) {
            let i = choose|i: int| 0 <= i < before.len() && before[i] == x;
            assert(out[i] == x);
        }
        if keep(s.last()) {
            assert(out[before.len() as int] == s.last());
        }
        if out.contains(x) && !before.contains(x) {
            let i = choose|i: int| 0 <= i < out.len() && out[i] == x;
            if i < before.len() {
                assert(before[i] == x);
            }
        }
    }
}

/// The items in order of their last occurrence, each once.
pub open spec fn latest<A>(s: Seq<A>) -> Seq<A> {
    distinct(s.reverse()).reverse()
}

/// Everything but `x`.
pub open spec fn differs_from<A>(x: A) -> spec_fn(A) -> bool {
    |other: A| other != x
}

/// Everything that is not listed.
pub open spec fn not_listed<A>(listed: Seq<A>) -> spec_fn(A) -> bool {
    |other: A| !listed.contains(other)
}

proof fn lemma_filter_reversed<A>(s: Seq<A>, keep: spec_fn(A) -> bool)
    ensures
        s.reverse().filter(keep) == s.filter(keep).reverse(),
    decreases s.len(),
{
    reveal(Seq::filter);
    if s.len() > 0 {
        let init = s.drop_last();
        let last = seq![s.last()];
        lemma_filter_reversed(init, keep);
        assert(s.reverse() =~= last + init.reverse());
        Seq::filter_distributes_over_add(last, init.reverse(), keep);
        assert(last.drop_last() =~= Seq::<A>::empty());
        assert(last.drop_last().filter(keep) =~= Seq::<A>::empty());
        if keep(s.last()) {
            assert(last.filter(keep) =~= last);
            assert(init.filter(keep).push(s.last()).reverse() =~= last + init.filter(
                keep,
            ).reverse());
        } else {
            assert(last.filter(keep) =~= Seq::<A>::empty());
        }
        assert(s.reverse().filter(keep) =~= s.filter(keep).reverse());
    } else {
        assert(s.reverse() =~= s);
        assert(s.filter(keep).reverse() =~= s.filter(keep));
    }
}

proof fn lemma_distinct_after<A>(x: A, s: Seq<A>)
    ensures
        distinct(seq![x] + s) == seq![x] + distinct(s).filter(differs_from(x)),
    decreases s.len(),
{
    reveal(Seq::filter);
    let all = seq![x] + s;
    let keep = differs_from(x);
    if s.len() > 0 {
        let init = s.drop_last();
        lemma_distinct_after(x, init);
        assert(all.drop_last() =~= seq![x] + init);
        assert(all.last() == s.last());
        let before = distinct(init);
        let head = seq![x] + before.filter(keep);
        lemma_filter_membership(before, keep, s.last());
        assert(head.contains(s.last()) <==> s.last() == x || before.contains(s.last())) by {
            assert(head[0] == x);
            if before.filter(keep).contains(s.last()) {
                let i = choose|i: int|
                    0 <= i < before.filter(keep).len() && before.filter(keep)[i] == s.last();
                assert(head[i + 1] == s.last());
            }
            if head.contains(s.last()) && s.last() != x {
                let i = choose|i: int| 0 <= i < head.len() && head[i] == s.last();
                assert(before.filter(keep)[i - 1] == s.last());
            }
        }
        if !before.contains(s.last()) {
            assert(before.push(s.last()).drop_last() =~= before);
        }
        assert(distinct(all) =~= seq![x] + distinct(s).filter(keep));
    } else {
        assert(all =~= seq![x]);
        assert(all.drop_last() =~= Seq::<A>::empty());
        assert(distinct(all.drop_last()) =~= Seq::<A>::empty());
        assert(distinct(all) =~= seq![x] + distinct(s).filter(keep));
    }
}

/// One more item moves to the end.
pub proof fn lemma_latest_push<A>(s: Seq<A>, x: A)
    ensures
        latest(s.push(x)) == latest(s).filter(differs_from(x)).push(x),
{
    let rest = distinct(s.reverse());
    assert(s.push(x).reverse() =~= seq![x] + s.reverse());
    lemma_distinct_after(x, s.reverse());
    lemma_filter_reversed(rest, differs_from(x));
    assert((seq![x] + rest.filter(differs_from(x))).reverse() =~= rest.filter(
        differs_from(x),
    ).reverse().push(x));
}

/// Filtering by what holds of all items changes nothing.
pub proof fn lemma_filter_keeps_all<A>(s: Seq<A>, keep: spec_fn(A) -> bool)
    requires
        forall|i: int| 0 <= i < s.len() ==> keep(#[trigger] s[i]),
    ensures
        s.filter(keep) == s,
    decreases s.len(),
{
    reveal(Seq::filter);
    if s.len() > 0 {
        assert(keep(s[s.len() - 1]));
        lemma_filter_keeps_all(s.drop_last(), keep);
        assert(s.drop_last().push(s.last()) =~= s);
    }
}

/// Leaving out the listed items and then `x` leaves out the list with `x` added.
pub proof fn lemma_not_listed_push<A>(s: Seq<A>, listed: Seq<A>, x: A)
    ensures
        s.filter(not_listed(listed)).filter(differs_from(x)) == s.filter(
            not_listed(listed.push(x)),
        ),
    decreases s.len(),
{
    reveal(Seq::filter);
    if s.len() > 0 {
        let init = s.drop_last();
        let longer = listed.push(x);
        lemma_not_listed_push(init, listed, x);
        assert(longer.contains(s.last()) <==> listed.contains(s.last()) || s.last() == x) by {
            assert(longer[listed.len() as int] == x);
            if listed.contains(s.last()) {
                let i = choose|i: int| 0 <= i < listed.len() && listed[i] == s.last();
                assert(longer[i] == s.last());
            }
            if longer.contains(s.last()) && s.last() != x {
                let i = choose|i: int| 0 <= i < longer.len() && longer[i] == s.last();
                assert(listed[i] == s.last());
            }
        }
        let some = init.filter(not_listed(listed));
        if !listed.contains(s.last()) {
            assert(some.push(s.last()).drop_last() =~= some);
        }
    }
}

pub proof fn lemma_filter_no_duplicates<A>(s: Seq<A>, keep: spec_fn(A) -> bool)
    requires
        s.no_duplicates(),
    ensures
        s.filter(keep).no_duplicates(),
    decreases s.len(),
{
    reveal(Seq::filter);
    if s.len() > 0 {
        let init = s.drop_last();
        assert(init.no_duplicates()) by {
            assert forall|i: int, j: int| 0 <= i < init.len() && 0 <= j < init.len() && i
                != j implies init[i] != init[j] by {
                assert(s[i] != s[j]);
            }
        }
        lemma_filter_no_duplicates(init, keep);
        lemma_filter_membership(init, keep, s.last());
        if init.contains(s.last()) {
            let i = choose|i: int| 0 <= i < init.len() && init[i] == s.last();
            assert(s[i] != s[s.len() - 1]);
        }
    }
}

/// The first `limit` chunks without repetitions.
pub fn unique_chunk_refs<'a>(chunks: &'a [ChunkKey], limit: usize) -> (unique: Vec<&'a ChunkKey>)
    ensures
        ref_ids(unique@) == distinct(first(ids(chunks@), limit as int)),
{
    let ghost all = ids(chunks@);
    let mut unique: Vec<&'a ChunkKey> = Vec::new();
    let mut i: usize = 0;
    assert(ref_ids(unique@) =~= distinct(all.take(0)));
    while i < chunks.len() && i < limit
        invariant
            i <= chunks@.len(),
            i <= limit,
            all == ids(chunks@),
            ref_ids(unique@) == distinct(all.take(i as int)),
        decreases chunks@.len() - i,
    {
        let chunk = &chunks[i];
        let ghost seen = unique@;
        assert(all.take(i + 1).drop_last() =~= all.take(i as int));
        assert(all.take(i + 1).last() == chunk@);
        if !holds_ref(&unique, chunk) {
            unique.push(chunk);
            assert(ref_ids(unique@) =~= ref_ids(seen).push(chunk@));
        }
        i += 1;
    }
    assert(all.take(i as int) =~= first(all, limit as int));
    unique
}

/// `key` occurs in `keys`.
pub fn holds_key(keys: &Vec<ChunkKey>, key: &ChunkKey) -> (found: bool)
    ensures
        found == ids(keys@).contains(key@),
{
    let mut i: usize = 0;
    while i < keys.len()
        invariant
            i <= keys.len(),
            forall|j: int| 0 <= j < i ==> (#[trigger] keys@[j])@ != key@,
        decreases keys.len() - i,
    {
        if keys[i].same_key(key) {
            assert(ids(keys@)[i as int] == key@);
            return true;
        }
        i += 1;
    }
    assert forall|j: int| 0 <= j < ids(keys@).len() implies ids(keys@)[j] != key@ by {
        assert(keys@[j]@ != key@);
    }
    false
}

fn holds_ref(keys: &Vec<&ChunkKey>, key: &ChunkKey) -> (found: bool)
    ensures
        found == ref_ids(keys@).contains(key@),
{
    let mut i: usize = 0;
    while i < keys.len()
        invariant
            i <= keys.len(),
            forall|j: int| 0 <= j < i ==> (#[trigger] keys@[j])@ != key@,
        decreases keys.len() - i,
    {
        if keys[i].same_key(key) {
            assert(ref_ids(keys@)[i as int] == key@);
            return true;
        }
        i += 1;
    }
    assert forall|j: int| 0 <= j < ref_ids(keys@).len() implies ref_ids(keys@)[j] != key@ by {
        assert(keys@[j]@ != key@);
    }
    false
}

/// Two requests that hold the same tokens in one chunk give it the same
/// identity there, whatever comes before or after.
pub proof fn law_chunk_identity_is_local(
    model_id: Seq<char>,
    a: Seq<u32>,
    b: Seq<u32>,
    chunk_size: int,
    i: int,
    j: int,
)
    requires
        chunk_size > 0,
        0 <= i < a.len() as int / chunk_size,
        0 <= j < b.len() as int / chunk_size,
        block_tokens(a, chunk_size, i) == block_tokens(b, chunk_size, j),
    ensures
        request_chunks(model_id, a, chunk_size, block_hashes(a, chunk_size))[i].0
            == request_chunks(model_id, b, chunk_size, block_hashes(b, chunk_size))[j].0,
{
}

} // verus!
