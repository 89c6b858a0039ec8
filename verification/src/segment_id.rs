//! The identity of a logical segment of the key/value cache.
//!
//! It is made of the namespace and of the hash of the tokens. Nothing that belongs to
//! one request or one worker's memory is part of it.

use crate::protocols::{LocalBlockHash, WorkerId};
use crate::text::{decimal, digit, hex, hex_digit, push_decimal, push_hex};
use vstd::prelude::*;

verus! {

/// The model, its layout and its place in a parallel deployment.
#[derive(Debug, Hash, PartialEq, Eq)]
pub struct SegmentNamespace {
    pub model_hash: u64,
    pub model_revision: u32,
    pub tensor_parallel_rank: WorkerId,
    pub pipeline_parallel_rank: u16,
    pub kv_layout_version: u16,
    pub kv_dtype: String,
    pub chunk_size: u32,
    pub layer_group: u16,
}

#[verifier::ext_equal]
pub struct NamespaceModel {
    pub model_hash: u64,
    pub model_revision: u32,
    pub tensor_parallel_rank: WorkerId,
    pub pipeline_parallel_rank: u16,
    pub kv_layout_version: u16,
    pub kv_dtype: Seq<char>,
    pub chunk_size: u32,
    pub layer_group: u16,
}

impl View for SegmentNamespace {
    type V = NamespaceModel;

    open spec fn view(&self) -> NamespaceModel {
        NamespaceModel {
            model_hash: self.model_hash,
            model_revision: self.model_revision,
            tensor_parallel_rank: self.tensor_parallel_rank,
            pipeline_parallel_rank: self.pipeline_parallel_rank,
            kv_layout_version: self.kv_layout_version,
            kv_dtype: self.kv_dtype@,
            chunk_size: self.chunk_size,
            layer_group: self.layer_group,
        }
    }
}

impl Clone for SegmentNamespace {
    fn clone(&self) -> (copy: Self)
        ensures
            copy@ == self@,
    {
        SegmentNamespace {
            model_hash: self.model_hash,
            model_revision: self.model_revision,
            tensor_parallel_rank: self.tensor_parallel_rank,
            pipeline_parallel_rank: self.pipeline_parallel_rank,
            kv_layout_version: self.kv_layout_version,
            kv_dtype: self.kv_dtype.clone(),
            chunk_size: self.chunk_size,
            layer_group: self.layer_group,
        }
    }
}

/// A number in front of a colon and the rest.
pub open spec fn before_colon(n: nat, rest: Seq<char>) -> Seq<char> {
    decimal(n) + (seq![':'] + rest)
}

/// A number behind a text and a colon.
pub open spec fn after_colon(start: Seq<char>, n: nat) -> Seq<char> {
    start + seq![':'] + decimal(n)
}

/// The fields in decimal, separated by colons.
pub open spec fn namespace_text(n: NamespaceModel) -> Seq<char> {
    before_colon(
        n.model_hash as nat,
        before_colon(
            n.model_revision as nat,
            before_colon(
                n.tensor_parallel_rank as nat,
                before_colon(
                    n.pipeline_parallel_rank as nat,
                    before_colon(
                        n.kv_layout_version as nat,
                        after_colon(
                            after_colon(n.kv_dtype, n.chunk_size as nat),
                            n.layer_group as nat,
                        ),
                    ),
                ),
            ),
        ),
    )
}

/// The namespace, a colon, and the hash in sixteen hexadecimal digits.
pub open spec fn segment_text(n: NamespaceModel, hash: u64) -> Seq<char> {
    namespace_text(n) + seq![':'] + hex(hash as nat, 16)
}

/// Writes a number and a colon; `rest` is what is still to follow.
fn push_field(text: &mut String, n: u64, Ghost(rest): Ghost<Seq<char>>)
    ensures
        final(text)@ + rest == old(text)@ + before_colon(n as nat, rest),
{
    let ghost start = text@;
    push_decimal(text, n);
    text.append(":");
    proof {
        reveal_strlit(":");
        assert(":"@ =~= seq![':']);
        assert(text@ + rest =~= start + before_colon(n as nat, rest));
    }
}

/// Writes a colon and a number.
fn push_last_field(text: &mut String, n: u64)
    ensures
        final(text)@ == after_colon(old(text)@, n as nat),
{
    text.append(":");
    push_decimal(text, n);
    proof {
        reveal_strlit(":");
        assert(":"@ =~= seq![':']);
    }
}

impl SegmentNamespace {
    pub fn canonical(&self) -> (text: String)
        ensures
            text@ == namespace_text(self@),
    {
        let mut end: String = self.kv_dtype.clone();
        push_last_field(&mut end, self.chunk_size as u64);
        push_last_field(&mut end, self.layer_group as u64);
        let ghost rest4 = before_colon(self.kv_layout_version as nat, end@);
        let ghost rest3 = before_colon(self.pipeline_parallel_rank as nat, rest4);
        let ghost rest2 = before_colon(self.tensor_parallel_rank as nat, rest3);
        let ghost rest1 = before_colon(self.model_revision as nat, rest2);
        let mut text: String = "".to_owned();
        proof {
            reveal_strlit("");
            assert(text@ + namespace_text(self@) =~= namespace_text(self@));
        }
        push_field(&mut text, self.model_hash, Ghost(rest1));
        push_field(&mut text, self.model_revision as u64, Ghost(rest2));
        push_field(&mut text, self.tensor_parallel_rank, Ghost(rest3));
        push_field(&mut text, self.pipeline_parallel_rank as u64, Ghost(rest4));
        push_field(&mut text, self.kv_layout_version as u64, Ghost(end@));
        text.append(end.as_str());
        text
    }
}

/// A segment: a namespace and the hash of the tokens of one chunk.
#[derive(Debug, Hash, PartialEq, Eq)]
pub struct SegmentId {
    pub namespace: SegmentNamespace,
    pub token_chunk_hash: u64,
}

impl Clone for SegmentId {
    fn clone(&self) -> (copy: Self)
        ensures
            copy.namespace@ == self.namespace@,
            copy.token_chunk_hash == self.token_chunk_hash,
    {
        SegmentId {
            namespace: self.namespace.clone(),
            token_chunk_hash: self.token_chunk_hash,
        }
    }
}

impl SegmentId {
    pub fn from_block_hash(namespace: SegmentNamespace, hash: LocalBlockHash) -> (id: Self)
        ensures
            id.namespace == namespace,
            id.token_chunk_hash == hash.0,
    {
        SegmentId { namespace, token_chunk_hash: hash.0 }
    }

    pub fn canonical(&self) -> (text: String)
        ensures
            text@ == segment_text(self.namespace@, self.token_chunk_hash),
    {
        let mut text: String = self.namespace.canonical();
        text.append(":");
        push_hex(&mut text, self.token_chunk_hash, 16);
        proof {
            reveal_strlit(":");
            assert(":"@ =~= seq![':']);
        }
        text
    }
}

/// A segment and the router blocks that it covers.
#[derive(Debug, PartialEq, Eq)]
pub struct SegmentBlockMapping {
    pub segment_id: SegmentId,
    pub router_block_hashes: Vec<u64>,
}

impl Clone for SegmentBlockMapping {
    fn clone(&self) -> (copy: Self)
        ensures
            copy.segment_id.namespace@ == self.segment_id.namespace@,
            copy.segment_id.token_chunk_hash == self.segment_id.token_chunk_hash,
            copy.router_block_hashes@ == self.router_block_hashes@,
    {
        let router_block_hashes: Vec<u64> = self.router_block_hashes.clone();
        assert(router_block_hashes@ =~= self.router_block_hashes@);
        SegmentBlockMapping { segment_id: self.segment_id.clone(), router_block_hashes }
    }
}

/// No colon occurs.
spec fn colon_free(s: Seq<char>) -> bool {
    forall|i: int| 0 <= i < s.len() ==> s[i] != ':'
}

proof fn lemma_decimal_is_colon_free(n: nat)
    ensures
        colon_free(decimal(n)),
    decreases n,
{
    if n >= 10 {
        lemma_decimal_is_colon_free(n / 10);
    }
}

proof fn lemma_hex_is_colon_free(n: nat, width: nat)
    ensures
        colon_free(hex(n, width)),
        hex(n, width).len() == width,
    decreases width,
{
    if width > 0 {
        lemma_hex_is_colon_free(n / 16, (width - 1) as nat);
    }
}

proof fn lemma_digits_differ(a: nat, b: nat)
    requires
        a < 10,
        b < 10,
        digit(a) == digit(b),
    ensures
        a == b,
{
}

proof fn lemma_decimal_length(n: nat)
    ensures
        decimal(n).len() >= 1,
        decimal(n).len() == 1 <==> n < 10,
    decreases n,
{
    if n >= 10 {
        lemma_decimal_length(n / 10);
    }
}

proof fn lemma_decimal_injective(a: nat, b: nat)
    requires
        decimal(a) == decimal(b),
    ensures
        a == b,
    decreases a,
{
    lemma_decimal_length(a);
    lemma_decimal_length(b);
    if a < 10 {
        assert(decimal(a)[0] == digit(a) && decimal(b)[0] == digit(b));
        lemma_digits_differ(a, b);
    } else {
        assert(decimal(a).last() == digit(a % 10));
        assert(decimal(b).last() == digit(b % 10));
        assert(decimal(a).drop_last() =~= decimal(a / 10));
        assert(decimal(b).drop_last() =~= decimal(b / 10));
        lemma_digits_differ(a % 10, b % 10);
        lemma_decimal_injective(a / 10, b / 10);
    }
}

/// How many numbers there are of so many hexadecimal digits.
spec fn hex_range(width: nat) -> nat
    decreases width,
{
    if width == 0 {
        1
    } else {
        16 * hex_range((width - 1) as nat)
    }
}

proof fn lemma_hex_injective(a: nat, b: nat, width: nat)
    requires
        hex(a, width) == hex(b, width),
        a < hex_range(width),
        b < hex_range(width),
    ensures
        a == b,
    decreases width,
{
    if width > 0 {
        let w = (width - 1) as nat;
        assert(hex(a, width).last() == hex_digit(a % 16));
        assert(hex(b, width).last() == hex_digit(b % 16));
        assert(hex(a, width).drop_last() =~= hex(a / 16, w));
        assert(hex(b, width).drop_last() =~= hex(b / 16, w));
        assert(a % 16 == b % 16);
        lemma_hex_injective(a / 16, b / 16, w);
    }
}

/// Colon-free starts of equal texts are equal, and so is what follows.
proof fn lemma_split_front(a: Seq<char>, x: Seq<char>, b: Seq<char>, y: Seq<char>)
    requires
        colon_free(a),
        colon_free(b),
        a + (seq![':'] + x) == b + (seq![':'] + y),
    ensures
        a == b,
        x == y,
{
    let left = a + (seq![':'] + x);
    let right = b + (seq![':'] + y);
    assert(left[a.len() as int] == ':');
    assert(right[b.len() as int] == ':');
    if a.len() < b.len() {
        assert(right[a.len() as int] == b[a.len() as int]);
    }
    if b.len() < a.len() {
        assert(left[b.len() as int] == a[b.len() as int]);
    }
    assert(a =~= left.take(a.len() as int));
    assert(b =~= right.take(b.len() as int));
    assert(x =~= left.skip(a.len() as int + 1));
    assert(y =~= right.skip(b.len() as int + 1));
}

/// Colon-free ends of equal texts are equal, and so is what comes before.
proof fn lemma_split_back(a: Seq<char>, x: Seq<char>, b: Seq<char>, y: Seq<char>)
    requires
        colon_free(x),
        colon_free(y),
        a + seq![':'] + x == b + seq![':'] + y,
    ensures
        a == b,
        x == y,
{
    let left = a + seq![':'] + x;
    let right = b + seq![':'] + y;
    assert(left.len() == a.len() + 1 + x.len());
    assert(right.len() == b.len() + 1 + y.len());
    assert(left[a.len() as int] == ':');
    assert(right[b.len() as int] == ':');
    if a.len() < b.len() {
        let i = b.len() - a.len() - 1;
        assert(left[a.len() + 1 + i] == x[i]);
    }
    if b.len() < a.len() {
        let i = a.len() - b.len() - 1;
        assert(right[b.len() + 1 + i] == y[i]);
    }
    assert(a =~= left.take(a.len() as int));
    assert(b =~= right.take(b.len() as int));
    assert(x =~= left.skip(a.len() as int + 1));
    assert(y =~= right.skip(b.len() as int + 1));
}

proof fn lemma_same_field(m: nat, x: Seq<char>, n: nat, y: Seq<char>)
    requires
        before_colon(m, x) == before_colon(n, y),
    ensures
        m == n,
        x == y,
{
    lemma_decimal_is_colon_free(m);
    lemma_decimal_is_colon_free(n);
    lemma_split_front(decimal(m), x, decimal(n), y);
    lemma_decimal_injective(m, n);
}

proof fn lemma_same_last_field(x: Seq<char>, m: nat, y: Seq<char>, n: nat)
    requires
        after_colon(x, m) == after_colon(y, n),
    ensures
        m == n,
        x == y,
{
    lemma_decimal_is_colon_free(m);
    lemma_decimal_is_colon_free(n);
    lemma_split_back(x, decimal(m), y, decimal(n));
    lemma_decimal_injective(m, n);
}

/// The text of a namespace tells all of its fields, even if the name of the data type
/// holds colons.
pub proof fn law_namespace_text_is_unique(a: NamespaceModel, b: NamespaceModel)
    requires
        namespace_text(a) == namespace_text(b),
    ensures
        a == b,
{
    let a5 = after_colon(after_colon(a.kv_dtype, a.chunk_size as nat), a.layer_group as nat);
    let b5 = after_colon(after_colon(b.kv_dtype, b.chunk_size as nat), b.layer_group as nat);
    let a4 = before_colon(a.kv_layout_version as nat, a5);
    let b4 = before_colon(b.kv_layout_version as nat, b5);
    let a3 = before_colon(a.pipeline_parallel_rank as nat, a4);
    let b3 = before_colon(b.pipeline_parallel_rank as nat, b4);
    let a2 = before_colon(a.tensor_parallel_rank as nat, a3);
    let b2 = before_colon(b.tensor_parallel_rank as nat, b3);
    let a1 = before_colon(a.model_revision as nat, a2);
    let b1 = before_colon(b.model_revision as nat, b2);
    lemma_same_field(a.model_hash as nat, a1, b.model_hash as nat, b1);
    lemma_same_field(a.model_revision as nat, a2, b.model_revision as nat, b2);
    lemma_same_field(a.tensor_parallel_rank as nat, a3, b.tensor_parallel_rank as nat, b3);
    lemma_same_field(a.pipeline_parallel_rank as nat, a4, b.pipeline_parallel_rank as nat, b4);
    lemma_same_field(a.kv_layout_version as nat, a5, b.kv_layout_version as nat, b5);
    lemma_same_last_field(
        after_colon(a.kv_dtype, a.chunk_size as nat),
        a.layer_group as nat,
        after_colon(b.kv_dtype, b.chunk_size as nat),
        b.layer_group as nat,
    );
    lemma_same_last_field(
        a.kv_dtype,
        a.chunk_size as nat,
        b.kv_dtype,
        b.chunk_size as nat,
    );
    assert(a =~= b);
}

/// Two segments have the same canonical text only if they are the same segment.
pub proof fn law_segment_text_is_unique(
    a: NamespaceModel,
    a_hash: u64,
    b: NamespaceModel,
    b_hash: u64,
)
    requires
        segment_text(a, a_hash) == segment_text(b, b_hash),
    ensures
        a == b,
        a_hash == b_hash,
{
    lemma_hex_is_colon_free(a_hash as nat, 16);
    lemma_hex_is_colon_free(b_hash as nat, 16);
    lemma_split_back(
        namespace_text(a),
        hex(a_hash as nat, 16),
        namespace_text(b),
        hex(b_hash as nat, 16),
    );
    law_namespace_text_is_unique(a, b);
    assert(hex_range(16) == 0x1_0000_0000_0000_0000) by {
        reveal_with_fuel(hex_range, 17);
    }
    lemma_hex_injective(a_hash as nat, b_hash as nat, 16);
}

} // verus!
