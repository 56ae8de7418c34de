//! The container catalog: the five shapes under comparison, behind one
//! capability interface — bulk construction from a value sequence, traversal
//! by value and by reference, and a value-preserving copy.
//!
//! Each shape fixes what the reduction kernel will fold over: sequence-like
//! shapes keep duplicates in insertion order, the hash-based shape keeps one
//! copy of each comparing-equal group in first-occurrence order, and the
//! tree-based shape keeps one copy of each group in ascending order. Values
//! compare by their canonical key, so -0.0 and +0.0, or two NaN payloads,
//! coalesce in the set shapes; the copy that stays keeps its raw pattern.
//! The types here pin those content and order contracts; the timing glue
//! around the library materializes the matching standard collections for
//! measurement.

use std::collections::VecDeque;

use vstd::prelude::*;

use crate::value::CmpValue;

verus! {

/// Some entry of `s` has canonical key `k`.
pub open spec fn has_key(s: Seq<CmpValue>, k: u64) -> bool {
    exists|i: int| 0 <= i < s.len() && #[trigger] s[i].key() == k
}

/// No two entries compare equal: all canonical keys differ.
pub open spec fn distinct_keys(s: Seq<CmpValue>) -> bool {
    forall|i: int, j: int| 0 <= i < j < s.len() ==> s[i].key() != s[j].key()
}

/// Canonical keys strictly ascend, so entries are distinct and ordered.
pub open spec fn sorted_by_key(s: Seq<CmpValue>) -> bool {
    forall|i: int, j: int| 0 <= i < j < s.len() ==> s[i].key() < s[j].key()
}

/// One shape of container: constructible from a value sequence, traversable
/// by value (consuming) and by reference (borrowing), and copyable.
/// `build_spec` fixes the shape's bulk-construction policy; `contents` is the
/// value sequence a traversal yields, in the shape's own order.
pub trait Container: Sized {
    /// The values held, in traversal order.
    spec fn contents(&self) -> Seq<CmpValue>;

    /// What bulk construction from `input` holds afterwards.
    spec fn build_spec(input: Seq<CmpValue>) -> Seq<CmpValue>;

    /// Structural well-formedness of the shape.
    spec fn inv(&self) -> bool;

    /// Building from no values yields an empty container, whatever the shape.
    proof fn lemma_empty_build()
        ensures
            Self::build_spec(Seq::<CmpValue>::empty()) == Seq::<CmpValue>::empty(),
    ;

    /// Bulk construction from a value sequence.
    fn from_values(input: Vec<CmpValue>) -> (r: Self)
        ensures
            r.inv(),
            r.contents() == Self::build_spec(input@),
    ;

    /// Traversal by value: consumes the container and yields its values in
    /// the shape's order.
    fn into_values(self) -> (r: Vec<CmpValue>)
        requires
            self.inv(),
        ensures
            r@ == self.contents(),
    ;

    /// Traversal by reference: borrows the container and yields the same
    /// values in the same order as `into_values`.
    fn values(&self) -> (r: Vec<CmpValue>)
        requires
            self.inv(),
        ensures
            r@ == self.contents(),
    ;

    /// A value-preserving copy, so one logical input can be re-materialized
    /// per trial.
    fn duplicate(&self) -> (r: Self)
        requires
            self.inv(),
        ensures
            r.inv(),
            r.contents() == self.contents(),
    ;
}

/// By-value and by-reference traversal agree: borrowing a container and
/// then consuming it yield the same values in the same order, for every
/// shape of the catalog. The result is proved to always hold.
pub fn modes_agree<T: Container>(c: T) -> (agree: bool)
    requires
        c.inv(),
    ensures
        agree,
{
    let by_ref = c.values();
    let by_move = c.into_values();
    if by_ref.len() != by_move.len() {
        return false;
    }
    let mut i: usize = 0;
    while i < by_ref.len()
        invariant
            by_ref@ == c.contents(),
            by_move@ == c.contents(),
            i <= by_ref@.len(),
        decreases by_ref@.len() - i,
    {
        if by_ref[i].bits() != by_move[i].bits() {
            return false;
        }
        i = i + 1;
    }
    true
}

/// Copies a value vector element by element.
fn copy_values(items: &Vec<CmpValue>) -> (r: Vec<CmpValue>)
    ensures
        r@ == items@,
{
    let mut out: Vec<CmpValue> = Vec::new();
    let mut i: usize = 0;
    while i < items.len()
        invariant
            i <= items@.len(),
            out@ == items@.subrange(0, i as int),
        decreases items@.len() - i,
    {
        out.push(items[i]);
        assert(out@ =~= items@.subrange(0, i + 1 as int));
        i = i + 1;
    }
    assert(out@ =~= items@);
    out
}

/// The contiguous resizable array shape: duplicates kept, insertion order kept.
pub struct ArrayStore {
    items: Vec<CmpValue>,
}

impl Container for ArrayStore {
    closed spec fn contents(&self) -> Seq<CmpValue> {
        self.items@
    }

    open spec fn build_spec(input: Seq<CmpValue>) -> Seq<CmpValue> {
        input
    }

    closed spec fn inv(&self) -> bool {
        true
    }

    proof fn lemma_empty_build() {
    }

    fn from_values(input: Vec<CmpValue>) -> (r: Self) {
        ArrayStore { items: input }
    }

    fn into_values(self) -> (r: Vec<CmpValue>) {
        self.items
    }

    fn values(&self) -> (r: Vec<CmpValue>) {
        copy_values(&self.items)
    }

    fn duplicate(&self) -> (r: Self) {
        ArrayStore { items: copy_values(&self.items) }
    }
}

/// The double-ended contiguous queue shape: duplicates kept, insertion
/// (push-back) order kept.
pub struct DequeStore {
    items: VecDeque<CmpValue>,
}

/// Copies a queue's values front to back.
fn copy_deque_values(items: &VecDeque<CmpValue>) -> (r: Vec<CmpValue>)
    ensures
        r@ == items@,
{
    let mut out: Vec<CmpValue> = Vec::new();
    let mut i: usize = 0;
    while i < items.len()
        invariant
            i <= items@.len(),
            out@ == items@.subrange(0, i as int),
        decreases items@.len() - i,
    {
        out.push(items[i]);
        assert(out@ =~= items@.subrange(0, i + 1 as int));
        i = i + 1;
    }
    assert(out@ =~= items@);
    out
}

impl Container for DequeStore {
    closed spec fn contents(&self) -> Seq<CmpValue> {
        self.items@
    }

    open spec fn build_spec(input: Seq<CmpValue>) -> Seq<CmpValue> {
        input
    }

    closed spec fn inv(&self) -> bool {
        true
    }

    proof fn lemma_empty_build() {
    }

    fn from_values(input: Vec<CmpValue>) -> (r: Self) {
        let mut items: VecDeque<CmpValue> = VecDeque::new();
        let mut i: usize = 0;
        while i < input.len()
            invariant
                i <= input@.len(),
                items@ == input@.subrange(0, i as int),
            decreases input@.len() - i,
        {
            items.push_back(input[i]);
            assert(items@ =~= input@.subrange(0, i + 1 as int));
            i = i + 1;
        }
        assert(items@ =~= input@);
        DequeStore { items }
    }

    fn into_values(self) -> (r: Vec<CmpValue>) {
        copy_deque_values(&self.items)
    }

    fn values(&self) -> (r: Vec<CmpValue>) {
        copy_deque_values(&self.items)
    }

    fn duplicate(&self) -> (r: Self) {
        Self::from_values(self.values())
    }
}

/// The doubly-linked list shape: duplicates kept, insertion order kept.
pub struct ListStore {
    items: Vec<CmpValue>,
}

impl Container for ListStore {
    closed spec fn contents(&self) -> Seq<CmpValue> {
        self.items@
    }

    open spec fn build_spec(input: Seq<CmpValue>) -> Seq<CmpValue> {
        input
    }

    closed spec fn inv(&self) -> bool {
        true
    }

    proof fn lemma_empty_build() {
    }

    fn from_values(input: Vec<CmpValue>) -> (r: Self) {
        ListStore { items: input }
    }

    fn into_values(self) -> (r: Vec<CmpValue>) {
        self.items
    }

    fn values(&self) -> (r: Vec<CmpValue>) {
        copy_values(&self.items)
    }

    fn duplicate(&self) -> (r: Self) {
        ListStore { items: copy_values(&self.items) }
    }
}

/// First-occurrence deduplication by canonical key: of values that compare
/// equal only the first stays, keeping its raw pattern; the order of first
/// appearances is kept. The hash-based shape's bulk-construction policy.
pub open spec fn dedup_first(s: Seq<CmpValue>) -> Seq<CmpValue>
    decreases s.len(),
{
    if s.len() == 0 {
        Seq::empty()
    } else {
        let d = dedup_first(s.drop_last());
        if has_key(d, s.last().key()) {
            d
        } else {
            d.push(s.last())
        }
    }
}

/// Deduplication leaves no key twice.
pub proof fn lemma_dedup_distinct(s: Seq<CmpValue>)
    ensures
        distinct_keys(dedup_first(s)),
    decreases s.len(),
{
    if s.len() > 0 {
        lemma_dedup_distinct(s.drop_last());
        let d = dedup_first(s.drop_last());
        if !has_key(d, s.last().key()) {
            let r = d.push(s.last());
            assert forall|i: int, j: int| 0 <= i < j < r.len() implies r[i].key() != r[j].key() by {
                if j < d.len() {
                } else {
                    assert(r[j] == s.last());
                    assert(r[i] == d[i]);
                    if d[i].key() == s.last().key() {
                        assert(has_key(d, s.last().key()));
                    }
                }
            }
        }
    }
}

/// The last entry's key either already occurred or is new: how membership
/// decomposes over dropping the last entry.
proof fn lemma_has_key_unsnoc(s: Seq<CmpValue>, k: u64)
    requires
        s.len() > 0,
    ensures
        has_key(s, k) <==> has_key(s.drop_last(), k) || s.last().key() == k,
{
    if has_key(s, k) {
        let i = choose|i: int| 0 <= i < s.len() && #[trigger] s[i].key() == k;
        if i < s.len() - 1 {
            assert(s.drop_last()[i].key() == k);
        }
    }
    if has_key(s.drop_last(), k) {
        let i = choose|i: int| 0 <= i < s.drop_last().len() && #[trigger] s.drop_last()[i].key()
            == k;
        assert(s[i].key() == k);
    }
    if s.last().key() == k {
        assert(s[s.len() - 1].key() == k);
    }
}

/// Deduplication keeps exactly the keys that occurred.
pub proof fn lemma_dedup_keys(s: Seq<CmpValue>, k: u64)
    ensures
        has_key(dedup_first(s), k) <==> has_key(s, k),
    decreases s.len(),
{
    if s.len() > 0 {
        lemma_dedup_keys(s.drop_last(), k);
        lemma_has_key_unsnoc(s, k);
        let d = dedup_first(s.drop_last());
        let r = dedup_first(s);
        if has_key(d, s.last().key()) {
        } else {
            assert(has_key(r, k) <==> has_key(d, k) || s.last().key() == k) by {
                if has_key(r, k) {
                    let i = choose|i: int| 0 <= i < r.len() && #[trigger] r[i].key() == k;
                    if i < d.len() {
                        assert(d[i].key() == k);
                    } else {
                        assert(r[i] == s.last());
                    }
                }
                if has_key(d, k) {
                    let i = choose|i: int| 0 <= i < d.len() && #[trigger] d[i].key() == k;
                    assert(r[i].key() == k);
                }
                if s.last().key() == k {
                    assert(r[r.len() - 1].key() == k);
                }
            }
        }
    }
}

/// n copies of one value coalesce to that single value, for any n >= 1.
pub proof fn lemma_dedup_uniform(v: CmpValue, n: nat)
    requires
        n >= 1,
    ensures
        dedup_first(Seq::new(n, |i: int| v)) == seq![v],
    decreases n,
{
    let s = Seq::new(n, |i: int| v);
    if n == 1 {
        assert(s.drop_last() =~= Seq::<CmpValue>::empty());
        assert(dedup_first(s.drop_last()) == Seq::<CmpValue>::empty());
        assert(dedup_first(s) =~= seq![v]);
    } else {
        lemma_dedup_uniform(v, (n - 1) as nat);
        assert(s.drop_last() =~= Seq::new((n - 1) as nat, |i: int| v));
        assert(dedup_first(s.drop_last()) == seq![v]);
        assert(has_key(seq![v], s.last().key())) by {
            assert(seq![v][0].key() == s.last().key());
        }
    }
}

/// The hash-based set shape: comparing-equal values coalesce; traversal
/// order is the deterministic first-occurrence order of this build.
pub struct HashStore {
    items: Vec<CmpValue>,
}

impl Container for HashStore {
    closed spec fn contents(&self) -> Seq<CmpValue> {
        self.items@
    }

    open spec fn build_spec(input: Seq<CmpValue>) -> Seq<CmpValue> {
        dedup_first(input)
    }

    closed spec fn inv(&self) -> bool {
        distinct_keys(self.items@)
    }

    proof fn lemma_empty_build() {
    }

    fn from_values(input: Vec<CmpValue>) -> (r: Self) {
        let mut items: Vec<CmpValue> = Vec::new();
        let mut i: usize = 0;
        while i < input.len()
            invariant
                i <= input@.len(),
                items@ == dedup_first(input@.subrange(0, i as int)),
            decreases input@.len() - i,
        {
            let v = input[i];
            let vk = v.sort_key();
            let mut found = false;
            let mut j: usize = 0;
            while j < items.len()
                invariant
                    j <= items@.len(),
                    vk == v.key(),
                    found <==> has_key(items@.subrange(0, j as int), v.key()),
                decreases items@.len() - j,
            {
                if items[j].sort_key() == vk {
                    found = true;
                    assert(items@.subrange(0, j + 1 as int)[j as int].key() == v.key());
                } else {
                    assert(has_key(items@.subrange(0, j + 1 as int), v.key()) <==> has_key(
                        items@.subrange(0, j as int),
                        v.key(),
                    )) by {
                        let pre = items@.subrange(0, j as int);
                        let cur = items@.subrange(0, j + 1 as int);
                        assert(cur[j as int] == items@[j as int]);
                        if has_key(cur, v.key()) {
                            let m = choose|m: int| 0 <= m < cur.len() && #[trigger] cur[m].key()
                                == v.key();
                            if m < j {
                                assert(pre[m].key() == v.key());
                            }
                        }
                        if has_key(pre, v.key()) {
                            let m = choose|m: int| 0 <= m < pre.len() && #[trigger] pre[m].key()
                                == v.key();
                            assert(cur[m].key() == v.key());
                        }
                    }
                }
                j = j + 1;
            }
            assert(items@.subrange(0, items@.len() as int) =~= items@);
            let ghost pre = input@.subrange(0, i as int);
            let ghost cur = input@.subrange(0, i + 1 as int);
            proof {
                assert(cur.drop_last() =~= pre);
                assert(cur.last() == v);
            }
            if !found {
                items.push(v);
            }
            i = i + 1;
        }
        assert(input@.subrange(0, input@.len() as int) =~= input@);
        proof {
            lemma_dedup_distinct(input@);
        }
        HashStore { items }
    }

    fn into_values(self) -> (r: Vec<CmpValue>) {
        self.items
    }

    fn values(&self) -> (r: Vec<CmpValue>) {
        copy_values(&self.items)
    }

    fn duplicate(&self) -> (r: Self) {
        HashStore { items: copy_values(&self.items) }
    }
}

/// Insertion into an ascending sequence: a value whose key is already
/// present is dropped (the entry already there stays), any other lands just
/// before the first larger key.
pub open spec fn insert_sorted(d: Seq<CmpValue>, v: CmpValue) -> Seq<CmpValue>
    decreases d.len(),
{
    if d.len() == 0 {
        seq![v]
    } else if v.key() < d.first().key() {
        seq![v] + d
    } else if v.key() == d.first().key() {
        d
    } else {
        seq![d.first()] + insert_sorted(d.drop_first(), v)
    }
}

/// The tree-based shape's bulk-construction policy: insert the input values
/// one by one into an ascending sequence, coalescing comparing-equal values.
pub open spec fn tree_build(s: Seq<CmpValue>) -> Seq<CmpValue>
    decreases s.len(),
{
    if s.len() == 0 {
        Seq::empty()
    } else {
        insert_sorted(tree_build(s.drop_last()), s.last())
    }
}

/// Insertion keeps exactly the old keys plus the new one.
pub proof fn lemma_insert_sorted_keys(d: Seq<CmpValue>, v: CmpValue, k: u64)
    ensures
        has_key(insert_sorted(d, v), k) <==> has_key(d, k) || k == v.key(),
    decreases d.len(),
{
    let r = insert_sorted(d, v);
    if d.len() == 0 {
        if k == v.key() {
            assert(r[0].key() == k);
        }
        if has_key(r, k) {
            let i = choose|i: int| 0 <= i < r.len() && #[trigger] r[i].key() == k;
            assert(i == 0);
        }
    } else if v.key() < d.first().key() {
        if k == v.key() {
            assert(r[0].key() == k);
        }
        if has_key(d, k) {
            let i = choose|i: int| 0 <= i < d.len() && #[trigger] d[i].key() == k;
            assert(r[i + 1].key() == k);
        }
        if has_key(r, k) {
            let i = choose|i: int| 0 <= i < r.len() && #[trigger] r[i].key() == k;
            if i > 0 {
                assert(d[i - 1].key() == k);
            }
        }
    } else if v.key() == d.first().key() {
        if k == v.key() {
            assert(d[0].key() == k);
        }
    } else {
        lemma_insert_sorted_keys(d.drop_first(), v, k);
        let rest = insert_sorted(d.drop_first(), v);
        if has_key(r, k) {
            let i = choose|i: int| 0 <= i < r.len() && #[trigger] r[i].key() == k;
            if i == 0 {
                assert(d[0].key() == k);
            } else {
                assert(rest[i - 1].key() == k);
                if has_key(d.drop_first(), k) {
                    let m = choose|m: int|
                        0 <= m < d.drop_first().len() && #[trigger] d.drop_first()[m].key() == k;
                    assert(d[m + 1].key() == k);
                }
            }
        }
        if has_key(d, k) {
            let i = choose|i: int| 0 <= i < d.len() && #[trigger] d[i].key() == k;
            if i == 0 {
                assert(r[0].key() == k);
            } else {
                assert(d.drop_first()[i - 1].key() == k);
                let m = choose|m: int| 0 <= m < rest.len() && #[trigger] rest[m].key() == k;
                assert(r[m + 1].key() == k);
            }
        }
        if k == v.key() {
            let m = choose|m: int| 0 <= m < rest.len() && #[trigger] rest[m].key() == k;
            assert(r[m + 1].key() == k);
        }
    }
}

/// Insertion keeps the sequence strictly ascending.
pub proof fn lemma_insert_sorted_sorted(d: Seq<CmpValue>, v: CmpValue)
    requires
        sorted_by_key(d),
    ensures
        sorted_by_key(insert_sorted(d, v)),
    decreases d.len(),
{
    let r = insert_sorted(d, v);
    if d.len() == 0 {
    } else if v.key() < d.first().key() {
        assert forall|i: int, j: int| 0 <= i < j < r.len() implies r[i].key() < r[j].key() by {
            if i > 0 {
                assert(r[i] == d[i - 1] && r[j] == d[j - 1]);
            } else {
                assert(r[j] == d[j - 1]);
                if j > 1 {
                    assert(d[0].key() < d[j - 1].key());
                }
            }
        }
    } else if v.key() == d.first().key() {
    } else {
        assert(sorted_by_key(d.drop_first())) by {
            assert forall|i: int, j: int|
                0 <= i < j < d.drop_first().len() implies d.drop_first()[i].key()
                < d.drop_first()[j].key() by {
                assert(d.drop_first()[i] == d[i + 1] && d.drop_first()[j] == d[j + 1]);
            }
        }
        lemma_insert_sorted_sorted(d.drop_first(), v);
        let rest = insert_sorted(d.drop_first(), v);
        assert forall|i: int, j: int| 0 <= i < j < r.len() implies r[i].key() < r[j].key() by {
            if i > 0 {
                assert(r[i] == rest[i - 1] && r[j] == rest[j - 1]);
            } else {
                assert(r[j] == rest[j - 1]);
                assert(has_key(rest, rest[j - 1].key()));
                lemma_insert_sorted_keys(d.drop_first(), v, rest[j - 1].key());
                if has_key(d.drop_first(), rest[j - 1].key()) {
                    let m = choose|m: int|
                        0 <= m < d.drop_first().len() && #[trigger] d.drop_first()[m].key() == rest[
                            j - 1
                        ].key();
                    assert(d.drop_first()[m] == d[m + 1]);
                    assert(d[0].key() < d[m + 1].key());
                }
            }
        }
    }
}

/// Ascending insertion at the position a scan finds: if the key is already
/// present there the sequence is unchanged, otherwise the value is inserted
/// at that position.
pub proof fn lemma_insert_sorted_at(d: Seq<CmpValue>, v: CmpValue, pos: int)
    requires
        sorted_by_key(d),
        0 <= pos <= d.len(),
        forall|m: int| 0 <= m < pos ==> d[m].key() < v.key(),
        pos < d.len() ==> v.key() <= d[pos].key(),
    ensures
        insert_sorted(d, v) == if pos < d.len() && d[pos].key() == v.key() {
            d
        } else {
            d.insert(pos, v)
        },
    decreases d.len(),
{
    let r = insert_sorted(d, v);
    if d.len() == 0 {
        assert(r =~= d.insert(0, v));
    } else if pos == 0 {
        if v.key() == d.first().key() {
        } else {
            assert(v.key() < d.first().key());
            assert(r =~= d.insert(0, v));
        }
    } else {
        assert(d[0].key() < v.key());
        assert(sorted_by_key(d.drop_first())) by {
            assert forall|i: int, j: int|
                0 <= i < j < d.drop_first().len() implies d.drop_first()[i].key()
                < d.drop_first()[j].key() by {
                assert(d.drop_first()[i] == d[i + 1] && d.drop_first()[j] == d[j + 1]);
            }
        }
        assert(forall|m: int| 0 <= m < pos - 1 ==> #[trigger] d.drop_first()[m].key() == d[m
            + 1].key());
        lemma_insert_sorted_at(d.drop_first(), v, pos - 1);
        let rest = insert_sorted(d.drop_first(), v);
        if pos < d.len() && d[pos].key() == v.key() {
            assert(d.drop_first()[pos - 1].key() == v.key());
            assert(r =~= d);
        } else {
            assert(rest == d.drop_first().insert(pos - 1, v));
            assert(r =~= d.insert(pos, v));
        }
    }
}

/// Building a tree from any input yields an ascending sequence.
pub proof fn lemma_tree_build_sorted(s: Seq<CmpValue>)
    ensures
        sorted_by_key(tree_build(s)),
    decreases s.len(),
{
    if s.len() > 0 {
        lemma_tree_build_sorted(s.drop_last());
        lemma_insert_sorted_sorted(tree_build(s.drop_last()), s.last());
    }
}

/// The tree holds exactly the keys that occurred in the input.
pub proof fn lemma_tree_build_keys(s: Seq<CmpValue>, k: u64)
    ensures
        has_key(tree_build(s), k) <==> has_key(s, k),
    decreases s.len(),
{
    if s.len() > 0 {
        lemma_tree_build_keys(s.drop_last(), k);
        lemma_insert_sorted_keys(tree_build(s.drop_last()), s.last(), k);
        lemma_has_key_unsnoc(s, k);
    }
}

/// n copies of one value coalesce to that single value in the tree shape.
pub proof fn lemma_tree_uniform(v: CmpValue, n: nat)
    requires
        n >= 1,
    ensures
        tree_build(Seq::new(n, |i: int| v)) == seq![v],
    decreases n,
{
    let s = Seq::new(n, |i: int| v);
    if n == 1 {
        assert(s.drop_last() =~= Seq::<CmpValue>::empty());
        assert(s.last() == v);
        assert(tree_build(s.drop_last()) == Seq::<CmpValue>::empty());
        assert(tree_build(s) == insert_sorted(Seq::<CmpValue>::empty(), v));
        assert(insert_sorted(Seq::<CmpValue>::empty(), v) == seq![v]);
    } else {
        lemma_tree_uniform(v, (n - 1) as nat);
        assert(s.drop_last() =~= Seq::new((n - 1) as nat, |i: int| v));
        assert(tree_build(s) == insert_sorted(seq![v], s.last()));
        assert(seq![v].first() == v);
    }
}

/// The ordered, balanced-tree-based set shape: comparing-equal values
/// coalesce and traversal yields ascending order.
pub struct TreeStore {
    items: Vec<CmpValue>,
}

impl Container for TreeStore {
    closed spec fn contents(&self) -> Seq<CmpValue> {
        self.items@
    }

    open spec fn build_spec(input: Seq<CmpValue>) -> Seq<CmpValue> {
        tree_build(input)
    }

    closed spec fn inv(&self) -> bool {
        sorted_by_key(self.items@)
    }

    proof fn lemma_empty_build() {
    }

    fn from_values(input: Vec<CmpValue>) -> (r: Self) {
        let mut items: Vec<CmpValue> = Vec::new();
        let mut i: usize = 0;
        while i < input.len()
            invariant
                i <= input@.len(),
                items@ == tree_build(input@.subrange(0, i as int)),
                sorted_by_key(items@),
            decreases input@.len() - i,
        {
            let v = input[i];
            let vk = v.sort_key();
            let mut pos: usize = 0;
            while pos < items.len()
                invariant
                    pos <= items@.len(),
                    forall|m: int| 0 <= m < pos ==> items@[m].key() < vk,
                ensures
                    pos <= items@.len(),
                    forall|m: int| 0 <= m < pos ==> items@[m].key() < vk,
                    pos < items@.len() ==> items@[pos as int].key() >= vk,
                decreases items@.len() - pos,
            {
                if items[pos].sort_key() >= vk {
                    break ;
                }
                pos = pos + 1;
            }
            let ghost pre = input@.subrange(0, i as int);
            let ghost cur = input@.subrange(0, i + 1 as int);
            let ghost before = items@;
            proof {
                assert(cur.drop_last() =~= pre);
                assert(cur.last() == v);
                lemma_insert_sorted_at(before, v, pos as int);
                lemma_insert_sorted_sorted(before, v);
            }
            if pos < items.len() {
                if items[pos].sort_key() == vk {
                    proof {
                        assert(insert_sorted(before, v) == before);
                    }
                } else {
                    items.insert(pos, v);
                }
            } else {
                items.insert(pos, v);
            }
            i = i + 1;
        }
        assert(input@.subrange(0, input@.len() as int) =~= input@);
        TreeStore { items }
    }

    fn into_values(self) -> (r: Vec<CmpValue>) {
        self.items
    }

    fn values(&self) -> (r: Vec<CmpValue>) {
        copy_values(&self.items)
    }

    fn duplicate(&self) -> (r: Self) {
        TreeStore { items: copy_values(&self.items) }
    }
}

} // verus!
