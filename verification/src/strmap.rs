//! A string-keyed map kept as a vector sorted by key, with last-writer-wins
//! insertion.  It backs the barrel export maps and the dependency
//! requirement maps, whose outputs must be deterministic and ordered by
//! name.

use vstd::prelude::*;

use crate::text::{chars_of, chars_eq};

verus! {

/// Strict lexicographic order on character sequences, by code point.
pub open spec fn spec_str_lt(a: Seq<char>, b: Seq<char>) -> bool
    decreases a.len(),
{
    if b.len() == 0 {
        false
    } else if a.len() == 0 {
        true
    } else if (a[0] as u32) < (b[0] as u32) {
        true
    } else if a[0] == b[0] {
        spec_str_lt(a.drop_first(), b.drop_first())
    } else {
        false
    }
}

/// The order is total: two sequences are related or equal.
pub proof fn lemma_str_lt_total(a: Seq<char>, b: Seq<char>)
    ensures
        spec_str_lt(a, b) || spec_str_lt(b, a) || a == b,
    decreases a.len(),
{
    if a.len() == 0 && b.len() == 0 {
        assert(a =~= b);
    } else if a.len() > 0 && b.len() > 0 && a[0] != b[0] {
        // distinct characters have distinct code points
        vstd::utf8::char_u32_cast(a[0], a[0] as u32);
        vstd::utf8::char_u32_cast(b[0], b[0] as u32);
        assert((a[0] as u32) != (b[0] as u32));
    } else if a.len() > 0 && b.len() > 0 && a[0] == b[0] {
        lemma_str_lt_total(a.drop_first(), b.drop_first());
        if a.drop_first() == b.drop_first() {
            assert(a.drop_first().len() == a.len() - 1);
            assert(b.drop_first().len() == b.len() - 1);
            assert(a.len() == b.len());
            assert forall|i: int| 0 <= i < a.len() implies a[i] == b[i] by {
                if i > 0 {
                    assert(a.drop_first()[i - 1] == b.drop_first()[i - 1]);
                }
            }
            assert(a =~= b);
        }
    }
}

/// The order is irreflexive and asymmetric.
pub proof fn lemma_str_lt_asymm(a: Seq<char>, b: Seq<char>)
    ensures
        spec_str_lt(a, b) ==> !spec_str_lt(b, a),
        !spec_str_lt(a, a),
    decreases a.len(),
{
    if a.len() > 0 && b.len() > 0 && a[0] == b[0] {
        lemma_str_lt_asymm(a.drop_first(), b.drop_first());
    }
    if a.len() > 0 {
        lemma_str_lt_asymm(a.drop_first(), a.drop_first());
    }
}

/// The order is transitive.
pub proof fn lemma_str_lt_trans(a: Seq<char>, b: Seq<char>, c: Seq<char>)
    requires
        spec_str_lt(a, b),
        spec_str_lt(b, c),
    ensures
        spec_str_lt(a, c),
    decreases a.len() + b.len() + c.len(),
{
    if b.len() == 0 {
        // contradiction with spec_str_lt(a, b)
    } else if a.len() == 0 {
        // c.len() > 0 since spec_str_lt(b, c) and b.len() > 0
    } else {
        if a[0] == b[0] && b[0] == c[0] {
            lemma_str_lt_trans(a.drop_first(), b.drop_first(), c.drop_first());
        }
    }
}

/// Comparison of two character buffers under the lexicographic order.
pub fn chars_lt(a: &Vec<char>, b: &Vec<char>) -> (r: bool)
    ensures
        r == spec_str_lt(a@, b@),
{
    let na = a.len();
    let nb = b.len();
    let mut i: usize = 0;
    proof {
        assert(a@.skip(0) =~= a@);
        assert(b@.skip(0) =~= b@);
    }
    loop
        invariant
            na == a@.len(),
            nb == b@.len(),
            i <= na,
            i <= nb,
            forall|k: int| 0 <= k < i ==> a@[k] == b@[k],
            spec_str_lt(a@, b@) == spec_str_lt(a@.skip(i as int), b@.skip(i as int)),
        decreases na - i,
    {
        if i == nb {
            proof {
                assert(b@.skip(i as int).len() == 0);
            }
            return false;
        }
        if i == na {
            proof {
                assert(a@.skip(i as int).len() == 0 && b@.skip(i as int).len() > 0);
            }
            return true;
        }
        let ca = a[i];
        let cb = b[i];
        proof {
            assert(a@.skip(i as int)[0] == a@[i as int]);
            assert(b@.skip(i as int)[0] == b@[i as int]);
            assert(a@.skip(i as int).drop_first() =~= a@.skip(i + 1));
            assert(b@.skip(i as int).drop_first() =~= b@.skip(i + 1));
        }
        if (ca as u32) < (cb as u32) {
            return true;
        }
        if ca != cb {
            proof {
                assert(!spec_str_lt(a@.skip(i as int), b@.skip(i as int)));
            }
            return false;
        }
        i = i + 1;
    }
}

/// Looks up `k` in an association sequence, first match wins.
pub open spec fn spec_assoc_get<V>(s: Seq<(Seq<char>, V)>, k: Seq<char>) -> Option<V>
    decreases s.len(),
{
    if s.len() == 0 {
        None
    } else if s[0].0 == k {
        Some(s[0].1)
    } else {
        spec_assoc_get(s.drop_first(), k)
    }
}

/// Sorted insertion with override: the entry for `k` is replaced if present,
/// inserted in order otherwise.
pub open spec fn spec_assoc_insert<V>(s: Seq<(Seq<char>, V)>, k: Seq<char>, v: V) -> Seq<
    (Seq<char>, V),
>
    decreases s.len(),
{
    if s.len() == 0 {
        seq![(k, v)]
    } else if s[0].0 == k {
        seq![(k, v)] + s.drop_first()
    } else if spec_str_lt(k, s[0].0) {
        seq![(k, v)] + s
    } else {
        seq![s[0]] + spec_assoc_insert(s.drop_first(), k, v)
    }
}

/// Keys strictly ascending.
pub open spec fn spec_sorted_keys<V>(s: Seq<(Seq<char>, V)>) -> bool {
    forall|i: int, j: int| 0 <= i < j < s.len() ==> spec_str_lt(#[trigger] s[i].0, #[trigger] s[j].0)
}

/// A map from names to strings, stored sorted by name.
pub struct StrMap {
    keys: Vec<String>,
    vals: Vec<String>,
}

impl View for StrMap {
    type V = Seq<(Seq<char>, Seq<char>)>;

    closed spec fn view(&self) -> Seq<(Seq<char>, Seq<char>)> {
        Seq::new(self.keys@.len(), |i: int| (self.keys@[i]@, self.vals@[i]@))
    }
}

impl StrMap {
    /// Structurally valid: parallel vectors, keys strictly ascending.
    pub closed spec fn wf(&self) -> bool {
        self.keys@.len() == self.vals@.len() && spec_sorted_keys(self@)
    }

    pub fn new() -> (r: StrMap)
        ensures
            r.wf(),
            r@ == Seq::<(Seq<char>, Seq<char>)>::empty(),
    {
        let r = StrMap { keys: Vec::new(), vals: Vec::new() };
        proof {
            assert(r@ =~= Seq::<(Seq<char>, Seq<char>)>::empty());
        }
        r
    }

    pub fn len(&self) -> (r: usize)
        requires
            self.wf(),
        ensures
            r == self@.len(),
    {
        self.keys.len()
    }

    /// The key of the `i`-th entry in ascending order.
    pub fn key_at(&self, i: usize) -> (r: &String)
        requires
            self.wf(),
            i < self@.len(),
        ensures
            r@ == self@[i as int].0,
    {
        &self.keys[i]
    }

    /// The value of the `i`-th entry in ascending order.
    pub fn val_at(&self, i: usize) -> (r: &String)
        requires
            self.wf(),
            i < self@.len(),
        ensures
            r@ == self@[i as int].1,
    {
        &self.vals[i]
    }

    /// The value stored under `k`, if any.
    pub fn get(&self, k: &str) -> (r: Option<&String>)
        requires
            self.wf(),
        ensures
            match r {
                Some(v) => spec_assoc_get(self@, k@) == Some(v@),
                None => spec_assoc_get(self@, k@) is None,
            },
    {
        let kc = chars_of(k);
        let n = self.keys.len();
        let mut i: usize = 0;
        while i < n
            invariant
                self.wf(),
                n == self@.len(),
                i <= n,
                kc@ == k@,
                forall|j: int| 0 <= j < i ==> self@[j].0 != k@,
            decreases n - i,
        {
            let ki = chars_of(self.keys[i].as_str());
            if chars_eq(&ki, &kc) {
                proof {
                    lemma_assoc_get_at(self@, k@, i as int);
                }
                return Some(&self.vals[i]);
            }
            i = i + 1;
        }
        proof {
            lemma_assoc_get_absent(self@, k@);
        }
        None
    }

    /// Inserts `v` under `k`, replacing any existing entry (last writer
    /// wins), keeping the keys sorted.
    pub fn insert(&mut self, k: String, v: String)
        requires
            old(self).wf(),
        ensures
            final(self).wf(),
            final(self)@ == spec_assoc_insert(old(self)@, k@, v@),
    {
        let kc = chars_of(k.as_str());
        let n = self.keys.len();
        let mut i: usize = 0;
        let mut stop: bool = false;
        while !stop
            invariant
                self == old(self),
                self.wf(),
                n == self@.len(),
                i <= n,
                kc@ == k@,
                forall|j: int| 0 <= j < i ==> spec_str_lt(self@[j].0, k@),
                stop ==> (i == n || spec_str_lt(k@, self@[i as int].0)),
            decreases n - i + (if stop {
                0int
            } else {
                1int
            }),
        {
            if i == n {
                stop = true;
            } else {
                let ki = chars_of(self.keys[i].as_str());
                if chars_eq(&ki, &kc) {
                    // replace in place
                    let slot = &mut self.vals[i];
                    *slot = v;
                    proof {
                        lemma_assoc_insert_at(old(self)@, k@, v@, i as int);
                        assert(self@ =~= old(self)@.update(i as int, (k@, v@)));
                        assert forall|p: int, q: int|
                            0 <= p < q < self@.len() implies spec_str_lt(
                            #[trigger] self@[p].0,
                            #[trigger] self@[q].0,
                        ) by {
                            assert(self@[p].0 == old(self)@[p].0);
                            assert(self@[q].0 == old(self)@[q].0);
                        }
                    }
                    return ;
                }
                if chars_lt(&kc, &ki) {
                    stop = true;
                } else {
                    proof {
                        lemma_str_lt_total(self@[i as int].0, k@);
                        lemma_str_lt_asymm(k@, self@[i as int].0);
                    }
                    i = i + 1;
                }
            }
        }
        // insert before position i
        self.keys.insert(i, k);
        self.vals.insert(i, v);
        proof {
            let ghost old_view = old(self)@;
            assert(self@ =~= old_view.insert(i as int, (k@, v@)));
            lemma_assoc_insert_position(old_view, k@, v@, i as int);
            assert(forall|p: int, q: int|
                0 <= p < q < self@.len() ==> spec_str_lt(
                    #[trigger] self@[p].0,
                    #[trigger] self@[q].0,
                )) by {
                lemma_sorted_after_insert(old_view, k@, v@, i as int);
            }
        }
    }
}

impl StrMap {
    /// A copy of the map with the same entries.
    pub fn clone_map(&self) -> (r: StrMap)
        requires
            self.wf(),
        ensures
            r.wf(),
            r@ == self@,
    {
        let r = StrMap {
            keys: crate::text::clone_strings(&self.keys),
            vals: crate::text::clone_strings(&self.vals),
        };
        proof {
            assert(r@ =~= self@);
        }
        r
    }
}

pub proof fn lemma_assoc_get_at<V>(s: Seq<(Seq<char>, V)>, k: Seq<char>, i: int)
    requires
        0 <= i < s.len(),
        s[i].0 == k,
        forall|j: int| 0 <= j < i ==> s[j].0 != k,
    ensures
        spec_assoc_get(s, k) == Some(s[i].1),
    decreases i,
{
    if i > 0 {
        lemma_assoc_get_at(s.drop_first(), k, i - 1);
    }
}

pub proof fn lemma_assoc_get_absent<V>(s: Seq<(Seq<char>, V)>, k: Seq<char>)
    requires
        forall|j: int| 0 <= j < s.len() ==> s[j].0 != k,
    ensures
        spec_assoc_get(s, k) is None,
    decreases s.len(),
{
    if s.len() > 0 {
        lemma_assoc_get_absent(s.drop_first(), k);
    }
}

/// When the key is found at position `i` of a sorted sequence, inserting is
/// updating in place.
pub proof fn lemma_assoc_insert_at<V>(s: Seq<(Seq<char>, V)>, k: Seq<char>, v: V, i: int)
    requires
        0 <= i < s.len(),
        s[i].0 == k,
        forall|j: int| 0 <= j < i ==> spec_str_lt(s[j].0, k),
    ensures
        spec_assoc_insert(s, k, v) == s.update(i, (k, v)),
    decreases i,
{
    if i == 0 {
        assert(spec_assoc_insert(s, k, v) =~= s.update(0, (k, v)));
    } else {
        lemma_str_lt_asymm(s[0].0, k);
        assert(s[0].0 != k) by {
            lemma_str_lt_asymm(s[0].0, k);
        }
        assert(!spec_str_lt(k, s[0].0)) by {
            lemma_str_lt_asymm(s[0].0, k);
        }
        lemma_assoc_insert_at(s.drop_first(), k, v, i - 1);
        assert(s.drop_first().update(i - 1, (k, v)) =~= s.update(i, (k, v)).drop_first());
        assert(spec_assoc_insert(s, k, v) =~= s.update(i, (k, v)));
    }
}

/// When the key is absent and `i` is its sorted position, inserting is
/// splicing in a new entry there.
pub proof fn lemma_assoc_insert_position<V>(s: Seq<(Seq<char>, V)>, k: Seq<char>, v: V, i: int)
    requires
        0 <= i <= s.len(),
        forall|j: int| 0 <= j < i ==> spec_str_lt(s[j].0, k),
        i < s.len() ==> spec_str_lt(k, s[i].0),
    ensures
        spec_assoc_insert(s, k, v) == s.insert(i, (k, v)),
    decreases i,
{
    if s.len() == 0 {
        assert(spec_assoc_insert(s, k, v) =~= s.insert(0, (k, v)));
    } else if i == 0 {
        lemma_str_lt_asymm(k, s[0].0);
        assert(s[0].0 != k) by {
            lemma_str_lt_asymm(k, s[0].0);
        }
        assert(spec_assoc_insert(s, k, v) =~= s.insert(0, (k, v)));
    } else {
        lemma_str_lt_asymm(s[0].0, k);
        lemma_assoc_insert_position(s.drop_first(), k, v, i - 1);
        assert(s.drop_first().insert(i - 1, (k, v)) =~= s.insert(i, (k, v)).drop_first());
        assert(spec_assoc_insert(s, k, v) =~= s.insert(i, (k, v)));
    }
}

/// Inserting at the sorted position keeps the keys strictly ascending.
pub proof fn lemma_sorted_after_insert<V>(s: Seq<(Seq<char>, V)>, k: Seq<char>, v: V, i: int)
    requires
        0 <= i <= s.len(),
        spec_sorted_keys(s),
        forall|j: int| 0 <= j < i ==> spec_str_lt(s[j].0, k),
        i < s.len() ==> spec_str_lt(k, s[i].0),
    ensures
        spec_sorted_keys(s.insert(i, (k, v))),
{
    let t = s.insert(i, (k, v));
    assert forall|p: int, q: int| 0 <= p < q < t.len() implies spec_str_lt(
        #[trigger] t[p].0,
        #[trigger] t[q].0,
    ) by {
        if p < i && q == i {
        } else if p == i && q > i {
            if i < s.len() {
                lemma_str_lt_trans_chain(s, k, i, q - 1);
            }
        } else if p < i && q > i {
        } else {
        }
    }
}

/// From `k < s[i].0` and sortedness, `k` is below every later key.
pub proof fn lemma_str_lt_trans_chain<V>(s: Seq<(Seq<char>, V)>, k: Seq<char>, i: int, q: int)
    requires
        spec_sorted_keys(s),
        0 <= i <= q < s.len(),
        spec_str_lt(k, s[i].0),
    ensures
        spec_str_lt(k, s[q].0),
{
    if i < q {
        lemma_str_lt_trans(k, s[i].0, s[q].0);
    }
}

/// Insertion keeps the keys strictly ascending.
pub proof fn lemma_assoc_insert_keeps_sorted<V>(s: Seq<(Seq<char>, V)>, k: Seq<char>, v: V)
    requires
        spec_sorted_keys(s),
    ensures
        spec_sorted_keys(spec_assoc_insert(s, k, v)),
    decreases s.len(),
{
    let out = spec_assoc_insert(s, k, v);
    if s.len() == 0 {
        assert(spec_sorted_keys(out));
    } else if s[0].0 == k {
        assert forall|i: int, j: int| 0 <= i < j < out.len() implies spec_str_lt(
            #[trigger] out[i].0,
            #[trigger] out[j].0,
        ) by {
            if i == 0 {
                assert(out[j].0 == s[j].0);
                assert(spec_str_lt(s[0].0, s[j].0));
            } else {
                assert(out[i].0 == s[i].0 && out[j].0 == s[j].0);
            }
        }
    } else if spec_str_lt(k, s[0].0) {
        assert forall|i: int, j: int| 0 <= i < j < out.len() implies spec_str_lt(
            #[trigger] out[i].0,
            #[trigger] out[j].0,
        ) by {
            if i == 0 {
                assert(out[j].0 == s[j - 1].0);
                if j > 1 {
                    lemma_str_lt_trans(k, s[0].0, s[j - 1].0);
                }
            } else {
                assert(out[i].0 == s[i - 1].0 && out[j].0 == s[j - 1].0);
            }
        }
    } else {
        assert(forall|i: int, j: int|
            0 <= i < j < s.drop_first().len() ==> spec_str_lt(
                (#[trigger] s.drop_first()[i]).0,
                (#[trigger] s.drop_first()[j]).0,
            ));
        lemma_assoc_insert_keeps_sorted(s.drop_first(), k, v);
        let rest = spec_assoc_insert(s.drop_first(), k, v);
        lemma_str_lt_total(s[0].0, k);
        lemma_str_lt_asymm(k, s[0].0);
        lemma_assoc_insert_key_bound(s.drop_first(), k, v, s[0].0);
        assert forall|i: int, j: int| 0 <= i < j < out.len() implies spec_str_lt(
            #[trigger] out[i].0,
            #[trigger] out[j].0,
        ) by {
            if i == 0 {
                assert(out[j].0 == rest[j - 1].0);
            } else {
                assert(out[i].0 == rest[i - 1].0 && out[j].0 == rest[j - 1].0);
            }
        }
    }
}

/// A lower bound below the old keys and the new key bounds every key of
/// the insertion.
proof fn lemma_assoc_insert_key_bound<V>(
    s: Seq<(Seq<char>, V)>,
    k: Seq<char>,
    v: V,
    b: Seq<char>,
)
    requires
        forall|i: int| 0 <= i < s.len() ==> spec_str_lt(b, (#[trigger] s[i]).0),
        spec_str_lt(b, k),
    ensures
        forall|i: int|
            0 <= i < spec_assoc_insert(s, k, v).len() ==> spec_str_lt(
                b,
                (#[trigger] spec_assoc_insert(s, k, v)[i]).0,
            ),
    decreases s.len(),
{
    let out = spec_assoc_insert(s, k, v);
    if s.len() == 0 || s[0].0 == k || spec_str_lt(k, s[0].0) {
    } else {
        assert(forall|i: int|
            0 <= i < s.drop_first().len() ==> spec_str_lt(b, (#[trigger] s.drop_first()[i]).0));
        lemma_assoc_insert_key_bound(s.drop_first(), k, v, b);
        assert forall|i: int| 0 <= i < out.len() implies spec_str_lt(b, (#[trigger] out[i]).0)
            by {
            if i > 0 {
                assert(out[i] == spec_assoc_insert(s.drop_first(), k, v)[i - 1]);
            }
        }
    }
}

/// What lookup sees after an insertion: the new value under the new key,
/// the old association elsewhere.
pub proof fn lemma_assoc_get_after_insert<V>(
    s: Seq<(Seq<char>, V)>,
    k: Seq<char>,
    v: V,
    q: Seq<char>,
)
    ensures
        spec_assoc_get(spec_assoc_insert(s, k, v), q) == (if q == k {
            Some(v)
        } else {
            spec_assoc_get(s, q)
        }),
    decreases s.len(),
{
    let out = spec_assoc_insert(s, k, v);
    if s.len() == 0 {
        assert(out[0] == (k, v));
        assert(out.drop_first() =~= Seq::<(Seq<char>, V)>::empty());
        if q != k {
            assert(spec_assoc_get(out, q) == spec_assoc_get(out.drop_first(), q));
        }
    } else if s[0].0 == k {
        assert(out[0] == (k, v));
        assert(out.drop_first() =~= s.drop_first());
        if q != k {
            assert(spec_assoc_get(out, q) == spec_assoc_get(s.drop_first(), q));
            assert(spec_assoc_get(s, q) == spec_assoc_get(s.drop_first(), q));
        }
    } else if spec_str_lt(k, s[0].0) {
        assert(out[0] == (k, v));
        assert(out.drop_first() =~= s);
        if q != k {
            assert(spec_assoc_get(out, q) == spec_assoc_get(s, q));
        }
    } else {
        lemma_assoc_get_after_insert(s.drop_first(), k, v, q);
        assert(out[0] == s[0]);
        assert(out.drop_first() =~= spec_assoc_insert(s.drop_first(), k, v));
        lemma_str_lt_asymm(s[0].0, k);
        if q == s[0].0 {
            assert(spec_assoc_get(out, q) == Some(s[0].1));
            assert(spec_assoc_get(s, q) == Some(s[0].1));
            assert(q != k);
        } else {
            assert(spec_assoc_get(out, q) == spec_assoc_get(out.drop_first(), q));
            assert(spec_assoc_get(s, q) == spec_assoc_get(s.drop_first(), q));
        }
    }
}

/// Every entry after an insertion is an old entry or the new pair.
pub proof fn lemma_assoc_insert_entries<V>(s: Seq<(Seq<char>, V)>, k: Seq<char>, v: V)
    ensures
        forall|i: int|
            0 <= i < spec_assoc_insert(s, k, v).len() ==> (#[trigger] spec_assoc_insert(
                s,
                k,
                v,
            )[i]) == (k, v) || exists|j: int|
                0 <= j < s.len() && s[j] == spec_assoc_insert(s, k, v)[i],
    decreases s.len(),
{
    let out = spec_assoc_insert(s, k, v);
    if s.len() == 0 {
    } else if s[0].0 == k {
        assert forall|i: int|
            0 <= i < out.len() implies (#[trigger] out[i]) == (k, v) || exists|j: int|
                0 <= j < s.len() && s[j] == out[i] by {
            if i > 0 {
                assert(out[i] == s[i]);
            }
        }
    } else if spec_str_lt(k, s[0].0) {
        assert forall|i: int|
            0 <= i < out.len() implies (#[trigger] out[i]) == (k, v) || exists|j: int|
                0 <= j < s.len() && s[j] == out[i] by {
            if i > 0 {
                assert(out[i] == s[i - 1]);
            }
        }
    } else {
        lemma_assoc_insert_entries(s.drop_first(), k, v);
        let rest = spec_assoc_insert(s.drop_first(), k, v);
        assert forall|i: int|
            0 <= i < out.len() implies (#[trigger] out[i]) == (k, v) || exists|j: int|
                0 <= j < s.len() && s[j] == out[i] by {
            if i == 0 {
                assert(out[0] == s[0]);
            } else {
                assert(out[i] == rest[i - 1]);
                if rest[i - 1] != (k, v) {
                    let j = choose|j: int|
                        0 <= j < s.drop_first().len() && s.drop_first()[j] == rest[i - 1];
                    assert(s[j + 1] == out[i]);
                }
            }
        }
    }
}

/// Inserting a key above every present key appends the pair at the end.
pub proof fn lemma_assoc_insert_append<V>(s: Seq<(Seq<char>, V)>, k: Seq<char>, v: V)
    requires
        forall|i: int| 0 <= i < s.len() ==> spec_str_lt((#[trigger] s[i]).0, k),
    ensures
        spec_assoc_insert(s, k, v) == s.push((k, v)),
    decreases s.len(),
{
    if s.len() == 0 {
        assert(spec_assoc_insert(s, k, v) =~= s.push((k, v)));
    } else {
        lemma_str_lt_asymm(s[0].0, k);
        assert(s[0].0 != k) by {
            lemma_str_lt_asymm(s[0].0, k);
        }
        assert(forall|i: int|
            0 <= i < s.drop_first().len() ==> spec_str_lt((#[trigger] s.drop_first()[i]).0, k));
        lemma_assoc_insert_append(s.drop_first(), k, v);
        assert(spec_assoc_insert(s, k, v) =~= s.push((k, v)));
    }
}

/// Folding the entries of a sorted association into an empty one, first
/// entry first, rebuilds it exactly.
pub proof fn lemma_fold_insert_rebuild<V>(
    acc: Seq<(Seq<char>, V)>,
    s: Seq<(Seq<char>, V)>,
)
    requires
        spec_sorted_keys(acc + s),
    ensures
        fold_assoc_inserts(acc, s) == acc + s,
    decreases s.len(),
{
    if s.len() == 0 {
        assert(acc + s =~= acc);
    } else {
        assert forall|i: int| 0 <= i < acc.len() implies spec_str_lt(
            (#[trigger] acc[i]).0,
            s[0].0,
        ) by {
            assert((acc + s)[i] == acc[i]);
            assert((acc + s)[acc.len() as int] == s[0]);
        }
        lemma_assoc_insert_append(acc, s[0].0, s[0].1);
        assert(acc.push((s[0].0, s[0].1)) =~= acc + seq![s[0]]);
        assert((acc + seq![s[0]]) + s.drop_first() =~= acc + s);
        lemma_fold_insert_rebuild(acc + seq![s[0]], s.drop_first());
    }
}

/// The entries of an association folded in by insertion, first first.
pub open spec fn fold_assoc_inserts<V>(
    acc: Seq<(Seq<char>, V)>,
    s: Seq<(Seq<char>, V)>,
) -> Seq<(Seq<char>, V)>
    decreases s.len(),
{
    if s.len() == 0 {
        acc
    } else {
        fold_assoc_inserts(spec_assoc_insert(acc, s[0].0, s[0].1), s.drop_first())
    }
}

} // verus!
