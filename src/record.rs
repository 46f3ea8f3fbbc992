//! Records: unique field names kept in canonical (byte-wise sorted) order.
use vstd::prelude::*;
use vstd::utf8::{encode_utf8, encode_utf8_decode_utf8};

use crate::kind::Type;
use crate::value::Value;

verus! {

/// Lexicographic order on bytes: the order of `str` and `String`.
pub open spec fn bytes_lt(a: Seq<u8>, b: Seq<u8>) -> bool
    decreases a.len(),
{
    if a.len() == 0 {
        b.len() > 0
    } else if b.len() == 0 {
        false
    } else if a[0] != b[0] {
        a[0] < b[0]
    } else {
        bytes_lt(a.drop_first(), b.drop_first())
    }
}

/// The canonical order of field names: by their UTF-8 bytes.
pub open spec fn name_lt(a: Seq<char>, b: Seq<char>) -> bool {
    bytes_lt(encode_utf8(a), encode_utf8(b))
}

/// Pairs of name and value, the names as characters.
pub open spec fn pairs_view(ps: Seq<(String, Value)>) -> Seq<(Seq<char>, Value)> {
    ps.map_values(|p: (String, Value)| (p.0@, p.1))
}

/// Names strictly increase along the sequence.
pub open spec fn sorted_by_name<T>(s: Seq<(Seq<char>, T)>) -> bool {
    forall|i: int, j: int| 0 <= i < j < s.len() ==> name_lt(#[trigger] s[i].0, #[trigger] s[j].0)
}

/// The mapping a sequence of entries gives, a later entry replacing an
/// earlier one under the same name.
pub open spec fn entries_map(s: Seq<(Seq<char>, Value)>) -> Map<Seq<char>, Value>
    decreases s.len(),
{
    if s.len() == 0 {
        Map::empty()
    } else {
        entries_map(s.drop_last()).insert(s.last().0, s.last().1)
    }
}

pub proof fn lemma_bytes_lt_irreflexive(a: Seq<u8>)
    ensures
        !bytes_lt(a, a),
    decreases a.len(),
{
    if a.len() > 0 {
        lemma_bytes_lt_irreflexive(a.drop_first());
    }
}

pub proof fn lemma_bytes_lt_transitive(a: Seq<u8>, b: Seq<u8>, c: Seq<u8>)
    requires
        bytes_lt(a, b),
        bytes_lt(b, c),
    ensures
        bytes_lt(a, c),
    decreases a.len(),
{
    if a.len() > 0 && b.len() > 0 && c.len() > 0 && a[0] == b[0] && b[0] == c[0] {
        lemma_bytes_lt_transitive(a.drop_first(), b.drop_first(), c.drop_first());
    }
}

pub proof fn lemma_name_lt_irreflexive(a: Seq<char>)
    ensures
        !name_lt(a, a),
{
    lemma_bytes_lt_irreflexive(encode_utf8(a));
}

pub proof fn lemma_name_lt_transitive(a: Seq<char>, b: Seq<char>, c: Seq<char>)
    requires
        name_lt(a, b),
        name_lt(b, c),
    ensures
        name_lt(a, c),
{
    lemma_bytes_lt_transitive(encode_utf8(a), encode_utf8(b), encode_utf8(c));
}

/// In a sorted sequence each name occurs once, and `entries_map` finds each
/// entry under its name.
pub proof fn lemma_entries_map(s: Seq<(Seq<char>, Value)>)
    requires
        sorted_by_name(s),
    ensures
        forall|k: Seq<char>|
            #[trigger] entries_map(s).contains_key(k) <==> exists|j: int|
                0 <= j < s.len() && s[j].0 == k,
        forall|j: int| 0 <= j < s.len() ==> #[trigger] entries_map(s)[s[j].0] == s[j].1,
    decreases s.len(),
{
    if s.len() > 0 {
        let init = s.drop_last();
        lemma_entries_map(init);
        assert forall|k: Seq<char>| #[trigger]
            entries_map(s).contains_key(k) <==> exists|j: int| 0 <= j < s.len() && s[j].0 == k by {
            if entries_map(init).contains_key(k) {
                let j = choose|j: int| 0 <= j < init.len() && init[j].0 == k;
                assert(s[j].0 == k);
            }
            if exists|j: int| 0 <= j < s.len() && s[j].0 == k {
                let j = choose|j: int| 0 <= j < s.len() && s[j].0 == k;
                if j < s.len() - 1 {
                    assert(init[j].0 == k);
                }
            }
        }
        assert forall|j: int| 0 <= j < s.len() implies #[trigger] entries_map(s)[s[j].0]
            == s[j].1 by {
            if j < s.len() - 1 {
                assert(name_lt(s[j].0, s[s.len() - 1].0));
                lemma_name_lt_irreflexive(s[j].0);
                assert(init[j] == s[j]);
                assert(entries_map(init)[init[j].0] == init[j].1);
            }
        }
    }
}

/// Two sequences sorted by name that hold the same elements are equal.
pub proof fn lemma_sorted_same_elements<T>(s: Seq<(Seq<char>, T)>, t: Seq<(Seq<char>, T)>)
    requires
        sorted_by_name(s),
        sorted_by_name(t),
        s.to_set() == t.to_set(),
    ensures
        s == t,
    decreases s.len(),
{
    if s.len() == 0 {
        if t.len() > 0 {
            assert(t.to_set().contains(t[0]));
        }
        assert(s =~= t);
    } else {
        assert(s.to_set().contains(s[0]));
        if t.len() == 0 {
            assert(t.to_set().contains(s[0]));
        }
        assert(t.to_set().contains(t[0]));
        if s[0] != t[0] {
            let j = choose|j: int| 0 <= j < t.len() && t[j] == s[0];
            let k = choose|k: int| 0 <= k < s.len() && s[k] == t[0];
            assert(name_lt(t[0].0, t[j].0));
            assert(name_lt(s[0].0, s[k].0));
            lemma_name_lt_transitive(s[0].0, t[0].0, s[0].0);
            lemma_name_lt_irreflexive(s[0].0);
        }
        let s1 = s.drop_first();
        let t1 = t.drop_first();
        assert forall|x: (Seq<char>, T)| s1.to_set().contains(x) <==> t1.to_set().contains(x) by {
            lemma_name_lt_irreflexive(s[0].0);
            if s1.to_set().contains(x) {
                let i = choose|i: int| 0 <= i < s1.len() && s1[i] == x;
                assert(name_lt(s[0].0, s[i + 1].0));
                assert(s.to_set().contains(x));
                let j = choose|j: int| 0 <= j < t.len() && t[j] == x;
                assert(j != 0);
                assert(t1[j - 1] == x);
            }
            if t1.to_set().contains(x) {
                let i = choose|i: int| 0 <= i < t1.len() && t1[i] == x;
                assert(name_lt(t[0].0, t[i + 1].0));
                assert(t.to_set().contains(x));
                let j = choose|j: int| 0 <= j < s.len() && s[j] == x;
                assert(j != 0);
                assert(s1[j - 1] == x);
            }
        }
        assert(s1.to_set() =~= t1.to_set());
        lemma_sorted_same_elements(s1, t1);
        assert(s.len() == t.len());
        assert forall|i: int| 0 <= i < s.len() implies s[i] == t[i] by {
            if i > 0 {
                assert(s[i] == s1[i - 1]);
                assert(t[i] == t1[i - 1]);
            }
        }
        assert(s =~= t);
    }
}

/// The shape of a well-formed record is sorted by name too.
pub proof fn lemma_shape_sorted(o: Object)
    requires
        o.wf(),
    ensures
        sorted_by_name(o.shape()),
{
    assert forall|i: int, j: int| 0 <= i < j < o.shape().len() implies name_lt(
        #[trigger] o.shape()[i].0,
        #[trigger] o.shape()[j].0,
    ) by {
        assert(name_lt(o@[i].0, o@[j].0));
    }
}

/// Compares two names in canonical order: negative, zero or positive.
fn compare_names(a: &str, b: &str) -> (r: i8)
    ensures
        r < 0 <==> name_lt(a@, b@),
        r == 0 <==> a@ == b@,
        r > 0 <==> name_lt(b@, a@),
{
    let x = a.as_bytes();
    let y = b.as_bytes();
    let ghost xs = encode_utf8(a@);
    let ghost ys = encode_utf8(b@);
    proof {
        lemma_name_lt_irreflexive(a@);
        lemma_name_lt_irreflexive(b@);
        if name_lt(a@, b@) && name_lt(b@, a@) {
            lemma_name_lt_transitive(a@, b@, a@);
        }
        assert(x@ == xs);
        assert(y@ == ys);
        assert(xs.skip(0) =~= xs);
        assert(ys.skip(0) =~= ys);
    }
    let mut i: usize = 0;
    while i < x.len() && i < y.len()
        invariant
            x@ == xs,
            y@ == ys,
            xs == encode_utf8(a@),
            ys == encode_utf8(b@),
            !name_lt(a@, a@),
            !name_lt(b@, b@),
            !(name_lt(a@, b@) && name_lt(b@, a@)),
            i <= xs.len(),
            i <= ys.len(),
            xs.take(i as int) == ys.take(i as int),
            bytes_lt(xs, ys) == bytes_lt(xs.skip(i as int), ys.skip(i as int)),
            bytes_lt(ys, xs) == bytes_lt(ys.skip(i as int), xs.skip(i as int)),
        decreases xs.len() - i,
    {
        proof {
            assert(xs.skip(i as int)[0] == xs[i as int]);
            assert(ys.skip(i as int)[0] == ys[i as int]);
        }
        if x[i] < y[i] {
            proof {
                assert(bytes_lt(xs.skip(i as int), ys.skip(i as int)));
                assert(!bytes_lt(ys.skip(i as int), xs.skip(i as int)));
            }
            return -1;
        } else if x[i] > y[i] {
            proof {
                assert(!bytes_lt(xs.skip(i as int), ys.skip(i as int)));
                assert(bytes_lt(ys.skip(i as int), xs.skip(i as int)));
            }
            return 1;
        }
        proof {
            assert(xs.skip(i as int).drop_first() =~= xs.skip(i + 1));
            assert(ys.skip(i as int).drop_first() =~= ys.skip(i + 1));
            assert(xs.take(i + 1) =~= xs.take(i as int).push(xs[i as int]));
            assert(ys.take(i + 1) =~= ys.take(i as int).push(ys[i as int]));
        }
        i = i + 1;
    }
    if x.len() < y.len() {
        -1
    } else if x.len() > y.len() {
        1
    } else {
        proof {
            assert(xs =~= xs.take(i as int));
            assert(ys =~= ys.take(i as int));
            encode_utf8_decode_utf8(a@);
            encode_utf8_decode_utf8(b@);
        }
        0
    }
}

/// A record: a mapping from field name to value, its fields kept sorted by
/// name.
#[derive(Debug)]
pub struct Object {
    fields: Vec<(String, Value)>,
}

impl View for Object {
    type V = Seq<(Seq<char>, Value)>;

    closed spec fn view(&self) -> Seq<(Seq<char>, Value)> {
        self.fields@.map_values(|p: (String, Value)| (p.0@, p.1))
    }
}

impl Object {
    /// Field names are unique and in canonical order.
    pub open spec fn wf(&self) -> bool {
        sorted_by_name(self@)
    }

    /// The record as a mapping from field name to value.
    pub open spec fn entries(&self) -> Map<Seq<char>, Value> {
        entries_map(self@)
    }

    /// An empty record.
    pub fn new() -> (r: Self)
        ensures
            r.wf(),
            r@.len() == 0,
    {
        Object { fields: Vec::new() }
    }

    /// The record holding `pairs`; of two pairs with one name, the later
    /// one's value stays.
    pub fn from_pairs(pairs: Vec<(String, Value)>) -> (r: Self)
        ensures
            r.wf(),
            r.entries() == entries_map(pairs_view(pairs@)),
    {
        let ghost full = pairs_view(pairs@);
        let total: usize = pairs.len();
        let mut rest = pairs;
        let mut object = Object::new();
        let mut done: usize = 0;
        proof {
            assert(pairs_view(rest@) =~= full.skip(0));
            assert(pairs_view(rest@).len() == rest@.len());
            assert(full.take(0) =~= Seq::<(Seq<char>, Value)>::empty());
            assert(object.entries() =~= Map::<Seq<char>, Value>::empty());
        }
        while rest.len() > 0
            invariant
                object.wf(),
                done <= full.len(),
                rest@.len() + done == full.len(),
                full.len() == total,
                pairs_view(rest@) == full.skip(done as int),
                object.entries() == entries_map(full.take(done as int)),
            decreases rest.len(),
        {
            let ghost before = rest@;
            let (name, value) = rest.remove(0);
            proof {
                assert(pairs_view(before)[0] == full.skip(done as int)[0]);
                assert(full[done as int] == (name@, value));
                assert(full.take(done + 1).drop_last() =~= full.take(done as int));
                assert(rest@ =~= before.skip(1));
                assert(pairs_view(rest@) =~= pairs_view(before).skip(1));
                assert(pairs_view(rest@) =~= full.skip(done + 1));
            }
            object.insert(name, value);
            done = done + 1;
        }
        proof {
            assert(full.take(done as int) =~= full);
        }
        object
    }

    /// Where `name` stands or would stand: the index, and whether a field of
    /// that name is there.
    fn position(&self, name: &str) -> (r: (usize, bool))
        requires
            self.wf(),
        ensures
            r.0 <= self@.len(),
            forall|j: int| 0 <= j < r.0 ==> name_lt(#[trigger] self@[j].0, name@),
            r.1 ==> r.0 < self@.len() && self@[r.0 as int].0 == name@,
            !r.1 && r.0 < self@.len() ==> name_lt(name@, self@[r.0 as int].0),
    {
        let n = self.fields.len();
        let mut i: usize = 0;
        while i < n
            invariant
                n == self@.len(),
                i <= n,
                forall|j: int| 0 <= j < i ==> name_lt(#[trigger] self@[j].0, name@),
            decreases n - i,
        {
            let c = compare_names(self.fields[i].0.as_str(), name);
            if c == 0 {
                return (i, true);
            } else if c > 0 {
                return (i, false);
            }
            i = i + 1;
        }
        (i, false)
    }

    /// Sets the field `name` to `value`, replacing the value of a field of
    /// that name if there is one.
    pub fn insert(&mut self, name: String, value: Value)
        requires
            old(self).wf(),
        ensures
            final(self).wf(),
            final(self).entries() == old(self).entries().insert(name@, value),
    {
        let ghost s = self@;
        let ghost e = (name@, value);
        let (i, found) = self.position(name.as_str());
        proof {
            lemma_entries_map(s);
        }
        if found {
            self.fields.set(i, (name, value));
            let ghost t = self@;
            proof {
                assert(t =~= s.update(i as int, e));
                assert forall|p: int, q: int| 0 <= p < q < t.len() implies name_lt(
                    #[trigger] t[p].0,
                    #[trigger] t[q].0,
                ) by {
                    assert(t[p].0 == s[p].0 && t[q].0 == s[q].0);
                }
                lemma_entries_map(t);
                assert forall|k: Seq<char>| #[trigger]
                    entries_map(t).contains_key(k) <==> entries_map(s).insert(e.0, e.1).contains_key(
                        k,
                    ) by {
                    if exists|j: int| 0 <= j < s.len() && s[j].0 == k {
                        let j = choose|j: int| 0 <= j < s.len() && s[j].0 == k;
                        assert(t[j].0 == k);
                    }
                    if exists|j: int| 0 <= j < t.len() && t[j].0 == k {
                        let j = choose|j: int| 0 <= j < t.len() && t[j].0 == k;
                        assert(s[j].0 == k);
                    }
                }
                assert forall|k: Seq<char>| #[trigger]
                    entries_map(t).contains_key(k) implies entries_map(t)[k] == entries_map(
                    s,
                ).insert(e.0, e.1)[k] by {
                    let j = choose|j: int| 0 <= j < t.len() && t[j].0 == k;
                    assert(entries_map(t)[t[j].0] == t[j].1);
                    if j != i {
                        if j < i {
                            assert(name_lt(s[j].0, s[i as int].0));
                        } else {
                            assert(name_lt(s[i as int].0, s[j].0));
                        }
                        lemma_name_lt_irreflexive(s[j].0);
                        assert(entries_map(s)[s[j].0] == s[j].1);
                    }
                }
                assert(entries_map(t) =~= entries_map(s).insert(e.0, e.1));
            }
        } else {
            self.fields.insert(i, (name, value));
            let ghost t = self@;
            proof {
                assert(t =~= s.insert(i as int, e));
                assert forall|p: int, q: int| 0 <= p < q < t.len() implies name_lt(
                    #[trigger] t[p].0,
                    #[trigger] t[q].0,
                ) by {
                    if p < i && q < i {
                        assert(name_lt(s[p].0, s[q].0));
                    } else if p < i && q == i {
                    } else if p < i {
                        assert(name_lt(s[p].0, s[q - 1].0));
                    } else if p == i {
                        if q - 1 > i {
                            assert(name_lt(s[i as int].0, s[q - 1].0));
                            lemma_name_lt_transitive(e.0, s[i as int].0, s[q - 1].0);
                        }
                    } else {
                        assert(name_lt(s[p - 1].0, s[q - 1].0));
                    }
                }
                assert forall|j: int| 0 <= j < s.len() implies s[j].0 != e.0 by {
                    lemma_name_lt_irreflexive(e.0);
                    if j > i {
                        assert(name_lt(s[i as int].0, s[j].0));
                        lemma_name_lt_transitive(e.0, s[i as int].0, s[j].0);
                    }
                }
                lemma_entries_map(t);
                assert forall|k: Seq<char>| #[trigger]
                    entries_map(t).contains_key(k) <==> entries_map(s).insert(e.0, e.1).contains_key(
                        k,
                    ) by {
                    if k == e.0 {
                        assert(t[i as int].0 == k);
                    }
                    if exists|j: int| 0 <= j < s.len() && s[j].0 == k {
                        let j = choose|j: int| 0 <= j < s.len() && s[j].0 == k;
                        if j < i {
                            assert(t[j].0 == k);
                        } else {
                            assert(t[j + 1].0 == k);
                        }
                    }
                    if exists|j: int| 0 <= j < t.len() && t[j].0 == k {
                        let j = choose|j: int| 0 <= j < t.len() && t[j].0 == k;
                        if j < i {
                            assert(s[j].0 == k);
                        } else if j > i {
                            assert(s[j - 1].0 == k);
                        }
                    }
                }
                assert forall|k: Seq<char>| #[trigger]
                    entries_map(t).contains_key(k) implies entries_map(t)[k] == entries_map(
                    s,
                ).insert(e.0, e.1)[k] by {
                    let j = choose|j: int| 0 <= j < t.len() && t[j].0 == k;
                    assert(entries_map(t)[t[j].0] == t[j].1);
                    if j < i {
                        assert(entries_map(s)[s[j].0] == s[j].1);
                    } else if j > i {
                        assert(entries_map(s)[s[j - 1].0] == s[j - 1].1);
                    }
                }
                assert(entries_map(t) =~= entries_map(s).insert(e.0, e.1));
            }
        }
    }

    /// The record's shape: each field's name and type, in canonical order.
    pub open spec fn shape(&self) -> Seq<(Seq<char>, Type)> {
        self@.map_values(|e: (Seq<char>, Value)| (e.0, e.1.type_of()))
    }

    /// The number of fields.
    pub fn len(&self) -> (r: usize)
        ensures
            r == self@.len(),
    {
        self.fields.len()
    }

    /// The name of the `i`-th field in canonical order.
    pub fn name_at(&self, i: usize) -> (r: &String)
        requires
            i < self@.len(),
        ensures
            r@ == self@[i as int].0,
    {
        &self.fields[i].0
    }

    /// The value of the `i`-th field in canonical order.
    pub fn value_at(&self, i: usize) -> (r: &Value)
        requires
            i < self@.len(),
        ensures
            *r == self@[i as int].1,
    {
        &self.fields[i].1
    }
}

} // verus!
