//! A map from text to text that is walked in the order of its keys.

use vstd::prelude::*;

use crate::text::chars_of;
use crate::text::pair_texts;

verus! {

/// Whether the first text comes before the second: at the first place where they differ it has the
/// smaller character, or it ends there.
pub open spec fn text_before(a: Seq<char>, b: Seq<char>) -> bool
    decreases a.len(),
{
    if b.len() == 0 {
        false
    } else if a.len() == 0 {
        true
    } else if a[0] == b[0] {
        text_before(a.drop_first(), b.drop_first())
    } else {
        a[0] < b[0]
    }
}

/// No text comes before itself.
pub proof fn text_before_irreflexive(a: Seq<char>)
    ensures
        !text_before(a, a),
    decreases a.len(),
{
    if a.len() > 0 {
        text_before_irreflexive(a.drop_first());
    }
}

/// Of two different texts one comes before the other.
pub proof fn text_before_total(a: Seq<char>, b: Seq<char>)
    ensures
        a != b ==> text_before(a, b) || text_before(b, a),
    decreases a.len(),
{
    if a.len() == 0 && b.len() == 0 {
        assert(a =~= b);
    } else if a.len() > 0 && b.len() > 0 && a[0] == b[0] {
        text_before_total(a.drop_first(), b.drop_first());
        if a.drop_first() == b.drop_first() {
            assert(a =~= seq![a[0]] + a.drop_first());
            assert(b =~= seq![b[0]] + b.drop_first());
        }
    }
}

/// What comes before a text comes before all that follows it.
pub proof fn text_before_transitive(a: Seq<char>, b: Seq<char>, c: Seq<char>)
    requires
        text_before(a, b),
        text_before(b, c),
    ensures
        text_before(a, c),
    decreases a.len(),
{
    if a.len() > 0 && a[0] == b[0] && b[0] == c[0] {
        text_before_transitive(a.drop_first(), b.drop_first(), c.drop_first());
    }
}

/// Whether the first text comes before the second.
pub fn comes_before(a: &str, b: &str) -> (res: bool)
    ensures
        res == text_before(a@, b@),
{
    let x = chars_of(a);
    let y = chars_of(b);
    let mut i: usize = 0;
    assert(a@.skip(0) =~= a@);
    assert(b@.skip(0) =~= b@);
    while i < x.len() && i < y.len() && x[i] == y[i]
        invariant
            i <= x.len(),
            i <= y.len(),
            x@ == a@,
            y@ == b@,
            text_before(a@, b@) == text_before(a@.skip(i as int), b@.skip(i as int)),
        decreases x.len() - i,
    {
        assert(a@.skip(i as int).drop_first() =~= a@.skip(i + 1));
        assert(b@.skip(i as int).drop_first() =~= b@.skip(i + 1));
        i += 1;
    }
    if i >= y.len() {
        false
    } else if i >= x.len() {
        true
    } else {
        x[i] < y[i]
    }
}

/// The pairs stand in the order of their keys, and no key occurs twice.
pub open spec fn keys_ascend(pairs: Seq<(Seq<char>, Seq<char>)>) -> bool {
    forall|i: int, j: int|
        0 <= i < j < pairs.len() ==> text_before(#[trigger] pairs[i].0, #[trigger] pairs[j].0)
}

/// Whether one of the pairs has the key.
pub open spec fn has_key(pairs: Seq<(Seq<char>, Seq<char>)>, key: Seq<char>) -> bool {
    exists|i: int| 0 <= i < pairs.len() && (#[trigger] pairs[i]).0 == key
}

/// The map that the pairs describe.
pub open spec fn map_of(pairs: Seq<(Seq<char>, Seq<char>)>) -> Map<Seq<char>, Seq<char>>
    decreases pairs.len(),
{
    if pairs.len() == 0 {
        Map::empty()
    } else {
        map_of(pairs.drop_last()).insert(pairs.last().0, pairs.last().1)
    }
}

/// The map has the keys of the pairs, and each with the value of its pair.
pub proof fn lemma_map_of(pairs: Seq<(Seq<char>, Seq<char>)>)
    requires
        keys_ascend(pairs),
    ensures
        forall|k: Seq<char>| #[trigger] map_of(pairs).contains_key(k) <==> has_key(pairs, k),
        forall|i: int|
            0 <= i < pairs.len() ==> map_of(pairs)[(#[trigger] pairs[i]).0] == pairs[i].1,
    decreases pairs.len(),
{
    if pairs.len() > 0 {
        let rest = pairs.drop_last();
        assert forall|i: int, j: int| 0 <= i < j < rest.len() implies text_before(
            #[trigger] rest[i].0,
            #[trigger] rest[j].0,
        ) by {
            assert(rest[i] == pairs[i] && rest[j] == pairs[j]);
        }
        lemma_map_of(rest);
        assert forall|k: Seq<char>| #[trigger] map_of(pairs).contains_key(k) <==> has_key(
            pairs,
            k,
        ) by {
            assert(map_of(rest).contains_key(k) <==> has_key(rest, k));
            if has_key(rest, k) {
                let i = choose|i: int| 0 <= i < rest.len() && (#[trigger] rest[i]).0 == k;
                assert(pairs[i].0 == k);
            }
            if has_key(pairs, k) {
                let i = choose|i: int| 0 <= i < pairs.len() && (#[trigger] pairs[i]).0 == k;
                if i < rest.len() {
                    assert(rest[i].0 == k);
                }
            }
            if k == pairs.last().0 {
                assert(pairs[pairs.len() - 1].0 == k);
            }
        }
        assert forall|i: int| 0 <= i < pairs.len() implies map_of(pairs)[(
        #[trigger] pairs[i]).0] == pairs[i].1 by {
            if i < rest.len() {
                assert(rest[i] == pairs[i]);
                assert(text_before(pairs[i].0, pairs[pairs.len() - 1].0));
                text_before_irreflexive(pairs[i].0);
            }
        }
    }
}

/// The order in which a map is walked follows from what it holds: pairs in the order of their keys that
/// describe one map are the same pairs.
pub proof fn law_order_follows_from_contents(
    a: Seq<(Seq<char>, Seq<char>)>,
    b: Seq<(Seq<char>, Seq<char>)>,
)
    requires
        keys_ascend(a),
        keys_ascend(b),
        map_of(a) == map_of(b),
    ensures
        a == b,
    decreases a.len(),
{
    lemma_map_of(a);
    lemma_map_of(b);
    if a.len() == 0 {
        if b.len() > 0 {
            assert(b[0].0 == b[0].0);
            assert(has_key(b, b[0].0));
            assert(map_of(b).contains_key(b[0].0));
        }
    } else {
        let last = a[a.len() - 1];
        assert(has_key(a, last.0));
        assert(map_of(b).contains_key(last.0));
        let j = choose|j: int| 0 <= j < b.len() && (#[trigger] b[j]).0 == last.0;
        let end = b[b.len() - 1];
        assert(has_key(b, end.0));
        assert(map_of(a).contains_key(end.0));
        let i = choose|i: int| 0 <= i < a.len() && (#[trigger] a[i]).0 == end.0;
        if j < b.len() - 1 {
            assert(text_before(b[j].0, b[b.len() - 1].0));
            text_before_irreflexive(last.0);
            if i < a.len() - 1 {
                assert(text_before(a[i].0, a[a.len() - 1].0));
                text_before_transitive(last.0, end.0, last.0);
            }
        }
        assert(end == last);
        let x = a.drop_last();
        let y = b.drop_last();
        assert(keys_ascend(x)) by {
            assert forall|i: int, j: int| 0 <= i < j < x.len() implies text_before(
                #[trigger] x[i].0,
                #[trigger] x[j].0,
            ) by {
                assert(x[i] == a[i] && x[j] == a[j]);
            }
        }
        assert(keys_ascend(y)) by {
            assert forall|i: int, j: int| 0 <= i < j < y.len() implies text_before(
                #[trigger] y[i].0,
                #[trigger] y[j].0,
            ) by {
                assert(y[i] == b[i] && y[j] == b[j]);
            }
        }
        lemma_without_last(a);
        lemma_without_last(b);
        law_order_follows_from_contents(x, y);
        assert(a =~= x.push(last));
        assert(b =~= y.push(last));
    }
}

/// Without its last pair, a list of pairs describes the map without that key.
proof fn lemma_without_last(pairs: Seq<(Seq<char>, Seq<char>)>)
    requires
        keys_ascend(pairs),
        pairs.len() > 0,
    ensures
        map_of(pairs.drop_last()) == map_of(pairs).remove(pairs.last().0),
{
    let rest = pairs.drop_last();
    assert forall|i: int, j: int| 0 <= i < j < rest.len() implies text_before(
        #[trigger] rest[i].0,
        #[trigger] rest[j].0,
    ) by {
        assert(rest[i] == pairs[i] && rest[j] == pairs[j]);
    }
    lemma_map_of(rest);
    if has_key(rest, pairs.last().0) {
        let i = choose|i: int| 0 <= i < rest.len() && (#[trigger] rest[i]).0 == pairs.last().0;
        assert(text_before(pairs[i].0, pairs[pairs.len() - 1].0));
        text_before_irreflexive(pairs.last().0);
    }
    assert(!map_of(rest).contains_key(pairs.last().0));
    assert(map_of(rest) =~= map_of(pairs).remove(pairs.last().0));
}

/// A map from text to text. It is walked in the order of its keys.
pub struct TextMap {
    entries: Vec<(String, String)>,
}

impl TextMap {
    /// The entries in the order in which they are walked.
    pub closed spec fn pairs(self) -> Seq<(Seq<char>, Seq<char>)> {
        pair_texts(self.entries@)
    }

    #[verifier::type_invariant]
    closed spec fn ascends(self) -> bool {
        keys_ascend(self.pairs())
    }
}

impl View for TextMap {
    type V = Map<Seq<char>, Seq<char>>;

    open spec fn view(&self) -> Map<Seq<char>, Seq<char>> {
        map_of(self.pairs())
    }
}

impl TextMap {
    /// The empty map.
    pub fn new() -> (res: Self)
        ensures
            res@ == Map::<Seq<char>, Seq<char>>::empty(),
            res.pairs().len() == 0,
    {
        TextMap { entries: Vec::new() }
    }

    /// The map of the pairs. A key that occurs more than once gets the last of its values.
    pub fn from_pairs(pairs: Vec<(String, String)>) -> (res: Self)
        ensures
            res@ == map_of(pair_texts(pairs@)),
    {
        let mut map = TextMap::new();
        let ghost all = pair_texts(pairs@);
        let mut i: usize = 0;
        assert(all.take(0) =~= Seq::<(Seq<char>, Seq<char>)>::empty());
        while i < pairs.len()
            invariant
                i <= pairs.len(),
                all == pair_texts(pairs@),
                map@ == map_of(all.take(i as int)),
            decreases pairs.len() - i,
        {
            assert(all.take(i + 1).drop_last() =~= all.take(i as int));
            map.insert(pairs[i].0.clone(), pairs[i].1.clone());
            i += 1;
        }
        assert(all.take(i as int) =~= all);
        map
    }

    /// The number of entries.
    pub fn len(&self) -> (res: usize)
        ensures
            res == self.pairs().len(),
    {
        self.entries.len()
    }

    /// Whether the map has no entry.
    pub fn is_empty(&self) -> (res: bool)
        ensures
            res == (self.pairs().len() == 0),
            res == (self@ == Map::<Seq<char>, Seq<char>>::empty()),
    {
        proof {
            use_type_invariant(self);
            lemma_map_of(self.pairs());
            if self.pairs().len() > 0 {
                assert(self.pairs()[0].0 == self.pairs()[0].0);
                assert(has_key(self.pairs(), self.pairs()[0].0));
                assert(self@.contains_key(self.pairs()[0].0));
            }
        }
        self.entries.len() == 0
    }

    /// The key and the value at a place in the order of the keys.
    pub fn entry(&self, i: usize) -> (res: (&str, &str))
        requires
            i < self.pairs().len(),
        ensures
            (res.0@, res.1@) == self.pairs()[i as int],
            keys_ascend(self.pairs()),
    {
        proof {
            use_type_invariant(self);
        }
        let e = &self.entries[i];
        (e.0.as_str(), e.1.as_str())
    }

    /// The keys and the values, in the order of the keys.
    pub fn to_pairs(&self) -> (res: Vec<(String, String)>)
        ensures
            pair_texts(res@) == self.pairs(),
    {
        let mut out: Vec<(String, String)> = Vec::new();
        let mut i: usize = 0;
        while i < self.entries.len()
            invariant
                i <= self.entries.len(),
                i == out.len(),
                forall|j: int|
                    0 <= j < i ==> (#[trigger] out@[j]).0@ == self.entries@[j].0@ && out@[j].1@
                        == self.entries@[j].1@,
            decreases self.entries.len() - i,
        {
            out.push((self.entries[i].0.clone(), self.entries[i].1.clone()));
            i += 1;
        }
        assert(pair_texts(out@) =~= self.pairs());
        out
    }

    /// The place of the first entry whose key does not come before the given one.
    fn place(&self, key: &str) -> (res: usize)
        ensures
            res <= self.pairs().len(),
            forall|i: int| 0 <= i < res ==> text_before((#[trigger] self.pairs()[i]).0, key@),
            res < self.pairs().len() ==> !text_before(self.pairs()[res as int].0, key@),
    {
        let mut i: usize = 0;
        while i < self.entries.len() && comes_before(self.entries[i].0.as_str(), key)
            invariant
                i <= self.entries.len(),
                forall|j: int| 0 <= j < i ==> text_before((#[trigger] self.pairs()[j]).0, key@),
            decreases self.entries.len() - i,
        {
            i += 1;
        }
        i
    }

    /// The value of the key, where the map has it.
    pub fn get(&self, key: &str) -> (res: Option<&str>)
        ensures
            match res {
                Some(v) => self@.contains_key(key@) && v@ == self@[key@],
                None => !self@.contains_key(key@),
            },
    {
        let p: usize = self.place(key);
        proof {
            use_type_invariant(self);
            lemma_map_of(self.pairs());
            lemma_found(self.pairs(), key@, p as int);
        }
        if p < self.entries.len() && !comes_before(key, self.entries[p].0.as_str()) {
            Some(self.entries[p].1.as_str())
        } else {
            None
        }
    }

    /// Whether the map has the key.
    pub fn contains_key(&self, key: &str) -> (res: bool)
        ensures
            res == self@.contains_key(key@),
    {
        match self.get(key) {
            Some(_) => true,
            None => false,
        }
    }

    /// Gives the key the value, in place of the one that it had.
    pub fn insert(&mut self, key: String, value: String)
        ensures
            final(self)@ == old(self)@.insert(key@, value@),
    {
        let p: usize = self.place(key.as_str());
        let ghost before = self.pairs();
        proof {
            use_type_invariant(&*self);
            lemma_map_of(before);
            lemma_found(before, key@, p as int);
            lemma_inserted(before, key@, value@, p as int);
        }
        let ghost k = key@;
        let ghost v = value@;
        let mut entries: Vec<(String, String)> = Vec::new();
        std::mem::swap(&mut entries, &mut self.entries);
        if p < entries.len() && !comes_before(key.as_str(), entries[p].0.as_str()) {
            entries.set(p, (key, value));
            proof {
                assert(TextMap { entries }.pairs() =~= before.update(p as int, (k, v)));
            }
        } else {
            entries.insert(p, (key, value));
            proof {
                assert(TextMap { entries }.pairs() =~= before.insert(p as int, (k, v)));
            }
        }
        self.entries = entries;
    }
}

/// The place of a key tells whether the pairs have it.
proof fn lemma_found(pairs: Seq<(Seq<char>, Seq<char>)>, key: Seq<char>, p: int)
    requires
        keys_ascend(pairs),
        0 <= p <= pairs.len(),
        forall|i: int| 0 <= i < p ==> text_before((#[trigger] pairs[i]).0, key),
        p < pairs.len() ==> !text_before(pairs[p].0, key),
    ensures
        has_key(pairs, key) <==> p < pairs.len() && !text_before(key, pairs[p].0),
        p < pairs.len() && !text_before(key, pairs[p].0) ==> pairs[p].0 == key,
        forall|i: int|
            p <= i < pairs.len() && has_key(pairs, key) == false ==> text_before(
                key,
                (#[trigger] pairs[i]).0,
            ),
{
    if p < pairs.len() {
        text_before_total(key, pairs[p].0);
        text_before_irreflexive(key);
        if !text_before(key, pairs[p].0) {
            assert(pairs[p].0 == key);
        }
    }
    if has_key(pairs, key) {
        let i = choose|i: int| 0 <= i < pairs.len() && (#[trigger] pairs[i]).0 == key;
        text_before_irreflexive(key);
        if i < p {
            assert(text_before(pairs[i].0, key));
        } else if i > p {
            assert(text_before(pairs[p].0, pairs[i].0));
        }
    } else {
        assert forall|i: int| p <= i < pairs.len() implies text_before(
            key,
            (#[trigger] pairs[i]).0,
        ) by {
            if p < i {
                assert(text_before(pairs[p].0, pairs[i].0));
                text_before_transitive(key, pairs[p].0, pairs[i].0);
            }
        }
    }
}

/// Writing a pair at its place keeps the order and changes the map at that key alone.
proof fn lemma_inserted(pairs: Seq<(Seq<char>, Seq<char>)>, key: Seq<char>, value: Seq<char>, p: int)
    requires
        keys_ascend(pairs),
        0 <= p <= pairs.len(),
        forall|i: int| 0 <= i < p ==> text_before((#[trigger] pairs[i]).0, key),
        p < pairs.len() ==> !text_before(pairs[p].0, key),
    ensures
        ({
            let after = if p < pairs.len() && !text_before(key, pairs[p].0) {
                pairs.update(p, (key, value))
            } else {
                pairs.insert(p, (key, value))
            };
            keys_ascend(after) && map_of(after) == map_of(pairs).insert(key, value)
        }),
{
    lemma_found(pairs, key, p);
    let found = p < pairs.len() && !text_before(key, pairs[p].0);
    let after = if found {
        pairs.update(p, (key, value))
    } else {
        pairs.insert(p, (key, value))
    };
    assert forall|i: int, j: int| 0 <= i < j < after.len() implies text_before(
        #[trigger] after[i].0,
        #[trigger] after[j].0,
    ) by {
        if found {
            assert(after[i].0 == pairs[i].0 && after[j].0 == pairs[j].0);
        } else {
            let a = if i < p { i } else { i - 1 };
            let b = if j < p { j } else { j - 1 };
            if i != p {
                assert(after[i] == pairs[a]);
            }
            if j != p {
                assert(after[j] == pairs[b]);
            }
        }
    }
    lemma_map_of(pairs);
    lemma_map_of(after);
    let m = map_of(pairs).insert(key, value);
    assert(after[p] == (key, value));
    assert forall|k: Seq<char>| #[trigger] map_of(after).contains_key(k) <==> m.contains_key(k) by {
        if has_key(after, k) {
            let i = choose|i: int| 0 <= i < after.len() && (#[trigger] after[i]).0 == k;
            if i != p {
                let a = if found || i < p { i } else { i - 1 };
                assert(pairs[a].0 == k);
            }
        }
        if has_key(pairs, k) {
            let i = choose|i: int| 0 <= i < pairs.len() && (#[trigger] pairs[i]).0 == k;
            let b = if found || i < p { i } else { i + 1 };
            assert(after[b].0 == k);
        }
        if k == key {
            assert(after[p].0 == k);
        }
    }
    assert forall|k: Seq<char>| #[trigger] map_of(after).contains_key(k) implies map_of(after)[k]
        == m[k] by {
        let i = choose|i: int| 0 <= i < after.len() && (#[trigger] after[i]).0 == k;
        assert(map_of(after)[after[i].0] == after[i].1);
        if i != p {
            let a = if found || i < p { i } else { i - 1 };
            assert(pairs[a] == after[i]);
            assert(map_of(pairs)[pairs[a].0] == pairs[a].1);
            text_before_irreflexive(key);
            if i < p {
                assert(text_before(after[i].0, after[p].0));
            } else {
                assert(text_before(after[p].0, after[i].0));
            }
        }
    }
    assert(map_of(after) =~= m);
}

// ---------------------------------------------------------------------------
// Laws
// ---------------------------------------------------------------------------

/// Of the values that pairs give to a key the last one counts, and there is nothing but what the pairs give.
pub proof fn law_last_value_counts(pairs: Seq<(Seq<char>, Seq<char>)>, i: int)
    requires
        0 <= i < pairs.len(),
        forall|j: int| i < j < pairs.len() ==> (#[trigger] pairs[j]).0 != pairs[i].0,
    ensures
        map_of(pairs).contains_key(pairs[i].0),
        map_of(pairs)[pairs[i].0] == pairs[i].1,
        forall|k: Seq<char>| #[trigger] map_of(pairs).contains_key(k) ==> has_key(pairs, k),
    decreases pairs.len(),
{
    lemma_keys_of_pairs(pairs);
    let rest = pairs.drop_last();
    if i < rest.len() {
        assert forall|j: int| i < j < rest.len() implies (#[trigger] rest[j]).0 != rest[i].0 by {
            assert(rest[j] == pairs[j]);
        }
        law_last_value_counts(rest, i);
        assert(pairs[pairs.len() - 1].0 != pairs[i].0);
    }
}

/// The keys of the map are those of the pairs.
proof fn lemma_keys_of_pairs(pairs: Seq<(Seq<char>, Seq<char>)>)
    ensures
        forall|k: Seq<char>| #[trigger] map_of(pairs).contains_key(k) ==> has_key(pairs, k),
    decreases pairs.len(),
{
    if pairs.len() > 0 {
        let rest = pairs.drop_last();
        lemma_keys_of_pairs(rest);
        assert forall|k: Seq<char>| #[trigger] map_of(pairs).contains_key(k) implies has_key(pairs, k) by {
            if k == pairs.last().0 {
                assert(pairs[pairs.len() - 1].0 == k);
            } else {
                assert(map_of(rest).contains_key(k));
                let i = choose|i: int| 0 <= i < rest.len() && (#[trigger] rest[i]).0 == k;
                assert(pairs[i].0 == k);
            }
        }
    }
}

/// The order of texts is that of their first characters that differ; a text comes before all that go on behind it.
pub proof fn law_order_of_texts(a: Seq<char>, x: char, y: char, c: Seq<char>, d: Seq<char>)
    ensures
        x < y ==> text_before(a + seq![x] + c, a + seq![y] + d),
        text_before(a, a + seq![x] + c),
        !text_before(a + c, a),
    decreases a.len(),
{
    if a.len() == 0 {
        assert((a + seq![x] + c)[0] == x);
        assert((a + seq![y] + d)[0] == y);
    } else {
        let rest = a.drop_first();
        law_order_of_texts(rest, x, y, c, d);
        assert((a + seq![x] + c).drop_first() =~= rest + seq![x] + c);
        assert((a + seq![y] + d).drop_first() =~= rest + seq![y] + d);
        assert((a + c).drop_first() =~= rest + c);
        assert((a + seq![x] + c)[0] == a[0]);
        assert((a + seq![y] + d)[0] == a[0]);
        assert((a + c)[0] == a[0]);
    }
}

/// What was written under a key is what is read under it from then on; under every other key, what was there before. A new
/// map has nothing.
pub proof fn law_map_gives_back_what_was_written(
    map: &mut TextMap,
    key: String,
    value: String,
    other: &str,
    before: Option<&str>,
    after: Option<&str>,
    has: bool,
    fresh: TextMap,
    nothing: Option<&str>,
)
    requires
        call_ensures(TextMap::get, (&*old(map), other), before),
        call_ensures(TextMap::insert, (map, key, value), ()),
        call_ensures(TextMap::get, (&*final(map), other), after),
        call_ensures(TextMap::contains_key, (&*final(map), other), has),
        call_ensures(TextMap::new, (), fresh),
        call_ensures(TextMap::get, (&fresh, other), nothing),
    ensures
        other@ == key@ ==> (after matches Some(v) && v@ == value@),
        other@ != key@ ==> (after is Some <==> before is Some),
        other@ != key@ ==> (after matches Some(v) ==> (before matches Some(w) && v@ == w@)),
        has <==> after is Some,
        nothing is None,
{
}

} // verus!
