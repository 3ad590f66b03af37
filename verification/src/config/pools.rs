//! The upstream pools by name, in the order of their names.

use crate::config::types::UpstreamPoolConfig;
use crate::text::{chars_of, str_eq};
use vstd::prelude::*;

verus! {

/// Whether `a` sorts before `b`, character by character.
pub open spec fn text_before(a: Seq<char>, b: Seq<char>) -> bool
    decreases a.len(),
{
    if b.len() == 0 {
        false
    } else if a.len() == 0 {
        true
    } else if a[0] == b[0] {
        text_before(a.skip(1), b.skip(1))
    } else {
        a[0] < b[0]
    }
}

/// Pools by name. The names are distinct and sorted.
#[derive(Debug)]
pub struct PoolMap {
    entries: Vec<(String, UpstreamPoolConfig)>,
}

/// Whether the names of the entries are strictly ascending.
pub open spec fn ascending(s: Seq<(Seq<char>, UpstreamPoolConfig)>) -> bool {
    forall|i: int, j: int| 0 <= i < j < s.len() ==> text_before(#[trigger] s[i].0, #[trigger] s[j].0)
}

/// The number of entries whose name sorts before `name`.
pub open spec fn slot_of(s: Seq<(Seq<char>, UpstreamPoolConfig)>, name: Seq<char>) -> int
    decreases s.len(),
{
    if s.len() == 0 || !text_before(s[0].0, name) {
        0
    } else {
        1 + slot_of(s.skip(1), name)
    }
}

/// The entries after `pool` was put under `name`.
pub open spec fn with_pool(
    s: Seq<(Seq<char>, UpstreamPoolConfig)>,
    name: Seq<char>,
    pool: UpstreamPoolConfig,
) -> Seq<(Seq<char>, UpstreamPoolConfig)> {
    let i = slot_of(s, name);
    if i < s.len() && s[i].0 == name {
        s.update(i, (name, pool))
    } else {
        s.insert(i, (name, pool))
    }
}

/// Whether a pool stands under `name`.
pub open spec fn has_pool(s: Seq<(Seq<char>, UpstreamPoolConfig)>, name: Seq<char>) -> bool {
    exists|i: int| 0 <= i < s.len() && #[trigger] s[i].0 == name
}

/// Whether `a` sorts before `b`.
pub fn sorts_before(a: &str, b: &str) -> (r: bool)
    ensures
        r == text_before(a@, b@),
{
    let x = chars_of(a);
    let y = chars_of(b);
    let mut i: usize = 0;
    proof {
        assert(a@.skip(0) =~= a@);
        assert(b@.skip(0) =~= b@);
    }
    while i < x.len() && i < y.len()
        invariant
            i <= x.len(),
            i <= y.len(),
            x@ == a@,
            y@ == b@,
            text_before(a@, b@) == text_before(a@.skip(i as int), b@.skip(i as int)),
        decreases x.len() - i,
    {
        if x[i] != y[i] {
            return x[i] < y[i];
        }
        proof {
            assert(a@.skip(i as int).skip(1) =~= a@.skip(i + 1));
            assert(b@.skip(i as int).skip(1) =~= b@.skip(i + 1));
        }
        i = i + 1;
    }
    i < y.len()
}

/// The order of texts is transitive, and of two different texts one comes first.
pub proof fn lemma_text_before(a: Seq<char>, b: Seq<char>, c: Seq<char>)
    ensures
        !text_before(a, a),
        text_before(a, b) && text_before(b, c) ==> text_before(a, c),
        a != b ==> text_before(a, b) || text_before(b, a),
        !(text_before(a, b) && text_before(b, a)),
    decreases a.len() + b.len() + c.len(),
{
    if a.len() > 0 {
        lemma_text_before(a.skip(1), if b.len() > 0 {
            b.skip(1)
        } else {
            b
        }, if c.len() > 0 {
            c.skip(1)
        } else {
            c
        });
        if b.len() > 0 && a[0] == b[0] && a != b {
            if a.skip(1) == b.skip(1) {
                assert(a =~= seq![a[0]] + a.skip(1));
                assert(b =~= seq![b[0]] + b.skip(1));
            }
        }
    } else if b.len() == 0 {
        assert(a =~= b);
    }
}

proof fn lemma_slot_is(s: Seq<(Seq<char>, UpstreamPoolConfig)>, name: Seq<char>, i: int)
    requires
        0 <= i <= s.len(),
        forall|j: int| 0 <= j < i ==> text_before(#[trigger] s[j].0, name),
        i < s.len() ==> !text_before(s[i].0, name),
    ensures
        slot_of(s, name) == i,
    decreases s.len(),
{
    if i > 0 {
        assert(text_before(s[0].0, name));
        assert forall|j: int| 0 <= j < i - 1 implies text_before(
            #[trigger] s.skip(1)[j].0,
            name,
        ) by {
            assert(s.skip(1)[j] == s[j + 1]);
        }
        lemma_slot_is(s.skip(1), name, i - 1);
    }
}

impl Clone for PoolMap {
    fn clone(&self) -> (r: Self)
        ensures
            r@.len() == self@.len(),
            forall|i: int|
                0 <= i < r@.len() ==> (#[trigger] r@[i]).0 == self@[i].0 && r@[i].1.upstreams@
                    == self@[i].1.upstreams@ && r@[i].1.passive_failure_threshold
                    == self@[i].1.passive_failure_threshold,
    {
        proof {
            use_type_invariant(self);
        }
        let mut entries: Vec<(String, UpstreamPoolConfig)> = Vec::new();
        let mut i: usize = 0;
        while i < self.entries.len()
            invariant
                i <= self.entries.len(),
                entries.len() == i,
                forall|k: int|
                    0 <= k < i ==> (#[trigger] entries@[k]).0@ == self.entries@[k].0@
                        && entries@[k].1.upstreams@ == self.entries@[k].1.upstreams@
                        && entries@[k].1.passive_failure_threshold
                        == self.entries@[k].1.passive_failure_threshold,
            decreases self.entries.len() - i,
        {
            let name = self.entries[i].0.clone();
            let pool = self.entries[i].1.clone();
            entries.push((name, pool));
            i = i + 1;
        }
        proof {
            let s = entries@.map_values(|e: (String, UpstreamPoolConfig)| (e.0@, e.1));
            assert forall|a: int, b: int| 0 <= a < b < s.len() implies text_before(
                #[trigger] s[a].0,
                #[trigger] s[b].0,
            ) by {
                assert(text_before(self@[a].0, self@[b].0));
                assert(entries@[a].0@ == self.entries@[a].0@);
                assert(entries@[b].0@ == self.entries@[b].0@);
            }
        }
        PoolMap { entries }
    }
}

impl PoolMap {
    /// The pools with their names, in the order of the names.
    pub closed spec fn view(&self) -> Seq<(Seq<char>, UpstreamPoolConfig)> {
        self.entries@.map_values(|e: (String, UpstreamPoolConfig)| (e.0@, e.1))
    }

    #[verifier::type_invariant]
    spec fn sorted(&self) -> bool {
        ascending(self@)
    }

    /// No pools.
    pub fn new() -> (r: PoolMap)
        ensures
            r@.len() == 0,
    {
        PoolMap { entries: Vec::new() }
    }

    /// How many pools there are.
    pub fn len(&self) -> (n: usize)
        ensures
            n == self@.len(),
            ascending(self@),
    {
        proof {
            use_type_invariant(self);
        }
        self.entries.len()
    }

    /// The name at position `i`.
    pub fn name_at(&self, i: usize) -> (r: &str)
        requires
            i < self@.len(),
        ensures
            r@ == self@[i as int].0,
    {
        self.entries[i].0.as_str()
    }

    /// The pool at position `i`.
    pub fn pool_at(&self, i: usize) -> (r: &UpstreamPoolConfig)
        requires
            i < self@.len(),
        ensures
            *r == self@[i as int].1,
    {
        &self.entries[i].1
    }

    /// The position of the pool called `name`.
    pub fn position(&self, name: &str) -> (r: Option<usize>)
        ensures
            r.is_some() <==> has_pool(self@, name@),
            r matches Some(i) ==> i < self@.len() && self@[i as int].0 == name@,
    {
        let mut i: usize = 0;
        while i < self.entries.len()
            invariant
                i <= self.entries.len(),
                self@.len() == self.entries.len(),
                forall|j: int| 0 <= j < i ==> #[trigger] self@[j].0 != name@,
            decreases self.entries.len() - i,
        {
            if str_eq(self.name_at(i), name) {
                return Some(i);
            }
            i = i + 1;
        }
        None
    }

    /// The pool called `name`.
    pub fn get(&self, name: &str) -> (r: Option<&UpstreamPoolConfig>)
        ensures
            r.is_some() <==> has_pool(self@, name@),
            r matches Some(p) ==> exists|i: int|
                0 <= i < self@.len() && #[trigger] self@[i] == (name@, *p),
    {
        match self.position(name) {
            Some(i) => {
                proof {
                    assert(self@[i as int] == (name@, self@[i as int].1));
                }
                Some(self.pool_at(i))
            },
            None => None,
        }
    }

    /// Whether a pool is called `name`.
    pub fn contains_key(&self, name: &str) -> (r: bool)
        ensures
            r == has_pool(self@, name@),
    {
        self.position(name).is_some()
    }

    /// Puts `pool` under `name`, in place of the one that stood there.
    pub fn insert(&mut self, name: String, pool: UpstreamPoolConfig)
        ensures
            final(self)@ == with_pool(old(self)@, name@, pool),
            ascending(final(self)@),
    {
        proof {
            use_type_invariant(&*self);
        }
        let ghost s = self@;
        let ghost key = name@;
        let mut i: usize = 0;
        while i < self.entries.len() && sorts_before(self.entries[i].0.as_str(), name.as_str())
            invariant
                i <= self.entries.len(),
                self@ == s,
                s.len() == self.entries.len(),
                key == name@,
                ascending(s),
                forall|j: int| 0 <= j < i ==> text_before(#[trigger] s[j].0, key),
            decreases self.entries.len() - i,
        {
            assert(self@[i as int].0 == self.entries@[i as int].0@);
            i = i + 1;
        }
        proof {
            if i < s.len() {
                assert(self@[i as int].0 == self.entries@[i as int].0@);
            }
            lemma_slot_is(s, key, i as int);
            lemma_with_pool_ascending(s, key, pool);
        }
        let mut entries = Vec::new();
        std::mem::swap(&mut entries, &mut self.entries);
        let ghost raw = entries@;
        if i < entries.len() && str_eq(entries[i].0.as_str(), name.as_str()) {
            entries[i] = (name, pool);
        } else {
            entries.insert(i, (name, pool));
        }
        proof {
            let v = entries@.map_values(|e: (String, UpstreamPoolConfig)| (e.0@, e.1));
            assert(raw.map_values(|e: (String, UpstreamPoolConfig)| (e.0@, e.1)) == s);
            if i < s.len() {
                assert(s[i as int].0 == raw[i as int].0@);
            }
            assert(v =~= with_pool(s, key, pool));
        }
        self.entries = entries;
    }
}

/// Putting a pool under a name keeps the names distinct and sorted, puts the pool there and
/// leaves what stands under other names.
pub proof fn lemma_with_pool_ascending(
    s: Seq<(Seq<char>, UpstreamPoolConfig)>,
    name: Seq<char>,
    pool: UpstreamPoolConfig,
)
    requires
        ascending(s),
    ensures
        ascending(with_pool(s, name, pool)),
        with_pool(s, name, pool).contains((name, pool)),
        forall|e: (Seq<char>, UpstreamPoolConfig)|
            e.0 != name ==> (s.contains(e) <==> with_pool(s, name, pool).contains(e)),
{
    lemma_slot(s, name);
    let i = slot_of(s, name);
    let t = with_pool(s, name, pool);
    assert(t[i] == (name, pool));
    assert forall|a: int, b: int| 0 <= a < b < t.len() implies text_before(
        #[trigger] t[a].0,
        #[trigger] t[b].0,
    ) by {
        if i < s.len() && s[i].0 != name {
            lemma_text_before(name, s[i].0, if b - 1 < s.len() {
                s[b - 1].0
            } else {
                name
            });
        }
    }
    assert forall|e: (Seq<char>, UpstreamPoolConfig)| e.0 != name implies (s.contains(e)
        <==> t.contains(e)) by {
        let ins = !(i < s.len() && s[i].0 == name);
        if s.contains(e) {
            let k = choose|k: int| 0 <= k < s.len() && s[k] == e;
            if ins && k >= i {
                assert(t[k + 1] == e);
            } else {
                assert(t[k] == e);
            }
        }
        if t.contains(e) {
            let k = choose|k: int| 0 <= k < t.len() && t[k] == e;
            if ins && k > i {
                assert(s[k - 1] == e);
            } else {
                assert(s[k] == e);
            }
        }
    }
}

proof fn lemma_slot(s: Seq<(Seq<char>, UpstreamPoolConfig)>, name: Seq<char>)
    ensures
        0 <= slot_of(s, name) <= s.len(),
        forall|j: int| 0 <= j < slot_of(s, name) ==> text_before(#[trigger] s[j].0, name),
        slot_of(s, name) < s.len() ==> !text_before(s[slot_of(s, name)].0, name),
    decreases s.len(),
{
    if s.len() > 0 && text_before(s[0].0, name) {
        lemma_slot(s.skip(1), name);
        assert forall|j: int| 0 <= j < slot_of(s, name) implies text_before(
            #[trigger] s[j].0,
            name,
        ) by {
            if j > 0 {
                assert(s[j] == s.skip(1)[j - 1]);
            }
        }
        let k = slot_of(s.skip(1), name);
        if k < s.skip(1).len() {
            assert(s.skip(1)[k] == s[k + 1]);
        }
    }
}

/// Names are ordered as in a dictionary: by the first character in which they differ, and a name
/// before every longer one that begins with it.
pub proof fn names_are_in_dictionary_order(
    a: Seq<char>,
    x: char,
    y: char,
    s: Seq<char>,
    t: Seq<char>,
)
    requires
        x != y,
    ensures
        text_before(a + seq![x] + s, a + seq![y] + t) <==> x < y,
        text_before(a, a + seq![x] + s),
        !text_before(a + seq![x] + s, a),
    decreases a.len(),
{
    let p = a + seq![x] + s;
    let q = a + seq![y] + t;
    if a.len() > 0 {
        assert(p[0] == a[0] && q[0] == a[0]);
        assert(p.skip(1) =~= a.skip(1) + seq![x] + s);
        assert(q.skip(1) =~= a.skip(1) + seq![y] + t);
        names_are_in_dictionary_order(a.skip(1), x, y, s, t);
    } else {
        assert(p[0] == x && q[0] == y);
    }
}

/// A pool is found under the name that it was stored with, and storing one leaves all others as
/// they were.
pub proof fn pools_are_stored_by_name(
    m: &mut PoolMap,
    name: String,
    pool: UpstreamPoolConfig,
    other: Seq<char>,
)
    requires
        call_ensures(PoolMap::insert, (m, name, pool), ()),
        other != name@,
    ensures
        final(m)@.contains((name@, pool)),
        forall|p: UpstreamPoolConfig| #[trigger]
            final(m)@.contains((other, p)) <==> old(m)@.contains((other, p)),
{
    let s = old(m)@;
    let i = slot_of(s, name@);
    lemma_slot(s, name@);
    let t = final(m)@;
    assert(t[i] == (name@, pool));
    assert forall|p: UpstreamPoolConfig| #[trigger] t.contains((other, p)) <==> s.contains(
        (other, p),
    ) by {
        if s.contains((other, p)) {
            let k = choose|k: int| 0 <= k < s.len() && s[k] == (other, p);
            if i < s.len() && s[i].0 == name@ {
                assert(t[k] == s[k]);
            } else if k < i {
                assert(t[k] == s[k]);
            } else {
                assert(t[k + 1] == s[k]);
            }
        }
        if t.contains((other, p)) {
            let k = choose|k: int| 0 <= k < t.len() && t[k] == (other, p);
            if i < s.len() && s[i].0 == name@ {
                assert(t[k] == s[k]);
            } else if k < i {
                assert(t[k] == s[k]);
            } else {
                assert(t[k] == s[k - 1]);
            }
        }
    }
}

} // verus!
