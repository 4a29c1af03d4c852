//! The relay's rooms: connections waiting for the peer with the same pairing key.

use vstd::prelude::*;

verus! {

/// The first waiting entry with key `k`, from position `i` on.
pub open spec fn find_room<T>(s: Seq<(Seq<char>, T)>, k: Seq<char>, i: int) -> Option<int>
    decreases s.len() - i,
{
    if i < 0 || i >= s.len() {
        None
    } else if s[i].0 == k {
        Some(i)
    } else {
        find_room(s, k, i + 1)
    }
}

/// An arrival of `c` with key `k`: the waiting peer with that key leaves the table and is
/// paired with `c`, or, when none waits, `c` waits.
pub open spec fn arrive_spec<T>(s: Seq<(Seq<char>, T)>, k: Seq<char>, c: T) -> (Seq<(Seq<char>, T)>, Option<(T, T)>) {
    match find_room(s, k, 0) {
        Some(i) => (s.remove(i), Some((s[i].1, c))),
        None => (s.push((k, c)), None),
    }
}

/// Whether no key waits twice.
pub open spec fn distinct_keys<T>(s: Seq<(Seq<char>, T)>) -> bool {
    forall|i: int, j: int| 0 <= i < j < s.len() ==> s[i].0 != s[j].0
}

/// Connections waiting for their peer, by pairing key.
pub struct Rooms<T> {
    waiting: Vec<(String, T)>,
}

impl<T> Rooms<T> {
    /// The waiting entries, keys as text.
    pub closed spec fn entries(&self) -> Seq<(Seq<char>, T)> {
        self.waiting@.map_values(|e: (String, T)| (e.0@, e.1))
    }

    /// No room yet.
    pub fn new() -> (r: Rooms<T>)
        ensures
            r.entries() == Seq::<(Seq<char>, T)>::empty(),
    {
        let r = Rooms { waiting: Vec::new() };
        assert(r.entries() =~= Seq::<(Seq<char>, T)>::empty());
        r
    }

    /// Where the entry with key `key` is.
    fn position(&self, key: &str) -> (r: Option<usize>)
        ensures
            match r {
                Some(i) => find_room(self.entries(), key@, 0) == Some(i as int),
                None => find_room(self.entries(), key@, 0) is None,
            },
    {
        let ghost s = self.entries();
        let mut i: usize = 0;
        while i < self.waiting.len()
            invariant
                s == self.entries(),
                i <= self.waiting@.len(),
                find_room(s, key@, 0) == find_room(s, key@, i as int),
            decreases self.waiting@.len() - i,
        {
            if crate::cli::same_str(self.waiting[i].0.as_str(), key) {
                assert(s[i as int].0 == key@);
                return Some(i);
            }
            i = i + 1;
        }
        None
    }

    /// A connection with key `key` arrives: returns the pair of the peer that waited with the
    /// same key (which leaves) and the newcomer, or keeps the newcomer waiting.
    pub fn arrive(&mut self, key: String, conn: T) -> (peer: Option<(T, T)>)
        ensures
            (final(self).entries(), peer) == arrive_spec(old(self).entries(), key@, conn),
    {
        let ghost s = self.entries();
        let ghost k = key@;
        match self.position(key.as_str()) {
            Some(i) => {
                proof {
                    lemma_find_room_found(s, k, 0);
                }
                let (_, peer) = self.waiting.remove(i);
                assert(self.entries() =~= s.remove(i as int));
                assert(peer == s[i as int].1);
                Some((peer, conn))
            },
            None => {
                self.waiting.push((key, conn));
                assert(self.entries() =~= s.push((k, conn)));
                None
            },
        }
    }
}

/// Law: the second connection with a key is paired with the first, and the table is as
/// it was before the first came.
pub proof fn law_second_arrival_pairs<T>(s: Seq<(Seq<char>, T)>, k: Seq<char>, a: T, b: T)
    requires
        find_room(s, k, 0) is None,
    ensures
        arrive_spec(s, k, a).1 is None,
        arrive_spec(arrive_spec(s, k, a).0, k, b) == (s, Some((a, b))),
{
    let t = s.push((k, a));
    lemma_find_room_none(s, k, 0);
    lemma_find_room_first(t, k, 0, s.len() as int);
    assert(t.remove(s.len() as int) =~= s);
}

/// Law: at most one connection waits with each key.
pub proof fn law_one_waiting_per_key<T>(s: Seq<(Seq<char>, T)>, k: Seq<char>, c: T)
    requires
        distinct_keys(s),
    ensures
        distinct_keys(arrive_spec(s, k, c).0),
{
    lemma_find_room_none(s, k, 0);
    match find_room(s, k, 0) {
        Some(i) => {
            lemma_find_room_found(s, k, 0);
            let r = s.remove(i);
            assert forall|x: int, y: int| 0 <= x < y < r.len() implies r[x].0 != r[y].0 by {
                let x0 = if x < i { x } else { x + 1 };
                let y0 = if y < i { y } else { y + 1 };
                assert(r[x] == s[x0] && r[y] == s[y0]);
            }
        },
        None => {
            let r = s.push((k, c));
            assert forall|x: int, y: int| 0 <= x < y < r.len() implies r[x].0 != r[y].0 by {
                if y == s.len() {
                    assert(r[x] == s[x]);
                    assert(s[x].0 != k);
                }
            }
        },
    }
}

/// Where the search finds nothing, no entry from `i` on has the key.
proof fn lemma_find_room_none<T>(s: Seq<(Seq<char>, T)>, k: Seq<char>, i: int)
    requires
        0 <= i,
    ensures
        find_room(s, k, i) is None ==> forall|j: int| i <= j < s.len() ==> s[j].0 != k,
    decreases s.len() - i,
{
    if i < s.len() {
        lemma_find_room_none(s, k, i + 1);
    }
}

/// What the search finds holds the key.
proof fn lemma_find_room_found<T>(s: Seq<(Seq<char>, T)>, k: Seq<char>, i: int)
    requires
        0 <= i,
    ensures
        find_room(s, k, i) matches Some(j) ==> i <= j < s.len() && s[j].0 == k,
    decreases s.len() - i,
{
    if i < s.len() && s[i].0 != k {
        lemma_find_room_found(s, k, i + 1);
    }
}

/// A search that starts before the only match finds it.
proof fn lemma_find_room_first<T>(s: Seq<(Seq<char>, T)>, k: Seq<char>, i: int, j: int)
    requires
        0 <= i <= j < s.len(),
        s[j].0 == k,
        forall|x: int| i <= x < j ==> s[x].0 != k,
    ensures
        find_room(s, k, i) == Some(j),
    decreases j - i,
{
    if i < j {
        lemma_find_room_first(s, k, i + 1, j);
    }
}

} // verus!
