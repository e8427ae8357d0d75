//! The elevation-result cache, as data: a keyed map from
//! `"<trail name>|<park name>"` to an elevation array, held as an
//! association list with unique keys. Reading and writing the backing
//! file is the calling layer's concern; the read-modify-write rule —
//! insert or overwrite one entry, leave every other untouched — is
//! stated and proved here.

use vstd::prelude::*;

verus! {

/// The key under which one trail's elevations are cached.
pub open spec fn spec_cache_key(name: Seq<char>, park: Seq<char>) -> Seq<char> {
    name + seq!['|'] + park
}

/// Build the cache key `"<trail name>|<park name>"`.
pub fn cache_key(trail_name: &str, park_name: &str) -> (r: String)
    ensures
        r@ == spec_cache_key(trail_name@, park_name@),
{
    let mut s = String::from_str(trail_name);
    s.append("|");
    s.append(park_name);
    proof {
        reveal_strlit("|");
        assert("|"@ =~= seq!['|']);
    }
    s
}

/// The elevation map: keys to elevation arrays in milli-meters.
pub struct ElevationCache {
    pub entries: Vec<(String, Vec<i64>)>,
}

/// The value held under a key: the first entry that carries it.
pub open spec fn spec_lookup(s: Seq<(String, Vec<i64>)>, key: Seq<char>) -> Option<Seq<i64>>
    decreases s.len(),
{
    if s.len() == 0 {
        None
    } else if s[0].0@ == key {
        Some(s[0].1@)
    } else {
        spec_lookup(s.skip(1), key)
    }
}

/// No two entries share a key.
pub open spec fn unique_keys(s: Seq<(String, Vec<i64>)>) -> bool {
    forall|i: int, j: int| 0 <= i < j < s.len() ==> (#[trigger] s[i]).0@ != (#[trigger] s[j]).0@
}

impl ElevationCache {
    /// An empty map, the reading of a missing or unusable cache file.
    pub fn new() -> (r: ElevationCache)
        ensures
            r.entries@.len() == 0,
            unique_keys(r.entries@),
    {
        ElevationCache { entries: Vec::new() }
    }

    /// The elevations held under `key`, if any.
    pub fn lookup(&self, key: &str) -> (r: Option<&Vec<i64>>)
        ensures
            match r {
                Some(v) => spec_lookup(self.entries@, key@) == Some(v@),
                None => spec_lookup(self.entries@, key@) is None,
            },
    {
        let n = self.entries.len();
        let mut i: usize = 0;
        proof {
            assert(self.entries@.skip(0) =~= self.entries@);
        }
        while i < n
            invariant
                0 <= i <= n,
                n == self.entries@.len(),
                spec_lookup(self.entries@, key@) == spec_lookup(
                    self.entries@.skip(i as int),
                    key@,
                ),
            decreases n - i,
        {
            proof {
                assert(self.entries@.skip(i as int)[0] == self.entries@[i as int]);
                assert(self.entries@.skip(i as int).skip(1) =~= self.entries@.skip(i + 1));
            }
            if crate::strings::str_eq(self.entries[i].0.as_str(), key) {
                return Some(&self.entries[i].1);
            }
            i = i + 1;
        }
        proof {
            assert(self.entries@.skip(n as int).len() == 0);
        }
        None
    }

    /// Insert or overwrite the entry under `key`: afterwards `key` holds
    /// exactly `elevations`, and every other key holds what it held
    /// before.
    pub fn upsert(&mut self, key: String, elevations: Vec<i64>)
        requires
            unique_keys(old(self).entries@),
        ensures
            unique_keys(final(self).entries@),
            spec_lookup(final(self).entries@, key@) == Some(elevations@),
            forall|k: Seq<char>|
                k != key@ ==> #[trigger] spec_lookup(final(self).entries@, k) == spec_lookup(
                    old(self).entries@,
                    k,
                ),
    {
        let ghost orig = self.entries@;
        let n = self.entries.len();
        let mut i: usize = 0;
        let mut at: usize = n;
        let mut found = false;
        while i < n
            invariant_except_break
                !found,
            invariant
                0 <= i <= n,
                n == self.entries@.len(),
                forall|k: int| 0 <= k < i ==> (#[trigger] self.entries@[k]).0@ != key@,
                found ==> at < n && self.entries@[at as int].0@ == key@,
            ensures
                n == self.entries@.len(),
                forall|k: int| 0 <= k < i ==> (#[trigger] self.entries@[k]).0@ != key@,
                found ==> at < n && i < n && at == i && self.entries@[at as int].0@ == key@,
                !found ==> i == n,
            decreases n - i,
        {
            if crate::strings::str_eq(self.entries[i].0.as_str(), key.as_str()) {
                at = i;
                found = true;
                break ;
            }
            i = i + 1;
        }
        if found {
            self.entries.remove(at);
            self.entries.insert(at, (key, elevations));
            proof {
                assert(self.entries@ =~= orig.update(at as int, self.entries@[at as int]));
                lemma_lookup_update(orig, at as int, self.entries@[at as int], key@);
            }
        } else {
            self.entries.push((key, elevations));
            proof {
                lemma_lookup_push(orig, self.entries@[orig.len() as int], key@);
            }
        }
    }
}

/// After an update at the position that holds `key`, `key` maps to the
/// new value and every other key is untouched.
proof fn lemma_lookup_update(s: Seq<(String, Vec<i64>)>, j: int, e: (String, Vec<i64>), key: Seq<
    char,
>)
    requires
        0 <= j < s.len(),
        s[j].0@ == key,
        e.0@ == key,
        forall|t: int| 0 <= t < j ==> (#[trigger] s[t]).0@ != key,
        unique_keys(s),
    ensures
        unique_keys(s.update(j, e)),
        spec_lookup(s.update(j, e), key) == Some(e.1@),
        forall|k: Seq<char>|
            k != key ==> #[trigger] spec_lookup(s.update(j, e), k) == spec_lookup(s, k),
    decreases j,
{
    let su = s.update(j, e);
    assert(unique_keys(su)) by {
        assert forall|a: int, b: int| 0 <= a < b < su.len() implies (#[trigger] su[a]).0@ != (
        #[trigger] su[b]).0@ by {
            if a != j && b != j {
                assert(su[a] == s[a] && su[b] == s[b]);
            } else if a == j {
                assert(su[a].0@ == s[j].0@ && su[b] == s[b]);
            } else {
                assert(su[b].0@ == s[j].0@ && su[a] == s[a]);
            }
        }
    }
    if j == 0 {
        assert(su[0] == e);
        assert forall|k: Seq<char>| k != key implies #[trigger] spec_lookup(su, k) == spec_lookup(
            s,
            k,
        ) by {
            assert(su.skip(1) =~= s.skip(1));
        }
    } else {
        assert(su[0] == s[0]);
        assert(s[0].0@ != key);
        assert(su.skip(1) =~= s.skip(1).update(j - 1, e));
        assert(forall|t: int| 0 <= t < j - 1 ==> (#[trigger] s.skip(1)[t]).0@ != key);
        assert(unique_keys(s.skip(1))) by {
            assert forall|a: int, b: int|
                0 <= a < b < s.skip(1).len() implies (#[trigger] s.skip(1)[a]).0@ != (
            #[trigger] s.skip(1)[b]).0@ by {
                assert(s.skip(1)[a] == s[a + 1] && s.skip(1)[b] == s[b + 1]);
            }
        }
        lemma_lookup_update(s.skip(1), j - 1, e, key);
        assert(spec_lookup(su, key) == Some(e.1@));
        assert forall|k: Seq<char>| k != key implies #[trigger] spec_lookup(su, k) == spec_lookup(
            s,
            k,
        ) by {
            assert(spec_lookup(su, k) == if su[0].0@ == k {
                Some(su[0].1@)
            } else {
                spec_lookup(su.skip(1), k)
            });
        }
    }
}

/// After appending a fresh key, it maps to the appended value and every
/// other key is untouched.
proof fn lemma_lookup_push(s: Seq<(String, Vec<i64>)>, e: (String, Vec<i64>), key: Seq<char>)
    requires
        e.0@ == key,
        forall|t: int| 0 <= t < s.len() ==> (#[trigger] s[t]).0@ != key,
        unique_keys(s),
    ensures
        unique_keys(s.push(e)),
        spec_lookup(s.push(e), key) == Some(e.1@),
        forall|k: Seq<char>| k != key ==> #[trigger] spec_lookup(s.push(e), k) == spec_lookup(s, k),
    decreases s.len(),
{
    let sp = s.push(e);
    assert(unique_keys(sp)) by {
        assert forall|a: int, b: int| 0 <= a < b < sp.len() implies (#[trigger] sp[a]).0@ != (
        #[trigger] sp[b]).0@ by {
            if b < s.len() {
                assert(sp[a] == s[a] && sp[b] == s[b]);
            } else {
                assert(sp[a] == s[a] && sp[b] == e);
            }
        }
    }
    if s.len() == 0 {
        assert(sp[0] == e);
        assert forall|k: Seq<char>| k != key implies #[trigger] spec_lookup(sp, k) == spec_lookup(
            s,
            k,
        ) by {
            assert(spec_lookup(sp, k) == spec_lookup(sp.skip(1), k));
            assert(sp.skip(1).len() == 0);
        }
    } else {
        assert(sp[0] == s[0]);
        assert(sp.skip(1) =~= s.skip(1).push(e));
        assert(forall|t: int| 0 <= t < s.skip(1).len() ==> (#[trigger] s.skip(1)[t]).0@ != key);
        assert(unique_keys(s.skip(1))) by {
            assert forall|a: int, b: int|
                0 <= a < b < s.skip(1).len() implies (#[trigger] s.skip(1)[a]).0@ != (
            #[trigger] s.skip(1)[b]).0@ by {
                assert(s.skip(1)[a] == s[a + 1] && s.skip(1)[b] == s[b + 1]);
            }
        }
        lemma_lookup_push(s.skip(1), e, key);
        assert(s[0].0@ != key);
        assert(spec_lookup(sp, key) == Some(e.1@));
        assert forall|k: Seq<char>| k != key implies #[trigger] spec_lookup(sp, k) == spec_lookup(
            s,
            k,
        ) by {
            assert(spec_lookup(sp, k) == if sp[0].0@ == k {
                Some(sp[0].1@)
            } else {
                spec_lookup(sp.skip(1), k)
            });
        }
    }
}

} // verus!
