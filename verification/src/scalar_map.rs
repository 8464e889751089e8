//! Recorded figures by path, kept in the order of their paths.
//!
//! Every scalar the ledger holds is named by a dotted path (`0:result.stats.strength`), and a
//! report lists the paths that account for a numeral in that order. The map keeps its entries
//! sorted by the bytes of their keys, each key once, which is the order a `String` sorts in.

use crate::decimal::Decimal;
use crate::json::Json;
use crate::text::{lemma_lex_asymmetric, lemma_lex_irreflexive, lemma_lex_total,
    lemma_lex_transitive, lex_compare, lex_lt};
use vstd::prelude::*;
use vstd::utf8::encode_utf8;

verus! {

/// The bytes a key sorts by.
pub open spec fn key_bytes(k: Seq<char>) -> Seq<u8> {
    encode_utf8(k)
}

/// Whether `s` holds `k`.
pub open spec fn has_key(s: Seq<(String, Decimal)>, k: Seq<char>) -> bool {
    exists|i: int| 0 <= i < s.len() && #[trigger] s[i].0@ == k
}

/// An index at which `s` holds `k`, where there is one.
pub open spec fn key_index(s: Seq<(String, Decimal)>, k: Seq<char>) -> int {
    choose|i: int| 0 <= i < s.len() && #[trigger] s[i].0@ == k
}

/// What `s` holds under `k`, if anything.
pub open spec fn lookup(s: Seq<(String, Decimal)>, k: Seq<char>) -> Option<Decimal> {
    if has_key(s, k) {
        Some(s[key_index(s, k)].1)
    } else {
        None
    }
}

/// What a run of assignments leaves under `k`: the last one to it wins.
pub open spec fn last_assigned(pairs: Seq<(Seq<char>, Decimal)>, k: Seq<char>) -> Option<Decimal>
    decreases pairs.len(),
{
    if pairs.len() == 0 {
        None
    } else if pairs.last().0 == k {
        Some(pairs.last().1)
    } else {
        last_assigned(pairs.drop_last(), k)
    }
}

/// Keys in strictly increasing byte order, so each key is held once.
pub open spec fn sorted_keys(s: Seq<(String, Decimal)>) -> bool {
    forall|i: int, j: int|
        0 <= i < j < s.len() ==> lex_lt(key_bytes(#[trigger] s[i].0@), key_bytes(#[trigger] s[j].0@))
}

/// A map from paths to recorded figures.
pub struct ScalarMap {
    pub entries: Vec<(String, Decimal)>,
}

proof fn lemma_key_bytes_injective(a: Seq<char>, b: Seq<char>)
    requires
        key_bytes(a) == key_bytes(b),
    ensures
        a == b,
{
    vstd::utf8::encode_utf8_decode_utf8(a);
    vstd::utf8::encode_utf8_decode_utf8(b);
}

/// In a sorted map, an index holding `k` is the one `lookup` finds.
pub proof fn lemma_lookup_at(s: Seq<(String, Decimal)>, i: int)
    requires
        sorted_keys(s),
        0 <= i < s.len(),
    ensures
        lookup(s, s[i].0@) == Some(s[i].1),
{
    let k = s[i].0@;
    assert(has_key(s, k));
    let j = key_index(s, k);
    assert(0 <= j < s.len() && s[j].0@ == k);
    if j != i {
        lemma_lex_irreflexive(key_bytes(k));
        if j < i {
            assert(lex_lt(key_bytes(s[j].0@), key_bytes(s[i].0@)));
        } else {
            assert(lex_lt(key_bytes(s[i].0@), key_bytes(s[j].0@)));
        }
        assert(false);
    }
    assert(lookup(s, k) == Some(s[j].1));
}

/// A sorted map's prefix holds one more key than the prefix before it.
pub proof fn lemma_lookup_take_step(s: Seq<(String, Decimal)>, m: int, k: Seq<char>)
    requires
        sorted_keys(s),
        0 <= m < s.len(),
    ensures
        lookup(s.take(m + 1), k) == if k == s[m].0@ {
            Some(s[m].1)
        } else {
            lookup(s.take(m), k)
        },
{
    let a = s.take(m);
    let t = s.take(m + 1);
    assert(sorted_keys(t));
    assert(sorted_keys(a));
    if k == s[m].0@ {
        assert(t[m] == s[m]);
        lemma_lookup_at(t, m);
    } else {
        if has_key(a, k) {
            let j = key_index(a, k);
            assert(t[j] == a[j]);
            lemma_lookup_at(a, j);
            lemma_lookup_at(t, j);
        }
        if has_key(t, k) {
            let j = key_index(t, k);
            assert(j != m);
            assert(a[j] == t[j]);
        }
    }
}

impl ScalarMap {
    pub open spec fn wf(&self) -> bool {
        sorted_keys(self.entries@)
    }

    /// What the map holds under `k`.
    pub open spec fn get_spec(&self, k: Seq<char>) -> Option<Decimal> {
        lookup(self.entries@, k)
    }

    /// The keys, in order.
    pub open spec fn keys(&self) -> Seq<Seq<char>> {
        self.entries@.map_values(|e: (String, Decimal)| e.0@)
    }

    pub fn new() -> (r: ScalarMap)
        ensures
            r.wf(),
            r.entries@.len() == 0,
            forall|k: Seq<char>| r.get_spec(k) is None,
    {
        ScalarMap { entries: Vec::new() }
    }

    pub fn len(&self) -> (r: usize)
        ensures
            r == self.entries@.len(),
    {
        self.entries.len()
    }

    /// Records `value` under `key`, replacing what was there.
    pub fn insert(&mut self, key: String, value: Decimal)
        requires
            old(self).wf(),
        ensures
            final(self).wf(),
            final(self).get_spec(key@) == Some(value),
            forall|k: Seq<char>| k != key@ ==> final(self).get_spec(k) == old(self).get_spec(k),
    {
        let ghost s = self.entries@;
        let kb = key.as_str().as_bytes();
        let mut i: usize = 0;
        let mut found = false;
        while i < self.entries.len()
            invariant_except_break
                !found,
            invariant
                self.entries@ == s,
                sorted_keys(s),
                kb@ == key_bytes(key@),
                i <= s.len(),
                forall|j: int| 0 <= j < i ==> lex_lt(key_bytes(#[trigger] s[j].0@), kb@),
            ensures
                i <= s.len(),
                forall|j: int| 0 <= j < i ==> lex_lt(key_bytes(#[trigger] s[j].0@), kb@),
                found ==> i < s.len() && s[i as int].0@ == key@,
                !found && i < s.len() ==> lex_lt(kb@, key_bytes(s[i as int].0@)),
            decreases s.len() - i,
        {
            let (less, equal) = lex_compare(self.entries[i].0.as_str().as_bytes(), kb);
            if equal {
                proof {
                    lemma_key_bytes_injective(s[i as int].0@, key@);
                }
                found = true;
                break;
            }
            if !less {
                proof {
                    lemma_lex_total(key_bytes(s[i as int].0@), kb@);
                }
                break;
            }
            i = i + 1;
        }
        proof {
            // Everything from `i` on sorts after the key.
            assert forall|j: int| i < j < s.len() implies lex_lt(kb@, key_bytes(#[trigger] s[j].0@)) by {
                if found {
                    assert(lex_lt(key_bytes(s[i as int].0@), key_bytes(s[j].0@)));
                } else {
                    lemma_lex_transitive(kb@, key_bytes(s[i as int].0@), key_bytes(s[j].0@));
                }
            }
        }
        if found {
            self.entries.set(i, (key, value));
        } else {
            self.entries.insert(i, (key, value));
        }
        let ghost t = self.entries@;
        proof {
            assert forall|a: int, b: int| 0 <= a < b < t.len() implies lex_lt(
                key_bytes(#[trigger] t[a].0@),
                key_bytes(#[trigger] t[b].0@),
            ) by {
                if found {
                    if a != i && b != i {
                        assert(t[a] == s[a] && t[b] == s[b]);
                    } else if a == i {
                        assert(t[b] == s[b]);
                    } else {
                        assert(t[a] == s[a]);
                    }
                } else {
                    if b < i {
                        assert(t[a] == s[a] && t[b] == s[b]);
                    } else if a > i {
                        assert(t[a] == s[a - 1] && t[b] == s[b - 1]);
                    } else if a == i {
                        assert(t[b] == s[b - 1]);
                    } else if b == i {
                        assert(t[a] == s[a]);
                    } else {
                        assert(t[a] == s[a] && t[b] == s[b - 1]);
                        lemma_lex_transitive(key_bytes(s[a].0@), kb@, key_bytes(s[b - 1].0@));
                    }
                }
            }
            lemma_lookup_at(t, i as int);
            assert forall|k: Seq<char>| k != key@ implies lookup(t, k) == lookup(s, k) by {
                if has_key(s, k) {
                    let j = key_index(s, k);
                    lemma_lookup_at(s, j);
                    let jt = if found || j < i { j } else { j + 1 };
                    assert(t[jt] == s[j]);
                    lemma_lookup_at(t, jt);
                }
                if has_key(t, k) {
                    let j = key_index(t, k);
                    assert(j != i);
                    let js = if found || j < i { j } else { j - 1 };
                    assert(s[js] == t[j]);
                }
            }
        }
    }

    /// What the map holds under `key`.
    pub fn get(&self, key: &str) -> (r: Option<Decimal>)
        requires
            self.wf(),
        ensures
            r == self.get_spec(key@),
    {
        let kb = key.as_bytes();
        let mut i: usize = 0;
        while i < self.entries.len()
            invariant
                sorted_keys(self.entries@),
                kb@ == key_bytes(key@),
                i <= self.entries@.len(),
                forall|j: int| 0 <= j < i ==> #[trigger] self.entries@[j].0@ != key@,
            decreases self.entries@.len() - i,
        {
            let (_, equal) = lex_compare(self.entries[i].0.as_str().as_bytes(), kb);
            if equal {
                proof {
                    lemma_key_bytes_injective(self.entries@[i as int].0@, key@);
                    lemma_lookup_at(self.entries@, i as int);
                }
                return Some(self.entries[i].1);
            }
            i = i + 1;
        }
        None
    }

    /// The map that a run of assignments leaves: each key holds the last value assigned to it.
    pub fn from_pairs(pairs: Vec<(String, Decimal)>) -> (r: ScalarMap)
        ensures
            r.wf(),
            forall|k: Seq<char>|
                r.get_spec(k) == last_assigned(
                    pairs@.map_values(|e: (String, Decimal)| (e.0@, e.1)),
                    k,
                ),
    {
        let mut r = ScalarMap::new();
        let ghost view = pairs@.map_values(|e: (String, Decimal)| (e.0@, e.1));
        let mut i: usize = 0;
        while i < pairs.len()
            invariant
                r.wf(),
                i <= pairs@.len(),
                view == pairs@.map_values(|e: (String, Decimal)| (e.0@, e.1)),
                forall|k: Seq<char>| r.get_spec(k) == last_assigned(view.take(i as int), k),
            decreases pairs@.len() - i,
        {
            let (k, v) = (pairs[i].0.clone(), pairs[i].1);
            r.insert(k, v);
            proof {
                assert(view.take(i + 1).drop_last() =~= view.take(i as int));
            }
            i = i + 1;
        }
        assert(view.take(i as int) =~= view);
        r
    }
}

/// `fields` are the map's entries, each figure as a JSON number, in the same order.
pub open spec fn number_fields(entries: Seq<(String, Decimal)>, fields: Seq<(String, Json)>) -> bool {
    &&& fields.len() == entries.len()
    &&& forall|i: int| 0 <= i < fields.len() ==> (#[trigger] fields[i]).0@ == entries[i].0@ && fields[i].1
        == Json::Number(entries[i].1)
}

/// The last numeric field named `key`.
pub open spec fn last_number(fields: Seq<(String, Json)>, key: Seq<char>) -> Option<Decimal>
    decreases fields.len(),
{
    if fields.len() == 0 {
        None
    } else if fields.last().0@ == key && fields.last().1 is Number {
        Some(fields.last().1->Number_0)
    } else {
        last_number(fields.drop_last(), key)
    }
}

/// Read back as JSON, a sorted map gives each key's figure.
pub proof fn lemma_number_fields_lookup(entries: Seq<(String, Decimal)>, fields: Seq<(String, Json)>, m: int, k: Seq<char>)
    requires
        sorted_keys(entries),
        number_fields(entries, fields),
        0 <= m <= entries.len(),
    ensures
        last_number(fields.take(m), k) == lookup(entries.take(m), k),
    decreases m,
{
    if m == 0 {
        assert(!has_key(entries.take(0), k));
    } else {
        lemma_number_fields_lookup(entries, fields, m - 1, k);
        assert(fields.take(m).drop_last() =~= fields.take(m - 1));
        assert(fields.take(m).last() == fields[m - 1]);
        lemma_lookup_take_step(entries, m - 1, k);
    }
}

impl ScalarMap {
    /// The map as a JSON object of numbers, in key order.
    pub fn to_json(&self) -> (r: Json)
        ensures
            r matches Json::Object(fs) && number_fields(self.entries@, fs@),
    {
        let mut fields: Vec<(String, Json)> = Vec::new();
        let mut i: usize = 0;
        while i < self.entries.len()
            invariant
                i <= self.entries@.len(),
                number_fields(self.entries@.take(i as int), fields@),
            decreases self.entries@.len() - i,
        {
            fields.push((self.entries[i].0.clone(), Json::Number(self.entries[i].1)));
            i = i + 1;
        }
        assert(self.entries@.take(i as int) =~= self.entries@);
        Json::Object(fields)
    }

    /// What the map holds under `k`, read back from its JSON.
    pub proof fn lemma_to_json(&self, fields: Seq<(String, Json)>, k: Seq<char>)
        requires
            self.wf(),
            number_fields(self.entries@, fields),
        ensures
            last_number(fields, k) == self.get_spec(k),
    {
        lemma_number_fields_lookup(self.entries@, fields, self.entries@.len() as int, k);
        assert(fields.take(fields.len() as int) =~= fields);
        assert(self.entries@.take(self.entries@.len() as int) =~= self.entries@);
    }
}

} // verus!
