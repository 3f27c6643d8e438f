use vstd::prelude::*;
use crate::assoc::{assoc_map, lemma_assoc_contains, lemma_assoc_insert_at, lemma_assoc_match,
    unique_keys};
use crate::errors::SpellerError;
use crate::order::{lemma_lex_total, lex_lt, str_lt, strictly_ascending};
use crate::text::str_views;

verus! {

/// The character-sequence views of a list of (key, word) string pairs.
pub open spec fn pair_views_of(s: Seq<(String, String)>) -> Seq<(Seq<char>, Seq<char>)> {
    s.map(|i: int, p: (String, String)| (p.0@, p.1@))
}

/// A per-language mapping from lowercase grapheme keys to phonetic words.
/// Viewed as a finite map from key characters to word characters.
#[derive(Debug)]
pub struct PhoneticMap {
    pairs: Vec<(String, String)>,
}

impl View for PhoneticMap {
    type V = Map<Seq<char>, Seq<char>>;

    closed spec fn view(&self) -> Map<Seq<char>, Seq<char>> {
        assoc_map(pair_views_of(self.pairs@))
    }
}

impl PhoneticMap {
    #[verifier::type_invariant]
    spec fn inv(self) -> bool {
        unique_keys(pair_views_of(self.pairs@))
    }

    /// Builds a map from (key, word) pairs; rejects a duplicate key as a
    /// configuration error, so that every key resolves to a single word.
    pub fn from_pairs(pairs: &Vec<(String, String)>) -> (r: Result<PhoneticMap, SpellerError>)
        ensures
            match r {
                Ok(m) => unique_keys(pair_views_of(pairs@)) && m@ == assoc_map(
                    pair_views_of(pairs@),
                ),
                Err(e) => e == SpellerError::ConfigurationError && !unique_keys(
                    pair_views_of(pairs@),
                ),
            },
    {
        let mut out: Vec<(String, String)> = Vec::new();
        let mut i: usize = 0;
        while i < pairs.len()
            invariant
                i <= pairs@.len(),
                out@.len() == i,
                pair_views_of(out@) == pair_views_of(pairs@).take(i as int),
                unique_keys(pair_views_of(out@)),
            decreases pairs@.len() - i,
        {
            let dup = contains_pair_key(&out, &pairs[i].0);
            if dup {
                proof {
                    let j = choose|j: int|
                        0 <= j < out@.len() && (#[trigger] out@[j]).0@ == pairs@[i as int].0@;
                    assert(pair_views_of(out@)[j] == pair_views_of(pairs@).take(i as int)[j]);
                    assert((pair_views_of(pairs@)[j]).0 == (pair_views_of(pairs@)[i as int]).0);
                }
                return Err(SpellerError::ConfigurationError);
            }
            out.push((pairs[i].0.clone(), pairs[i].1.clone()));
            proof {
                assert(pair_views_of(out@) =~= pair_views_of(pairs@).take(i + 1));
            }
            i = i + 1;
        }
        proof {
            assert(pair_views_of(pairs@).take(pairs@.len() as int) =~= pair_views_of(pairs@));
        }
        Ok(PhoneticMap { pairs: out })
    }

    /// Looks a lowercase grapheme key up; `None` when the key is absent,
    /// letting the caller apply its fallback policy.
    pub fn lookup(&self, key: &String) -> (r: Option<&String>)
        ensures
            match r {
                Some(v) => self@.contains_key(key@) && v@ == self@[key@],
                None => !self@.contains_key(key@),
            },
    {
        proof {
            use_type_invariant(&*self);
        }
        let mut j: usize = 0;
        while j < self.pairs.len()
            invariant
                j <= self.pairs@.len(),
                unique_keys(pair_views_of(self.pairs@)),
                self@ == assoc_map(pair_views_of(self.pairs@)),
                forall|k: int| 0 <= k < j ==> (#[trigger] self.pairs@[k]).0@ != key@,
            decreases self.pairs@.len() - j,
        {
            if self.pairs[j].0 == *key {
                proof {
                    assert((pair_views_of(self.pairs@)[j as int]).0 == key@);
                    lemma_assoc_match(pair_views_of(self.pairs@), key@, j as int);
                }
                return Some(&self.pairs[j].1);
            }
            j = j + 1;
        }
        proof {
            lemma_assoc_contains(pair_views_of(self.pairs@), key@);
            assert(forall|k: int|
                0 <= k < self.pairs@.len() ==> (#[trigger] pair_views_of(self.pairs@)[k]).0
                    != key@);
        }
        None
    }
}

/// Whether some pair of the list holds the given key.
fn contains_pair_key(v: &Vec<(String, String)>, key: &String) -> (b: bool)
    ensures
        b == exists|j: int| 0 <= j < v@.len() && (#[trigger] v@[j]).0@ == key@,
{
    let mut j: usize = 0;
    while j < v.len()
        invariant
            j <= v@.len(),
            forall|k: int| 0 <= k < j ==> (#[trigger] v@[k]).0@ != key@,
        decreases v@.len() - j,
    {
        if v[j].0 == *key {
            return true;
        }
        j = j + 1;
    }
    false
}

/// The character-sequence views of a list of (identifier, map) entries.
pub open spec fn entry_views_of(s: Seq<(String, PhoneticMap)>) -> Seq<
    (Seq<char>, Map<Seq<char>, Seq<char>>),
> {
    s.map(|i: int, e: (String, PhoneticMap)| (e.0@, e.1@))
}

/// The identifier views of a list of (identifier, map) entries.
pub open spec fn ids_of(s: Seq<(String, PhoneticMap)>) -> Seq<Seq<char>> {
    s.map(|i: int, e: (String, PhoneticMap)| e.0@)
}

/// An immutable table of languages, each with its phonetic map, kept in
/// ascending lexicographic order of the identifiers. Viewed as a finite
/// map from identifier characters to per-language maps.
#[derive(Debug)]
pub struct LanguageTable {
    entries: Vec<(String, PhoneticMap)>,
}

impl View for LanguageTable {
    type V = Map<Seq<char>, Map<Seq<char>, Seq<char>>>;

    closed spec fn view(&self) -> Map<Seq<char>, Map<Seq<char>, Seq<char>>> {
        assoc_map(entry_views_of(self.entries@))
    }
}

impl LanguageTable {
    /// The language identifiers of the table, in their stored (ascending) order.
    pub closed spec fn ids(&self) -> Seq<Seq<char>> {
        ids_of(self.entries@)
    }

    #[verifier::type_invariant]
    spec fn inv(self) -> bool {
        strictly_ascending(ids_of(self.entries@)) && unique_keys(entry_views_of(self.entries@))
    }

    /// Looks a language identifier up; `None` when no language carries it.
    pub fn lookup_language(&self, id: &String) -> (r: Option<&PhoneticMap>)
        ensures
            match r {
                Some(m) => self@.contains_key(id@) && m@ == self@[id@],
                None => !self@.contains_key(id@),
            },
    {
        proof {
            use_type_invariant(&*self);
        }
        let mut j: usize = 0;
        while j < self.entries.len()
            invariant
                j <= self.entries@.len(),
                unique_keys(entry_views_of(self.entries@)),
                self@ == assoc_map(entry_views_of(self.entries@)),
                forall|k: int| 0 <= k < j ==> (#[trigger] self.entries@[k]).0@ != id@,
            decreases self.entries@.len() - j,
        {
            if self.entries[j].0 == *id {
                proof {
                    assert((entry_views_of(self.entries@)[j as int]).0 == id@);
                    lemma_assoc_match(entry_views_of(self.entries@), id@, j as int);
                }
                return Some(&self.entries[j].1);
            }
            j = j + 1;
        }
        proof {
            lemma_assoc_contains(entry_views_of(self.entries@), id@);
            assert(forall|k: int|
                0 <= k < self.entries@.len() ==> (#[trigger] entry_views_of(self.entries@)[k]).0
                    != id@);
        }
        None
    }

    /// All language identifiers, cloned out in ascending lexicographic order.
    pub fn list_language_ids(&self) -> (r: Vec<String>)
        ensures
            str_views(r@) == self.ids(),
            strictly_ascending(str_views(r@)),
            str_views(r@).no_duplicates(),
            forall|i: int| 0 <= i < r@.len() ==> self@.contains_key((#[trigger] r@[i])@),
            forall|k: Seq<char>| #[trigger] self@.contains_key(k) ==> str_views(r@).contains(k),
    {
        proof {
            use_type_invariant(&*self);
        }
        let mut out: Vec<String> = Vec::new();
        let mut i: usize = 0;
        while i < self.entries.len()
            invariant
                i <= self.entries@.len(),
                out@.len() == i,
                str_views(out@) == self.ids().take(i as int),
                self.ids() == ids_of(self.entries@),
            decreases self.entries@.len() - i,
        {
            out.push(self.entries[i].0.clone());
            proof {
                assert(str_views(out@) =~= self.ids().take(i + 1));
            }
            i = i + 1;
        }
        proof {
            assert(self.ids().take(self.entries@.len() as int) =~= self.ids());
            use_type_invariant(&*self);
            assert forall|k: int| 0 <= k < out@.len() implies self@.contains_key(
                (#[trigger] out@[k])@,
            ) by {
                assert(str_views(out@)[k] == out@[k]@);
                assert((entry_views_of(self.entries@)[k]).0 == self.ids()[k]);
                lemma_assoc_match(entry_views_of(self.entries@), self.ids()[k], k);
            }
            assert forall|a: int, b: int|
                0 <= a < str_views(out@).len() && 0 <= b < str_views(out@).len() && a
                    != b implies #[trigger] str_views(out@)[a] != #[trigger] str_views(
                out@,
            )[b] by {
                let lo: int = if a < b { a } else { b };
                let hi: int = if a < b { b } else { a };
                assert((entry_views_of(self.entries@)[lo]).0 != (entry_views_of(
                    self.entries@,
                )[hi]).0);
                assert(str_views(out@)[lo] == (entry_views_of(self.entries@)[lo]).0);
                assert(str_views(out@)[hi] == (entry_views_of(self.entries@)[hi]).0);
            }
            assert(str_views(out@).no_duplicates());
            assert forall|k: Seq<char>| #[trigger] self@.contains_key(k) implies str_views(
                out@,
            ).contains(k) by {
                lemma_assoc_contains(entry_views_of(self.entries@), k);
                let i0 = choose|i0: int|
                    0 <= i0 < self.entries@.len() && (#[trigger] entry_views_of(
                        self.entries@,
                    )[i0]).0 == k;
                assert(str_views(out@)[i0] == k);
            }
        }
        out
    }

}

/// The character-sequence views of raw configuration input: each language
/// identifier with the views of its (key, word) pairs.
pub open spec fn config_views(c: Seq<(String, Vec<(String, String)>)>) -> Seq<
    (Seq<char>, Seq<(Seq<char>, Seq<char>)>),
> {
    c.map(|i: int, e: (String, Vec<(String, String)>)| (e.0@, pair_views_of(e.1@)))
}

/// A raw configuration is acceptable when it is non-empty, its language
/// identifiers are unique, and each language's grapheme keys are unique.
pub open spec fn config_ok(c: Seq<(Seq<char>, Seq<(Seq<char>, Seq<char>)>)>) -> bool {
    &&& c.len() > 0
    &&& unique_keys(c)
    &&& forall|i: int| 0 <= i < c.len() ==> unique_keys((#[trigger] c[i]).1)
}

/// The nested map a raw configuration describes: each language identifier
/// bound to the map its (key, word) pairs describe.
pub open spec fn config_assoc(c: Seq<(Seq<char>, Seq<(Seq<char>, Seq<char>)>)>) -> Map<
    Seq<char>,
    Map<Seq<char>, Seq<char>>,
>
    decreases c.len(),
{
    if c.len() == 0 {
        Map::empty()
    } else {
        config_assoc(c.drop_last()).insert(c.last().0, assoc_map(c.last().1))
    }
}

/// Builds the language table once from configuration input. The table is
/// exactly the nested map the input describes; a structurally invalid
/// input (empty, or with duplicates) is rejected as a configuration error.
pub fn build(config: &Vec<(String, Vec<(String, String)>)>) -> (r: Result<
    LanguageTable,
    SpellerError,
>)
    ensures
        match r {
            Ok(t) => {
                &&& config_ok(config_views(config@))
                &&& t@ == config_assoc(config_views(config@))
                &&& t.ids().len() == config@.len()
            },
            Err(e) => e == SpellerError::ConfigurationError && !config_ok(config_views(config@)),
        },
{
    let ghost cv = config_views(config@);
    if config.len() == 0 {
        return Err(SpellerError::ConfigurationError);
    }
    let mut entries: Vec<(String, PhoneticMap)> = Vec::new();
    let mut i: usize = 0;
    while i < config.len()
        invariant
            i <= config@.len(),
            cv == config_views(config@),
            entries@.len() == i,
            strictly_ascending(ids_of(entries@)),
            unique_keys(entry_views_of(entries@)),
            assoc_map(entry_views_of(entries@)) == config_assoc(cv.take(i as int)),
            forall|k: Seq<char>|
                #[trigger] assoc_map(entry_views_of(entries@)).contains_key(k) <==> exists|j: int|
                    0 <= j < i && (#[trigger] cv[j]).0 == k,
            unique_keys(cv.take(i as int)),
            forall|j: int| 0 <= j < i ==> unique_keys((#[trigger] cv[j]).1),
        decreases config@.len() - i,
    {
        let pm = match PhoneticMap::from_pairs(&config[i].1) {
            Ok(m) => m,
            Err(_) => {
                proof {
                    assert((cv[i as int]).1 == pair_views_of(config@[i as int].1@));
                }
                return Err(SpellerError::ConfigurationError);
            },
        };
        let id = config[i].0.clone();
        let ghost old_entries = entries@;
        let ok = insert_entry(&mut entries, id, pm);
        if !ok {
            proof {
                assert(cv[i as int] == (config@[i as int].0@, pair_views_of(
                    config@[i as int].1@,
                )));
                let j = choose|j: int|
                    0 <= j < i && (#[trigger] cv[j]).0 == config@[i as int].0@;
                assert((cv[j]).0 == (cv[i as int]).0);
            }
            return Err(SpellerError::ConfigurationError);
        }
        proof {
            assert(cv[i as int] == (config@[i as int].0@, pair_views_of(config@[i as int].1@)));
            assert(cv.take(i + 1).drop_last() =~= cv.take(i as int));
            assert(cv.take(i + 1).last() == cv[i as int]);
            assert(config_assoc(cv.take(i + 1)) == config_assoc(cv.take(i as int)).insert(
                (cv[i as int]).0,
                assoc_map((cv[i as int]).1),
            ));
            assert forall|k: int, j: int| 0 <= k < j < i + 1 implies (#[trigger] cv.take(i + 1)[k]).0
                != (#[trigger] cv.take(i + 1)[j]).0 by {
                if j < i {
                    assert(cv.take(i as int)[k] == cv[k]);
                    assert(cv.take(i as int)[j] == cv[j]);
                } else {
                    assert(!(exists|j0: int| 0 <= j0 < i && (#[trigger] cv[j0]).0 == (cv[i as int]).0));
                }
            }
        }
        i = i + 1;
    }
    proof {
        assert(cv.take(config@.len() as int) =~= cv);
    }
    let t = LanguageTable { entries };
    Ok(t)
}

/// Inserts a language at its sorted position; refuses a duplicate
/// identifier, leaving the entries unchanged.
#[verifier::loop_isolation(false)]
fn insert_entry(entries: &mut Vec<(String, PhoneticMap)>, id: String, pm: PhoneticMap) -> (ok:
    bool)
    requires
        strictly_ascending(ids_of(old(entries)@)),
        unique_keys(entry_views_of(old(entries)@)),
    ensures
        strictly_ascending(ids_of(final(entries)@)),
        unique_keys(entry_views_of(final(entries)@)),
        ok <==> !assoc_map(entry_views_of(old(entries)@)).contains_key(id@),
        ok ==> assoc_map(entry_views_of(final(entries)@)) == assoc_map(
            entry_views_of(old(entries)@),
        ).insert(id@, pm@) && final(entries)@.len() == old(entries)@.len() + 1,
        !ok ==> final(entries)@ == old(entries)@,
{
    let ghost ev = entry_views_of(entries@);
    let mut j: usize = 0;
    while j < entries.len()
        invariant
            j <= entries@.len(),
            ev == entry_views_of(entries@),
            forall|k: int| 0 <= k < j ==> (#[trigger] entries@[k]).0@ != id@,
        decreases entries@.len() - j,
    {
        if entries[j].0 == id {
            proof {
                assert((ev[j as int]).0 == id@);
                lemma_assoc_contains(ev, id@);
            }
            return false;
        }
        j = j + 1;
    }
    proof {
        assert(forall|k: int| 0 <= k < ev.len() ==> (#[trigger] ev[k]).0 != id@);
        lemma_assoc_contains(ev, id@);
    }
    let mut p: usize = 0;
    while p < entries.len() && str_lt(entries[p].0.as_str(), id.as_str())
        invariant
            p <= entries@.len(),
            ev == entry_views_of(entries@),
            forall|k: int| 0 <= k < p ==> lex_lt((#[trigger] entries@[k]).0@, id@),
        decreases entries@.len() - p,
    {
        p = p + 1;
    }
    proof {
        if p < entries@.len() {
            lemma_lex_total(entries@[p as int].0@, id@);
        }
    }
    let ghost old_seq = entries@;
    let ghost x: (Seq<char>, Map<Seq<char>, Seq<char>>) = (id@, pm@);
    entries.insert(p, (id, pm));
    proof {
        old_seq.insert_ensures(p as int, (entries@[p as int].0, entries@[p as int].1));
        assert(entries@ =~= old_seq.insert(p as int, entries@[p as int]));
        lemma_assoc_insert_at(entry_views_of(old_seq), p as int, x);
        assert(entry_views_of(entries@) =~= entry_views_of(old_seq).insert(p as int, x)) by {
            entry_views_of(old_seq).insert_ensures(p as int, x);
        }
        assert(ids_of(entries@) =~= ids_of(old_seq).insert(p as int, id@)) by {
            ids_of(old_seq).insert_ensures(p as int, id@);
        }
        let new_ids = ids_of(entries@);
        ids_of(old_seq).insert_ensures(p as int, id@);
        assert forall|k: int| 0 <= k && k + 1 < new_ids.len() implies lex_lt(
            #[trigger] new_ids[k],
            new_ids[k + 1],
        ) by {
            if k + 1 < p {
                assert(new_ids[k] == ids_of(old_seq)[k]);
                assert(new_ids[k + 1] == ids_of(old_seq)[k + 1]);
            } else if k + 1 == p {
                assert(new_ids[k] == ids_of(old_seq)[k]);
                assert(ids_of(old_seq)[k] == old_seq[k].0@);
                assert(new_ids[k + 1] == id@);
            } else if k == p {
                assert(new_ids[k] == id@);
                assert(new_ids[k + 1] == ids_of(old_seq)[k]);
                assert(ids_of(old_seq)[k] == old_seq[k].0@);
            } else {
                assert(new_ids[k] == ids_of(old_seq)[k - 1]);
                assert(new_ids[k + 1] == ids_of(old_seq)[k]);
            }
        }
    }
    true
}

} // verus!
