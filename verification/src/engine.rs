use vstd::prelude::*;
use vstd::string::StrSliceExecFns;
use vstd::string::StringExecFns;
use crate::table::PhoneticMap;
use crate::text::{graphemes, graphemes_of, lower_of, lowercase, str_views, upper_of, uppercase};

verus! {

/// One rendered position of a spelling: the original grapheme exactly as
/// the user typed it, and the phonetic text rendered for it.
#[derive(Debug)]
pub struct SpellEntry {
    pub grapheme: String,
    pub phonetic: String,
}

impl View for SpellEntry {
    type V = (Seq<char>, Seq<char>);

    open spec fn view(&self) -> (Seq<char>, Seq<char>) {
        (self.grapheme@, self.phonetic@)
    }
}

/// The character-sequence views of a sequence of entries.
pub open spec fn entry_views(es: Seq<SpellEntry>) -> Seq<(Seq<char>, Seq<char>)> {
    es.map(|i: int, e: SpellEntry| e@)
}

/// The word a grapheme resolves to: the lowercased grapheme's configured
/// phonetic word, or the lowercased grapheme itself when the map has none
/// (the fallback policy).
pub open spec fn resolve_spec(m: Map<Seq<char>, Seq<char>>, g: Seq<char>) -> Seq<char> {
    if m.contains_key(lower_of(g)) {
        m[lower_of(g)]
    } else {
        lower_of(g)
    }
}

/// The render-capitalized form of a phonetic word: its first grapheme
/// cluster uppercased, the remainder unchanged; empty stays empty.
pub open spec fn capitalize_spec(p: Seq<char>) -> Seq<char> {
    if p.len() == 0 {
        Seq::empty()
    } else {
        upper_of(graphemes_of(p)[0]) + p.skip(graphemes_of(p)[0].len() as int)
    }
}

/// What the engine renders for one grapheme under a map.
pub open spec fn render_spec(m: Map<Seq<char>, Seq<char>>, g: Seq<char>) -> Seq<char> {
    capitalize_spec(resolve_spec(m, g))
}

/// The full spelling of a word under a map: one (grapheme, rendering) pair
/// per grapheme cluster, in order.
pub open spec fn spell_spec(w: Seq<char>, m: Map<Seq<char>, Seq<char>>) -> Seq<
    (Seq<char>, Seq<char>),
> {
    graphemes_of(w).map(|i: int, g: Seq<char>| (g, render_spec(m, g)))
}

/// Uppercases the first grapheme cluster of `p` and keeps the remainder.
fn capitalize(p: &str) -> (r: String)
    ensures
        r@ == capitalize_spec(p@),
{
    let gs = graphemes(p);
    if gs.len() == 0 {
        return String::new();
    }
    let total = p.unicode_len();
    let n = gs[0].as_str().unicode_len();
    proof {
        let vs = str_views(gs@);
        assert(vs[0] == gs@[0]@);
        assert(vs.flatten() == vs.first() + vs.drop_first().flatten());
        assert(p@ == gs@[0]@ + vs.drop_first().flatten());
        assert(n <= total);
        assert(p@.skip(n as int) =~= vs.drop_first().flatten());
        assert(graphemes_of(p@)[0] == vs[0]);
    }
    let up = uppercase(gs[0].as_str());
    let rest = p.substring_char(n, total);
    proof {
        assert(rest@ =~= p@.skip(n as int));
    }
    up.concat(rest)
}

/// Spells `word` under `map`: segments it into extended grapheme clusters
/// and renders each, in order. An empty word yields an empty spelling, and
/// every spelling has exactly one entry per grapheme cluster.
pub fn spell(word: &str, map: &PhoneticMap) -> (r: Vec<SpellEntry>)
    ensures
        entry_views(r@) == spell_spec(word@, map@),
        r@.len() == graphemes_of(word@).len(),
        word@.len() == 0 ==> r@.len() == 0,
{
    let gs = graphemes(word);
    let mut out: Vec<SpellEntry> = Vec::new();
    let mut i: usize = 0;
    while i < gs.len()
        invariant
            i <= gs@.len(),
            out@.len() == i,
            str_views(gs@) == graphemes_of(word@),
            entry_views(out@) == spell_spec(word@, map@).take(i as int),
        decreases gs@.len() - i,
    {
        let g = gs[i].clone();
        let key = lowercase(g.as_str());
        proof {
            assert(str_views(gs@)[i as int] == gs@[i as int]@);
            assert(g@ == graphemes_of(word@)[i as int]);
        }
        let resolved: String = match map.lookup(&key) {
            Some(v) => v.clone(),
            None => key,
        };
        proof {
            assert(resolved@ == resolve_spec(map@, g@));
        }
        let rendered = capitalize(resolved.as_str());
        out.push(SpellEntry { grapheme: g, phonetic: rendered });
        proof {
            assert(entry_views(out@) =~= spell_spec(word@, map@).take(i + 1));
        }
        i = i + 1;
    }
    proof {
        assert(spell_spec(word@, map@).take(gs@.len() as int) =~= spell_spec(word@, map@));
    }
    out
}

/// The spelling of a word is one entry per grapheme cluster of the word.
pub proof fn lemma_spell_length(w: Seq<char>, m: Map<Seq<char>, Seq<char>>)
    ensures
        spell_spec(w, m).len() == graphemes_of(w).len(),
{
}

/// The spelling of a word under a map is a function of the two alone: two
/// spellings of the same word under the same map are identical.
pub proof fn lemma_spell_deterministic(
    w: Seq<char>,
    m: Map<Seq<char>, Seq<char>>,
    r1: Seq<(Seq<char>, Seq<char>)>,
    r2: Seq<(Seq<char>, Seq<char>)>,
)
    requires
        r1 == spell_spec(w, m),
        r2 == spell_spec(w, m),
    ensures
        r1 == r2,
{
}

/// The fallback policy: a grapheme whose lowercase form is not a key of
/// the map is rendered as that lowercase form with only its first grapheme
/// cluster uppercased.
pub proof fn lemma_unknown_grapheme_fallback(w: Seq<char>, m: Map<Seq<char>, Seq<char>>, i: int)
    requires
        0 <= i < graphemes_of(w).len(),
        !m.contains_key(lower_of(graphemes_of(w)[i])),
    ensures
        spell_spec(w, m)[i] == (graphemes_of(w)[i], capitalize_spec(lower_of(graphemes_of(w)[i]))),
{
    assert(spell_spec(w, m)[i] == (graphemes_of(w)[i], render_spec(m, graphemes_of(w)[i])));
}

} // verus!
