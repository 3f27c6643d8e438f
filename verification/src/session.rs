use vstd::prelude::*;
use vstd::string::StrSliceExecFns;
use vstd::string::StringExecFns;
use crate::engine::{entry_views, spell, spell_spec, SpellEntry};
use crate::errors::SpellerError;
use crate::table::LanguageTable;
use crate::text::str_views;

verus! {

/// Whether a character is a decimal digit.
pub open spec fn is_digit(c: char) -> bool {
    48 <= (c as u32) <= 57
}

/// Whether every character of the sequence is a decimal digit.
pub open spec fn all_digits(s: Seq<char>) -> bool {
    forall|i: int| 0 <= i < s.len() ==> is_digit(#[trigger] s[i])
}

/// The decimal value of a digit sequence.
pub open spec fn digits_value(s: Seq<char>) -> int
    decreases s.len(),
{
    if s.len() == 0 {
        0
    } else {
        digits_value(s.drop_last()) * 10 + ((s.last() as u32) - 48)
    }
}

/// The digit run of a menu reply: the reply with one optional leading
/// plus sign removed. An integer reply may carry the sign.
pub open spec fn digits_part(s: Seq<char>) -> Seq<char> {
    if s.len() > 0 && s[0] == '+' {
        s.skip(1)
    } else {
        s
    }
}

/// The numeric value a menu reply names.
pub open spec fn selection_value(s: Seq<char>) -> int {
    digits_value(digits_part(s))
}

/// A menu reply is acceptable when it is a non-empty digit string, with
/// one optional leading plus sign, whose value is a 1-based position
/// within the listed count.
pub open spec fn selection_ok(s: Seq<char>, count: int) -> bool {
    let d = digits_part(s);
    d.len() > 0 && all_digits(d) && 1 <= digits_value(d) <= count
}

proof fn lemma_digits_value_nonneg(s: Seq<char>)
    requires
        all_digits(s),
    ensures
        digits_value(s) >= 0,
    decreases s.len(),
{
    if s.len() > 0 {
        assert(forall|j: int| 0 <= j < s.drop_last().len() ==> #[trigger] s.drop_last()[j] == s[j]);
        lemma_digits_value_nonneg(s.drop_last());
        assert(is_digit(s.last()));
    }
}

proof fn lemma_digits_prefix_le(s: Seq<char>, i: int)
    requires
        all_digits(s),
        0 <= i <= s.len(),
    ensures
        digits_value(s.take(i)) <= digits_value(s),
    decreases s.len(),
{
    if i == s.len() {
        assert(s.take(i) =~= s);
    } else {
        let d = s.drop_last();
        assert(forall|j: int| 0 <= j < d.len() ==> #[trigger] d[j] == s[j]);
        lemma_digits_prefix_le(d, i);
        assert(d.take(i) =~= s.take(i));
        lemma_digits_value_nonneg(d);
        assert(is_digit(s.last()));
        assert(digits_value(s) >= digits_value(d));
    }
}

/// Validates a language-menu reply against a 1-based menu of `count`
/// entries: the reply must be a non-empty digit string, with one leading
/// plus sign allowed, naming a position within the menu; anything else is
/// an invalid selection.
pub fn parse_selection(input: &str, count: usize) -> (r: Result<usize, SpellerError>)
    ensures
        match r {
            Ok(n) => selection_ok(input@, count as int) && n as int == selection_value(input@),
            Err(e) => e == SpellerError::InvalidSelection && !selection_ok(input@, count as int),
        },
{
    let len = input.unicode_len();
    let mut i: usize = 0;
    if len > 0 && input.get_char(0) == '+' {
        i = 1;
    }
    let start: usize = i;
    let ghost d = digits_part(input@);
    proof {
        assert(input@.skip(0) =~= input@);
        assert(d == input@.skip(start as int));
    }
    if i == len {
        proof {
            assert(d.len() == 0);
        }
        return Err(SpellerError::InvalidSelection);
    }
    let mut v: usize = 0;
    proof {
        assert(d.take(0) =~= Seq::<char>::empty());
    }
    while i < len
        invariant
            start <= i <= len,
            len == input@.len(),
            d == digits_part(input@),
            d == input@.skip(start as int),
            all_digits(d.take(i - start)),
            v as int == digits_value(d.take(i - start)),
        decreases len - i,
    {
        let c = input.get_char(i);
        proof {
            assert(d[i - start] == input@[i as int]);
        }
        let cu = c as u32;
        if cu < 48 || cu > 57 {
            proof {
                assert(!is_digit(d[i - start]));
            }
            return Err(SpellerError::InvalidSelection);
        }
        let dig = (cu - 48) as usize;
        proof {
            assert(d.take(i - start + 1).drop_last() =~= d.take(i - start));
            assert(d.take(i - start + 1).last() == d[i - start]);
            assert(digits_value(d.take(i - start + 1)) == v * 10 + dig);
        }
        let v10 = match v.checked_mul(10) {
            Some(w) => w,
            None => {
                proof {
                    lemma_overflow_rejects(input@, i - start, count as int, v * 10 + dig);
                }
                return Err(SpellerError::InvalidSelection);
            },
        };
        v = match v10.checked_add(dig) {
            Some(w) => w,
            None => {
                proof {
                    lemma_overflow_rejects(input@, i - start, count as int, v * 10 + dig);
                }
                return Err(SpellerError::InvalidSelection);
            },
        };
        i = i + 1;
    }
    proof {
        assert(d.take(len - start) =~= d);
    }
    if v == 0 || v > count {
        return Err(SpellerError::InvalidSelection);
    }
    Ok(v)
}

proof fn lemma_overflow_rejects(s: Seq<char>, j: int, count: int, partial: int)
    requires
        0 <= j < digits_part(s).len(),
        all_digits(digits_part(s).take(j + 1)),
        partial == digits_value(digits_part(s).take(j + 1)),
        partial > usize::MAX as int,
        count <= usize::MAX as int,
    ensures
        !selection_ok(s, count),
{
    let d = digits_part(s);
    if all_digits(d) {
        lemma_digits_prefix_le(d, j + 1);
    }
}

/// The speller session: the currently selected language identifier,
/// initialized to the well-known default and updated only by an accepted
/// menu selection.
pub struct Session {
    pub current: String,
}

impl Session {
    /// A fresh session, on the default language identifier.
    pub fn new() -> (s: Session)
        ensures
            s.current@ == "en"@,
    {
        Session { current: String::from_str("en") }
    }

    /// Applies a language-menu reply: an accepted reply selects, 1-based,
    /// among the table's identifiers in ascending order and becomes the
    /// current language; a rejected reply leaves the session unchanged, to
    /// be re-prompted by the caller.
    pub fn select_language(&mut self, table: &LanguageTable, input: &str) -> (r: Result<
        String,
        SpellerError,
    >)
        ensures
            match r {
                Ok(id) => {
                    &&& selection_ok(input@, table.ids().len() as int)
                    &&& id@ == table.ids()[selection_value(input@) - 1]
                    &&& final(self).current@ == id@
                    &&& table@.contains_key(id@)
                },
                Err(e) => {
                    &&& e == SpellerError::InvalidSelection
                    &&& !selection_ok(input@, table.ids().len() as int)
                    &&& *final(self) == *old(self)
                },
            },
    {
        let ids = table.list_language_ids();
        let n = match parse_selection(input, ids.len()) {
            Ok(n) => n,
            Err(e) => {
                return Err(e);
            },
        };
        let chosen = ids[n - 1].clone();
        proof {
            assert(str_views(ids@)[n - 1] == ids@[n - 1]@);
        }
        self.current = chosen.clone();
        Ok(chosen)
    }

    /// Spells a word in the current language, or reports that the current
    /// language identifier is absent from the table.
    pub fn spell_current(&self, table: &LanguageTable, word: &str) -> (r: Result<
        Vec<SpellEntry>,
        SpellerError,
    >)
        ensures
            match r {
                Ok(es) => {
                    &&& table@.contains_key(self.current@)
                    &&& entry_views(es@) == spell_spec(word@, table@[self.current@])
                },
                Err(e) => {
                    &&& e == SpellerError::LanguageNotFound
                    &&& !table@.contains_key(self.current@)
                },
            },
    {
        let map = match table.lookup_language(&self.current) {
            Some(m) => m,
            None => {
                return Err(SpellerError::LanguageNotFound);
            },
        };
        Ok(spell(word, map))
    }
}

} // verus!


