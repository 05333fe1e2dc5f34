//! ASCII transliteration of messages, by the `unidecode` crate.

use vstd::prelude::*;
use vstd::utf8::is_ascii_chars;

verus! {

/// What `unidecode::unidecode_char` gives for a character outside ASCII (its
/// entry in the crate's table, for instance `AE` for `Æ`).
pub uninterp spec fn unidecode_char_of(c: char) -> Seq<char>;

/// The transliteration of a text character by character: an ASCII
/// character stands for itself, any other becomes its entry in `table`.
pub open spec fn transliterated(s: Seq<char>, table: spec_fn(char) -> Seq<char>) -> Seq<char>
    decreases s.len(),
{
    if s.len() == 0 {
        Seq::empty()
    } else {
        let c = s.last();
        transliterated(s.drop_last(), table) + if '\0' <= c && c <= '\u{7f}' {
            seq![c]
        } else {
            table(c)
        }
    }
}

/// What `unidecode::unidecode` gives for a text: the transliterations of its
/// characters, in order.
pub open spec fn unidecode_of(s: Seq<char>) -> Seq<char> {
    transliterated(s, |c: char| unidecode_char_of(c))
}

/// Calls `unidecode::unidecode`. Claimed of it: the result is `unidecode_of`
/// of the text, that is the concatenation of the transliterations of its
/// characters, where an ASCII character stands for itself; and it is ASCII.
/// The crate's source transliterates character by character
/// (`s.chars().map(unidecode_char).collect()`), and its documentation
/// guarantees an ASCII result and maps every ASCII character to itself. Which
/// text a non-ASCII character becomes is left to the crate's table
/// (`unidecode_char_of`) and not stated.
#[verifier::external_body]
pub(crate) fn unidecode(s: &str) -> (r: String)
    ensures
        r@ == transliterated(s@, |c: char| unidecode_char_of(c)),
        is_ascii_chars(r@),
{
    unidecode::unidecode(s)
}

/// An ASCII text is its own transliteration.
pub proof fn lemma_unidecode_ascii(s: Seq<char>)
    requires
        is_ascii_chars(s),
    ensures
        unidecode_of(s) == s,
    decreases s.len(),
{
    if s.len() > 0 {
        assert(is_ascii_chars(s.drop_last()));
        lemma_unidecode_ascii(s.drop_last());
        assert('\0' <= s[s.len() - 1] && s[s.len() - 1] <= '\u{7f}');
        assert(s[s.len() - 1] == s.last());
        assert(s.drop_last() + seq![s.last()] =~= s);
    }
}

} // verus!
